use tracklog::oauth::{
    authorization_query_pairs, authorization_url, callback_outcome, code_challenge, decimal_text,
    drive_backup_query, drive_upload_metadata, first_tokens, get_valid_google_access_token, plan_access_token,
    query_value, redirect_uri, refreshed_tokens, request_target, select_client_id,
    upload_folder, upload_message, AccessTokenPlan, CallbackOutcome, GoogleTokenResponse,
    StoredGoogleTokens,
};

fn stored(expires_at_unix: i64, refresh: Option<&str>) -> StoredGoogleTokens {
    StoredGoogleTokens {
        access_token: "access".to_string(),
        refresh_token: refresh.map(|s| s.to_string()),
        expires_at_unix,
    }
}

#[test]
fn pkce_challenge_of_the_rfc_example() {
    assert_eq!(
        code_challenge("dBjftJeZ4CVP-mB92K27uhbUJU1p1r_wW1gFWFOEjXk"),
        "E9Melhoa2OwvFrEMTJguCHaoeK1t8URWbuGJSstw-cM"
    );
    assert_eq!(code_challenge("").len(), 43);
}

#[test]
fn token_plan_depends_on_expiry() {
    match plan_access_token(&stored(1061, Some("r")), 1000).unwrap() {
        AccessTokenPlan::UseStored(t) => assert_eq!(t, "access"),
        AccessTokenPlan::Refresh(_) => panic!("token is still good"),
    }
    match plan_access_token(&stored(1060, Some("r")), 1000).unwrap() {
        AccessTokenPlan::Refresh(t) => assert_eq!(t, "r"),
        AccessTokenPlan::UseStored(_) => panic!("token is about to expire"),
    }
    assert_eq!(
        plan_access_token(&stored(10, None), 1000).err().unwrap(),
        "Access token expired and no refresh token is available. Reconnect Google Drive."
    );
}

#[test]
fn token_plan_at_the_current_time() {
    let (now, plan) = get_valid_google_access_token(&stored(i64::MAX, None));
    assert!(now > 1_600_000_000);
    assert!(matches!(plan, Ok(AccessTokenPlan::UseStored(_))));
    let (_, expired) = get_valid_google_access_token(&stored(0, Some("refresh")));
    match expired.unwrap() {
        AccessTokenPlan::Refresh(t) => assert_eq!(t, "refresh"),
        AccessTokenPlan::UseStored(_) => panic!("token expired long ago"),
    }
}

#[test]
fn refreshed_tokens_keep_old_refresh_token() {
    let kept = refreshed_tokens(
        stored(0, Some("old")),
        GoogleTokenResponse { access_token: "new".to_string(), refresh_token: None, expires_in: 3600 },
        1000,
    );
    assert_eq!(kept.access_token, "new");
    assert_eq!(kept.refresh_token, Some("old".to_string()));
    assert_eq!(kept.expires_at_unix, 4600);
    let replaced = refreshed_tokens(
        stored(0, Some("old")),
        GoogleTokenResponse { access_token: "new".to_string(), refresh_token: Some("fresh".to_string()), expires_in: 60 },
        1000,
    );
    assert_eq!(replaced.refresh_token, Some("fresh".to_string()));
    let first = first_tokens(
        GoogleTokenResponse { access_token: "a".to_string(), refresh_token: None, expires_in: 10 },
        5,
    );
    assert_eq!(first.expires_at_unix, 15);
    assert_eq!(first.refresh_token, None);
}

#[test]
fn client_id_choice() {
    assert_eq!(select_client_id(&Some(" run ".to_string()), &Some("built".to_string())).unwrap(), "run");
    assert_eq!(select_client_id(&Some("  ".to_string()), &Some(" built ".to_string())).unwrap(), "built");
    assert_eq!(
        select_client_id(&None, &None).unwrap_err(),
        "Google OAuth client ID is not configured. Set TRACKLOG_GOOGLE_OAUTH_CLIENT_ID for the app."
    );
}

#[test]
fn redirect_addresses() {
    assert_eq!(decimal_text(0), "0");
    assert_eq!(decimal_text(18446744073709551615), "18446744073709551615");
    assert_eq!(redirect_uri(8080), "http://127.0.0.1:8080/callback");
    assert_eq!(redirect_uri(0), "http://127.0.0.1:0/callback");
}

#[test]
fn authorization_request() {
    let pairs = authorization_query_pairs("cid", "http://127.0.0.1:8080/callback", "st", "ch");
    assert_eq!(pairs.len(), 9);
    assert_eq!(pairs[0], ("client_id".to_string(), "cid".to_string()));
    assert_eq!(pairs[8], ("prompt".to_string(), "consent".to_string()));
    let url = authorization_url("cid", "http://127.0.0.1:8080/callback", "st", "ch").unwrap();
    assert_eq!(
        url,
        "https://accounts.google.com/o/oauth2/v2/auth?client_id=cid&redirect_uri=http%3A%2F%2F127.0.0.1%3A8080%2Fcallback&response_type=code&scope=https%3A%2F%2Fwww.googleapis.com%2Fauth%2Fdrive.file&state=st&code_challenge=ch&code_challenge_method=S256&access_type=offline&prompt=consent"
    );
}

#[test]
fn query_values_take_the_last() {
    let pairs = vec![
        ("code".to_string(), "a".to_string()),
        ("state".to_string(), "s".to_string()),
        ("code".to_string(), "b".to_string()),
    ];
    assert_eq!(query_value(&pairs, "code"), Some("b".to_string()));
    assert_eq!(query_value(&pairs, "state"), Some("s".to_string()));
    assert_eq!(query_value(&pairs, "error"), None);
}

#[test]
fn callback_judgement() {
    let ok = callback_outcome("st", &Some("st".to_string()), Some("code".to_string()), &None);
    assert!(matches!(ok, CallbackOutcome::Code(Some(ref c)) if c == "code"));
    let mismatch = callback_outcome("st", &Some("other".to_string()), Some("code".to_string()), &None);
    assert!(matches!(mismatch, CallbackOutcome::Failed(ref m) if m == "OAuth state mismatch"));
    let missing = callback_outcome("st", &None, None, &None);
    assert!(matches!(missing, CallbackOutcome::Failed(ref m) if m == "OAuth state mismatch"));
    let denied = callback_outcome("st", &Some("st".to_string()), None, &Some("access_denied".to_string()));
    assert!(matches!(denied, CallbackOutcome::Failed(ref m) if m == "OAuth authorization failed: access_denied"));
}

#[test]
fn request_targets() {
    assert_eq!(request_target("GET /callback?code=a&state=b HTTP/1.1\r\nHost: x\r\n\r\n"), "/callback?code=a&state=b");
    assert_eq!(request_target("GET\t/x HTTP/1.1"), "/x");
    assert_eq!(request_target("GET"), "/");
    assert_eq!(request_target(""), "/");
    assert_eq!(request_target("\r\nGET /late HTTP/1.1"), "/");
}

#[test]
fn drive_queries() {
    assert_eq!(drive_backup_query(&None), "name contains 'tracklog-backup-' and trashed = false");
    assert_eq!(drive_backup_query(&Some("   ".to_string())), "name contains 'tracklog-backup-' and trashed = false");
    assert_eq!(
        drive_backup_query(&Some(" my'folder ".to_string())),
        "name contains 'tracklog-backup-' and trashed = false and 'my\\'folder' in parents"
    );
}

#[test]
fn upload_reports() {
    assert_eq!(upload_message("tracklog-backup-1.zip", "abc"), "Uploaded backup as tracklog-backup-1.zip (abc)");
    assert_eq!(upload_folder(&Some(" f1 ".to_string())), Some("f1".to_string()));
    assert_eq!(upload_folder(&Some(" ".to_string())), None);
}

#[test]
fn renewed_tokens_are_used_as_they_are() {
    let kept = refreshed_tokens(
        stored(0, Some("r")),
        GoogleTokenResponse { access_token: "fresh".to_string(), refresh_token: None, expires_in: 3599 },
        1_700_000_000,
    );
    match plan_access_token(&kept, 1_700_000_000).unwrap() {
        AccessTokenPlan::UseStored(t) => assert_eq!(t, "fresh"),
        AccessTokenPlan::Refresh(_) => panic!("a renewed token is good"),
    }
}

#[test]
fn upload_metadata_json() {
    assert_eq!(
        drive_upload_metadata("tracklog-backup-1.zip", &None),
        "{\"mimeType\":\"application/zip\",\"name\":\"tracklog-backup-1.zip\"}"
    );
    assert_eq!(
        drive_upload_metadata("a\"b.zip", &Some(" fold\\er ".to_string())),
        "{\"mimeType\":\"application/zip\",\"name\":\"a\\\"b.zip\",\"parents\":[\"fold\\\\er\"]}"
    );
    assert_eq!(
        drive_upload_metadata("a\tb\u{1}c\u{1f}é", &None),
        "{\"mimeType\":\"application/zip\",\"name\":\"a\\tb\\u0001c\\u001fé\"}"
    );
}

#[test]
fn restoring_takes_the_newest_backup() {
    let ids = vec!["newest".to_string(), "older".to_string()];
    assert_eq!(tracklog::oauth::newest_backup_id(&ids).unwrap(), "newest");
    assert_eq!(
        tracklog::oauth::newest_backup_id(&Vec::new()).unwrap_err(),
        "No TrackLog backup files found in Google Drive"
    );
    assert_eq!(
        tracklog::oauth::drive_download_url("abc"),
        "https://www.googleapis.com/drive/v3/files/abc?alt=media"
    );
}
