use tracklog::flows::{
    callback_for_event, callback_response, complete_google_drive_oauth, oauth_wait_expired,
    read_callback, remove_oauth_flow, start_google_drive_oauth, ListenerEvent, OAuthCompletion,
    OAuthFlows, PendingOAuthFlow,
};
use tracklog::oauth::{code_challenge, CallbackOutcome};

fn pending(verifier: &str) -> PendingOAuthFlow {
    PendingOAuthFlow {
        code_verifier: verifier.to_string(),
        redirect_uri: "http://127.0.0.1:1/callback".to_string(),
        code: None,
        error: None,
    }
}

#[test]
fn start_registers_a_flow() {
    let mut flows = OAuthFlows::new();
    let (state, url) = start_google_drive_oauth(&mut flows, "cid", 8080).unwrap();
    assert_eq!(state.len(), 32);
    assert!(state.chars().all(|c| c.is_ascii_alphanumeric()));
    let flow = flows.find_oauth_flow(&state).unwrap();
    assert_eq!(flow.code_verifier.len(), 96);
    assert!(flow.code_verifier.chars().all(|c| c.is_ascii_alphanumeric()));
    assert_eq!(flow.redirect_uri, "http://127.0.0.1:8080/callback");
    assert!(flow.code.is_none() && flow.error.is_none());
    assert!(url.starts_with("https://accounts.google.com/o/oauth2/v2/auth?client_id=cid&"));
    assert!(url.contains(&format!("&state={state}&")));
    assert!(url.contains(&format!("&code_challenge={}&", code_challenge(&flow.code_verifier))));
    let (other, _) = start_google_drive_oauth(&mut flows, "cid", 8080).unwrap();
    assert_ne!(other, state);
}

#[test]
fn completion_waits_then_exchanges() {
    let mut flows = OAuthFlows::new();
    flows.insert_oauth_flow("s1".to_string(), pending("v1"));
    assert!(matches!(complete_google_drive_oauth(&mut flows, "s1"), Ok(OAuthCompletion::Pending)));
    flows.record_callback("s1", CallbackOutcome::Code(Some("the-code".to_string())));
    match complete_google_drive_oauth(&mut flows, "s1").unwrap() {
        OAuthCompletion::Exchange { code, code_verifier, redirect_uri } => {
            assert_eq!(code, "the-code");
            assert_eq!(code_verifier, "v1");
            assert_eq!(redirect_uri, "http://127.0.0.1:1/callback");
        }
        _ => panic!("expected an exchange"),
    }
    assert!(flows.find_oauth_flow("s1").is_some());
    remove_oauth_flow(&mut flows, "s1");
    assert!(flows.find_oauth_flow("s1").is_none());
}

#[test]
fn failed_flow_is_reported_and_forgotten() {
    let mut flows = OAuthFlows::new();
    flows.insert_oauth_flow("s1".to_string(), pending("v1"));
    flows.insert_oauth_flow("s2".to_string(), pending("v2"));
    flows.record_callback("s1", CallbackOutcome::Failed("OAuth state mismatch".to_string()));
    match complete_google_drive_oauth(&mut flows, "s1").unwrap() {
        OAuthCompletion::Failed(m) => assert_eq!(m, "OAuth state mismatch"),
        _ => panic!("expected a failure"),
    }
    assert_eq!(
        complete_google_drive_oauth(&mut flows, "s1").err().unwrap(),
        "OAuth session not found. Start again."
    );
    assert_eq!(flows.find_oauth_flow("s2").unwrap().code_verifier, "v2");
}

#[test]
fn later_registration_replaces_earlier() {
    let mut flows = OAuthFlows::new();
    flows.insert_oauth_flow("s".to_string(), pending("first"));
    flows.insert_oauth_flow("s".to_string(), pending("second"));
    assert_eq!(flows.find_oauth_flow("s").unwrap().code_verifier, "second");
    remove_oauth_flow(&mut flows, "s");
    assert!(flows.find_oauth_flow("s").is_none());
    flows.record_callback("s", CallbackOutcome::Code(None));
    assert!(flows.find_oauth_flow("s").is_none());
}

#[test]
fn reading_the_browser_request() {
    let ok = read_callback("abc", "GET /callback?state=abc&code=4%2F0AX HTTP/1.1\r\nHost: 127.0.0.1\r\n\r\n");
    assert!(matches!(ok, CallbackOutcome::Code(Some(ref c)) if c == "4/0AX"));
    let wrong = read_callback("abc", "GET /callback?state=xyz&code=1 HTTP/1.1\r\n");
    assert!(matches!(wrong, CallbackOutcome::Failed(ref m) if m == "OAuth state mismatch"));
    let denied = read_callback("abc", "GET /callback?error=access_denied&state=abc HTTP/1.1\r\n");
    assert!(matches!(denied, CallbackOutcome::Failed(ref m) if m == "OAuth authorization failed: access_denied"));
    let nothing = read_callback("abc", "");
    assert!(matches!(nothing, CallbackOutcome::Failed(ref m) if m == "OAuth state mismatch"));
    let no_code = read_callback("abc", "GET /callback?state=abc HTTP/1.1\r\n");
    assert!(matches!(no_code, CallbackOutcome::Code(None)));
}

#[test]
fn listener_events() {
    let timed_out = callback_for_event("abc", ListenerEvent::TimedOut);
    assert!(matches!(timed_out, CallbackOutcome::Failed(ref m) if m == "OAuth timed out. Start again."));
    let failed = callback_for_event("abc", ListenerEvent::Failed);
    assert!(matches!(failed, CallbackOutcome::Failed(ref m) if m == "Failed waiting for OAuth callback"));
    let req = callback_for_event("abc", ListenerEvent::Request("GET /?state=abc&code=c HTTP/1.1".to_string()));
    assert!(matches!(req, CallbackOutcome::Code(Some(ref c)) if c == "c"));
    assert!(!oauth_wait_expired(300_000_000_000));
    assert!(oauth_wait_expired(300_000_000_001));
}

#[test]
fn listener_answer() {
    assert_eq!(
        callback_response(),
        "HTTP/1.1 200 OK\r\nContent-Type: text/plain\r\nContent-Length: 56\r\n\r\nTrackLog authorization complete. You can close this tab."
    );
}
