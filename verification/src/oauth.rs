//! The decisions of the Google Drive connection: the PKCE challenge, the
//! authorization request, the callback it answers with, when a stored
//! access token must be refreshed, and the query that finds backups.

use vstd::prelude::*;
use vstd::string::StringSliceAdditionalSpecFns;
use base64::Engine;
use rand::Rng;
use sha2::Digest;
use crate::clock::system_clock;
use crate::models::opt_text;
use crate::text::{is_white_space, pieces, split_state, trim_opt, trim_to_opt, text_eq, white_space};

verus! {

/// The tokens kept between runs.
#[derive(Debug)]
pub struct StoredGoogleTokens {
    pub access_token: String,
    pub refresh_token: Option<String>,
    pub expires_at_unix: i64,
}

/// What the token endpoint answers.
#[derive(Debug)]
pub struct GoogleTokenResponse {
    pub access_token: String,
    pub refresh_token: Option<String>,
    pub expires_in: i64,
}

/// An ASCII letter or digit.
pub open spec fn is_ascii_alphanumeric(c: char) -> bool {
    let u = c as int;
    (48 <= u <= 57) || (65 <= u <= 90) || (97 <= u <= 122)
}

/// `len` random characters drawn from the ASCII letters and digits, from
/// `rand::thread_rng` sampling `rand::distributions::Alphanumeric`. Which
/// characters come out is left open: it is chance.
#[verifier::external_body]
pub(crate) fn random_string(len: usize) -> (r: String)
    ensures
        r@.len() == len,
        forall|i: int| 0 <= i < len ==> is_ascii_alphanumeric(#[trigger] r@[i]),
{
    rand::thread_rng().sample_iter(&rand::distributions::Alphanumeric).take(len).map(char::from).collect()
}

/// The SHA-256 digest of a byte sequence.
pub uninterp spec fn sha256(data: Seq<u8>) -> Seq<u8>;

/// `sha2::Sha256::digest`: the SHA-256 digest of `data`, 32 bytes long. Its
/// bytes are given the name `sha256`.
#[verifier::external_body]
fn sha256_digest(data: &[u8]) -> (r: Vec<u8>)
    ensures
        r@ == sha256(data@),
        r@.len() == 32,
{
    sha2::Sha256::digest(data).to_vec()
}

/// The character of a 6-bit value in the URL-safe base64 alphabet.
pub open spec fn base64_url_char(v: int) -> char {
    if v < 26 {
        (65 + v) as char
    } else if v < 52 {
        (97 + v - 26) as char
    } else if v < 62 {
        (48 + v - 52) as char
    } else if v == 62 {
        '-'
    } else {
        '_'
    }
}

/// URL-safe base64 without padding: every three bytes become four
/// characters; a final one or two bytes become two or three.
pub open spec fn base64_url(b: Seq<u8>) -> Seq<char>
    decreases b.len(),
{
    if b.len() == 0 {
        Seq::empty()
    } else {
        let x = b[0] as int;
        let y = if b.len() > 1 {
            b[1] as int
        } else {
            0
        };
        let z = if b.len() > 2 {
            b[2] as int
        } else {
            0
        };
        if b.len() == 1 {
            seq![base64_url_char(x / 4), base64_url_char((x % 4) * 16)]
        } else if b.len() == 2 {
            seq![
                base64_url_char(x / 4),
                base64_url_char((x % 4) * 16 + y / 16),
                base64_url_char((y % 16) * 4),
            ]
        } else {
            seq![
                base64_url_char(x / 4),
                base64_url_char((x % 4) * 16 + y / 16),
                base64_url_char((y % 16) * 4 + z / 64),
                base64_url_char(z % 64),
            ] + base64_url(b.skip(3))
        }
    }
}

/// `base64::engine::general_purpose::URL_SAFE_NO_PAD.encode`: the bytes in
/// URL-safe base64 without padding (see `base64_url`).
#[verifier::external_body]
fn base64_url_encode(bytes: &[u8]) -> (r: String)
    ensures
        r@ == base64_url(bytes@),
{
    base64::engine::general_purpose::URL_SAFE_NO_PAD.encode(bytes)
}

/// The PKCE code challenge of a code verifier: the URL-safe base64 (no
/// padding) of the SHA-256 digest of its UTF-8 bytes.
pub fn code_challenge(code_verifier: &str) -> (r: String)
    ensures
        r@ == base64_url(sha256(code_verifier.spec_bytes())),
{
    let digest = sha256_digest(code_verifier.as_bytes());
    base64_url_encode(digest.as_slice())
}

/// The message when a token has expired and cannot be renewed.
pub open spec fn reconnect_message() -> Seq<char> {
    "Access token expired and no refresh token is available. Reconnect Google Drive."@
}

/// How to obtain a usable access token.
pub enum AccessTokenPlan {
    /// The stored access token is still good.
    UseStored(String),
    /// The stored token has (nearly) expired; renew it with this refresh
    /// token.
    Refresh(String),
}

/// Decides, at unix time `now`, whether the stored access token can be used
/// (it is good for more than another minute) or must be refreshed.
pub fn plan_access_token(stored: &StoredGoogleTokens, now: i64) -> (r: Result<AccessTokenPlan, String>)
    requires
        now <= i64::MAX - 60,
    ensures
        planned_at(*stored, now as int, r),
{
    if stored.expires_at_unix > now + 60 {
        return Ok(AccessTokenPlan::UseStored(stored.access_token.clone()));
    }
    match &stored.refresh_token {
        Some(rt) => Ok(AccessTokenPlan::Refresh(rt.clone())),
        None => Err(String::from_str(
            "Access token expired and no refresh token is available. Reconnect Google Drive.",
        )),
    }
}

/// Whether `r` is what `plan_access_token` decides for `stored` at unix
/// time `now`.
pub open spec fn planned_at(stored: StoredGoogleTokens, now: int, r: Result<AccessTokenPlan, String>) -> bool {
    if stored.expires_at_unix > now + 60 {
        r matches Ok(AccessTokenPlan::UseStored(t)) && t@ == stored.access_token@
    } else {
        match opt_text(stored.refresh_token) {
            Some(rt) => r matches Ok(AccessTokenPlan::Refresh(t)) && t@ == rt,
            None => r matches Err(e) && e@ == reconnect_message(),
        }
    }
}

/// Whole seconds since the unix epoch by the system clock (see
/// `system_clock`), taken as an `i64` by wrapping; 0 for a clock set before
/// the epoch.
fn now_unix() -> i64 {
    match system_clock() {
        Ok((s, _)) => {
            if s <= 9_223_372_036_854_775_807u64 {
                s as i64
            } else {
                let w: i128 = s as i128 - 18_446_744_073_709_551_616i128;
                w as i64
            }
        },
        Err(_) => 0,
    }
}

/// Decides, at the current time, how to obtain a usable access token (see
/// `plan_access_token`). Returns the unix time it judged at with the
/// decision; a clock within a minute of the largest time counts as that
/// minute before it.
pub fn get_valid_google_access_token(stored: &StoredGoogleTokens) -> (r: (i64, Result<AccessTokenPlan, String>))
    ensures
        r.0 <= i64::MAX - 60,
        planned_at(*stored, r.0 as int, r.1),
{
    let t = now_unix();
    let now = if t > i64::MAX - 60 {
        i64::MAX - 60
    } else {
        t
    };
    let plan = plan_access_token(stored, now);
    (now, plan)
}

/// The tokens to keep after a refresh answered at unix time `now`: the new
/// access token and expiry; the new refresh token when one came, else the
/// old one.
pub fn refreshed_tokens(stored: StoredGoogleTokens, refreshed: GoogleTokenResponse, now: i64) -> (r:
    StoredGoogleTokens)
    requires
        i64::MIN <= now + refreshed.expires_in <= i64::MAX,
    ensures
        r.access_token@ == refreshed.access_token@,
        r.expires_at_unix == now + refreshed.expires_in,
        opt_text(r.refresh_token) == if refreshed.refresh_token is Some {
            opt_text(refreshed.refresh_token)
        } else {
            opt_text(stored.refresh_token)
        },
{
    let refresh_token = if refreshed.refresh_token.is_some() {
        refreshed.refresh_token
    } else {
        stored.refresh_token
    };
    StoredGoogleTokens {
        access_token: refreshed.access_token,
        refresh_token,
        expires_at_unix: now + refreshed.expires_in,
    }
}

/// Tokens just renewed at unix time `now` for more than a minute are used as
/// they are: the plan at that time is to use the new access token.
pub proof fn lemma_renewed_token_is_used(
    kept: StoredGoogleTokens,
    refreshed: GoogleTokenResponse,
    now: int,
    r: Result<AccessTokenPlan, String>,
)
    requires
        kept.access_token@ == refreshed.access_token@,
        kept.expires_at_unix == now + refreshed.expires_in,
        refreshed.expires_in > 60,
        planned_at(kept, now, r),
    ensures
        r matches Ok(AccessTokenPlan::UseStored(t)) && t@ == refreshed.access_token@,
{
}

/// The tokens to keep after the first authorization answered at unix time
/// `now`.
pub fn first_tokens(response: GoogleTokenResponse, now: i64) -> (r: StoredGoogleTokens)
    requires
        i64::MIN <= now + response.expires_in <= i64::MAX,
    ensures
        r.access_token@ == response.access_token@,
        r.expires_at_unix == now + response.expires_in,
        opt_text(r.refresh_token) == opt_text(response.refresh_token),
{
    StoredGoogleTokens {
        access_token: response.access_token,
        refresh_token: response.refresh_token,
        expires_at_unix: now + response.expires_in,
    }
}

/// The message when no OAuth client id is configured.
pub open spec fn no_client_id_message() -> Seq<char> {
    "Google OAuth client ID is not configured. Set TRACKLOG_GOOGLE_OAUTH_CLIENT_ID for the app."@
}

/// Chooses the OAuth client id: the one set when the application runs,
/// trimmed, unless blank; else the one built in, trimmed, unless blank.
pub fn select_client_id(at_runtime: &Option<String>, built_in: &Option<String>) -> (r: Result<String, String>)
    ensures
        match trim_opt(opt_text(*at_runtime)) {
            Some(id) => r matches Ok(x) && x@ == id,
            None => match trim_opt(opt_text(*built_in)) {
                Some(id) => r matches Ok(x) && x@ == id,
                None => r matches Err(e) && e@ == no_client_id_message(),
            },
        },
{
    if let Some(id) = trim_to_opt(at_runtime) {
        return Ok(id);
    }
    if let Some(id) = trim_to_opt(built_in) {
        return Ok(id);
    }
    Err(String::from_str(
        "Google OAuth client ID is not configured. Set TRACKLOG_GOOGLE_OAUTH_CLIENT_ID for the app.",
    ))
}

/// The decimal digits of a number (no leading zeros; `0` for zero).
pub open spec fn decimal(n: nat) -> Seq<char>
    decreases n,
{
    if n < 10 {
        seq![(48 + n) as char]
    } else {
        decimal(n / 10).push((48 + n % 10) as char)
    }
}

/// A number written in decimal.
pub fn decimal_text(n: u64) -> (r: String)
    ensures
        r@ == decimal(n as nat),
    decreases n,
{
    let digits = "0123456789";
    proof {
        reveal_strlit("0123456789");
    }
    let d = (n % 10) as usize;
    let last = digits.substring_char(d, d + 1);
    assert(last@ =~= seq![(48 + n % 10) as char]);
    if n < 10 {
        String::from_str(last)
    } else {
        let mut r = decimal_text(n / 10);
        r.append(last);
        r
    }
}

/// The address the browser returns to after authorization, on the local
/// listener's port.
pub open spec fn callback_uri(port: u16) -> Seq<char> {
    "http://127.0.0.1:"@ + decimal(port as nat) + "/callback"@
}

/// The address the browser returns to (see `callback_uri`).
pub fn redirect_uri(port: u16) -> (r: String)
    ensures
        r@ == callback_uri(port),
{
    let mut r = String::from_str("http://127.0.0.1:");
    let p = decimal_text(port as u64);
    r.append(p.as_str());
    r.append("/callback");
    r
}

/// The characters of a list of text pairs.
pub open spec fn pair_texts(pairs: Seq<(String, String)>) -> Seq<(Seq<char>, Seq<char>)> {
    pairs.map_values(|p: (String, String)| (p.0@, p.1@))
}

/// The query of the authorization request, in order.
pub open spec fn authorization_query(
    client_id: Seq<char>,
    redirect: Seq<char>,
    state: Seq<char>,
    challenge: Seq<char>,
) -> Seq<(Seq<char>, Seq<char>)> {
    seq![
        ("client_id"@, client_id),
        ("redirect_uri"@, redirect),
        ("response_type"@, "code"@),
        ("scope"@, "https://www.googleapis.com/auth/drive.file"@),
        ("state"@, state),
        ("code_challenge"@, challenge),
        ("code_challenge_method"@, "S256"@),
        ("access_type"@, "offline"@),
        ("prompt"@, "consent"@),
    ]
}

fn pair(k: &str, v: &str) -> (r: (String, String))
    ensures
        r.0@ == k@,
        r.1@ == v@,
{
    (String::from_str(k), String::from_str(v))
}

/// The query pairs of the authorization request (see
/// `authorization_query`).
pub fn authorization_query_pairs(client_id: &str, redirect: &str, state: &str, challenge: &str) -> (r:
    Vec<(String, String)>)
    ensures
        pair_texts(r@) == authorization_query(client_id@, redirect@, state@, challenge@),
{
    let mut v: Vec<(String, String)> = Vec::new();
    v.push(pair("client_id", client_id));
    v.push(pair("redirect_uri", redirect));
    v.push(pair("response_type", "code"));
    v.push(pair("scope", "https://www.googleapis.com/auth/drive.file"));
    v.push(pair("state", state));
    v.push(pair("code_challenge", challenge));
    v.push(pair("code_challenge_method", "S256"));
    v.push(pair("access_type", "offline"));
    v.push(pair("prompt", "consent"));
    assert(pair_texts(v@) =~= authorization_query(client_id@, redirect@, state@, challenge@));
    v
}

/// The text of the URL `base` with the form-encoded `pairs` appended as its
/// query, as the `url` crate writes it; `None` when `base` is no URL.
pub uninterp spec fn url_with_query_of(base: Seq<char>, pairs: Seq<(Seq<char>, Seq<char>)>) -> Option<
    Seq<char>,
>;

/// `url::Url::parse` of `base`, then `query_pairs_mut().extend_pairs` with
/// `pairs`, written out with `Url::as_str`. Appending pairs does not fail,
/// so the call fails exactly when `base` does not parse; the outcome is
/// given the name `url_with_query_of`. The error text of a failed parse is
/// not stated.
#[verifier::external_body]
fn url_with_query(base: &str, pairs: &Vec<(String, String)>) -> (r: Result<String, String>)
    ensures
        match r {
            Ok(u) => url_with_query_of(base@, pair_texts(pairs@)) == Some(u@),
            Err(_) => url_with_query_of(base@, pair_texts(pairs@)) is None,
        },
{
    let mut url = url::Url::parse(base).map_err(|e| e.to_string())?;
    url.query_pairs_mut().extend_pairs(pairs.iter().map(|(k, v)| (k.as_str(), v.as_str())));
    Ok(url.as_str().to_string())
}

/// The Google authorization endpoint.
pub open spec fn authorization_endpoint() -> Seq<char> {
    "https://accounts.google.com/o/oauth2/v2/auth"@
}

/// The address that asks the user to let the application reach their
/// Google Drive files.
pub fn authorization_url(client_id: &str, redirect: &str, state: &str, challenge: &str) -> (r: Result<
    String,
    String,
>)
    ensures
        match url_with_query_of(
            authorization_endpoint(),
            authorization_query(client_id@, redirect@, state@, challenge@),
        ) {
            Some(u) => r matches Ok(x) && x@ == u,
            None => r is Err,
        },
{
    let pairs = authorization_query_pairs(client_id, redirect, state, challenge);
    url_with_query("https://accounts.google.com/o/oauth2/v2/auth", &pairs)
}

/// The decoded query pairs of a URL, as the `url` crate reads them, or
/// `None` when the text is no URL.
pub uninterp spec fn parsed_query_pairs(text: Seq<char>) -> Option<Seq<(Seq<char>, Seq<char>)>>;

/// `url::Url::parse` of `text`, then `Url::query_pairs` with each pair
/// decoded to owned text. The result is given the name
/// `parsed_query_pairs`.
#[verifier::external_body]
pub(crate) fn url_query_pairs(text: &str) -> (r: Option<Vec<(String, String)>>)
    ensures
        match r {
            Some(v) => parsed_query_pairs(text@) == Some(pair_texts(v@)),
            None => parsed_query_pairs(text@) is None,
        },
{
    url::Url::parse(text).ok().map(|u| u.query_pairs().map(|(k, v)| (k.to_string(), v.to_string())).collect())
}

/// The value of the last pair with this key.
pub open spec fn last_value(pairs: Seq<(Seq<char>, Seq<char>)>, key: Seq<char>) -> Option<Seq<char>>
    decreases pairs.len(),
{
    if pairs.len() == 0 {
        None
    } else if pairs.last().0 == key {
        Some(pairs.last().1)
    } else {
        last_value(pairs.drop_last(), key)
    }
}

/// The value of the last pair with this key.
pub fn query_value(pairs: &Vec<(String, String)>, key: &str) -> (r: Option<String>)
    ensures
        opt_text(r) == last_value(pair_texts(pairs@), key@),
{
    let n = pairs.len();
    let mut found: Option<String> = None;
    let mut i: usize = 0;
    while i < n
        invariant
            n == pairs.len(),
            i <= n,
            opt_text(found) == last_value(pair_texts(pairs@).take(i as int), key@),
        decreases n - i,
    {
        assert(pair_texts(pairs@).take(i + 1).drop_last() =~= pair_texts(pairs@).take(i as int));
        if text_eq(pairs[i].0.as_str(), key) {
            found = Some(pairs[i].1.clone());
        }
        i = i + 1;
    }
    assert(pair_texts(pairs@).take(n as int) =~= pair_texts(pairs@));
    found
}

/// What the authorization callback tells the waiting flow.
pub enum CallbackOutcome {
    /// The flow failed with this message.
    Failed(String),
    /// The flow got this authorization code (none when the callback had
    /// none).
    Code(Option<String>),
}

/// The message when the callback's state is not the flow's.
pub open spec fn state_mismatch_message() -> Seq<char> {
    "OAuth state mismatch"@
}

/// Whether `r` is the judgement of a callback that brought `state`, `code`
/// and `error` to a flow started under `expected`: the state must be the
/// flow's, an error fails the flow, else the code is taken.
pub open spec fn judged_callback(
    expected: Seq<char>,
    state: Option<Seq<char>>,
    code: Option<Seq<char>>,
    error: Option<Seq<char>>,
    r: CallbackOutcome,
) -> bool {
    if state != Some(expected) {
        r matches CallbackOutcome::Failed(m) && m@ == state_mismatch_message()
    } else {
        match error {
            Some(e) => r matches CallbackOutcome::Failed(m) && m@ == "OAuth authorization failed: "@
                + e,
            None => r matches CallbackOutcome::Code(c) && opt_text(c) == code,
        }
    }
}

/// Judges the authorization callback: its `state` must be the flow's, an
/// `error` fails the flow, else its `code` is taken.
pub fn callback_outcome(
    expected_state: &str,
    state: &Option<String>,
    code: Option<String>,
    error: &Option<String>,
) -> (r: CallbackOutcome)
    ensures
        judged_callback(expected_state@, opt_text(*state), opt_text(code), opt_text(*error), r),
{
    let same = match state {
        Some(s) => text_eq(s.as_str(), expected_state),
        None => false,
    };
    if !same {
        return CallbackOutcome::Failed(String::from_str("OAuth state mismatch"));
    }
    match error {
        Some(e) => {
            let mut m = String::from_str("OAuth authorization failed: ");
            m.append(e.as_str());
            CallbackOutcome::Failed(m)
        },
        None => CallbackOutcome::Code(code),
    }
}

/// The first line of a text, without its line ending (`\n` or `\r\n`);
/// `None` for an empty text.
pub open spec fn first_line(s: Seq<char>) -> Option<Seq<char>> {
    if s.len() == 0 {
        None
    } else if exists|k: int| 0 <= k < s.len() && s[k] == '\n' {
        let k = choose|k: int| 0 <= k < s.len() && s[k] == '\n' && forall|j: int| 0 <= j < k ==> s[j] != '\n';
        let line = s.take(k);
        if line.len() > 0 && line.last() == '\r' {
            Some(line.drop_last())
        } else {
            Some(line)
        }
    } else {
        Some(s)
    }
}

/// The target of an HTTP request: the second word of its first line, or
/// `/` when there is none.
pub open spec fn request_target_of(req: Seq<char>) -> Seq<char> {
    match first_line(req) {
        Some(l) => {
            let words = pieces(l, |c: char| is_white_space(c));
            if words.len() > 1 {
                words[1]
            } else {
                "/"@
            }
        },
        None => "/"@,
    }
}

/// The target of an HTTP request (see `request_target_of`).
pub fn request_target(req: &str) -> (r: String)
    ensures
        r@ == request_target_of(req@),
{
    let n = req.unicode_len();
    if n == 0 {
        return String::from_str("/");
    }
    // the end of the first line
    let mut k: usize = 0;
    while k < n && req.get_char(k) != '\n'
        invariant
            n == req@.len(),
            k <= n,
            forall|j: int| 0 <= j < k ==> req@[j] != '\n',
        decreases n - k,
    {
        k = k + 1;
    }
    let mut end = k;
    if k < n && k > 0 && req.get_char(k - 1) == '\r' {
        end = k - 1;
    }
    let ghost line = req@.take(end as int);
    proof {
        if k < n {
            let kk = choose|x: int| 0 <= x < req@.len() && req@[x] == '\n' && forall|j: int| 0 <= j < x ==> req@[j] != '\n';
            if kk < k {
            } else if kk > k {
                assert(req@[k as int] == '\n');
            }
            assert(kk == k);
            if k > 0 {
                assert(req@.take(k as int).drop_last() =~= req@.take(k - 1));
            }
        }
        assert(first_line(req@) == Some(line));
    }
    // the words of the line
    let mut words: Vec<String> = Vec::new();
    let mut start: usize = 0;
    let mut i: usize = 0;
    while i < end
        invariant
            end <= n,
            n == req@.len(),
            line == req@.take(end as int),
            start <= i <= end,
            split_state(line.take(i as int), |c: char| is_white_space(c)) == (words@.map_values(|x: String| x@), line.subrange(start as int, i as int)),
        decreases end - i,
    {
        assert(line.take(i + 1).drop_last() =~= line.take(i as int));
        let c = req.get_char(i);
        if white_space(c) {
            if i > start {
                let ghost before = words@;
                words.push(String::from_str(req.substring_char(start, i)));
                proof {
                    assert(req@.subrange(start as int, i as int) =~= line.subrange(start as int, i as int));
                    assert(words@.map_values(|x: String| x@) =~= before.map_values(|x: String| x@).push(line.subrange(start as int, i as int)));
                }
            }
            start = i + 1;
            assert(line.subrange(start as int, i + 1) =~= Seq::<char>::empty());
        } else {
            assert(line.subrange(start as int, i + 1) =~= line.subrange(start as int, i as int).push(c));
        }
        i = i + 1;
    }
    assert(line.take(end as int) =~= line);
    if end > start {
        let ghost before = words@;
        words.push(String::from_str(req.substring_char(start, end)));
        proof {
            assert(req@.subrange(start as int, end as int) =~= line.subrange(start as int, end as int));
            assert(words@.map_values(|x: String| x@) =~= before.map_values(|x: String| x@).push(line.subrange(start as int, end as int)));
        }
    }
    if words.len() > 1 {
        words[1].clone()
    } else {
        String::from_str("/")
    }
}

/// A text with every `'` escaped by a backslash.
pub open spec fn escape_quotes(s: Seq<char>) -> Seq<char>
    decreases s.len(),
{
    if s.len() == 0 {
        Seq::empty()
    } else {
        escape_quotes(s.drop_last()) + if s.last() == '\'' {
            seq!['\\', '\'']
        } else {
            seq![s.last()]
        }
    }
}

/// The Drive search for backups: files named like backups, not in the bin,
/// and, when a folder is given (trimmed, not blank), in that folder.
pub open spec fn drive_backup_query_of(folder_id: Option<Seq<char>>) -> Seq<char> {
    "name contains 'tracklog-backup-' and trashed = false"@ + match trim_opt(folder_id) {
        Some(f) => " and '"@ + escape_quotes(f) + "' in parents"@,
        None => Seq::empty(),
    }
}

/// The Drive search for backups (see `drive_backup_query_of`).
pub fn drive_backup_query(folder_id: &Option<String>) -> (r: String)
    ensures
        r@ == drive_backup_query_of(opt_text(*folder_id)),
{
    let mut q = String::from_str("name contains 'tracklog-backup-' and trashed = false");
    let ghost head = q@;
    match trim_to_opt(folder_id) {
        Some(f) => {
            proof {
                reveal_strlit("\\'");
            }
            q.append(" and '");
            let ghost mid = q@;
            let s = f.as_str();
            let n = s.unicode_len();
            let mut i: usize = 0;
            while i < n
                invariant
                    n == s@.len(),
                    i <= n,
                    "\\'"@ == seq!['\\', '\''],
                    q@ == mid + escape_quotes(s@.take(i as int)),
                decreases n - i,
            {
                let c = s.get_char(i);
                if c == '\'' {
                    q.append("\\'");
                } else {
                    q.append(s.substring_char(i, i + 1));
                }
                assert(s@.take(i + 1).drop_last() =~= s@.take(i as int));
                i = i + 1;
            }
            assert(s@.take(n as int) =~= s@);
            q.append("' in parents");
            q
        },
        None => {
            assert(q@ =~= head + Seq::<char>::empty());
            q
        },
    }
}

/// A hexadecimal digit in lower case.
pub open spec fn hex_digit(v: int) -> char {
    if v < 10 {
        (48 + v) as char
    } else {
        (87 + v) as char
    }
}

/// One character inside a JSON string as `serde_json` writes it: `"` and
/// `\` behind a backslash, the control characters below U+0020 as `\b`,
/// `\t`, `\n`, `\f`, `\r` or `\u00` and two lower-case hex digits, every
/// other character as it is.
pub open spec fn json_char(c: char) -> Seq<char> {
    let u = c as int;
    if c == '"' {
        seq!['\\', '"']
    } else if c == '\\' {
        seq!['\\', '\\']
    } else if u == 8 {
        seq!['\\', 'b']
    } else if u == 9 {
        seq!['\\', 't']
    } else if u == 10 {
        seq!['\\', 'n']
    } else if u == 12 {
        seq!['\\', 'f']
    } else if u == 13 {
        seq!['\\', 'r']
    } else if u < 32 {
        seq!['\\', 'u', '0', '0', hex_digit(u / 16), hex_digit(u % 16)]
    } else {
        seq![c]
    }
}

/// The characters of a text escaped for a JSON string.
pub open spec fn json_escaped(s: Seq<char>) -> Seq<char>
    decreases s.len(),
{
    if s.len() == 0 {
        Seq::empty()
    } else {
        json_escaped(s.drop_last()) + json_char(s.last())
    }
}

/// The JSON text of a string value: quoted and escaped.
pub open spec fn json_string_of(s: Seq<char>) -> Seq<char> {
    seq!['"'] + json_escaped(s) + seq!['"']
}

/// `serde_json::to_string` of a string: the text in double quotes with
/// the escapes of `json_char` (serde_json's `format_escaped_str`). Writing
/// a string into memory does not fail; the fallback text is never
/// produced.
#[verifier::external_body]
fn json_string(s: &str) -> (r: String)
    ensures
        r@ == json_string_of(s@),
{
    serde_json::to_string(s).unwrap_or_default()
}

/// The description of a backup file for the Drive upload, as JSON: its
/// name, its type (`application/zip`) and, when a folder is given (trimmed,
/// not blank), that folder as its parent. Keys come in sorted order, as
/// `serde_json` writes an object.
pub open spec fn drive_upload_metadata_of(name: Seq<char>, folder_id: Option<Seq<char>>) -> Seq<char> {
    "{\"mimeType\":\"application/zip\",\"name\":"@ + json_string_of(name) + match trim_opt(folder_id) {
        Some(f) => ",\"parents\":["@ + json_string_of(f) + "]}"@,
        None => "}"@,
    }
}

/// The description of a backup file for the Drive upload (see
/// `drive_upload_metadata_of`).
pub fn drive_upload_metadata(name: &str, folder_id: &Option<String>) -> (r: String)
    ensures
        r@ == drive_upload_metadata_of(name@, opt_text(*folder_id)),
{
    let mut r = String::from_str("{\"mimeType\":\"application/zip\",\"name\":");
    let quoted = json_string(name);
    r.append(quoted.as_str());
    match upload_folder(folder_id) {
        Some(f) => {
            r.append(",\"parents\":[");
            let qf = json_string(f.as_str());
            r.append(qf.as_str());
            r.append("]}");
        },
        None => {
            r.append("}");
        },
    }
    r
}

/// The message when Drive holds no backup.
pub open spec fn no_backups_message() -> Seq<char> {
    "No TrackLog backup files found in Google Drive"@
}

/// The backup to restore from the files Drive listed, newest first: the
/// first one; an error when there is none.
pub fn newest_backup_id(file_ids: &Vec<String>) -> (r: Result<String, String>)
    ensures
        match r {
            Ok(id) => file_ids@.len() > 0 && id@ == file_ids@[0]@,
            Err(e) => file_ids@.len() == 0 && e@ == no_backups_message(),
        },
{
    if file_ids.len() == 0 {
        Err(String::from_str("No TrackLog backup files found in Google Drive"))
    } else {
        Ok(file_ids[0].clone())
    }
}

/// The address that downloads the content of a Drive file.
pub fn drive_download_url(file_id: &str) -> (r: String)
    ensures
        r@ == "https://www.googleapis.com/drive/v3/files/"@ + file_id@ + "?alt=media"@,
{
    let mut r = String::from_str("https://www.googleapis.com/drive/v3/files/");
    r.append(file_id);
    r.append("?alt=media");
    r
}

/// The report of a finished upload.
pub fn upload_message(name: &str, id: &str) -> (r: String)
    ensures
        r@ == "Uploaded backup as "@ + name@ + " ("@ + id@ + ")"@,
{
    let mut m = String::from_str("Uploaded backup as ");
    m.append(name);
    m.append(" (");
    m.append(id);
    m.append(")");
    m
}

/// The folder a backup is uploaded to: the given folder, trimmed, unless
/// blank.
pub fn upload_folder(folder_id: &Option<String>) -> (r: Option<String>)
    ensures
        opt_text(r) == trim_opt(opt_text(*folder_id)),
{
    trim_to_opt(folder_id)
}

} // verus!
