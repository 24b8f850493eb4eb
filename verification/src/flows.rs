//! The Google Drive authorizations under way. Each one waits, under the
//! random `state` it was started with, for the browser to come back to the
//! local listener with an authorization code or an error.

use vstd::prelude::*;
use vstd::utf8::encode_utf8;
use crate::models::{copy_opt_text, opt_text};
use crate::oauth::{
    authorization_endpoint, authorization_query, authorization_url, base64_url, callback_outcome,
    callback_uri, code_challenge, is_ascii_alphanumeric, judged_callback, last_value,
    parsed_query_pairs, query_value, random_string, redirect_uri, request_target,
    request_target_of, sha256, url_query_pairs, url_with_query_of, CallbackOutcome,
};
use crate::text::text_eq;

verus! {

/// An authorization that waits for the browser to come back.
#[derive(Debug)]
pub struct PendingOAuthFlow {
    pub code_verifier: String,
    pub redirect_uri: String,
    pub code: Option<String>,
    pub error: Option<String>,
}

/// A waiting authorization, with its texts as character sequences.
pub struct PendingFlowView {
    pub code_verifier: Seq<char>,
    pub redirect_uri: Seq<char>,
    pub code: Option<Seq<char>>,
    pub error: Option<Seq<char>>,
}

impl View for PendingOAuthFlow {
    type V = PendingFlowView;

    open spec fn view(&self) -> PendingFlowView {
        PendingFlowView {
            code_verifier: self.code_verifier@,
            redirect_uri: self.redirect_uri@,
            code: opt_text(self.code),
            error: opt_text(self.error),
        }
    }
}

impl PendingOAuthFlow {
    /// A copy of this flow.
    pub fn dup(&self) -> (r: PendingOAuthFlow)
        ensures
            r@ == self@,
    {
        PendingOAuthFlow {
            code_verifier: self.code_verifier.clone(),
            redirect_uri: self.redirect_uri.clone(),
            code: copy_opt_text(&self.code),
            error: copy_opt_text(&self.error),
        }
    }
}

/// The flow registered last under `state`.
pub open spec fn flow_of(entries: Seq<(Seq<char>, PendingFlowView)>, state: Seq<char>) -> Option<
    PendingFlowView,
>
    decreases entries.len(),
{
    if entries.len() == 0 {
        None
    } else if entries.last().0 == state {
        Some(entries.last().1)
    } else {
        flow_of(entries.drop_last(), state)
    }
}

/// The entries not registered under `state`, in order.
pub open spec fn without_state(entries: Seq<(Seq<char>, PendingFlowView)>, state: Seq<char>) -> Seq<
    (Seq<char>, PendingFlowView),
>
    decreases entries.len(),
{
    if entries.len() == 0 {
        entries
    } else {
        let rest = without_state(entries.drop_last(), state);
        if entries.last().0 == state {
            rest
        } else {
            rest.push(entries.last())
        }
    }
}

proof fn lemma_flow_of_without(
    entries: Seq<(Seq<char>, PendingFlowView)>,
    state: Seq<char>,
    other: Seq<char>,
)
    ensures
        flow_of(without_state(entries, state), other) == if other == state {
            None
        } else {
            flow_of(entries, other)
        },
    decreases entries.len(),
{
    if entries.len() > 0 {
        lemma_flow_of_without(entries.drop_last(), state, other);
        let rest = without_state(entries.drop_last(), state);
        if entries.last().0 != state {
            assert(rest.push(entries.last()).drop_last() =~= rest);
        }
    }
}

proof fn lemma_flow_of_push(
    entries: Seq<(Seq<char>, PendingFlowView)>,
    entry: (Seq<char>, PendingFlowView),
    other: Seq<char>,
)
    ensures
        flow_of(entries.push(entry), other) == if other == entry.0 {
            Some(entry.1)
        } else {
            flow_of(entries, other)
        },
{
    assert(entries.push(entry).drop_last() =~= entries);
}

/// The authorizations under way, each under its `state`.
pub struct OAuthFlows {
    entries: Vec<(String, PendingOAuthFlow)>,
}

/// The view of one registered entry.
pub open spec fn entry_view(e: (String, PendingOAuthFlow)) -> (Seq<char>, PendingFlowView) {
    (e.0@, e.1@)
}

impl OAuthFlows {
    /// The registered entries, in the order they were registered.
    pub closed spec fn entries_view(&self) -> Seq<(Seq<char>, PendingFlowView)> {
        self.entries@.map_values(|e: (String, PendingOAuthFlow)| entry_view(e))
    }

    /// The flow waiting under `state`, if any.
    pub open spec fn flow(&self, state: Seq<char>) -> Option<PendingFlowView> {
        flow_of(self.entries_view(), state)
    }

    /// No authorization under way.
    pub fn new() -> (r: OAuthFlows)
        ensures
            forall|s: Seq<char>| r.flow(s) is None,
    {
        let r = OAuthFlows { entries: Vec::new() };
        assert(r.entries_view() =~= Seq::<(Seq<char>, PendingFlowView)>::empty());
        r
    }

    /// Where the flow waiting under `state` is kept.
    fn position(&self, state: &str) -> (r: Option<usize>)
        ensures
            match r {
                Some(i) => i < self.entries@.len() && self.flow(state@) == Some(
                    self.entries@[i as int].1@,
                ),
                None => self.flow(state@) is None,
            },
    {
        let n = self.entries.len();
        let ghost v = self.entries_view();
        let mut found: Option<usize> = None;
        let mut i: usize = 0;
        while i < n
            invariant
                n == self.entries@.len(),
                v == self.entries_view(),
                v.len() == n,
                i <= n,
                match found {
                    Some(j) => j < n && flow_of(v.take(i as int), state@) == Some(
                        self.entries@[j as int].1@,
                    ),
                    None => flow_of(v.take(i as int), state@) is None,
                },
            decreases n - i,
        {
            assert(v.take(i + 1).drop_last() =~= v.take(i as int));
            assert(v[i as int] == entry_view(self.entries@[i as int]));
            if text_eq(self.entries[i].0.as_str(), state) {
                found = Some(i);
            }
            i = i + 1;
        }
        assert(v.take(n as int) =~= v);
        found
    }

    /// The flow waiting under `state`, if any.
    pub fn find_oauth_flow(&self, state: &str) -> (r: Option<&PendingOAuthFlow>)
        ensures
            match r {
                Some(f) => self.flow(state@) == Some(f@),
                None => self.flow(state@) is None,
            },
    {
        match self.position(state) {
            Some(i) => Some(&self.entries[i].1),
            None => None,
        }
    }

    /// Registers `flow` under `state`, in place of any flow registered
    /// there before.
    pub fn insert_oauth_flow(&mut self, state: String, flow: PendingOAuthFlow)
        ensures
            forall|s: Seq<char>| #[trigger]
                final(self).flow(s) == if s == state@ {
                    Some(flow@)
                } else {
                    old(self).flow(s)
                },
    {
        remove_oauth_flow(self, state.as_str());
        let ghost mid = *self;
        let ghost before = self.entries_view();
        let ghost entry = entry_view((state, flow));
        self.entries.push((state, flow));
        proof {
            assert(self.entries_view() =~= before.push(entry));
            assert forall|s: Seq<char>| #[trigger]
                self.flow(s) == if s == entry.0 {
                    Some(entry.1)
                } else {
                    old(self).flow(s)
                } by {
                lemma_flow_of_push(before, entry, s);
                assert(mid.flow(s) == flow_of(before, s));
            }
        }
    }

    /// Hands what the browser's return brought to the flow waiting under
    /// `state`; nothing changes when no flow waits there.
    pub fn record_callback(&mut self, state: &str, outcome: CallbackOutcome)
        ensures
            forall|s: Seq<char>| #[trigger]
                final(self).flow(s) == if s == state@ {
                    match old(self).flow(s) {
                        Some(f) => Some(after_callback(f, outcome)),
                        None => None,
                    }
                } else {
                    old(self).flow(s)
                },
    {
        let found = self.position(state);
        match found {
            Some(i) => {
                let mut f = self.entries[i].1.dup();
                match outcome {
                    CallbackOutcome::Failed(m) => {
                        f.error = Some(m);
                    },
                    CallbackOutcome::Code(c) => {
                        f.code = c;
                    },
                }
                self.insert_oauth_flow(String::from_str(state), f);
            },
            None => {},
        }
    }
}

/// A flow after the browser's return: a failure is kept as its error, a
/// code (or its absence) as its code.
pub open spec fn after_callback(f: PendingFlowView, outcome: CallbackOutcome) -> PendingFlowView {
    match outcome {
        CallbackOutcome::Failed(m) => PendingFlowView { error: Some(m@), ..f },
        CallbackOutcome::Code(c) => PendingFlowView { code: opt_text(c), ..f },
    }
}

/// Forgets the flow waiting under `state`.
pub fn remove_oauth_flow(flows: &mut OAuthFlows, state: &str)
    ensures
        forall|s: Seq<char>| #[trigger]
            final(flows).flow(s) == if s == state@ {
                None
            } else {
                old(flows).flow(s)
            },
{
    let ghost v = flows.entries_view();
    let n = flows.entries.len();
    let mut kept: Vec<(String, PendingOAuthFlow)> = Vec::new();
    let mut i: usize = 0;
    while i < n
        invariant
            n == flows.entries@.len(),
            v == flows.entries_view(),
            v.len() == n,
            i <= n,
            kept@.map_values(|e: (String, PendingOAuthFlow)| entry_view(e)) == without_state(
                v.take(i as int),
                state@,
            ),
        decreases n - i,
    {
        assert(v.take(i + 1).drop_last() =~= v.take(i as int));
        assert(v[i as int] == entry_view(flows.entries@[i as int]));
        let e = &flows.entries[i];
        if !text_eq(e.0.as_str(), state) {
            let ghost before = kept@;
            let copy = (e.0.clone(), e.1.dup());
            kept.push(copy);
            assert(kept@.map_values(|e: (String, PendingOAuthFlow)| entry_view(e)) =~= before.map_values(
                |e: (String, PendingOAuthFlow)| entry_view(e),
            ).push(entry_view(copy)));
        }
        i = i + 1;
    }
    assert(v.take(n as int) =~= v);
    flows.entries = kept;
    proof {
        assert forall|s: Seq<char>| #[trigger]
            flows.flow(s) == if s == state@ {
                None
            } else {
                flow_of(v, s)
            } by {
            lemma_flow_of_without(v, state@, s);
        }
    }
}

/// Starts an authorization for the listener on `port`: draws a random
/// 32-character `state` and a random 96-character code verifier, registers
/// the waiting flow under the state, and returns the state with the address
/// that asks the user for access. It fails exactly when that address cannot
/// be built (the `url` crate does not take the endpoint); then nothing is
/// registered.
pub fn start_google_drive_oauth(flows: &mut OAuthFlows, client_id: &str, port: u16) -> (r: Result<
    (String, String),
    String,
>)
    ensures
        match r {
            Ok((state, url)) => {
                &&& state@.len() == 32
                &&& forall|i: int| 0 <= i < 32 ==> is_ascii_alphanumeric(#[trigger] state@[i])
                &&& final(flows).flow(state@) matches Some(f)
                &&& f.redirect_uri == callback_uri(port)
                &&& f.code is None
                &&& f.error is None
                &&& f.code_verifier.len() == 96
                &&& forall|i: int|
                    0 <= i < 96 ==> is_ascii_alphanumeric(#[trigger] f.code_verifier[i])
                &&& url_with_query_of(
                    authorization_endpoint(),
                    authorization_query(
                        client_id@,
                        callback_uri(port),
                        state@,
                        base64_url(sha256(encode_utf8(f.code_verifier))),
                    ),
                ) == Some(url@)
                &&& forall|s: Seq<char>| s != state@ ==> #[trigger] final(flows).flow(s) == old(
                    flows,
                ).flow(s)
            },
            Err(_) => {
                &&& exists|st: Seq<char>, ch: Seq<char>|
                    #[trigger] url_with_query_of(
                        authorization_endpoint(),
                        authorization_query(client_id@, callback_uri(port), st, ch),
                    ) is None
                &&& forall|s: Seq<char>| #[trigger] final(flows).flow(s) == old(flows).flow(s)
            },
        },
{
    let state = random_string(32);
    let code_verifier = random_string(96);
    let challenge = code_challenge(code_verifier.as_str());
    let redirect = redirect_uri(port);
    let url = authorization_url(client_id, redirect.as_str(), state.as_str(), challenge.as_str());
    match url {
        Ok(u) => {
            let flow = PendingOAuthFlow {
                code_verifier,
                redirect_uri: redirect,
                code: None,
                error: None,
            };
            let key = state.clone();
            flows.insert_oauth_flow(key, flow);
            Ok((state, u))
        },
        Err(e) => {
            assert(url_with_query_of(
                authorization_endpoint(),
                authorization_query(client_id@, callback_uri(port), state@, challenge@),
            ) is None);
            Err(e)
        },
    }
}

/// What completing an authorization does next.
pub enum OAuthCompletion {
    /// The authorization failed with this message; it is forgotten.
    Failed(String),
    /// The browser has not come back yet.
    Pending,
    /// Exchange this code for tokens, with the flow's verifier and
    /// return address.
    Exchange { code: String, code_verifier: String, redirect_uri: String },
}

/// The message when no authorization waits under a state.
pub open spec fn session_not_found_message() -> Seq<char> {
    "OAuth session not found. Start again."@
}

/// Decides how to complete the authorization started under `state`: an
/// unknown state is an error; a failed flow is forgotten and its error
/// reported; a flow without a code is still pending; a code is to be
/// exchanged.
pub fn complete_google_drive_oauth(flows: &mut OAuthFlows, state: &str) -> (r: Result<
    OAuthCompletion,
    String,
>)
    ensures
        match old(flows).flow(state@) {
            None => {
                &&& r matches Err(e) && e@ == session_not_found_message()
                &&& forall|s: Seq<char>| #[trigger] final(flows).flow(s) == old(flows).flow(s)
            },
            Some(f) => match f.error {
                Some(e) => {
                    &&& r matches Ok(OAuthCompletion::Failed(m)) && m@ == e
                    &&& forall|s: Seq<char>| #[trigger]
                        final(flows).flow(s) == if s == state@ {
                            None
                        } else {
                            old(flows).flow(s)
                        }
                },
                None => {
                    &&& match f.code {
                        Some(c) => r matches Ok(
                            OAuthCompletion::Exchange { code, code_verifier, redirect_uri },
                        ) && code@ == c && code_verifier@ == f.code_verifier && redirect_uri@
                            == f.redirect_uri,
                        None => r matches Ok(OAuthCompletion::Pending),
                    }
                    &&& forall|s: Seq<char>| #[trigger] final(flows).flow(s) == old(flows).flow(s)
                },
            },
        },
{
    let found = flows.find_oauth_flow(state);
    let f = match found {
        Some(f) => f.dup(),
        None => {
            return Err(String::from_str("OAuth session not found. Start again."));
        },
    };
    match f.error {
        Some(e) => {
            remove_oauth_flow(flows, state);
            Ok(OAuthCompletion::Failed(e))
        },
        None => match f.code {
            Some(c) => Ok(
                OAuthCompletion::Exchange {
                    code: c,
                    code_verifier: f.code_verifier,
                    redirect_uri: f.redirect_uri,
                },
            ),
            None => Ok(OAuthCompletion::Pending),
        },
    }
}

/// The address the browser's request is read as.
pub open spec fn callback_url_of(req: Seq<char>) -> Seq<char> {
    "http://localhost"@ + request_target_of(req)
}

/// Reads the browser's request to the local listener: its target, taken
/// as an address, gives `state`, `code` and `error` (the last of each),
/// which are judged against the flow's state. A target that is no address
/// gives none of them.
pub fn read_callback(expected_state: &str, request: &str) -> (r: CallbackOutcome)
    ensures
        match parsed_query_pairs(callback_url_of(request@)) {
            Some(p) => judged_callback(
                expected_state@,
                last_value(p, "state"@),
                last_value(p, "code"@),
                last_value(p, "error"@),
                r,
            ),
            None => judged_callback(expected_state@, None, None, None, r),
        },
{
    let target = request_target(request);
    let mut url = String::from_str("http://localhost");
    url.append(target.as_str());
    match url_query_pairs(url.as_str()) {
        Some(pairs) => {
            let state = query_value(&pairs, "state");
            let code = query_value(&pairs, "code");
            let error = query_value(&pairs, "error");
            callback_outcome(expected_state, &state, code, &error)
        },
        None => callback_outcome(expected_state, &None, None, &None),
    }
}

/// What the local listener saw while it waited.
pub enum ListenerEvent {
    /// The browser came back with this request.
    Request(String),
    /// Nobody came within the time allowed.
    TimedOut,
    /// Waiting failed.
    Failed,
}

/// The message when nobody came back in time.
pub open spec fn timed_out_message() -> Seq<char> {
    "OAuth timed out. Start again."@
}

/// The message when waiting for the browser failed.
pub open spec fn wait_failed_message() -> Seq<char> {
    "Failed waiting for OAuth callback"@
}

/// What the listener hands to the waiting flow for what it saw.
pub fn callback_for_event(expected_state: &str, event: ListenerEvent) -> (r: CallbackOutcome)
    ensures
        match event {
            ListenerEvent::Request(req) => match parsed_query_pairs(callback_url_of(req@)) {
                Some(p) => judged_callback(
                    expected_state@,
                    last_value(p, "state"@),
                    last_value(p, "code"@),
                    last_value(p, "error"@),
                    r,
                ),
                None => judged_callback(expected_state@, None, None, None, r),
            },
            ListenerEvent::TimedOut => r matches CallbackOutcome::Failed(m) && m@
                == timed_out_message(),
            ListenerEvent::Failed => r matches CallbackOutcome::Failed(m) && m@
                == wait_failed_message(),
        },
{
    match event {
        ListenerEvent::Request(req) => read_callback(expected_state, req.as_str()),
        ListenerEvent::TimedOut => CallbackOutcome::Failed(
            String::from_str("OAuth timed out. Start again."),
        ),
        ListenerEvent::Failed => CallbackOutcome::Failed(
            String::from_str("Failed waiting for OAuth callback"),
        ),
    }
}

/// Whether the listener has waited too long: more than five minutes,
/// counted in nanoseconds.
pub fn oauth_wait_expired(elapsed_nanos: u128) -> (r: bool)
    ensures
        r == (elapsed_nanos > 300_000_000_000),
{
    elapsed_nanos > 300_000_000_000
}

/// The page shown in the browser once it has come back.
pub open spec fn callback_page() -> Seq<char> {
    "TrackLog authorization complete. You can close this tab."@
}

/// The listener's answer to the browser: a plain-text page saying the
/// authorization is complete.
pub fn callback_response() -> (r: String)
    ensures
        r@ == "HTTP/1.1 200 OK\r\nContent-Type: text/plain\r\nContent-Length: "@ + crate::oauth::decimal(
            callback_page().len(),
        ) + "\r\n\r\n"@ + callback_page(),
{
    let body = "TrackLog authorization complete. You can close this tab.";
    proof {
        reveal_strlit("TrackLog authorization complete. You can close this tab.");
    }
    let n = body.unicode_len();
    let mut r = String::from_str("HTTP/1.1 200 OK\r\nContent-Type: text/plain\r\nContent-Length: ");
    let len = crate::oauth::decimal_text(n as u64);
    r.append(len.as_str());
    r.append("\r\n\r\n");
    r.append(body);
    r
}

} // verus!
