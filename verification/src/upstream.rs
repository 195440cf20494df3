//! How the upstream service is addressed.
use crate::ids;
use vstd::prelude::*;

verus! {

/// Where requests for responses are sent.
pub const RESPONSES_URL: &'static str = "https://chatgpt.com/backend-api/codex/responses";

/// What a list of names and values is.
pub open spec fn pair_views(pairs: Seq<(String, String)>) -> Seq<(Seq<char>, Seq<char>)> {
    pairs.map_values(|p: (String, String)| (p.0@, p.1@))
}

/// The headers that the upstream service asks for.
pub open spec fn upstream_headers(
    access_token: Seq<char>,
    account_id: Seq<char>,
    session_id: Seq<char>,
) -> Seq<(Seq<char>, Seq<char>)> {
    seq![
        ("Authorization"@, "Bearer "@ + access_token),
        ("chatgpt-account-id"@, account_id),
        ("Content-Type"@, "application/json"@),
        ("Accept"@, "text/event-stream"@),
        ("OpenAI-Beta"@, "responses=experimental"@),
        ("session_id"@, session_id),
        ("originator"@, "codex_cli_rs"@),
    ]
}

/// A credential as it is sent.
pub fn bearer(token: &str) -> (r: String)
    ensures
        r@ == "Bearer "@ + token@,
{
    "Bearer ".to_owned().concat(token)
}

fn pair(name: &str, value: &str) -> (r: (String, String))
    ensures
        r.0@ == name@,
        r.1@ == value@,
{
    (name.to_owned(), value.to_owned())
}

/// The headers that the upstream service asks for.
pub fn request_headers(access_token: &str, account_id: &str, session_id: &str) -> (r: Vec<
    (String, String),
>)
    ensures
        pair_views(r@) == upstream_headers(access_token@, account_id@, session_id@),
{
    let mut r: Vec<(String, String)> = Vec::new();
    r.push(pair("Authorization", bearer(access_token).as_str()));
    r.push(pair("chatgpt-account-id", account_id));
    r.push(pair("Content-Type", "application/json"));
    r.push(pair("Accept", "text/event-stream"));
    r.push(pair("OpenAI-Beta", "responses=experimental"));
    r.push(pair("session_id", session_id));
    r.push(pair("originator", "codex_cli_rs"));
    assert(pair_views(r@) =~= upstream_headers(access_token@, account_id@, session_id@));
    r
}

/// The headers of a request in a session of its own.
pub fn fresh_request_headers(access_token: &str, account_id: &str) -> (r: Vec<(String, String)>)
    ensures
        exists|session: Seq<char>|
            ids::uuid_form(session) && pair_views(r@) == #[trigger] upstream_headers(
                access_token@,
                account_id@,
                session,
            ),
{
    let session = ids::fresh_uuid();
    let r = request_headers(access_token, account_id, session.as_str());
    assert(pair_views(r@) == upstream_headers(access_token@, account_id@, session@));
    r
}

/// What can go wrong before the upstream service answers.
#[derive(Debug, Clone, Copy, PartialEq, Eq, Structural)]
pub enum SendStage {
    AccessToken,
    AccountId,
    Request,
}

/// What is said of a request that could not be sent.
pub open spec fn send_failure(stage: SendStage, e: Seq<char>) -> Seq<char> {
    match stage {
        SendStage::AccessToken => "Access token retrieval failed: "@ + e,
        SendStage::AccountId => "Account ID retrieval failed: "@ + e,
        SendStage::Request => "Request failed: "@ + e,
    }
}

/// What is said of a request that could not be sent.
pub fn send_failure_text(stage: SendStage, e: &str) -> (r: String)
    ensures
        r@ == send_failure(stage, e@),
{
    match stage {
        SendStage::AccessToken => "Access token retrieval failed: ".to_owned().concat(e),
        SendStage::AccountId => "Account ID retrieval failed: ".to_owned().concat(e),
        SendStage::Request => "Request failed: ".to_owned().concat(e),
    }
}

/// A request upstream brings the token, the account and the session as they are,
/// and asks for an event stream; each header comes once.
pub proof fn law_upstream_headers(
    access_token: Seq<char>,
    account_id: Seq<char>,
    session_id: Seq<char>,
)
    ensures
        ({
            let headers = upstream_headers(access_token, account_id, session_id);
            &&& headers.len() == 7
            &&& headers.contains(("Authorization"@, "Bearer "@ + access_token))
            &&& headers.contains(("chatgpt-account-id"@, account_id))
            &&& headers.contains(("Content-Type"@, "application/json"@))
            &&& headers.contains(("Accept"@, "text/event-stream"@))
            &&& headers.contains(("OpenAI-Beta"@, "responses=experimental"@))
            &&& headers.contains(("session_id"@, session_id))
            &&& headers.contains(("originator"@, "codex_cli_rs"@))
        }),
{
    let headers = upstream_headers(access_token, account_id, session_id);
    assert(headers.contains(headers[0]) && headers.contains(headers[1]) && headers.contains(
        headers[2],
    ) && headers.contains(headers[3]) && headers.contains(headers[4]) && headers.contains(
        headers[5],
    ) && headers.contains(headers[6]));
}

/// What is said of a request that could not be sent ends with the reason in full.
pub proof fn law_failures_tell_the_reason(stage: SendStage, e: Seq<char>)
    ensures
        e.len() <= send_failure(stage, e).len(),
        send_failure(stage, e).skip(send_failure(stage, e).len() - e.len()) == e,
        send_failure(SendStage::AccessToken, e) == "Access token retrieval failed: "@ + e,
        send_failure(SendStage::AccountId, e) == "Account ID retrieval failed: "@ + e,
        send_failure(SendStage::Request, e) == "Request failed: "@ + e,
{
    let s = send_failure(stage, e);
    assert(s.skip(s.len() - e.len()) =~= e);
}

/// A list of headers stands for their names and values, each at its place.
pub proof fn law_lists_of_headers(pairs: Seq<(String, String)>, i: int)
    requires
        0 <= i < pairs.len(),
    ensures
        pair_views(pairs).len() == pairs.len(),
        pair_views(pairs)[i] == (pairs[i].0@, pairs[i].1@),
{
}

} // verus!
