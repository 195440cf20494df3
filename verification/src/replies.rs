//! Replies that the proxy makes itself.
use crate::json::{Json, JsonV};
use vstd::prelude::*;

verus! {

/// The body of a reply that reports an error.
pub open spec fn error_object(message: Seq<char>, kind: Seq<char>, code: Seq<char>) -> JsonV {
    JsonV::empty_object().with(
        "error"@,
        JsonV::empty_object().with("message"@, JsonV::Str(message)).with(
            "type"@,
            JsonV::Str(kind),
        ).with("code"@, JsonV::Str(code)),
    )
}

/// The body of a reply that reports an error.
pub fn error_body(message: &str, kind: &str, code: &str) -> (r: Json)
    ensures
        r@ == error_object(message@, kind@, code@),
{
    Json::object().with(
        "error",
        Json::object().with("message", Json::text(message)).with("type", Json::text(kind)).with(
            "code",
            Json::text(code),
        ),
    )
}

/// A reply: a status and a body.
#[derive(Debug)]
pub struct Reply {
    pub status: u16,
    pub body: Json,
}

/// A reply that reports an error.
pub fn error_reply(status: u16, message: &str, kind: &str, code: &str) -> (r: Reply)
    ensures
        r.status == status,
        r.body@ == error_object(message@, kind@, code@),
{
    Reply { status, body: error_body(message, kind, code) }
}

/// A reply that reports an error holds its message in full, its type and its code.
pub proof fn law_errors_are_reported(message: Seq<char>, kind: Seq<char>, code: Seq<char>)
    ensures
        error_object(message, kind, code).get("error"@) matches Some(error) && error.get("message"@)
            == Some(JsonV::Str(message)) && error.get("type"@) == Some(JsonV::Str(kind))
            && error.get("code"@) == Some(JsonV::Str(code)),
{
    reveal_strlit("message");
    reveal_strlit("type");
    reveal_strlit("code");
    assert("message"@.len() == 7);
    assert("type"@.len() == 4 && "type"@[0] == 't');
    assert("code"@.len() == 4 && "code"@[0] == 'c');
}

} // verus!
