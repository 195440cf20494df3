//! Requests that are passed on to the OpenAI API as they are.
use crate::headers;
use crate::headers::{FieldV, HeaderField};
use crate::replies;
use crate::replies::Reply;
use crate::text;
use crate::upstream;
use axum::http::HeaderMap;
use vstd::prelude::*;

verus! {

/// Where a request is passed on to.
pub open spec fn passthrough_url(path: Seq<char>, query: Option<Seq<char>>) -> Seq<char> {
    "https://api.openai.com/v1/"@ + path + match query {
        Some(q) => "?"@ + q,
        None => seq![],
    }
}

/// Where a request is passed on to.
pub fn upstream_url(path: &str, query: Option<&str>) -> (r: String)
    ensures
        r@ == passthrough_url(
            path@,
            match query {
                Some(q) => Some(q@),
                None => None,
            },
        ),
{
    let mut r = "https://api.openai.com/v1/".to_owned();
    r.append(path);
    if let Some(q) = query {
        r.append("?");
        r.append(q);
    }
    assert(r@ =~= passthrough_url(
        path@,
        match query {
            Some(q) => Some(q@),
            None => None,
        },
    ));
    r
}

/// Whether a request's header is for the proxy alone.
pub open spec fn held_back_from_request(name: Seq<char>) -> bool {
    let l = text::lowered(name);
    l == "host"@ || l == "content-length"@ || l == "connection"@
}

/// Whether a reply's header is for the proxy alone.
pub open spec fn held_back_from_reply(name: Seq<char>) -> bool {
    let l = text::lowered(name);
    l == "connection"@ || l == "content-length"@ || l == "transfer-encoding"@
}

/// The side that headers come from.
#[derive(Debug, Clone, Copy, PartialEq, Eq, Structural)]
pub enum Side {
    Request,
    Reply,
}

/// Whether a header is for the proxy alone.
pub open spec fn held_back(side: Side, name: Seq<char>) -> bool {
    match side {
        Side::Request => held_back_from_request(name),
        Side::Reply => held_back_from_reply(name),
    }
}

/// The headers that are passed on, in their order: those that are not for the
/// proxy alone and whose values are text.
pub open spec fn passed_on(side: Side, fields: Seq<FieldV>) -> Seq<(Seq<char>, Seq<char>)>
    decreases fields.len(),
{
    if fields.len() == 0 {
        seq![]
    } else {
        let before = passed_on(side, fields.drop_last());
        match fields.last().value {
            Some(value) if !held_back(side, fields.last().name) => before.push(
                (fields.last().name, value),
            ),
            _ => before,
        }
    }
}

/// A header that is for the proxy alone is not passed on, and every other whose
/// value is text is.
pub proof fn law_headers_passed_on(side: Side, fields: Seq<FieldV>, name: Seq<char>, value: Seq<char>)
    ensures
        passed_on(side, fields).contains((name, value)) <==> !held_back(side, name) && exists|
            i: int,
        |
            0 <= i < fields.len() && (#[trigger] fields[i]).name == name && fields[i].value == Some(
                value,
            ),
    decreases fields.len(),
{
    if fields.len() > 0 {
        let rest = fields.drop_last();
        let before = passed_on(side, rest);
        let all = passed_on(side, fields);
        law_headers_passed_on(side, rest, name, value);
        if before.contains((name, value)) {
            let j = choose|j: int| 0 <= j < before.len() && before[j] == (name, value);
            assert(all[j] == (name, value));
            let i = choose|i: int|
                0 <= i < rest.len() && (#[trigger] rest[i]).name == name && rest[i].value == Some(
                    value,
                );
            assert(fields[i].name == name);
        }
        if all.contains((name, value)) && !before.contains((name, value)) {
            let j = choose|j: int| 0 <= j < all.len() && all[j] == (name, value);
            if j < before.len() {
                assert(before[j] == (name, value));
            }
            assert(fields[fields.len() - 1].name == name);
        }
        if !held_back(side, name) && exists|i: int|
            0 <= i < fields.len() && (#[trigger] fields[i]).name == name && fields[i].value == Some(
                value,
            ) {
            let i = choose|i: int|
                0 <= i < fields.len() && (#[trigger] fields[i]).name == name && fields[i].value
                    == Some(value);
            if i < rest.len() {
                assert(rest[i].name == name);
            } else {
                assert(all[all.len() - 1] == (name, value));
            }
        }
    }
}

fn is_held_back(side: Side, name: &str) -> (r: bool)
    ensures
        r == held_back(side, name@),
{
    let lower = text::to_ascii_lowercase(name);
    let l = lower.as_str();
    match side {
        Side::Request => text::same_text(l, "host") || text::same_text(l, "content-length")
            || text::same_text(l, "connection"),
        Side::Reply => text::same_text(l, "connection") || text::same_text(l, "content-length")
            || text::same_text(l, "transfer-encoding"),
    }
}

/// The headers of a list that are passed on.
pub fn pass_fields(side: Side, fields: &Vec<HeaderField>) -> (r: Vec<(String, String)>)
    ensures
        upstream::pair_views(r@) == passed_on(side, headers::field_views(fields@)),
{
    let mut r: Vec<(String, String)> = Vec::new();
    let ghost all = headers::field_views(fields@);
    assert(upstream::pair_views(r@) =~= passed_on(side, all.take(0)));
    for i in 0..fields.len()
        invariant
            all == headers::field_views(fields@),
            upstream::pair_views(r@) == passed_on(side, all.take(i as int)),
    {
        let field = &fields[i];
        let ghost before = upstream::pair_views(r@);
        assert(all[i as int] == field@);
        assert(all.take(i + 1).drop_last() =~= all.take(i as int));
        if !is_held_back(side, field.name.as_str()) {
            if let Some(value) = &field.value {
                r.push((field.name.clone(), value.clone()));
                assert(upstream::pair_views(r@) =~= before.push((field.name@, value@)));
            }
        }
    }
    assert(all.take(all.len() as int) =~= all);
    r
}

/// The headers that are passed on.
pub fn pass_headers(side: Side, headers: &HeaderMap) -> (r: Vec<(String, String)>)
    ensures
        upstream::pair_views(r@) == passed_on(side, headers::header_fields(*headers)),
{
    pass_fields(side, &headers::list_headers(headers))
}

/// Whether a request brings no credentials of its own.
pub fn needs_api_key(headers: &HeaderMap) -> (r: bool)
    ensures
        r == !headers::named(headers::header_fields(*headers), "authorization"@),
{
    proof {
        reveal_strlit("authorization");
        assert(text::lowered("authorization"@) =~= "authorization"@);
    }
    !headers::has_header(headers, "authorization")
}

/// The header that brings an API key.
pub fn api_key_header(key: &str) -> (r: (String, String))
    ensures
        r.0@ == "Authorization"@,
        r.1@ == "Bearer "@ + key@,
{
    ("Authorization".to_owned(), upstream::bearer(key))
}

/// A status as it is passed on: one that is none gives way to another.
pub fn passed_status(status: u16, otherwise: u16) -> (r: u16)
    ensures
        r == if 100 <= status < 1000 {
            status
        } else {
            otherwise
        },
{
    if 100 <= status && status < 1000 {
        status
    } else {
        otherwise
    }
}

/// The reply to a request whose method cannot be passed on.
pub fn unsupported_method_reply(e: &str) -> (r: Reply)
    ensures
        r.status == 405,
        r.body@ == replies::error_object(
            "Unsupported HTTP method: "@ + e@,
            "invalid_request_error"@,
            "unsupported_method"@,
        ),
{
    let message = "Unsupported HTTP method: ".to_owned().concat(e);
    replies::error_reply(405, message.as_str(), "invalid_request_error", "unsupported_method")
}

/// The reply to a request that could not be passed on.
pub fn unreachable_reply(e: &str) -> (r: Reply)
    ensures
        r.status == 502,
        r.body@ == replies::error_object(
            "Failed to reach OpenAI API: "@ + e@,
            "server_error"@,
            "upstream_error"@,
        ),
{
    let message = "Failed to reach OpenAI API: ".to_owned().concat(e);
    replies::error_reply(502, message.as_str(), "server_error", "upstream_error")
}

/// The reply to a request whose reply could not be passed on.
pub fn unbuildable_reply(e: &str) -> (r: Reply)
    ensures
        r.status == 502,
        r.body@ == replies::error_object(
            "Failed to build proxied response: "@ + e@,
            "server_error"@,
            "response_build_error"@,
        ),
{
    let message = "Failed to build proxied response: ".to_owned().concat(e);
    replies::error_reply(502, message.as_str(), "server_error", "response_build_error")
}

/// A request is passed on to the path and the query that it came with.
pub proof fn law_paths_and_queries_are_kept(path: Seq<char>, query: Seq<char>)
    ensures
        passthrough_url(path, None) == "https://api.openai.com/v1/"@ + path,
        passthrough_url(path, Some(query)) == "https://api.openai.com/v1/"@ + path + seq!['?']
            + query,
{
    reveal_strlit("?");
    assert("?"@ =~= seq!['?']);
    assert(passthrough_url(path, None) =~= "https://api.openai.com/v1/"@ + path);
    assert(passthrough_url(path, Some(query)) =~= "https://api.openai.com/v1/"@ + path + seq!['?']
        + query);
}

/// The headers that are not passed on are those of the connection, however their
/// letters are written, and no others.
pub proof fn law_headers_of_the_connection_stay(name: Seq<char>)
    ensures
        held_back(Side::Request, name) <==> seq!["host"@, "content-length"@, "connection"@].contains(
            text::lowered(name),
        ),
        held_back(Side::Reply, name) <==> seq![
            "connection"@,
            "content-length"@,
            "transfer-encoding"@,
        ].contains(text::lowered(name)),
{
    let a = seq!["host"@, "content-length"@, "connection"@];
    let b = seq!["connection"@, "content-length"@, "transfer-encoding"@];
    assert(a.contains(a[0]) && a.contains(a[1]) && a.contains(a[2]));
    assert(b.contains(b[0]) && b.contains(b[1]) && b.contains(b[2]));
}

/// One header more is passed on behind those before it, with its name and its value
/// as they stand, unless it is one of the connection or its value is no text.
pub proof fn law_headers_are_passed_on_in_order(side: Side, fields: Seq<FieldV>, field: FieldV)
    ensures
        passed_on(side, seq![]).len() == 0,
        held_back(side, field.name) || field.value is None ==> passed_on(side, fields.push(field))
            == passed_on(side, fields),
        !held_back(side, field.name) ==> (field.value matches Some(value) ==> passed_on(
            side,
            fields.push(field),
        ) == passed_on(side, fields).push((field.name, value))),
{
    assert(fields.push(field).drop_last() =~= fields);
}

} // verus!
