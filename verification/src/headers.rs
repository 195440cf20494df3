//! The headers of requests and replies.
use crate::json;
use crate::text;
use axum::http::{HeaderMap, HeaderValue};
use vstd::prelude::*;

verus! {

/// A header's value as axum holds it.
#[verifier::external_type_specification]
#[verifier::external_body]
pub struct ExHeaderValue(HeaderValue);

/// Headers as axum holds them.
#[verifier::external_type_specification]
#[verifier::external_body]
#[verifier::reject_recursive_types(T)]
pub struct ExHeaderMap<T>(HeaderMap<T>);

/// A header: its name, and its value where that is text.
#[derive(Debug, PartialEq, Eq)]
pub struct HeaderField {
    pub name: String,
    pub value: Option<String>,
}

/// What a header is.
pub struct FieldV {
    pub name: Seq<char>,
    pub value: Option<Seq<char>>,
}

impl View for HeaderField {
    type V = FieldV;

    open spec fn view(&self) -> FieldV {
        FieldV { name: self.name@, value: json::option_text(self.value) }
    }
}

/// What a list of headers is.
pub open spec fn field_views(fields: Seq<HeaderField>) -> Seq<FieldV> {
    fields.map_values(|f: HeaderField| f@)
}

/// The headers that axum holds, in the order in which it walks them.
pub uninterp spec fn header_fields(headers: HeaderMap) -> Seq<FieldV>;

/// `HeaderMap::iter`, with `HeaderValue::to_str` on each value: every header,
/// once for each value, a value being text or not.
#[verifier::external_body]
pub(crate) fn list_headers(headers: &HeaderMap) -> (r: Vec<HeaderField>)
    ensures
        field_views(r@) == header_fields(*headers),
{
    headers.iter().map(|(name, value)| HeaderField {
        name: name.as_str().to_string(),
        value: value.to_str().ok().map(|s| s.to_string()),
    }).collect()
}

/// Whether some header has a name.
pub open spec fn named(fields: Seq<FieldV>, name: Seq<char>) -> bool {
    exists|i: int| 0 <= i < fields.len() && (#[trigger] fields[i]).name == name
}

/// `HeaderMap::contains_key` with a name in small letters: whether some header
/// has it.
#[verifier::external_body]
pub(crate) fn has_header(headers: &HeaderMap, name: &str) -> (r: bool)
    requires
        text::lowered(name@) == name@,
    ensures
        r == named(header_fields(*headers), name@),
{
    headers.contains_key(name)
}

} // verus!
