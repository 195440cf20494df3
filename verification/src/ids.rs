//! Random identifiers.
use crate::text;
use vstd::prelude::*;

verus! {

/// Whether a character is a hexadecimal digit, with small letters.
pub open spec fn small_hex(c: char) -> bool {
    '0' <= c <= '9' || 'a' <= c <= 'f'
}

/// Whether a text has the form of a random identifier: hexadecimal digits in
/// groups of 8, 4, 4, 4 and 12 with hyphens between, the third group with a 4
/// at its head.
pub open spec fn uuid_form(s: Seq<char>) -> bool {
    &&& s.len() == 36
    &&& s[14] == '4'
    &&& forall|i: int|
        0 <= i < 36 ==> if i == 8 || i == 13 || i == 18 || i == 23 {
            #[trigger] s[i] == '-'
        } else {
            small_hex(s[i])
        }
}

/// `Uuid::new_v4` as text: random, and always of the form of such an
/// identifier.
#[verifier::external_body]
pub(crate) fn fresh_uuid() -> (r: String)
    ensures
        uuid_form(r@),
{
    uuid::Uuid::new_v4().to_string()
}

/// The first group of an identifier.
pub fn short_form(uuid: &str) -> (r: &str)
    requires
        uuid@.len() >= 8,
    ensures
        r@ == uuid@.take(8),
{
    let r = uuid.substring_char(0, 8);
    assert(r@ =~= uuid@.take(8));
    r
}

} // verus!
