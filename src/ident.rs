//! Unique identifiers, carried as 128-bit values and written as text by the
//! uuid crate.
use vstd::prelude::*;
use vstd::arithmetic::power::pow;

verus! {

/// Lowercase hexadecimal digit of `d`, for `0 <= d < 16`.
pub open spec fn hex_digit(d: int) -> char {
    if d < 10 {
        ((d + 48) as u8) as char
    } else {
        ((d + 87) as u8) as char
    }
}

/// Hex digit `i` of `v`, counting from the most significant of its 32.
pub open spec fn nibble(v: u128, i: int) -> int {
    (v as int / pow(16, (31 - i) as nat)) % 16
}

/// Which hex digit stands at position `j` of the hyphenated text.
pub open spec fn digit_at(j: int) -> int {
    if j < 8 {
        j
    } else if j < 13 {
        j - 1
    } else if j < 18 {
        j - 2
    } else if j < 23 {
        j - 3
    } else {
        j - 4
    }
}

/// The hyphenated text of the identifier with bits `v`: its 32 lowercase
/// hex digits, most significant first, in groups of 8, 4, 4, 4 and 12
/// joined by '-'.
pub open spec fn uuid_hyphenated(v: u128) -> Seq<char> {
    Seq::new(
        36,
        |j: int|
            if j == 8 || j == 13 || j == 18 || j == 23 {
                '-'
            } else {
                hex_digit(nibble(v, digit_at(j)))
            },
    )
}

/// The identifier that text `s` denotes, if it is one.
pub uninterp spec fn uuid_parsed(s: Seq<char>) -> Option<u128>;

/// Relies on uuid's `Uuid::from_u128` (big-endian bytes) and the `Display`
/// of `Uuid::to_hyphenated` (lowercase hex in 8-4-4-4-12 groups), and on
/// `Uuid::parse_str` reading that form back, as its documentation says.
#[verifier::external_body]
pub(crate) fn hyphenated_text(v: u128) -> (r: String)
    ensures
        r@ == uuid_hyphenated(v),
        uuid_parsed(r@) == Some(v),
{
    uuid::Uuid::from_u128(v).to_hyphenated().to_string()
}

/// Relies on uuid's `Uuid::parse_str` and `Uuid::as_u128`: the identifier
/// that the text denotes, a function of the text alone.
#[verifier::external_body]
pub(crate) fn parse_uuid_text(s: &str) -> (r: Option<u128>)
    ensures
        r == uuid_parsed(s@),
{
    match uuid::Uuid::parse_str(s) {
        Ok(u) => Some(u.as_u128()),
        Err(_) => None,
    }
}

} // verus!
