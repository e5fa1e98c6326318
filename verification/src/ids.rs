//! Identifier and clock sources: random UUIDs and the current UTC time.

use vstd::prelude::*;

verus! {

/// A lower-case hexadecimal digit.
pub open spec fn is_lower_hex(c: char) -> bool {
    ('0' <= c && c <= '9') || ('a' <= c && c <= 'f')
}

/// The hyphenated textual form of a UUID: 36 characters, hyphens at
/// positions 8, 13, 18 and 23, lower-case hexadecimal digits elsewhere.
pub open spec fn is_hyphenated_uuid(s: Seq<char>) -> bool {
    &&& s.len() == 36
    &&& forall|i: int|
        0 <= i < 36 ==> if i == 8 || i == 13 || i == 18 || i == 23 {
            s[i] == '-'
        } else {
            is_lower_hex(#[trigger] s[i])
        }
}

/// A version-4 UUID of the RFC 4122 variant in hyphenated form: the
/// version digit (position 14) is `4`, and the variant digit (position 19)
/// is one of `8`, `9`, `a`, `b`.
pub open spec fn is_uuid_v4(s: Seq<char>) -> bool {
    &&& is_hyphenated_uuid(s)
    &&& s[14] == '4'
    &&& (s[19] == '8' || s[19] == '9' || s[19] == 'a' || s[19] == 'b')
}

/// `uuid::Uuid::new_v4()` rendered with `to_string()`: random bits with the
/// version nibble set to 4 and the two top variant bits set to `10`,
/// written in hyphenated lower-case form. Which UUID comes back is left
/// open.
#[verifier::external_body]
pub(crate) fn new_uuid_string() -> (s: String)
    ensures
        is_uuid_v4(s@),
{
    uuid::Uuid::new_v4().to_string()
}

/// `chrono::Utc::now()` rendered with `to_rfc3339()`. The instant is the
/// clock's, so nothing is stated of the text.
#[verifier::external_body]
pub(crate) fn now_rfc3339() -> (s: String) {
    chrono::Utc::now().to_rfc3339()
}

} // verus!
