//! Fresh session ids.
use vstd::prelude::*;
use crate::lists::Text;

verus! {

/// A digit, or a letter from `a` to `f`.
pub open spec fn is_hex_digit(c: char) -> bool {
    ('0' <= c && c <= '9') || ('a' <= c && c <= 'f')
}

/// The written form of a random UUID: 32 lower-case hexadecimal digits in
/// groups of 8, 4, 4, 4 and 12 with a hyphen between groups, where the third
/// group begins with `4` and the fourth with `8`, `9`, `a` or `b`.
pub open spec fn is_session_id(id: Text) -> bool {
    &&& id.len() == 36
    &&& forall|i: int|
        0 <= i < 36 ==> if i == 8 || i == 13 || i == 18 || i == 23 {
            #[trigger] id[i] == '-'
        } else {
            is_hex_digit(id[i])
        }
    &&& id[14] == '4'
    &&& (id[19] == '8' || id[19] == '9' || id[19] == 'a' || id[19] == 'b')
}

/// Calls `uuid::Uuid::new_v4` and writes the result out with `to_string`.
///
/// Trusted, not proved: the text has the hyphenated lower-case form of a
/// version 4 UUID of the RFC variant. Nothing is claimed of which id comes
/// out: two calls may give any two ids. The call stops the program if the
/// operating system can give no random bytes.
#[verifier::external_body]
pub(crate) fn random_session_id() -> (id: String)
    ensures
        is_session_id(id@),
{
    uuid::Uuid::new_v4().to_string()
}

} // verus!
