//! New identifiers.

use vstd::prelude::*;
use vstd::utf8::is_ascii_chars;

verus! {

/// `uuid::Uuid::new_v4` in its usual text form: 36 characters, hexadecimal digits and hyphens,
/// all of them ASCII. Which ones is left to chance.
#[verifier::external_body]
pub(crate) fn new_uuid() -> (r: String)
    ensures
        r@.len() == 36,
        is_ascii_chars(r@),
{
    uuid::Uuid::new_v4().to_string()
}

} // verus!
