//! Fresh identifiers for new entities, events and operations.
use vstd::prelude::*;

verus! {

/// A character of the Crockford base32 alphabet ULIDs are written in.
pub open spec fn is_ulid_char(c: char) -> bool {
    ('0' <= c <= '9') || ('A' <= c <= 'H') || c == 'J' || c == 'K' || c == 'M' || c == 'N' || (
    'P' <= c <= 'T') || ('V' <= c <= 'Z')
}

/// A ULID in its text form.
pub open spec fn is_ulid_text(s: Seq<char>) -> bool {
    s.len() == 26 && forall|i: int| 0 <= i < 26 ==> is_ulid_char(#[trigger] s[i])
}

/// `ulid::Ulid::new().to_string()`: a fresh ULID built from the current
/// time and random bits. The crate encodes it as exactly 26 characters of
/// its base32 alphabet (`base32::encode`); which ULID comes out depends on
/// the clock and the random source, so nothing more is claimed.
#[verifier::external_body]
pub(crate) fn new_ulid() -> (r: String)
    ensures
        is_ulid_text(r@),
{
    ulid::Ulid::new().to_string()
}

} // verus!
