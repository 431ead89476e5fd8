//! ASCII case folding on single bytes.

use vstd::prelude::*;

verus! {

/// The byte with an ASCII upper-case letter replaced by its lower-case form.
pub open spec fn ascii_lowercase(b: u8) -> u8 {
    if 0x41 <= b <= 0x5a {
        (b + 0x20) as u8
    } else {
        b
    }
}

/// Two bytes are equal once ASCII letters are folded to one case.
pub open spec fn eq_ignore_ascii_case(a: u8, b: u8) -> bool {
    ascii_lowercase(a) == ascii_lowercase(b)
}

/// Folds an ASCII upper-case letter to lower case and leaves any other byte alone.
fn to_ascii_lowercase(b: u8) -> (folded: u8)
    ensures
        folded == ascii_lowercase(b),
{
    if 0x41 <= b && b <= 0x5a {
        b + 0x20
    } else {
        b
    }
}

/// Compares two optional bytes without regard to ASCII case. An absent byte
/// equals nothing, not even another absent byte.
pub fn maybe_u8_eq_ignore_ascii_case(maybe_b1: Option<&u8>, maybe_b2: Option<&u8>) -> (equal: bool)
    ensures
        equal == match (maybe_b1, maybe_b2) {
            (Some(b1), Some(b2)) => eq_ignore_ascii_case(*b1, *b2),
            _ => false,
        },
{
    match (maybe_b1, maybe_b2) {
        (Some(b1), Some(b2)) => to_ascii_lowercase(*b1) == to_ascii_lowercase(*b2),
        _ => false,
    }
}

} // verus!
