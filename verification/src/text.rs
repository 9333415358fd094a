//! Byte classifications for the wire format, byte-string equality,
//! and the UTF-8 validity check.

use vstd::prelude::*;
use vstd::utf8::valid_utf8;

verus! {

/// The field delimiter of the wire format: `'|'`.
pub const SEP: u8 = 124;

/// ASCII decimal digit: `'0'..='9'`.
pub open spec fn is_digit(b: u8) -> bool {
    48 <= b <= 57
}

/// ASCII upper-case letter.
pub open spec fn is_upper(b: u8) -> bool {
    65 <= b <= 90
}

/// ASCII lower-case letter.
pub open spec fn is_lower(b: u8) -> bool {
    97 <= b <= 122
}

/// A byte of the standard base64 alphabet, `'='` padding included:
/// letters, digits, `'+'`, `'/'`, `'='`.
pub open spec fn is_base64_byte(b: u8) -> bool {
    is_upper(b) || is_lower(b) || is_digit(b) || b == 43 || b == 47 || b == 61
}

/// A byte of the black hole format, the fixed alphabet that level
/// payloads (tiles and objects) are written in: the base64 bytes
/// plus `'!'`.
pub open spec fn is_black_hole_byte(b: u8) -> bool {
    is_base64_byte(b) || b == 33
}

/// Every byte of `s` is drawn from the black hole alphabet.
pub open spec fn all_black_hole(s: Seq<u8>) -> bool {
    forall|i: int| 0 <= i < s.len() ==> is_black_hole_byte(s[i])
}

/// Every byte of `s` is an ASCII decimal digit.
pub open spec fn all_digits(s: Seq<u8>) -> bool {
    forall|i: int| 0 <= i < s.len() ==> is_digit(s[i])
}

/// Runtime test for membership in the black hole alphabet.
pub fn black_hole_byte(b: u8) -> (r: bool)
    ensures
        r == is_black_hole_byte(b),
{
    (65 <= b && b <= 90) || (97 <= b && b <= 122) || (48 <= b && b <= 57) || b == 43 || b == 47
        || b == 61 || b == 33
}

/// Runtime test that a whole byte string stays inside the black hole
/// alphabet.
pub fn check_black_hole(s: &[u8]) -> (r: bool)
    ensures
        r == all_black_hole(s@),
{
    let mut i: usize = 0;
    while i < s.len()
        invariant
            0 <= i <= s@.len(),
            forall|j: int| 0 <= j < i ==> is_black_hole_byte(s@[j]),
        decreases s@.len() - i,
    {
        if !black_hole_byte(s[i]) {
            return false;
        }
        i = i + 1;
    }
    true
}

/// Byte-string equality.
pub fn bytes_eq(a: &[u8], b: &[u8]) -> (r: bool)
    ensures
        r == (a@ == b@),
{
    if a.len() != b.len() {
        return false;
    }
    let mut i: usize = 0;
    while i < a.len()
        invariant
            a@.len() == b@.len(),
            0 <= i <= a@.len(),
            forall|j: int| 0 <= j < i ==> a@[j] == b@[j],
        decreases a@.len() - i,
    {
        if a[i] != b[i] {
            return false;
        }
        i = i + 1;
    }
    proof {
        assert(a@ =~= b@);
    }
    true
}

/// Relies on `core::str::from_utf8`, which succeeds exactly on valid
/// UTF-8 byte strings; `vstd::utf8::valid_utf8` is the specification
/// of that validity.
#[verifier::external_body]
pub fn is_valid_utf8(b: &[u8]) -> (r: bool)
    ensures
        r == valid_utf8(b@),
{
    core::str::from_utf8(b).is_ok()
}

} // verus!
