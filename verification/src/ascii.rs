//! Byte-level ASCII helpers: case folding, whitespace, and the header-value
//! character test.  Host names and header names compare case-insensitively
//! in HTTP, which on the wire means folding the ASCII letters only.

use vstd::prelude::*;

verus! {

/// Folds one ASCII upper-case letter to lower case; other bytes unchanged.
pub open spec fn fold_byte(b: u8) -> u8 {
    if 65 <= b && b <= 90 {
        (b + 32) as u8
    } else {
        b
    }
}

/// Pointwise ASCII case folding of a byte string.
pub open spec fn fold(s: Seq<u8>) -> Seq<u8> {
    s.map_values(|b: u8| fold_byte(b))
}

/// Two byte strings are equal up to ASCII case.
pub open spec fn eq_fold(a: Seq<u8>, b: Seq<u8>) -> bool {
    fold(a) == fold(b)
}

/// A byte that may appear in an HTTP header value: horizontal tab or any
/// byte from space upward except delete.
pub open spec fn is_value_byte(b: u8) -> bool {
    b == 9 || (32 <= b && b != 127)
}

/// Every byte of `s` may appear in a header value.
pub open spec fn valid_value(s: Seq<u8>) -> bool {
    forall|i: int| 0 <= i < s.len() ==> is_value_byte(#[trigger] s[i])
}

/// Executable ASCII case fold of one byte.
pub fn fold_byte_x(b: u8) -> (r: u8)
    ensures
        r == fold_byte(b),
{
    if 65 <= b && b <= 90 {
        b + 32
    } else {
        b
    }
}

/// Case-insensitive equality of two byte strings.
pub fn eq_ignore_case(a: &[u8], b: &[u8]) -> (r: bool)
    ensures
        r == eq_fold(a@, b@),
{
    if a.len() != b.len() {
        assert(fold(a@).len() != fold(b@).len());
        return false;
    }
    let n = a.len();
    let mut i: usize = 0;
    while i < n
        invariant
            n == a@.len() == b@.len(),
            0 <= i <= n,
            forall|j: int| 0 <= j < i ==> fold_byte(a@[j]) == fold_byte(b@[j]),
        decreases n - i,
    {
        if fold_byte_x(a[i]) != fold_byte_x(b[i]) {
            assert(fold(a@)[i as int] != fold(b@)[i as int]);
            return false;
        }
        i += 1;
    }
    assert(fold(a@) =~= fold(b@));
    true
}

/// Whether every byte of `s` may appear in an HTTP header value.
pub fn is_valid_value(s: &[u8]) -> (r: bool)
    ensures
        r == valid_value(s@),
{
    let n = s.len();
    let mut i: usize = 0;
    while i < n
        invariant
            n == s@.len(),
            0 <= i <= n,
            forall|j: int| 0 <= j < i ==> is_value_byte(#[trigger] s@[j]),
        decreases n - i,
    {
        let b = s[i];
        if !(b == 9 || (32 <= b && b != 127)) {
            return false;
        }
        i += 1;
    }
    true
}

} // verus!
