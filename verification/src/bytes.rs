//! Small operations on byte arrays that the other modules share.

use vstd::prelude::*;

verus! {

/// Copies the `N` bytes of `bytes` that start at `start` into an array.
pub fn take_array<const N: usize>(bytes: &[u8], start: usize) -> (out: [u8; N])
    requires
        start + N <= bytes@.len(),
    ensures
        out@ == bytes@.subrange(start as int, start + N),
{
    let len: usize = bytes.len();
    let mut out: [u8; N] = [0u8; N];
    let mut i: usize = 0;
    while i < N
        invariant
            i <= N,
            len == bytes@.len(),
            start + N <= len,
            forall|k: int| 0 <= k < i ==> out@[k] == bytes@[start + k],
        decreases N - i,
    {
        out[i] = bytes[start + i];
        i = i + 1;
    }
    out
}

/// Whether two slices hold the same bytes.
pub fn same_bytes(a: &[u8], b: &[u8]) -> (same: bool)
    ensures
        same == (a@ == b@),
{
    if a.len() != b.len() {
        return false;
    }
    let mut i: usize = 0;
    while i < a.len()
        invariant
            i <= a@.len(),
            a@.len() == b@.len(),
            forall|k: int| 0 <= k < i ==> a@[k] == b@[k],
        decreases a@.len() - i,
    {
        if a[i] != b[i] {
            return false;
        }
        i = i + 1;
    }
    assert(a@ =~= b@);
    true
}

} // verus!
