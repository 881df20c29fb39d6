//! Fixed-size byte strings.
use vstd::prelude::*;

verus! {

/// The array that holds `bytes`.
pub open spec fn array_of<const N: usize>(bytes: Seq<u8>) -> [u8; N] {
    choose|array: [u8; N]| array@ == bytes
}

/// An array is what it holds.
pub proof fn array_of_view<const N: usize>(array: [u8; N])
    ensures
        array_of::<N>(array@) == array,
        array.deep_view() == array@,
{
    let other = array_of::<N>(array@);
    assert(other@ == array@);
    assert(other =~= array);
    assert(array.deep_view() =~= array@);
}

/// Whether two arrays hold the same bytes.
pub fn same_bytes<const N: usize>(left: &[u8; N], right: &[u8; N]) -> (same: bool)
    ensures
        same == (*left == *right),
{
    let mut at: usize = 0;
    while at < N
        invariant
            at <= N,
            forall|i: int| 0 <= i < at ==> left@[i] == right@[i],
        decreases N - at,
    {
        if left[at] != right[at] {
            assert(left@[at as int] != right@[at as int]);
            return false;
        }
        at += 1;
    }
    assert(*left =~= *right);
    true
}

/// Whether two byte strings are the same.
pub fn same_slices(left: &[u8], right: &[u8]) -> (same: bool)
    ensures
        same == (left@ == right@),
{
    if left.len() != right.len() {
        return false;
    }
    let mut at: usize = 0;
    while at < left.len()
        invariant
            at <= left@.len(),
            left@.len() == right@.len(),
            forall|i: int| 0 <= i < at ==> left@[i] == right@[i],
        decreases left.len() - at,
    {
        if left[at] != right[at] {
            assert(left@[at as int] != right@[at as int]);
            return false;
        }
        at += 1;
    }
    assert(left@ =~= right@);
    true
}

/// Copies a slice into an array.
pub fn to_array<const N: usize>(bytes: &[u8]) -> (array: [u8; N])
    requires
        bytes@.len() == N,
    ensures
        array@ == bytes@,
        array == array_of::<N>(bytes@),
{
    let mut array = [0u8; N];
    let mut at: usize = 0;
    while at < N
        invariant
            at <= N,
            bytes@.len() == N,
            forall|i: int| 0 <= i < at ==> array@[i] == bytes@[i],
        decreases N - at,
    {
        array[at] = bytes[at];
        at += 1;
    }
    assert(array@ =~= bytes@);
    proof {
        array_of_view(array);
    }
    array
}

} // verus!
