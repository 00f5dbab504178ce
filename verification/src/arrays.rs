//! Comparing and copying.

use vstd::prelude::*;

verus! {

/// Whether two keys are the same.
pub(crate) fn same_key<const N: usize>(a: &[u8; N], b: &[u8; N]) -> (result: bool)
    ensures
        result == (*a == *b),
{
    let mut i: usize = 0;
    while i < N
        invariant
            i <= N,
            forall|j: int| 0 <= j < i ==> a@[j] == b@[j],
        decreases N - i,
    {
        if a[i] != b[i] {
            return false;
        }
        i = i + 1;
    }
    assert(*a =~= *b);
    true
}

/// A copy of a list.
pub(crate) fn copied<T: Copy>(list: &Vec<T>) -> (result: Vec<T>)
    ensures
        result@ == list@,
{
    let mut result: Vec<T> = Vec::new();
    let mut i: usize = 0;
    while i < list.len()
        invariant
            i <= list@.len(),
            result@ =~= list@.take(i as int),
        decreases list.len() - i,
    {
        result.push(list[i]);
        i = i + 1;
    }
    assert(result@ =~= list@);
    result
}

} // verus!
