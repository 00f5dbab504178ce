//! Short lists of task numbers.

use smallvec::SmallVec;
use vstd::prelude::*;

verus! {

/// A list of task numbers that stays on the stack while it is short.
#[verifier::external_body]
pub struct TaskList {
    inner: SmallVec<[usize; 64]>,
}

/// The task numbers that `list` holds, in order.
pub uninterp spec fn task_ids(list: TaskList) -> Seq<usize>;

/// `SmallVec::new`: a list that holds nothing.
#[verifier::external_body]
pub(crate) fn task_list_new() -> (list: TaskList)
    ensures
        task_ids(list) == Seq::<usize>::empty(),
{
    TaskList { inner: SmallVec::new() }
}

/// `SmallVec::push`: puts `id` behind what the list already holds.
#[verifier::external_body]
pub(crate) fn task_list_push(list: &mut TaskList, id: usize)
    ensures
        task_ids(*final(list)) == task_ids(*old(list)).push(id),
{
    list.inner.push(id)
}

/// `SmallVec::as_slice`: what the list holds, as a slice.
#[verifier::external_body]
pub(crate) fn task_list_as_slice(list: &TaskList) -> (ids: &[usize])
    ensures
        ids@ == task_ids(*list),
{
    list.inner.as_slice()
}

/// What one more element adds to a prefix.
pub(crate) proof fn lemma_take_contains(list: Seq<usize>, k: int, id: usize)
    requires
        0 <= k < list.len(),
    ensures
        list.take(k + 1).contains(id) <==> list.take(k).contains(id) || list[k] == id,
{
    let short = list.take(k);
    let long = list.take(k + 1);
    if short.contains(id) {
        let j = choose|j: int| 0 <= j < short.len() && short[j] == id;
        assert(long[j] == id);
    }
    assert(long[k] == list[k]);
    if long.contains(id) {
        let j = choose|j: int| 0 <= j < long.len() && long[j] == id;
        if j < k {
            assert(short[j] == id);
        }
    }
}

/// A list without duplicates is as long as the set of what it holds.
pub(crate) proof fn lemma_list_len(list: Seq<usize>, set: Set<int>)
    requires
        list.no_duplicates(),
        forall|p: int| #[trigger]
            set.contains(p) <==> 0 <= p <= usize::MAX && list.contains(p as usize),
    ensures
        set.len() == list.len(),
{
    let ids = list.map_values(|p: usize| p as int);
    ids.unique_seq_to_set();
    assert(ids.to_set() =~= set) by {
        assert forall|p: int| ids.to_set().contains(p) == set.contains(p) by {
            if set.contains(p) {
                let i = choose|i: int| 0 <= i < list.len() && list[i] == p as usize;
                assert(ids[i] == p);
            }
            if ids.contains(p) {
                let i = choose|i: int| 0 <= i < ids.len() && ids[i] == p;
                assert(list[i] == p as usize);
                assert(list.contains(p as usize));
            }
        }
    }
}

} // verus!
