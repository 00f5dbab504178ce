//! Taking the replies of workers.

use crate::arrays::{copied, same_key};
use crate::bindings::{
    CheckResponse, Reply, Responses, Returned, TransactionRegion, MAX_WORKING_SLOT_EXCEEDED,
    PROCESSED, RESOLVE_FAILED, RESOLVE_PERFORMED,
};
use crate::validator::schedule::conflict::{follows, followers, lemma_followers, lemma_follows_older};
use crate::validator::schedule::model::TaskState;
use crate::validator::schedule::validity::lemma_waiting_finite;
use crate::validator::schedule::{ResolvedKeys, Schedule, Task};
use crate::task_list::lemma_take_contains;
use crate::tx_map::{tx_map_get, tx_map_index_of};
use vstd::prelude::*;

verus! {

impl Schedule {
    /// Marks a task as executed, and fires its successors. Returns its region.
    fn handle_execution_response(&mut self, idx: usize) -> (freed: TransactionRegion)
        requires
            old(self).wf(),
            idx < old(self)@.tasks.len(),
            old(self)@.tasks[idx as int].state == TaskState::Assigned,
        ensures
            final(self).wf(),
            final(self)@ == old(self)@.finish(idx as int),
            freed == old(self)@.entries[idx as int].1,
    {
        let ghost was = self@;
        let ghost moved = was.with_state(idx as int, TaskState::Done);
        let ghost pred = |s: usize| moved.is_ready(s as int);
        let ghost tasks0 = self.tasks@;
        assert(was.tasks[idx as int] == tasks0[idx as int]@);
        self.tasks[idx].state = TaskState::Done;
        let mut successors: Vec<usize> = Vec::new();
        std::mem::swap(&mut successors, &mut self.tasks[idx].successors);
        let ghost tasks1 = self.tasks@;
        let ghost before = *self;
        proof {
            lemma_followers(was.accesses, idx as int, was.cursor());
            was.lemma_finish_wf(idx as int);
        }
        assert(successors@.take(0).filter(pred) =~= Seq::empty()) by {
            reveal(Seq::filter);
        }
        assert forall|i: int| 0 <= i < successors@.len() implies idx < (#[trigger] successors@[i])
            < was.cursor() && follows(was.accesses, idx as int, successors@[i] as int) by {
            assert(successors@.contains(successors@[i]));
        }
        let mut k: usize = 0;
        while k < successors.len()
            invariant
                k <= successors@.len(),
                was.wf(),
                before.cursor == was.cursor(),
                was.tasks[idx as int].state == TaskState::Assigned,
                idx < was.cursor() <= was.tasks.len(),
                was.tasks.len() == tasks0.len() == tasks1.len() == self.tasks@.len(),
                moved == was.with_state(idx as int, TaskState::Done),
                pred == |s: usize| moved.is_ready(s as int),
                forall|t: int| 0 <= t < tasks0.len() ==> was.tasks[t] == (#[trigger] tasks0[t])@,
                forall|t: int|
                    0 <= t < was.cursor() ==> (#[trigger] tasks0[t]).pending == was.waiting_on(
                        t,
                    ).len(),
                forall|t: int|
                    0 <= t < tasks0.len() && t != idx ==> (#[trigger] tasks1[t]) == tasks0[t],
                tasks1[idx as int].pending == tasks0[idx as int].pending,
                successors@ == followers(was.accesses, idx as int, was.cursor()),
                successors@.no_duplicates(),
                forall|i: int|
                    0 <= i < successors@.len() ==> idx < (#[trigger] successors@[i])
                        < was.cursor() && follows(was.accesses, idx as int, successors@[i] as int),
                *self == (Schedule { tasks: self.tasks, ready: self.ready, ..before }),
                before.ready@ == was.ready,
                self.ready@ =~= was.ready + successors@.take(k as int).filter(pred),
                forall|t: int|
                    0 <= t < tasks1.len() ==> (#[trigger] self.tasks@[t]) == (Task {
                        pending: if successors@.take(k as int).contains(t as usize) {
                            (tasks1[t].pending - 1) as usize
                        } else {
                            tasks1[t].pending
                        },
                        ..tasks1[t]
                    }),
            decreases successors.len() - k,
        {
            let s: usize = successors[k];
            proof {
                lemma_waiting_finite(was, s as int);
                assert(was.tasks[idx as int] == tasks0[idx as int]@);
                assert(was.waiting_on(s as int).contains(idx as int));
                was.lemma_finish_waiting(idx as int, s as int);
                lemma_waiting_finite(moved, s as int);
                assert(!successors@.take(k as int).contains(s));
                assert(self.tasks@[s as int].pending == was.waiting_on(s as int).len());
                assert(moved.waiting_on(s as int).len() == was.waiting_on(s as int).len() - 1);
                assert(moved.waiting_on(s as int).len() == 0 <==> moved.waiting_on(s as int)
                    =~= Set::empty());
                assert(was.tasks[s as int] == tasks0[s as int]@);
                assert(moved.tasks[s as int] == was.tasks[s as int]);
                assert(successors@.take(k + 1).drop_last() =~= successors@.take(k as int));
                assert(successors@.take(k + 1).filter(pred) == if pred(s) {
                    successors@.take(k as int).filter(pred).push(s)
                } else {
                    successors@.take(k as int).filter(pred)
                }) by {
                    reveal(Seq::filter);
                }
            }
            let pending: usize = self.tasks[s].pending - 1;
            self.tasks[s].pending = pending;
            if self.tasks[s].state == TaskState::Resolved && pending == 0 {
                self.ready.push_back(s);
            }
            proof {
                assert forall|t: int| 0 <= t < tasks1.len() implies (#[trigger] self.tasks@[t])
                    == (Task {
                    pending: if successors@.take(k + 1).contains(t as usize) {
                        (tasks1[t].pending - 1) as usize
                    } else {
                        tasks1[t].pending
                    },
                    ..tasks1[t]
                }) by {
                    lemma_take_contains(successors@, k as int, t as usize);
                }
            }
            k = k + 1;
        }
        assert(successors@.take(k as int) =~= successors@);
        proof {
            let v = was.finish(idx as int);
            assert(self@.tasks =~= v.tasks);
            assert(self@.ready =~= v.ready);
            assert(self@ == v);
            assert forall|t: int| 0 <= t < self.cursor implies (
            #[trigger] self.tasks@[t]).successors@ == v.successors(t) && self.tasks@[t].pending
                == v.waiting_on(t).len() by {
                was.lemma_finish_waiting(idx as int, t);
                lemma_waiting_finite(was, t);
                assert(v.waiting_on(t) =~= moved.waiting_on(t));
                assert(successors@.contains(t as usize) <==> was.waiting_on(t).contains(
                    idx as int,
                )) by {
                    if follows(was.accesses, idx as int, t) {
                        lemma_follows_older(was.accesses, idx as int, t);
                    }
                }
            }
        }
        tx_map_get(&self.map, idx).unwrap().1
    }

    /// Takes a CHECK response: its keys on success. Returns the region of a task that was
    /// refused.
    fn handle_check_response(&mut self, idx: usize, response: &CheckResponse) -> (freed: Option<
        TransactionRegion,
    >)
        requires
            old(self).wf(),
            idx < old(self)@.tasks.len(),
            old(self)@.tasks[idx as int].state == TaskState::Unresolved,
        ensures
            final(self).wf(),
            final(self)@ == old(self)@.checked(idx as int, response.outcome()),
            freed == (if response.outcome() is Some {
                None
            } else {
                Some(old(self)@.entries[idx as int].1)
            }),
    {
        let ghost was = self@;
        let ghost tasks0 = self.tasks@;
        let mut freed = None;
        assert(was.tasks[idx as int] == tasks0[idx as int]@);
        if response.resolve_flags & (RESOLVE_PERFORMED | RESOLVE_FAILED) == RESOLVE_PERFORMED {
            let keys = copied(&response.keys);
            self.tasks[idx].alt_pubkeys = Some(
                ResolvedKeys { region: response.resolved_pubkeys, keys },
            );
        } else {
            self.tasks[idx].state = TaskState::Done;
            freed = Some(tx_map_get(&self.map, idx).unwrap().1);
        }
        proof {
            was.lemma_checked_wf(idx as int, response.outcome());
            let v = was.checked(idx as int, response.outcome());
            assert(self@.tasks =~= v.tasks);
            assert(self@ == v);
            assert forall|t: int| 0 <= t < self.cursor implies (
            #[trigger] self.tasks@[t]).successors@ == v.successors(t) && self.tasks@[t].pending
                == v.waiting_on(t).len() by {
                assert(v.waiting_on(t) =~= was.waiting_on(t));
                assert(self.tasks@[t] == tasks0[t]);
                assert(was.tasks[t] == v.tasks[t]);
            }
        }
        freed
    }

    /// Takes a worker's reply. Returns the regions of the transactions that are done with.
    pub fn handle_response(&mut self, reply: &Reply) -> (freed: Vec<TransactionRegion>)
        requires
            old(self).wf(),
            old(self)@.accepts(*reply),
        ensures
            final(self).wf(),
            final(self)@ == old(self)@.after(*reply),
            freed@ == old(self)@.frees(*reply),
    {
        let ghost was = self@;
        self.inflight = self.inflight - 1;
        let ghost start = was.answered();
        let mut freed: Vec<TransactionRegion> = Vec::new();
        proof {
            was.lemma_answered_wf();
            assert(self@.tasks =~= start.tasks);
            assert(self@ == start);
            assert forall|t: int| 0 <= t < self.cursor implies (
            #[trigger] self.tasks@[t]).successors@ == start.successors(t) && self.tasks@[t].pending
                == start.waiting_on(t).len() by {
                assert(start.waiting_on(t) =~= was.waiting_on(t));
            }
            assert(self.wf());
        }
        if reply.processed_code == MAX_WORKING_SLOT_EXCEEDED {
            return freed;
        }
        let ghost batch = reply.batch@;
        proof {
            assert forall|key: [u8; 64], state: TaskState| #[trigger]
                was.knows(key, state) implies start.knows(key, state) by {
                assert(was.task_of(key) == start.task_of(key));
            }
        }
        match &reply.responses {
            Responses::Execution(_) => {
                let mut k: usize = 0;
                while k < reply.batch.len()
                    invariant
                        k <= reply.batch@.len(),
                        batch == reply.batch@,
                        start.wf(),
                        start.entries == was.entries,
                        self.wf(),
                        self@ == start.finish_all(batch, k as nat),
                        forall|i: int|
                            0 <= i < batch.len() ==> start.knows(
                                (#[trigger] batch[i]).signature,
                                TaskState::Assigned,
                            ),
                        forall|i: int, j: int|
                            0 <= i < j < batch.len() ==> (#[trigger] batch[i]).signature != (
                            #[trigger] batch[j]).signature,
                        freed@ =~= Seq::new(
                            k as nat,
                            |i: int| was.entries[was.task_of(batch[i].signature)].1,
                        ),
                    decreases reply.batch.len() - k,
                {
                    let key = &reply.batch[k].signature;
                    proof {
                        start.lemma_finish_all_wf(batch, k as nat);
                        assert(batch[k as int].signature == key);
                        assert(self@.knows(*key, TaskState::Assigned));
                        assert(self@.task_of(*key) == start.task_of(*key));
                        assert(was.task_of(*key) == start.task_of(*key));
                    }
                    let id: usize = tx_map_index_of(&self.map, key).unwrap();
                    proof {
                        self@.lemma_task_of(id as int);
                    }
                    let region = self.handle_execution_response(id);
                    freed.push(region);
                    k = k + 1;
                }
            },
            Responses::Check(list) => {
                let ghost responses = list@;
                let mut k: usize = 0;
                while k < reply.batch.len()
                    invariant
                        k <= reply.batch@.len() == list@.len(),
                        batch == reply.batch@,
                        responses == list@,
                        start.wf(),
                        start.entries == was.entries,
                        self.wf(),
                        self@ == start.check_all(batch, responses, k as nat),
                        forall|i: int|
                            0 <= i < batch.len() ==> start.knows(
                                (#[trigger] batch[i]).signature,
                                TaskState::Unresolved,
                            ),
                        forall|i: int, j: int|
                            0 <= i < j < batch.len() && (#[trigger] batch[i]).signature == (
                            #[trigger] batch[j]).signature ==> responses[i].outcome() is Some,
                        freed@ =~= was.refused(batch, responses, k as nat),
                    decreases reply.batch.len() - k,
                {
                    let key = &reply.batch[k].signature;
                    proof {
                        start.lemma_check_all_wf(batch, responses, k as nat);
                        assert(batch[k as int].signature == key);
                        assert(self@.knows(*key, TaskState::Unresolved));
                        assert(self@.task_of(*key) == start.task_of(*key));
                        assert(was.task_of(*key) == start.task_of(*key));
                    }
                    let id: usize = tx_map_index_of(&self.map, key).unwrap();
                    proof {
                        self@.lemma_task_of(id as int);
                    }
                    if let Some(region) = self.handle_check_response(id, &list[k]) {
                        freed.push(region);
                    }
                    k = k + 1;
                }
            },
            Responses::Other(_) => {},
        }
        freed
    }

    /// Whether a worker may send `reply`.
    pub fn accepts(&self, reply: &Reply) -> (result: bool)
        requires
            self.wf(),
        ensures
            result == self@.accepts(*reply),
    {
        if self.inflight == 0 {
            return false;
        }
        if reply.processed_code == MAX_WORKING_SLOT_EXCEEDED {
            return true;
        }
        if reply.processed_code != PROCESSED {
            return false;
        }
        match &reply.responses {
            Responses::Execution(list) => list.len() == reply.batch.len() && self.all_known(
                &reply.batch,
                TaskState::Assigned,
            ) && Self::no_repeats(&reply.batch),
            Responses::Check(list) => list.len() == reply.batch.len() && self.all_known(
                &reply.batch,
                TaskState::Unresolved,
            ) && Self::repeats_passed(&reply.batch, list),
            Responses::Other(_) => false,
        }
    }

    /// Whether each of `batch` is known and in `state`.
    fn all_known(&self, batch: &Vec<Returned>, state: TaskState) -> (result: bool)
        requires
            self.wf(),
        ensures
            result == (forall|k: int|
                0 <= k < batch@.len() ==> self@.knows((#[trigger] batch@[k]).signature, state)),
    {
        let mut k: usize = 0;
        while k < batch.len()
            invariant
                k <= batch@.len(),
                self.wf(),
                forall|i: int|
                    0 <= i < k ==> self@.knows((#[trigger] batch@[i]).signature, state),
            decreases batch.len() - k,
        {
            let key = &batch[k].signature;
            match tx_map_index_of(&self.map, key) {
                None => {
                    assert(!self@.knows(batch@[k as int].signature, state));
                    return false;
                },
                Some(id) => {
                    proof {
                        self@.lemma_task_of(id as int);
                        assert(self@.tasks[id as int] == self.tasks@[id as int]@);
                    }
                    if self.tasks[id].state != state {
                        assert(!self@.knows(batch@[k as int].signature, state));
                        return false;
                    }
                },
            }
            k = k + 1;
        }
        true
    }

    /// Whether no signature occurs twice.
    fn no_repeats(batch: &Vec<Returned>) -> (result: bool)
        ensures
            result == (forall|i: int, k: int|
                0 <= i < k < batch@.len() ==> (#[trigger] batch@[i]).signature != (
                #[trigger] batch@[k]).signature),
    {
        let mut k: usize = 0;
        while k < batch.len()
            invariant
                k <= batch@.len(),
                forall|i: int, j: int|
                    0 <= i < j < k ==> (#[trigger] batch@[i]).signature != (
                    #[trigger] batch@[j]).signature,
            decreases batch.len() - k,
        {
            let mut i: usize = 0;
            while i < k
                invariant
                    i <= k < batch@.len(),
                    forall|j: int|
                        0 <= j < i ==> (#[trigger] batch@[j]).signature
                            != batch@[k as int].signature,
                decreases k - i,
            {
                if same_key(&batch[i].signature, &batch[k].signature) {
                    return false;
                }
                i = i + 1;
            }
            k = k + 1;
        }
        true
    }

    /// Whether of two responses for the same signature the first is not a refusal.
    fn repeats_passed(batch: &Vec<Returned>, list: &Vec<CheckResponse>) -> (result: bool)
        requires
            list@.len() == batch@.len(),
        ensures
            result == (forall|i: int, k: int|
                0 <= i < k < batch@.len() && (#[trigger] batch@[i]).signature == (
                #[trigger] batch@[k]).signature ==> list@[i].outcome() is Some),
    {
        let mut k: usize = 0;
        while k < batch.len()
            invariant
                k <= batch@.len() == list@.len(),
                forall|i: int, j: int|
                    0 <= i < j < k && (#[trigger] batch@[i]).signature == (
                    #[trigger] batch@[j]).signature ==> list@[i].outcome() is Some,
            decreases batch.len() - k,
        {
            let mut i: usize = 0;
            while i < k
                invariant
                    i <= k < batch@.len() == list@.len(),
                    forall|j: int|
                        0 <= j < i && (#[trigger] batch@[j]).signature
                            == batch@[k as int].signature ==> list@[j].outcome() is Some,
                decreases k - i,
            {
                let resolved = list[i].resolve_flags & (RESOLVE_PERFORMED | RESOLVE_FAILED)
                    == RESOLVE_PERFORMED;
                assert(resolved == (list@[i as int].outcome() is Some));
                if !resolved && same_key(&batch[i].signature, &batch[k].signature) {
                    return false;
                }
                i = i + 1;
            }
            k = k + 1;
        }
        true
    }
}

} // verus!
