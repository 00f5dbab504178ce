//! Building batches and sending them to workers.

use crate::bindings::{
    message_views, PackMessage, PackMessageSpec, PubkeysRegion, TransactionRegion, CHECK, EXECUTE,
    LOAD_ADDRESS_LOOKUP_TABLES, MAX_TRANSACTIONS_PER_MESSAGE, MAX_WORKERS,
};
use crate::validator::schedule::conflict::lemma_followers;
use crate::validator::schedule::model::{Sent, TaskState};
use crate::validator::schedule::{list_contains, Schedule, Task};
use crate::task_list::{
    lemma_take_contains, task_ids, task_list_as_slice, task_list_new, task_list_push, TaskList,
};
use crate::tx_map::tx_map_get;
use vstd::prelude::*;

verus! {

impl Schedule {
    /// Appends to `batch` what waits for `parent` alone.
    fn extend_chain(&self, parent: usize, batch: &mut TaskList)
        requires
            self.wf(),
            parent < self@.cursor(),
        ensures
            task_ids(*final(batch)) == self@.extend(
                self@.successors(parent as int),
                0,
                task_ids(*old(batch)),
            ),
    {
        let list = &self.tasks[parent].successors;
        let ghost goal = self@.extend(list@, 0, task_ids(*batch));
        let mut k: usize = 0;
        while k < list.len()
            invariant
                self.wf(),
                parent < self@.cursor(),
                k <= list@.len(),
                list@ == self@.successors(parent as int),
                goal == self@.extend(list@, k as nat, task_ids(*batch)),
            ensures
                task_ids(*batch) == goal,
            decreases list.len() - k,
        {
            if task_list_as_slice(batch).len() >= MAX_TRANSACTIONS_PER_MESSAGE {
                break;
            }
            let s: usize = list[k];
            proof {
                lemma_followers(self@.accesses, parent as int, self@.cursor());
                assert(self@.tasks[s as int] == self.tasks@[s as int]@);
            }
            if self.tasks[s].state == TaskState::Resolved && self.tasks[s].pending == 1
                && !list_contains(task_list_as_slice(batch), s) {
                task_list_push(batch, s);
            }
            k = k + 1;
        }
    }

    /// Builds a batch for a worker: descendants of the worker's last task that wait for nothing
    /// else, then ready tasks and their descendants. Returns the batch, and how many ready tasks
    /// it takes.
    fn build_batch(&self, worker: usize) -> (result: (TaskList, usize))
        requires
            self.wf(),
            worker < self@.tails.len(),
        ensures
            task_ids(result.0) == self@.batch(worker as int).0,
            result.1 == self@.batch(worker as int).1,
    {
        let mut batch = task_list_new();
        let mut ready_idx: usize = 0;
        let mut explore_idx: usize = 0;
        let ghost tail = self@.tails[worker as int];
        proof {
            self@.lemma_batch_start(worker as int);
        }
        if let Some(last) = self.tails[worker] {
            self.extend_chain(last, &mut batch);
        }
        while task_list_as_slice(&batch).len() < MAX_TRANSACTIONS_PER_MESSAGE
            invariant
                self.wf(),
                worker < self@.tails.len(),
                self@.sound_batch(tail, task_ids(batch), ready_idx as nat),
                explore_idx <= task_ids(batch).len(),
                self@.batch(worker as int) == self@.grow(
                    task_ids(batch),
                    explore_idx as nat,
                    ready_idx as nat,
                ),
            ensures
                self@.batch(worker as int) == (task_ids(batch), ready_idx as nat),
            decreases
                    MAX_TRANSACTIONS_PER_MESSAGE - explore_idx + self.ready@.len() - ready_idx,
        {
            proof {
                self@.lemma_grow_step(
                    tail,
                    task_ids(batch),
                    explore_idx as nat,
                    ready_idx as nat,
                );
            }
            if explore_idx < task_list_as_slice(&batch).len() {
                let from: usize = task_list_as_slice(&batch)[explore_idx];
                explore_idx = explore_idx + 1;
                self.extend_chain(from, &mut batch);
            } else if ready_idx < self.ready.len() {
                let r: usize = self.ready[ready_idx];
                ready_idx = ready_idx + 1;
                task_list_push(&mut batch, r);
            } else {
                break;
            }
        }
        (batch, ready_idx)
    }

    /// Sends an EXECUTE batch.
    fn send_execute(
        &mut self,
        slot: u64,
        worker: usize,
        batch: &[usize],
        ready_consumed: usize,
    ) -> (message: PackMessage)
        requires
            old(self).wf(),
            worker < old(self)@.tails.len(),
            batch@.len() > 0,
            old(self)@.sound_batch(
                old(self)@.tails[worker as int],
                batch@,
                ready_consumed as nat,
            ),
            old(self)@.inflight < usize::MAX,
        ensures
            final(self).wf(),
            final(self)@ == old(self)@.send_execute(
                worker as int,
                batch@,
                ready_consumed as nat,
            ),
            message@ == (PackMessageSpec {
                worker: worker as int,
                flags: EXECUTE,
                max_working_slot: slot,
                batch: old(self)@.regions(batch@),
            }),
    {
        let ghost was = self@;
        let ghost tasks0 = self.tasks@;
        let ghost before = *self;
        let mut txs: Vec<TransactionRegion> = Vec::new();
        let mut k: usize = 0;
        while k < batch.len()
            invariant
                k <= batch@.len(),
                was == before@,
                before.wf(),
                tasks0 == before.tasks@,
                was.sound_batch(was.tails[worker as int], batch@, ready_consumed as nat),
                *self == (Schedule { tasks: self.tasks, ..before }),
                self.tasks@.len() == tasks0.len() <= usize::MAX,
                txs@ =~= was.regions(batch@).take(k as int),
                forall|t: int|
                    0 <= t < tasks0.len() ==> (#[trigger] self.tasks@[t]) == (Task {
                        state: if batch@.take(k as int).contains(t as usize) {
                            TaskState::Assigned
                        } else {
                            tasks0[t].state
                        },
                        ..tasks0[t]
                    }),
            decreases batch.len() - k,
        {
            let id: usize = batch[k];
            assert(id < was.cursor());
            txs.push(tx_map_get(&self.map, id).unwrap().1);
            self.tasks[id].state = TaskState::Assigned;
            proof {
                assert forall|t: int| 0 <= t < tasks0.len() implies (#[trigger] self.tasks@[t])
                    == (Task {
                    state: if batch@.take(k + 1).contains(t as usize) {
                        TaskState::Assigned
                    } else {
                        tasks0[t].state
                    },
                    ..tasks0[t]
                }) by {
                    lemma_take_contains(batch@, k as int, t as usize);
                }
            }
            k = k + 1;
        }
        assert(batch@.take(k as int) =~= batch@);
        let ghost tasks1 = self.tasks@;
        self.tails[worker] = Some(batch[batch.len() - 1]);
        let mut n: usize = 0;
        while n < ready_consumed
            invariant
                n <= ready_consumed <= before.ready@.len(),
                *self == (Schedule {
                    tasks: self.tasks,
                    tails: self.tails,
                    ready: self.ready,
                    ..before
                }),
                self.tasks@ == tasks1,
                self.tails@ == before.tails@.update(worker as int, Some(batch@.last())),
                self.ready@ =~= before.ready@.skip(n as int),
            decreases ready_consumed - n,
        {
            let _ = self.ready.pop_front();
            n = n + 1;
        }
        proof {
            was.lemma_send_execute_wf(worker as int, batch@, ready_consumed as nat);
        }
        self.inflight = self.inflight + 1;
        let count: usize = self.execute_counts[worker] + batch.len();
        self.execute_counts[worker] = count;
        self.sent = Ghost(
            was.sent + Seq::new(
                batch@.len(),
                |k: int| Sent { worker: worker as int, task: batch@[k] as int, done: was.done() },
            ),
        );
        proof {
            let v = was.send_execute(worker as int, batch@, ready_consumed as nat);
            assert(self@.tasks =~= v.tasks);
            assert(self@.sent =~= v.sent);
            assert(self@ == v);
            assert forall|t: int| 0 <= t < self.cursor implies (
            #[trigger] self.tasks@[t]).successors@ == v.successors(t) && self.tasks@[t].pending
                == v.waiting_on(t).len() by {
                was.lemma_send_execute_waiting(worker as int, batch@, ready_consumed as nat, t);
                assert(was.tasks[t] == tasks0[t]@);
            }
        }
        assert(txs@ =~= was.regions(batch@));
        PackMessage { worker, flags: EXECUTE, max_working_slot: slot, batch: txs }
    }

    /// Sends tasks for CHECK, so that their lookup tables are resolved.
    fn send_check(&mut self, slot: u64, worker: usize) -> (message: PackMessage)
        requires
            old(self).wf(),
            worker < old(self)@.tails.len(),
            old(self)@.inflight < usize::MAX,
        ensures
            final(self).wf(),
            final(self)@ == old(self)@.send_check(worker as int),
            message@ == (PackMessageSpec {
                worker: worker as int,
                flags: CHECK | LOAD_ADDRESS_LOOKUP_TABLES,
                max_working_slot: slot,
                batch: old(self)@.regions(
                    old(self)@.unresolved.take(old(self)@.check_size() as int),
                ),
            }),
    {
        let ghost was = self@;
        let ghost before = *self;
        let n: usize = if self.unresolved.len() <= MAX_TRANSACTIONS_PER_MESSAGE {
            self.unresolved.len()
        } else {
            MAX_TRANSACTIONS_PER_MESSAGE
        };
        let mut txs: Vec<TransactionRegion> = Vec::new();
        let mut k: usize = 0;
        while k < n
            invariant
                k <= n <= before.unresolved@.len(),
                was == before@,
                before.wf(),
                *self == (Schedule { unresolved: self.unresolved, ..before }),
                self.unresolved@ =~= before.unresolved@.skip(k as int),
                txs@ =~= was.regions(was.unresolved.take(k as int)),
            decreases n - k,
        {
            let id: usize = self.unresolved.pop_front().unwrap();
            assert(id == was.unresolved[k as int]);
            txs.push(tx_map_get(&self.map, id).unwrap().1);
            k = k + 1;
        }
        proof {
            was.lemma_send_check_wf(worker as int);
        }
        self.inflight = self.inflight + 1;
        let count: usize = self.check_counts[worker] + n;
        self.check_counts[worker] = count;
        proof {
            let v = was.send_check(worker as int);
            assert(self@ == v);
            assert forall|t: int| 0 <= t < self.cursor implies (
            #[trigger] self.tasks@[t]).successors@ == v.successors(t) && self.tasks@[t].pending
                == v.waiting_on(t).len() by {
                assert(v.waiting_on(t) =~= was.waiting_on(t));
            }
        }
        PackMessage {
            worker,
            flags: CHECK | LOAD_ADDRESS_LOOKUP_TABLES,
            max_working_slot: slot,
            batch: txs,
        }
    }

    /// Builds batches for the workers whose channel has room, in turn. Returns the messages to
    /// send, and the regions of the lookup keys that are no longer needed.
    pub fn send_batch(&mut self, slot: u64, open: &[bool]) -> (result: (
        Vec<PackMessage>,
        Vec<PubkeysRegion>,
    ))
        requires
            old(self).wf(),
            old(self)@.resolvable(),
            open@.len() <= old(self)@.tails.len(),
            open@.len() <= MAX_WORKERS,
            old(self)@.inflight + open@.len() <= usize::MAX,
        ensures
            final(self).wf(),
            final(self)@ == old(self)@.advance().serve_all(open@, open@.len()),
            message_views(result.0@) == old(self)@.advance().messages(slot, open@, open@.len()),
            result.1@ == old(self)@.advance_frees(),
    {
        proof {
            self@.lemma_advance_wf();
        }
        let freed = self.advance_cursor();
        let ghost start = self@;
        let mut messages: Vec<PackMessage> = Vec::new();
        let mut w: usize = 0;
        while w < open.len()
            invariant
                w <= open@.len() <= start.tails.len(),
                start.inflight + open@.len() <= usize::MAX,
                self.wf(),
                self@ == start.serve_all(open@, w as nat),
                self@.tails.len() == start.tails.len(),
                self@.inflight <= start.inflight + w,
                message_views(messages@) =~= start.messages(slot, open@, w as nat),
            decreases open.len() - w,
        {
            let ghost here = self@;
            let ghost sent = messages@;
            if open[w] {
                let (batch, ready_consumed) = self.build_batch(w);
                let batch = task_list_as_slice(&batch);
                proof {
                    here.lemma_batch_sound(w as int);
                }
                if batch.len() > 0 {
                    let message = self.send_execute(slot, w, batch, ready_consumed);
                    messages.push(message);
                    assert(message_views(messages@) =~= message_views(sent).push(message@));
                } else if self.unresolved.len() > 0 {
                    let message = self.send_check(slot, w);
                    messages.push(message);
                    assert(message_views(messages@) =~= message_views(sent).push(message@));
                }
            }
            w = w + 1;
        }
        (messages, freed)
    }
}

} // verus!
