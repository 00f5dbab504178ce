//! What a schedule is, and what each operation makes of it.

use crate::bindings::{
    CheckResponse, PackMessageSpec, PubkeysRegion, Reply, Responses, Returned, TransactionRegion,
    CHECK, EXECUTE, LOAD_ADDRESS_LOOKUP_TABLES, MAX_TRANSACTIONS_PER_MESSAGE,
    MAX_WORKING_SLOT_EXCEEDED, PROCESSED, RESOLVE_FAILED, RESOLVE_PERFORMED,
};
use crate::ipc::shmem::{first_signature, Arrival};
use crate::validator::schedule::conflict::{followers, follows};
use crate::transaction::{parsed_transaction, self_consistent, Access, TransactionSpec};
use crate::tx_map::has_key;
use vstd::prelude::*;

verus! {

/// How far a task has come.
#[derive(Clone, Copy, Debug, PartialEq, Eq, Structural)]
pub enum TaskState {
    /// Awaiting the CHECK response for its lookup tables, or the cursor.
    Unresolved,
    /// Reached by the cursor; what it follows is known.
    Resolved,
    /// Sent to a worker for EXECUTE.
    Assigned,
    /// Executed, or refused by CHECK.
    Done,
}

/// The keys that the lookup tables of a transaction stand for.
pub struct LookupsSpec {
    pub region: PubkeysRegion,
    pub keys: Seq<[u8; 32]>,
}

/// One transaction of the schedule.
pub struct TaskSpec {
    pub tx: TransactionSpec,
    pub lookups: Option<LookupsSpec>,
    pub state: TaskState,
}

/// The record of a task that went to a worker, with the tasks that were done at that moment.
pub struct Sent {
    pub worker: int,
    pub task: int,
    pub done: Set<int>,
}

/// A schedule. Tasks are numbered in the order of their insertion.
pub struct ScheduleSpec {
    /// First signature and region of each task.
    pub entries: Seq<([u8; 64], TransactionRegion)>,
    pub tasks: Seq<TaskSpec>,
    /// The accounts that each task behind the cursor uses; none for a task that CHECK refused.
    pub accesses: Seq<Seq<Access>>,
    /// Tasks awaiting CHECK dispatch.
    pub unresolved: Seq<usize>,
    /// Tasks that wait for nothing.
    pub ready: Seq<usize>,
    /// The last task sent to each worker.
    pub tails: Seq<Option<usize>>,
    /// The number of messages that workers have not answered.
    pub inflight: usize,
    /// How many transactions went to each worker for CHECK.
    pub check_counts: Seq<usize>,
    /// How many transactions went to each worker for EXECUTE.
    pub execute_counts: Seq<usize>,
    /// Every task that was sent for EXECUTE, in the order of sending.
    pub sent: Seq<Sent>,
}

/// The total of `counts`.
pub open spec fn sum(counts: Seq<usize>) -> nat
    decreases counts.len(),
{
    if counts.len() == 0 {
        0
    } else {
        sum(counts.drop_last()) + counts.last() as nat
    }
}

/// Task `q` went out before the `j`-th dispatch, to the same worker, or it was done by then.
pub open spec fn precedes(sent: Seq<Sent>, q: int, j: int) -> bool {
    exists|i: int|
        0 <= i < j && (#[trigger] sent[i]).task == q && (sent[i].worker == sent[j].worker
            || sent[j].done.contains(q))
}

/// Task `t` went out.
pub open spec fn was_sent(sent: Seq<Sent>, t: int) -> bool {
    exists|i: int| 0 <= i < sent.len() && (#[trigger] sent[i]).task == t
}

/// Task `t` went out to `worker`.
pub open spec fn was_sent_to(sent: Seq<Sent>, t: int, worker: int) -> bool {
    exists|i: int|
        0 <= i < sent.len() && (#[trigger] sent[i]).task == t && sent[i].worker == worker
}

impl CheckResponse {
    /// The looked-up keys, where the check did not fail.
    pub open spec fn outcome(self) -> Option<LookupsSpec> {
        if self.resolve_flags & (RESOLVE_PERFORMED | RESOLVE_FAILED) == RESOLVE_PERFORMED {
            Some(LookupsSpec { region: self.resolved_pubkeys, keys: self.keys@ })
        } else {
            None
        }
    }
}

impl ScheduleSpec {
    /// A schedule without tasks for `num_workers` workers.
    pub open spec fn empty(num_workers: nat) -> Self {
        ScheduleSpec {
            entries: Seq::empty(),
            tasks: Seq::empty(),
            accesses: Seq::empty(),
            unresolved: Seq::empty(),
            ready: Seq::empty(),
            tails: Seq::new(num_workers, |w: int| None),
            inflight: 0,
            check_counts: Seq::new(num_workers, |w: int| 0usize),
            execute_counts: Seq::new(num_workers, |w: int| 0usize),
            sent: Seq::empty(),
        }
    }

    /// The next task to resolve.
    pub open spec fn cursor(self) -> nat {
        self.accesses.len()
    }

    /// The tasks that are done.
    pub open spec fn done(self) -> Set<int> {
        Set::new(|t: int| 0 <= t < self.tasks.len() && self.tasks[t].state == TaskState::Done)
    }

    /// The tasks that `t` follows and that are not done.
    pub open spec fn waiting_on(self, t: int) -> Set<int> {
        Set::new(
            |p: int|
                0 <= p < t && follows(self.accesses, p, t) && self.tasks[p].state
                    != TaskState::Done,
        )
    }

    /// The tasks that follow `p`, as far as the cursor has come; none once `p` is done.
    pub open spec fn successors(self, p: int) -> Seq<usize> {
        if self.tasks[p].state == TaskState::Done {
            Seq::empty()
        } else {
            followers(self.accesses, p, self.cursor())
        }
    }

    /// The accounts that task `t` uses.
    pub open spec fn task_accesses(self, t: int) -> Seq<Access> {
        self.tasks[t].tx.accesses(
            match self.tasks[t].lookups {
                Some(lookups) => lookups.keys,
                None => Seq::empty(),
            },
        )
    }

    /// No two tasks have the same signature.
    pub open spec fn distinct(self) -> bool {
        forall|i: int, j: int|
            0 <= i < j < self.entries.len() ==> (#[trigger] self.entries[i]).0 != (
            #[trigger] self.entries[j]).0
    }

    /// Task `t` waits for nothing, and has not been sent.
    pub open spec fn is_ready(self, t: int) -> bool {
        &&& 0 <= t < self.cursor()
        &&& self.tasks[t].state == TaskState::Resolved
        &&& self.waiting_on(t) =~= Set::empty()
    }

    /// The states agree with the cursor.
    pub open spec fn states_wf(self) -> bool {
        &&& self.entries.len() == self.tasks.len() <= usize::MAX
        &&& self.cursor() <= self.tasks.len()
        &&& forall|t: int|
            0 <= t < self.cursor() ==> (#[trigger] self.tasks[t]).state != TaskState::Unresolved && (
            self.tasks[t].state != TaskState::Done ==> self.tasks[t].lookups is None)
        &&& forall|t: int|
            self.cursor() <= t < self.tasks.len() ==> (#[trigger] self.tasks[t]).state
                == TaskState::Unresolved || self.tasks[t].state == TaskState::Done
    }

    /// The queues hold what they are for.
    pub open spec fn queues_wf(self) -> bool {
        &&& self.ready.no_duplicates()
        &&& forall|t: usize| #[trigger] self.ready.contains(t) <==> self.is_ready(t as int)
        &&& forall|i: int|
            0 <= i < self.unresolved.len() ==> (#[trigger] self.unresolved[i]) < self.tasks.len()
    }

    /// What was sent is recorded, once for each task, and in the order that conflicts ask for.
    pub open spec fn sent_wf(self) -> bool {
        &&& forall|j: int|
            0 <= j < self.sent.len() ==> {
                let s = #[trigger] self.sent[j];
                &&& 0 <= s.task < self.cursor()
                &&& 0 <= s.worker < self.tails.len()
                &&& self.tasks[s.task].state == TaskState::Assigned || self.tasks[s.task].state
                    == TaskState::Done
            }
        &&& forall|i: int, j: int|
            0 <= i < j < self.sent.len() ==> (#[trigger] self.sent[i]).task != (
            #[trigger] self.sent[j]).task
        &&& forall|t: int|
            0 <= t < self.cursor() && ((#[trigger] self.tasks[t]).state == TaskState::Assigned || (
            self.tasks[t].state == TaskState::Done && self.accesses[t].len() > 0)) ==> was_sent(
                self.sent,
                t,
            )
        &&& forall|q: int, j: int|
            0 <= j < self.sent.len() && #[trigger] follows(self.accesses, q, self.sent[j].task)
                ==> precedes(self.sent, q, j)
        &&& forall|w: int|
            0 <= w < self.tails.len() ==> ((#[trigger] self.tails[w]) matches Some(t)
                ==> was_sent_to(self.sent, t as int, w))
    }

    /// The tallies agree with what was sent.
    pub open spec fn counts_wf(self) -> bool {
        &&& self.check_counts.len() == self.tails.len()
        &&& self.execute_counts.len() == self.tails.len()
        &&& sum(self.execute_counts) == self.sent.len()
        &&& sum(self.check_counts) + self.unresolved.len() <= self.tasks.len()
    }

    /// What every operation keeps.
    pub open spec fn wf(self) -> bool {
        &&& self.states_wf()
        &&& self.distinct()
        &&& self.queues_wf()
        &&& self.sent_wf()
        &&& self.counts_wf()
    }

    /// Some task has signature `key`.
    pub open spec fn has_task(self, key: [u8; 64]) -> bool {
        has_key(self.entries, key)
    }

    /// The number of the task with signature `key`.
    pub open spec fn task_of(self, key: [u8; 64]) -> int {
        choose|i: int| 0 <= i < self.entries.len() && (#[trigger] self.entries[i]).0 == key
    }

    /// Inserts one transaction; one whose signature is known changes nothing.
    pub open spec fn insert(
        self,
        key: [u8; 64],
        region: TransactionRegion,
        tx: TransactionSpec,
    ) -> Self {
        if self.has_task(key) {
            self
        } else {
            ScheduleSpec {
                entries: self.entries.push((key, region)),
                tasks: self.tasks.push(
                    TaskSpec { tx, lookups: None, state: TaskState::Unresolved },
                ),
                unresolved: if tx.num_lookups > 0 {
                    self.unresolved.push(self.tasks.len() as usize)
                } else {
                    self.unresolved
                },
                ..self
            }
        }
    }

    /// Inserts the first `n` of `txs`, in turn.
    pub open spec fn insert_all(self, txs: Seq<Arrival>, n: nat) -> Self
        decreases n,
    {
        if n == 0 {
            self
        } else {
            let tx = txs[n - 1];
            self.insert_all(txs, (n - 1) as nat).insert(
                first_signature(tx.data@),
                tx.region,
                parsed_transaction(tx.data@)->0,
            )
        }
    }

    /// The regions of those among the first `n` of `txs` whose signature is known.
    pub open spec fn duplicates(self, txs: Seq<Arrival>, n: nat) -> Seq<TransactionRegion>
        decreases n,
    {
        if n == 0 {
            Seq::empty()
        } else {
            let tx = txs[n - 1];
            let earlier = self.duplicates(txs, (n - 1) as nat);
            if self.insert_all(txs, (n - 1) as nat).has_task(first_signature(tx.data@)) {
                earlier.push(tx.region)
            } else {
                earlier
            }
        }
    }

    /// Each of `txs` is long enough to hold a signature, and can be parsed unless its signature is
    /// known or occurs before it.
    pub open spec fn insertable(self, txs: Seq<Arrival>) -> bool {
        forall|i: int| 0 <= i < txs.len() ==> self.insertable_at(txs, i)
    }

    /// The `i`-th of `txs` is long enough to hold a signature, and can be parsed unless its
    /// signature is known or occurs before it.
    pub open spec fn insertable_at(self, txs: Seq<Arrival>, i: int) -> bool {
        let key = first_signature(txs[i].data@);
        &&& txs[i].data@.len() >= 65
        &&& {
            ||| parsed_transaction(txs[i].data@) is Some
            ||| self.has_task(key)
            ||| exists|j: int| 0 <= j < i && first_signature((#[trigger] txs[j]).data@) == key
        }
    }

    /// Task `t` holds the cursor up: its lookup tables are not resolved.
    pub open spec fn blocked(self, t: int) -> bool {
        &&& self.tasks[t].state == TaskState::Unresolved
        &&& self.tasks[t].tx.num_lookups > 0
        &&& self.tasks[t].lookups is None
    }

    /// The cursor cannot move: there is no task, or its lookup tables are not resolved.
    pub open spec fn stuck(self) -> bool {
        self.cursor() >= self.tasks.len() || self.blocked(self.cursor() as int)
    }

    /// The header of each task that the cursor now reaches fits its keys, and no transaction among
    /// them uses an account twice to write it.
    pub open spec fn resolvable(self) -> bool {
        forall|t: int|
            self.cursor() <= t < self.tasks.len() && (#[trigger] self.tasks[t]).state
                == TaskState::Unresolved && (forall|u: int|
                self.cursor() <= u <= t ==> !#[trigger] self.blocked(u))
                ==> self.tasks[t].tx.num_required_signatures <= self.tasks[t].tx.static_keys.len()
                && self_consistent(self.task_accesses(t))
    }

    /// Moves the cursor over one task. A task that CHECK refused is skipped; any other one is
    /// resolved, and is ready where it follows no task that is still to be done.
    pub open spec fn step_cursor(self) -> Self {
        let t = self.cursor() as int;
        if self.tasks[t].state == TaskState::Done {
            ScheduleSpec { accesses: self.accesses.push(Seq::empty()), ..self }
        } else {
            let moved = ScheduleSpec {
                accesses: self.accesses.push(self.task_accesses(t)),
                tasks: self.tasks.update(
                    t,
                    TaskSpec { state: TaskState::Resolved, lookups: None, ..self.tasks[t] },
                ),
                ..self
            };
            if moved.waiting_on(t) =~= Set::empty() {
                ScheduleSpec { ready: moved.ready.push(t as usize), ..moved }
            } else {
                moved
            }
        }
    }

    /// Moves the cursor as far as it goes.
    pub open spec fn advance(self) -> Self
        decreases self.tasks.len() - self.cursor(),
    {
        if self.stuck() {
            self
        } else {
            self.step_cursor().advance()
        }
    }

    /// The key list that moving the cursor over one task gives back.
    pub open spec fn step_frees(self) -> Seq<PubkeysRegion> {
        let t = self.cursor() as int;
        match self.tasks[t].lookups {
            Some(lookups) if self.tasks[t].state == TaskState::Unresolved => seq![lookups.region],
            _ => Seq::empty(),
        }
    }

    /// The key lists that moving the cursor as far as it goes gives back.
    pub open spec fn advance_frees(self) -> Seq<PubkeysRegion>
        decreases self.tasks.len() - self.cursor(),
    {
        if self.stuck() {
            Seq::empty()
        } else {
            self.step_frees() + self.step_cursor().advance_frees()
        }
    }

    /// Task `t` waits for exactly one other.
    pub open spec fn chainable(self, t: int) -> bool {
        &&& self.tasks[t].state == TaskState::Resolved
        &&& self.waiting_on(t).len() == 1
    }

    /// Appends to `batch` those of `candidates`, from position `k` on, that wait for one task only
    /// and are not in it, as long as there is room.
    pub open spec fn extend(self, candidates: Seq<usize>, k: nat, batch: Seq<usize>) -> Seq<usize>
        decreases candidates.len() - k,
    {
        if k >= candidates.len() || batch.len() >= MAX_TRANSACTIONS_PER_MESSAGE {
            batch
        } else {
            let s = candidates[k as int];
            if self.chainable(s as int) && !batch.contains(s) {
                self.extend(candidates, k + 1, batch.push(s))
            } else {
                self.extend(candidates, k + 1, batch)
            }
        }
    }

    /// Fills `batch` up: with what its members from position `explored` on lead to, and where
    /// those lead to nothing, with ready tasks from position `taken` on. Returns the batch and how
    /// many ready tasks it took.
    pub open spec fn grow(self, batch: Seq<usize>, explored: nat, taken: nat) -> (Seq<usize>, nat)
        decreases
                MAX_TRANSACTIONS_PER_MESSAGE - explored + self.ready.len() - taken,
        when taken <= self.ready.len() && explored <= batch.len()
    {
        if batch.len() >= MAX_TRANSACTIONS_PER_MESSAGE {
            (batch, taken)
        } else if explored < batch.len() {
            self.grow(
                self.extend(self.successors(batch[explored as int] as int), 0, batch),
                explored + 1,
                taken,
            )
        } else if taken < self.ready.len() {
            self.grow(batch.push(self.ready[taken as int]), explored, taken + 1)
        } else {
            (batch, taken)
        }
    }

    /// The batch for `worker`, and how many ready tasks it takes.
    pub open spec fn batch(self, worker: int) -> (Seq<usize>, nat) {
        let chain = match self.tails[worker] {
            Some(tail) => self.extend(self.successors(tail as int), 0, Seq::empty()),
            None => Seq::empty(),
        };
        self.grow(chain, 0, 0)
    }

    /// Whether `batch` may go to a worker whose last task is `tail`: each member is resolved, and
    /// waits for nothing but `tail` and what stands before it in the batch. Of the ready tasks the
    /// batch holds the first `taken` and no others.
    pub open spec fn sound_batch(self, tail: Option<usize>, batch: Seq<usize>, taken: nat) -> bool {
        &&& batch.len() <= MAX_TRANSACTIONS_PER_MESSAGE
        &&& batch.no_duplicates()
        &&& taken <= self.ready.len()
        &&& forall|k: int|
            0 <= k < batch.len() ==> (#[trigger] batch[k]) < self.cursor()
                && self.tasks[batch[k] as int].state == TaskState::Resolved
        &&& forall|k: int, q: int|
            0 <= k < batch.len() && #[trigger] self.waiting_on(batch[k] as int).contains(q) ==> (
            tail matches Some(last) && last == q) || (exists|i: int|
                0 <= i < k && #[trigger] batch[i] == q)
        &&& forall|i: int| 0 <= i < taken ==> batch.contains(#[trigger] self.ready[i])
        &&& forall|i: int| taken <= i < self.ready.len() ==> !batch.contains(#[trigger] self.ready[i])
    }

    /// Sends `batch`, which took `taken` ready tasks, to `worker`.
    pub open spec fn send_execute(self, worker: int, batch: Seq<usize>, taken: nat) -> Self {
        ScheduleSpec {
            tasks: Seq::new(
                self.tasks.len(),
                |t: int|
                    if batch.contains(t as usize) {
                        TaskSpec { state: TaskState::Assigned, ..self.tasks[t] }
                    } else {
                        self.tasks[t]
                    },
            ),
            tails: self.tails.update(worker, Some(batch.last())),
            ready: self.ready.skip(taken as int),
            inflight: (self.inflight + 1) as usize,
            execute_counts: self.execute_counts.update(
                worker,
                (self.execute_counts[worker] + batch.len()) as usize,
            ),
            sent: self.sent + Seq::new(
                batch.len(),
                |k: int| Sent { worker, task: batch[k] as int, done: self.done() },
            ),
            ..self
        }
    }

    /// How many tasks go into one CHECK message.
    pub open spec fn check_size(self) -> nat {
        if self.unresolved.len() <= MAX_TRANSACTIONS_PER_MESSAGE {
            self.unresolved.len()
        } else {
            MAX_TRANSACTIONS_PER_MESSAGE as nat
        }
    }

    /// Sends the oldest unresolved tasks to `worker` for CHECK.
    pub open spec fn send_check(self, worker: int) -> Self {
        ScheduleSpec {
            unresolved: self.unresolved.skip(self.check_size() as int),
            inflight: (self.inflight + 1) as usize,
            check_counts: self.check_counts.update(
                worker,
                (self.check_counts[worker] + self.check_size()) as usize,
            ),
            ..self
        }
    }

    /// Gives `worker` work: a batch for EXECUTE where there is one, else tasks for CHECK.
    pub open spec fn serve(self, worker: int) -> Self {
        let (batch, taken) = self.batch(worker);
        if batch.len() > 0 {
            self.send_execute(worker, batch, taken)
        } else if self.unresolved.len() > 0 {
            self.send_check(worker)
        } else {
            self
        }
    }

    /// The regions of the tasks that `ids` names.
    pub open spec fn regions(self, ids: Seq<usize>) -> Seq<TransactionRegion> {
        Seq::new(ids.len(), |k: int| self.entries[ids[k] as int].1)
    }

    /// The message, if any, that gives `worker` work.
    pub open spec fn message(self, slot: u64, worker: int) -> Seq<PackMessageSpec> {
        let batch = self.batch(worker).0;
        if batch.len() > 0 {
            seq![
                PackMessageSpec {
                    worker,
                    flags: EXECUTE,
                    max_working_slot: slot,
                    batch: self.regions(batch),
                },
            ]
        } else if self.unresolved.len() > 0 {
            seq![
                PackMessageSpec {
                    worker,
                    flags: CHECK | LOAD_ADDRESS_LOOKUP_TABLES,
                    max_working_slot: slot,
                    batch: self.regions(self.unresolved.take(self.check_size() as int)),
                },
            ]
        } else {
            Seq::empty()
        }
    }

    /// Gives work to each of the first `n` workers that is open, in turn.
    pub open spec fn serve_all(self, open: Seq<bool>, n: nat) -> Self
        decreases n,
    {
        if n == 0 {
            self
        } else {
            let v = self.serve_all(open, (n - 1) as nat);
            if open[n - 1] {
                v.serve(n - 1)
            } else {
                v
            }
        }
    }

    /// The messages that giving work to the first `n` workers sends.
    pub open spec fn messages(self, slot: u64, open: Seq<bool>, n: nat) -> Seq<PackMessageSpec>
        decreases n,
    {
        if n == 0 {
            Seq::empty()
        } else {
            let earlier = self.messages(slot, open, (n - 1) as nat);
            if open[n - 1] {
                earlier + self.serve_all(open, (n - 1) as nat).message(slot, n - 1)
            } else {
                earlier
            }
        }
    }

    /// Marks task `t` as executed, and makes ready what waited for it alone.
    pub open spec fn finish(self, t: int) -> Self {
        let moved = self.with_state(t, TaskState::Done);
        ScheduleSpec {
            ready: moved.ready + self.successors(t).filter(|s: usize| moved.is_ready(s as int)),
            ..moved
        }
    }

    /// The schedule with task `t` in `state`.
    pub open spec fn with_state(self, t: int, state: TaskState) -> Self {
        ScheduleSpec {
            tasks: self.tasks.update(t, TaskSpec { state, ..self.tasks[t] }),
            ..self
        }
    }

    /// Takes the CHECK result for task `t`: its looked-up keys, or nothing where it was refused.
    pub open spec fn checked(self, t: int, result: Option<LookupsSpec>) -> Self {
        match result {
            Some(lookups) => ScheduleSpec {
                tasks: self.tasks.update(
                    t,
                    TaskSpec { lookups: Some(lookups), ..self.tasks[t] },
                ),
                ..self
            },
            None => self.with_state(t, TaskState::Done),
        }
    }

    /// Finishes the first `n` of `batch`, in turn.
    pub open spec fn finish_all(self, batch: Seq<Returned>, n: nat) -> Self
        decreases n,
    {
        if n == 0 {
            self
        } else {
            self.finish_all(batch, (n - 1) as nat).finish(self.task_of(batch[n - 1].signature))
        }
    }

    /// Takes the CHECK results of the first `n` of `batch`, in turn.
    pub open spec fn check_all(
        self,
        batch: Seq<Returned>,
        responses: Seq<CheckResponse>,
        n: nat,
    ) -> Self
        decreases n,
    {
        if n == 0 {
            self
        } else {
            self.check_all(batch, responses, (n - 1) as nat).checked(
                self.task_of(batch[n - 1].signature),
                responses[n - 1].outcome(),
            )
        }
    }

    /// The regions of those among the first `n` of `batch` that were refused.
    pub open spec fn refused(
        self,
        batch: Seq<Returned>,
        responses: Seq<CheckResponse>,
        n: nat,
    ) -> Seq<TransactionRegion>
        decreases n,
    {
        if n == 0 {
            Seq::empty()
        } else {
            let earlier = self.refused(batch, responses, (n - 1) as nat);
            if responses[n - 1].outcome() is Some {
                earlier
            } else {
                earlier.push(self.entries[self.task_of(batch[n - 1].signature)].1)
            }
        }
    }

    /// Task `t` is known by `key` and is in `state`.
    pub open spec fn knows(self, key: [u8; 64], state: TaskState) -> bool {
        self.has_task(key) && self.tasks[self.task_of(key)].state == state
    }

    /// Whether a worker may send `reply`: something is in flight, and each transaction that comes
    /// back was sent for what it was answered.
    pub open spec fn accepts(self, reply: Reply) -> bool {
        &&& self.inflight > 0
        &&& reply.processed_code == MAX_WORKING_SLOT_EXCEEDED || (reply.processed_code == PROCESSED
            && self.accepts_batch(reply.batch@, reply.responses))
    }

    /// Whether a worker may answer `batch` with `responses`.
    pub open spec fn accepts_batch(self, batch: Seq<Returned>, responses: Responses) -> bool {
        match responses {
            Responses::Execution(list) => {
                &&& list@.len() == batch.len()
                &&& forall|k: int|
                    0 <= k < batch.len() ==> self.knows(
                        (#[trigger] batch[k]).signature,
                        TaskState::Assigned,
                    )
                &&& forall|i: int, k: int|
                    0 <= i < k < batch.len() ==> (#[trigger] batch[i]).signature != (
                    #[trigger] batch[k]).signature
            },
            Responses::Check(list) => {
                &&& list@.len() == batch.len()
                &&& forall|k: int|
                    0 <= k < batch.len() ==> self.knows(
                        (#[trigger] batch[k]).signature,
                        TaskState::Unresolved,
                    )
                &&& forall|i: int, k: int|
                    0 <= i < k < batch.len() && (#[trigger] batch[i]).signature == (
                    #[trigger] batch[k]).signature ==> list@[i].outcome() is Some
            },
            Responses::Other(_) => false,
        }
    }

    /// The schedule with one message less in flight.
    pub open spec fn answered(self) -> Self {
        ScheduleSpec { inflight: (self.inflight - 1) as usize, ..self }
    }

    /// The schedule after `reply`.
    pub open spec fn after(self, reply: Reply) -> Self {
        if reply.processed_code == MAX_WORKING_SLOT_EXCEEDED {
            self.answered()
        } else {
            match reply.responses {
                Responses::Execution(_) => self.answered().finish_all(
                    reply.batch@,
                    reply.batch@.len(),
                ),
                Responses::Check(list) => self.answered().check_all(
                    reply.batch@,
                    list@,
                    reply.batch@.len(),
                ),
                Responses::Other(_) => self.answered(),
            }
        }
    }

    /// The regions that `reply` gives back.
    pub open spec fn frees(self, reply: Reply) -> Seq<TransactionRegion> {
        if reply.processed_code == MAX_WORKING_SLOT_EXCEEDED {
            Seq::empty()
        } else {
            match reply.responses {
                Responses::Execution(_) => Seq::new(
                    reply.batch@.len(),
                    |k: int| self.entries[self.task_of(reply.batch@[k].signature)].1,
                ),
                Responses::Check(list) => self.refused(reply.batch@, list@, reply.batch@.len()),
                Responses::Other(_) => Seq::empty(),
            }
        }
    }
}

} // verus!
