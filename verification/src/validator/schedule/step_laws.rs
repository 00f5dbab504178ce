//! What each operation of a schedule does, read off its inputs and results.

use crate::bindings::{CheckResponse, Reply, Responses, Returned, TransactionRegion};
use crate::ipc::shmem::{first_signature, Arrival};
use crate::transaction::{
    parsed_transaction, self_consistent, TransactionSpec, VOTE_PROGRAM,
};
use crate::validator::schedule::conflict::{follows, law_conflicts_are_shared_writes};
use crate::validator::schedule::laws::{executes_before, law_conflicts_execute_in_order};
use crate::validator::schedule::model::{sum, LookupsSpec, ScheduleSpec, TaskSpec, TaskState};
use crate::validator::storage_laws::law_first_signature;
use vstd::prelude::*;

verus! {

/// Transactions that share an account execute in the order of their insertion, where one of them may
/// change it: where the `j`-th dispatch sent a task whose `b`-th account is the `a`-th of an older task
/// `p`, then `p` was sent before, and executes before it.
pub proof fn law_shared_accounts_execute_in_order(v: ScheduleSpec, p: int, j: int, a: int, b: int)
    requires
        v.wf(),
        0 <= j < v.sent.len(),
        0 <= p < v.sent[j].task,
        0 <= a < v.accesses[p].len(),
        0 <= b < v.accesses[v.sent[j].task].len(),
        v.accesses[p][a].key == v.accesses[v.sent[j].task][b].key,
        v.accesses[p][a].write || v.accesses[v.sent[j].task][b].write,
    ensures
        exists|i: int|
            0 <= i < j && (#[trigger] v.sent[i]).task == p && executes_before(v.sent, i, j),
{
    law_conflicts_are_shared_writes(v.accesses, p, v.sent[j].task);
    law_conflicts_execute_in_order(v, p, j);
}

/// An empty schedule has no tasks, and nothing is sent, waits or is counted.
pub proof fn law_schedules_start_empty(num_workers: nat)
    ensures
        ({
            let v = ScheduleSpec::empty(num_workers);
            &&& v.entries.len() == 0
            &&& v.tasks.len() == 0
            &&& v.accesses.len() == 0
            &&& v.unresolved.len() == 0
            &&& v.ready.len() == 0
            &&& v.inflight == 0
            &&& v.sent.len() == 0
            &&& v.tails.len() == num_workers
            &&& v.check_counts.len() == num_workers
            &&& v.execute_counts.len() == num_workers
            &&& forall|w: int|
                0 <= w < num_workers ==> (#[trigger] v.tails[w]) is None && v.check_counts[w] == 0
                    && v.execute_counts[w] == 0
        }),
{
}

/// What becomes of one transaction that is inserted: where a task has its first signature, nothing
/// changes. Else it becomes the last task, unresolved and without looked-up keys, and is queued for
/// CHECK where it refers to lookup tables.
pub proof fn law_inserting_one(
    v: ScheduleSpec,
    key: [u8; 64],
    region: TransactionRegion,
    tx: TransactionSpec,
)
    ensures
        (exists|i: int| 0 <= i < v.entries.len() && (#[trigger] v.entries[i]).0 == key) ==> v.insert(
            key,
            region,
            tx,
        ) == v,
        !(exists|i: int| 0 <= i < v.entries.len() && (#[trigger] v.entries[i]).0 == key) ==> {
            let w = v.insert(key, region, tx);
            &&& w.entries == v.entries + seq![(key, region)]
            &&& w.tasks == v.tasks + seq![
                TaskSpec { tx, lookups: None, state: TaskState::Unresolved },
            ]
            &&& tx.num_lookups != 0 ==> w.unresolved == v.unresolved + seq![v.tasks.len() as usize]
            &&& tx.num_lookups == 0 ==> w.unresolved == v.unresolved
            &&& w.accesses == v.accesses
            &&& w.ready == v.ready
            &&& w.tails == v.tails
            &&& w.inflight == v.inflight
            &&& w.check_counts == v.check_counts
            &&& w.execute_counts == v.execute_counts
            &&& w.sent == v.sent
        },
{
    assert(v.entries.push((key, region)) =~= v.entries + seq![(key, region)]);
    let task = TaskSpec { tx, lookups: None, state: TaskState::Unresolved };
    assert(v.tasks.push(task) =~= v.tasks + seq![task]);
    let t = v.tasks.len() as usize;
    assert(v.unresolved.push(t) =~= v.unresolved + seq![t]);
}

/// Transactions are inserted one after the other, each under its first signature and as it parses; one
/// whose signature is known by then is given back, behind what was given back before.
pub proof fn law_inserting_in_turn(v: ScheduleSpec, txs: Seq<Arrival>, n: nat, key: [u8; 64])
    requires
        n < txs.len(),
        key@ == txs[n as int].data@.subrange(1, 65),
    ensures
        v.insert_all(txs, 0) == v,
        v.duplicates(txs, 0).len() == 0,
        v.insert_all(txs, n + 1) == v.insert_all(txs, n).insert(
            key,
            txs[n as int].region,
            parsed_transaction(txs[n as int].data@)->0,
        ),
        (exists|i: int|
            0 <= i < v.insert_all(txs, n).entries.len() && (#[trigger] v.insert_all(
                txs,
                n,
            ).entries[i]).0 == key) ==> v.duplicates(txs, n + 1) == v.duplicates(txs, n).push(
            txs[n as int].region,
        ),
        !(exists|i: int|
            0 <= i < v.insert_all(txs, n).entries.len() && (#[trigger] v.insert_all(
                txs,
                n,
            ).entries[i]).0 == key) ==> v.duplicates(txs, n + 1) == v.duplicates(txs, n),
{
    law_first_signature(txs[n as int].data@, key);
}

/// The keys that the lookup tables of a task stand for; none where they are not known.
pub open spec fn known_keys(task: TaskSpec) -> Seq<[u8; 32]> {
    if task.lookups is Some {
        task.lookups->0.keys
    } else {
        Seq::empty()
    }
}

/// How far the cursor goes, and what it does. It stops at the first task that refers to lookup tables
/// whose keys are not known, or behind the last task. It passes each task before that: one that is done
/// stays as it is and counts as using nothing, and any other one is resolved, with the accounts that
/// its transaction names and those that its lookup tables stand for. What becomes ready stands behind
/// what was, oldest first. Nothing else changes.
pub proof fn law_cursor_passes_what_is_known(v: ScheduleSpec)
    requires
        v.wf(),
    ensures
        v.advance().wf(),
        v.cursor() <= v.advance().cursor() <= v.tasks.len(),
        v.advance().tasks.len() == v.tasks.len(),
        v.advance().cursor() < v.tasks.len() ==> {
            let task = v.tasks[v.advance().cursor() as int];
            task.state == TaskState::Unresolved && task.tx.num_lookups != 0 && task.lookups is None
        },
        forall|t: int|
            0 <= t < v.cursor() ==> (#[trigger] v.advance().accesses[t]) == v.accesses[t],
        forall|t: int|
            0 <= t < v.tasks.len() && !(v.cursor() <= t < v.advance().cursor()) ==> (
            #[trigger] v.advance().tasks[t]) == v.tasks[t],
        forall|t: int|
            v.cursor() <= t < v.advance().cursor() ==> {
                let before = v.tasks[t];
                let after = #[trigger] v.advance().tasks[t];
                &&& after.tx == before.tx
                &&& before.state == TaskState::Done ==> after == before
                    && v.advance().accesses[t].len() == 0
                &&& before.state != TaskState::Done ==> after.state == TaskState::Resolved
                    && after.lookups is None && v.advance().accesses[t] == before.tx.accesses(
                    known_keys(before),
                ) && (before.tx.num_lookups == 0 || before.lookups is Some)
            },
        v.advance().ready.len() >= v.ready.len(),
        forall|i: int| 0 <= i < v.ready.len() ==> (#[trigger] v.advance().ready[i]) == v.ready[i],
        forall|i: int|
            v.ready.len() <= i < v.advance().ready.len() ==> v.cursor() <= (
            #[trigger] v.advance().ready[i]) < v.advance().cursor(),
        forall|i: int, j: int|
            v.ready.len() <= i < j < v.advance().ready.len() ==> (#[trigger] v.advance().ready[i])
                < (#[trigger] v.advance().ready[j]),
        v.advance().entries == v.entries,
        v.advance().unresolved == v.unresolved,
        v.advance().tails == v.tails,
        v.advance().inflight == v.inflight,
        v.advance().check_counts == v.check_counts,
        v.advance().execute_counts == v.execute_counts,
        v.advance().sent == v.sent,
    decreases v.tasks.len() - v.cursor(),
{
    if !v.stuck() {
        let c = v.cursor() as int;
        let u = v.step_cursor();
        v.lemma_step_cursor_wf();
        law_cursor_passes_what_is_known(u);
        let w = v.advance();
        assert(u.accesses.len() == c + 1);
        assert forall|t: int| 0 <= t < v.tasks.len() && t != c implies (#[trigger] u.tasks[t])
            == v.tasks[t] by {
        }
        assert(w.accesses[c] == u.accesses[c]);
        assert(w.tasks[c] == u.tasks[c]);
        assert forall|t: int| 0 <= t < c implies (#[trigger] w.accesses[t]) == v.accesses[t] by {
            assert(u.accesses[t] == v.accesses[t]);
        }
        assert forall|i: int| 0 <= i < v.ready.len() implies (#[trigger] w.ready[i])
            == v.ready[i] by {
            assert(u.ready[i] == v.ready[i]);
        }
        assert forall|i: int| v.ready.len() <= i < w.ready.len() implies c <= (
        #[trigger] w.ready[i]) < w.cursor() by {
            if i < u.ready.len() {
                assert(w.ready[i] == u.ready[i]);
            }
        }
        assert forall|i: int, j: int| v.ready.len() <= i < j < w.ready.len() implies (
        #[trigger] w.ready[i]) < (#[trigger] w.ready[j]) by {
            if i < u.ready.len() {
                assert(w.ready[i] == u.ready[i]);
            }
        }
    }
}

/// A task is ready exactly where the cursor has passed it, it has not been sent, and every task that it
/// follows is done; no task is listed twice.
pub proof fn law_ready_tasks_wait_for_nothing(v: ScheduleSpec, t: usize)
    requires
        v.wf(),
    ensures
        v.ready.no_duplicates(),
        v.ready.contains(t) <==> t < v.cursor() && v.tasks[t as int].state == TaskState::Resolved
            && forall|p: int|
            0 <= p < t && #[trigger] follows(v.accesses, p, t as int) ==> v.tasks[p].state
                == TaskState::Done,
{
    let waits = v.waiting_on(t as int);
    if v.is_ready(t as int) {
        assert forall|p: int|
            0 <= p < t && #[trigger] follows(v.accesses, p, t as int) implies v.tasks[p].state
            == TaskState::Done by {
            assert(!waits.contains(p));
        }
    }
    if t < v.cursor() && v.tasks[t as int].state == TaskState::Resolved && (forall|p: int|
        0 <= p < t && #[trigger] follows(v.accesses, p, t as int) ==> v.tasks[p].state
            == TaskState::Done) {
        assert(waits =~= Set::empty());
    }
}

/// What giving a worker work does. A batch for EXECUTE goes out as one message; its tasks are on that
/// worker from then on, the last of them is the worker's tail, and the ready tasks that it took leave
/// the queue. Where there is no such batch, the oldest tasks that await CHECK go out, up to 64. Each
/// message counts as in flight, and what it holds counts for the worker. Nothing else changes.
pub proof fn law_serving_a_worker(v: ScheduleSpec, slot: u64, worker: int)
    requires
        v.wf(),
        0 <= worker < v.tails.len(),
        v.inflight < usize::MAX,
    ensures
        ({
            let (batch, taken) = v.batch(worker);
            let w = v.serve(worker);
            let sent = v.message(slot, worker);
            &&& w.entries == v.entries
            &&& w.accesses == v.accesses
            &&& w.tasks.len() == v.tasks.len()
            &&& if batch.len() > 0 {
                &&& sent.len() == 1
                &&& sent[0].worker == worker
                &&& sent[0].flags == 1
                &&& sent[0].max_working_slot == slot
                &&& sent[0].batch.len() == batch.len()
                &&& forall|k: int|
                    0 <= k < batch.len() ==> (#[trigger] sent[0].batch[k])
                        == v.entries[batch[k] as int].1
                &&& forall|t: int|
                    0 <= t < v.tasks.len() ==> (#[trigger] w.tasks[t]).tx == v.tasks[t].tx
                        && w.tasks[t].lookups == v.tasks[t].lookups && w.tasks[t].state == (
                    if batch.contains(t as usize) {
                        TaskState::Assigned
                    } else {
                        v.tasks[t].state
                    })
                &&& w.tails[worker] == Some(batch[batch.len() - 1])
                &&& w.tails == v.tails.update(worker, Some(batch[batch.len() - 1]))
                &&& w.ready == v.ready.skip(taken as int)
                &&& w.inflight == v.inflight + 1
                &&& w.execute_counts[worker] == v.execute_counts[worker] + batch.len()
                &&& w.execute_counts == v.execute_counts.update(worker, w.execute_counts[worker])
                &&& w.check_counts == v.check_counts
                &&& w.unresolved == v.unresolved
                &&& w.sent.len() == v.sent.len() + batch.len()
                &&& forall|i: int| 0 <= i < v.sent.len() ==> (#[trigger] w.sent[i]) == v.sent[i]
                &&& forall|k: int|
                    0 <= k < batch.len() ==> {
                        let record = #[trigger] w.sent[v.sent.len() + k];
                        &&& record.worker == worker
                        &&& record.task == batch[k]
                        &&& forall|t: int| #[trigger]
                            record.done.contains(t) <==> 0 <= t < v.tasks.len() && v.tasks[t].state
                                == TaskState::Done
                    }
            } else if v.unresolved.len() > 0 {
                let n = if v.unresolved.len() <= 64 {
                    v.unresolved.len() as int
                } else {
                    64
                };
                &&& sent.len() == 1
                &&& sent[0].worker == worker
                &&& sent[0].flags == 8
                &&& sent[0].max_working_slot == slot
                &&& sent[0].batch.len() == n
                &&& forall|k: int|
                    0 <= k < n ==> (#[trigger] sent[0].batch[k])
                        == v.entries[v.unresolved[k] as int].1
                &&& w.unresolved == v.unresolved.skip(n)
                &&& w.inflight == v.inflight + 1
                &&& w.check_counts[worker] == v.check_counts[worker] + n
                &&& w.check_counts == v.check_counts.update(worker, w.check_counts[worker])
                &&& w.tasks == v.tasks
                &&& w.ready == v.ready
                &&& w.tails == v.tails
                &&& w.execute_counts == v.execute_counts
                &&& w.sent == v.sent
            } else {
                w == v && sent.len() == 0
            }
        }),
{
    assert(0u16 | 8u16 == 8u16) by (bit_vector);
    v.lemma_batch_sound(worker);
    let (batch, taken) = v.batch(worker);
    if batch.len() > 0 {
        v.lemma_send_execute_wf(worker, batch, taken);
    } else if v.unresolved.len() > 0 {
        v.lemma_send_check_wf(worker);
    }
}

/// Workers are given work one after the other, beginning with the first: each that is open meets what
/// those before it left, and one that is not open gets nothing.
pub proof fn law_workers_are_served_in_turn(v: ScheduleSpec, slot: u64, open: Seq<bool>, n: nat)
    requires
        n < open.len(),
    ensures
        v.serve_all(open, 0) == v,
        v.messages(slot, open, 0).len() == 0,
        open[n as int] ==> v.serve_all(open, n + 1) == v.serve_all(open, n).serve(n as int)
            && v.messages(slot, open, n + 1) == v.messages(slot, open, n) + v.serve_all(
            open,
            n,
        ).message(slot, n as int),
        !open[n as int] ==> v.serve_all(open, n + 1) == v.serve_all(open, n) && v.messages(
            slot,
            open,
            n + 1,
        ) == v.messages(slot, open, n),
{
}

/// One of the first `n` of `batch` has the signature of task `t`.
pub open spec fn answered_by(v: ScheduleSpec, batch: Seq<Returned>, n: nat, t: int) -> bool {
    exists|k: int| 0 <= k < n && (#[trigger] batch[k]).signature == v.entries[t].0
}

proof fn lemma_answered_next(v: ScheduleSpec, batch: Seq<Returned>, m: nat, t: int)
    ensures
        answered_by(v, batch, m + 1, t) <==> answered_by(v, batch, m, t) || batch[m as int].signature
            == v.entries[t].0,
{
    if answered_by(v, batch, m, t) {
        let k = choose|k: int| 0 <= k < m && (#[trigger] batch[k]).signature == v.entries[t].0;
        assert(0 <= k < m + 1);
    }
    if batch[m as int].signature == v.entries[t].0 {
        assert(0 <= m < m + 1);
    }
}

proof fn lemma_finish_all_states(v: ScheduleSpec, batch: Seq<Returned>, n: nat)
    requires
        v.wf(),
        n <= batch.len(),
        forall|k: int|
            0 <= k < batch.len() ==> v.knows((#[trigger] batch[k]).signature, TaskState::Assigned),
        forall|i: int, k: int|
            0 <= i < k < batch.len() ==> (#[trigger] batch[i]).signature != (
            #[trigger] batch[k]).signature,
    ensures
        ({
            let w = v.finish_all(batch, n);
            &&& w.wf()
            &&& w.tasks.len() == v.tasks.len()
            &&& forall|t: int|
                0 <= t < v.tasks.len() ==> (#[trigger] w.tasks[t]) == (if answered_by(
                    v,
                    batch,
                    n,
                    t,
                ) {
                    TaskSpec { state: TaskState::Done, ..v.tasks[t] }
                } else {
                    v.tasks[t]
                })
            &&& w.ready.len() >= v.ready.len()
            &&& forall|i: int| 0 <= i < v.ready.len() ==> (#[trigger] w.ready[i]) == v.ready[i]
            &&& w.entries == v.entries
            &&& w.accesses == v.accesses
            &&& w.unresolved == v.unresolved
            &&& w.tails == v.tails
            &&& w.inflight == v.inflight
            &&& w.check_counts == v.check_counts
            &&& w.execute_counts == v.execute_counts
            &&& w.sent == v.sent
        }),
    decreases n,
{
    if n > 0 {
        let m = (n - 1) as nat;
        lemma_finish_all_states(v, batch, m);
        v.lemma_finish_all_wf(batch, m);
        v.lemma_finish_all_wf(batch, n);
        let before = v.finish_all(batch, m);
        let after = v.finish_all(batch, n);
        let key = batch[n - 1].signature;
        assert(v.knows(key, TaskState::Assigned));
        let f = v.task_of(key);
        v.lemma_task_in_range(key);
        assert forall|t: int| 0 <= t < v.tasks.len() implies (#[trigger] after.tasks[t]) == (
        if answered_by(v, batch, n, t) {
            TaskSpec { state: TaskState::Done, ..v.tasks[t] }
        } else {
            v.tasks[t]
        }) by {
            lemma_answered_next(v, batch, m, t);
            assert(before.tasks[t].tx == v.tasks[t].tx);
            if t != f {
                if v.entries[t].0 == key {
                    v.lemma_task_of(t);
                }
                assert(after.tasks[t] == before.tasks[t]);
            }
        }
        assert forall|i: int| 0 <= i < v.ready.len() implies (#[trigger] after.ready[i])
            == v.ready[i] by {
            assert(before.ready[i] == v.ready[i]);
        }
    }
}

/// The response to CHECK that decides about task `t`: the last one to a transaction with its
/// signature.
pub open spec fn decides(v: ScheduleSpec, batch: Seq<Returned>, n: nat, t: int, k: int) -> bool {
    &&& 0 <= k < n
    &&& batch[k].signature == v.entries[t].0
    &&& forall|i: int| k < i < n ==> (#[trigger] batch[i]).signature != v.entries[t].0
}

proof fn lemma_outcome(response: CheckResponse)
    ensures
        response.outcome() == (if response.resolve_flags & 6 == 2 {
            Some(LookupsSpec { region: response.resolved_pubkeys, keys: response.keys@ })
        } else {
            None
        }),
{
    assert(2u8 | 4u8 == 6u8) by (bit_vector);
}

proof fn lemma_check_all_states(
    v: ScheduleSpec,
    batch: Seq<Returned>,
    responses: Seq<CheckResponse>,
    n: nat,
)
    requires
        v.wf(),
        n <= batch.len() == responses.len(),
        forall|k: int|
            0 <= k < batch.len() ==> v.knows(
                (#[trigger] batch[k]).signature,
                TaskState::Unresolved,
            ),
        forall|i: int, k: int|
            0 <= i < k < batch.len() && (#[trigger] batch[i]).signature == (
            #[trigger] batch[k]).signature ==> responses[i].outcome() is Some,
    ensures
        ({
            let w = v.check_all(batch, responses, n);
            &&& w.wf()
            &&& w.tasks.len() == v.tasks.len()
            &&& forall|t: int|
                0 <= t < v.tasks.len() && !answered_by(v, batch, n, t) ==> (#[trigger] w.tasks[t])
                    == v.tasks[t]
            &&& forall|t: int, k: int|
                0 <= t < v.tasks.len() && #[trigger] decides(v, batch, n, t, k) ==> {
                    &&& w.tasks[t].tx == v.tasks[t].tx
                    &&& responses[k].resolve_flags & 6 == 2 ==> w.tasks[t].state
                        == v.tasks[t].state && w.tasks[t].lookups == Some(
                        LookupsSpec {
                            region: responses[k].resolved_pubkeys,
                            keys: responses[k].keys@,
                        },
                    )
                    &&& responses[k].resolve_flags & 6 != 2 ==> w.tasks[t].state
                        == TaskState::Done
                }
            &&& w.ready == v.ready
            &&& w.entries == v.entries
            &&& w.accesses == v.accesses
            &&& w.unresolved == v.unresolved
            &&& w.tails == v.tails
            &&& w.inflight == v.inflight
            &&& w.check_counts == v.check_counts
            &&& w.execute_counts == v.execute_counts
            &&& w.sent == v.sent
        }),
    decreases n,
{
    if n > 0 {
        let m = (n - 1) as nat;
        lemma_check_all_states(v, batch, responses, m);
        v.lemma_check_all_wf(batch, responses, m);
        v.lemma_check_all_wf(batch, responses, n);
        let before = v.check_all(batch, responses, m);
        let after = v.check_all(batch, responses, n);
        let key = batch[n - 1].signature;
        assert(v.knows(key, TaskState::Unresolved));
        let f = v.task_of(key);
        v.lemma_task_in_range(key);
        lemma_outcome(responses[n - 1]);
        assert forall|t: int| 0 <= t < v.tasks.len() && !answered_by(v, batch, n, t) implies (
        #[trigger] after.tasks[t]) == v.tasks[t] by {
            lemma_answered_next(v, batch, m, t);
            assert(before.tasks[t] == v.tasks[t]);
            assert(t != f);
        }
        assert forall|t: int, k: int|
            0 <= t < v.tasks.len() && #[trigger] decides(v, batch, n, t, k) implies {
            &&& after.tasks[t].tx == v.tasks[t].tx
            &&& responses[k].resolve_flags & 6 == 2 ==> after.tasks[t].state == v.tasks[t].state
                && after.tasks[t].lookups == Some(
                LookupsSpec { region: responses[k].resolved_pubkeys, keys: responses[k].keys@ },
            )
            &&& responses[k].resolve_flags & 6 != 2 ==> after.tasks[t].state == TaskState::Done
        } by {
            if k < m {
                assert(batch[n - 1].signature != v.entries[t].0);
                assert(t != f);
                assert(decides(v, batch, m, t, k));
            } else {
                assert(v.entries[t].0 == key);
                v.lemma_task_of(t);
                assert(t == f);
                // An earlier response to it found its keys.
                assert(before.tasks[t].tx == v.tasks[t].tx && before.tasks[t].state
                    == v.tasks[t].state) by {
                    lemma_before_last(v, batch, responses, m, t);
                }
            }
        }
    }
}

/// Before the response that decides about a task, it is still unresolved.
proof fn lemma_before_last(
    v: ScheduleSpec,
    batch: Seq<Returned>,
    responses: Seq<CheckResponse>,
    m: nat,
    t: int,
)
    requires
        v.wf(),
        m < batch.len() == responses.len(),
        0 <= t < v.tasks.len(),
        batch[m as int].signature == v.entries[t].0,
        forall|k: int|
            0 <= k < batch.len() ==> v.knows(
                (#[trigger] batch[k]).signature,
                TaskState::Unresolved,
            ),
        forall|i: int, k: int|
            0 <= i < k < batch.len() && (#[trigger] batch[i]).signature == (
            #[trigger] batch[k]).signature ==> responses[i].outcome() is Some,
    ensures
        v.check_all(batch, responses, m).tasks.len() == v.tasks.len(),
        v.check_all(batch, responses, m).tasks[t].tx == v.tasks[t].tx,
        v.check_all(batch, responses, m).tasks[t].state == v.tasks[t].state,
{
    lemma_still_unresolved(v, batch, responses, m, m, t);
}

proof fn lemma_still_unresolved(
    v: ScheduleSpec,
    batch: Seq<Returned>,
    responses: Seq<CheckResponse>,
    n: nat,
    m: nat,
    t: int,
)
    requires
        v.wf(),
        n <= m < batch.len() == responses.len(),
        0 <= t < v.tasks.len(),
        batch[m as int].signature == v.entries[t].0,
        forall|k: int|
            0 <= k < batch.len() ==> v.knows(
                (#[trigger] batch[k]).signature,
                TaskState::Unresolved,
            ),
        forall|i: int, k: int|
            0 <= i < k < batch.len() && (#[trigger] batch[i]).signature == (
            #[trigger] batch[k]).signature ==> responses[i].outcome() is Some,
    ensures
        v.check_all(batch, responses, n).tasks.len() == v.tasks.len(),
        v.check_all(batch, responses, n).tasks[t].tx == v.tasks[t].tx,
        v.check_all(batch, responses, n).tasks[t].state == v.tasks[t].state,
    decreases n,
{
    if n > 0 {
        let l = (n - 1) as nat;
        lemma_still_unresolved(v, batch, responses, l, m, t);
        let key = batch[n - 1].signature;
        assert(v.knows(key, TaskState::Unresolved));
        v.lemma_task_in_range(key);
        if v.task_of(key) == t {
            assert(batch[n - 1].signature == batch[m as int].signature);
            assert(responses[n - 1].outcome() is Some);
        }
    }
}

/// What a reply does. One message less is out. Where it came too late for the slot, nothing else
/// changes and nothing is given back. Answers to EXECUTE make exactly the tasks that they name done,
/// whatever came of them. Answers to CHECK give a task that they name its looked-up keys where the
/// lookup was performed and did not fail, and else make it done. All other tasks, and what was ready
/// before, stay as they are.
pub proof fn law_replies_settle_tasks(v: ScheduleSpec, reply: Reply)
    requires
        v.wf(),
        v.accepts(reply),
    ensures
        ({
            let w = v.after(reply);
            let batch = reply.batch@;
            let n = batch.len();
            &&& w.wf()
            &&& w.inflight == v.inflight - 1
            &&& w.tasks.len() == v.tasks.len()
            &&& w.entries == v.entries
            &&& w.accesses == v.accesses
            &&& w.unresolved == v.unresolved
            &&& w.tails == v.tails
            &&& w.check_counts == v.check_counts
            &&& w.execute_counts == v.execute_counts
            &&& w.sent == v.sent
            &&& w.ready.len() >= v.ready.len()
            &&& forall|i: int| 0 <= i < v.ready.len() ==> (#[trigger] w.ready[i]) == v.ready[i]
            &&& reply.processed_code == 2 ==> w.tasks == v.tasks && w.ready == v.ready && v.frees(
                reply,
            ).len() == 0
            &&& reply.processed_code != 2 && reply.responses is Execution ==> {
                &&& forall|t: int|
                    0 <= t < v.tasks.len() ==> (#[trigger] w.tasks[t]) == (if exists|k: int|
                        0 <= k < n && (#[trigger] batch[k]).signature == v.entries[t].0 {
                        TaskSpec { state: TaskState::Done, ..v.tasks[t] }
                    } else {
                        v.tasks[t]
                    })
                &&& v.frees(reply).len() == n
                &&& forall|k: int, t: int|
                    0 <= k < n && 0 <= t < v.entries.len() && (#[trigger] batch[k]).signature == (
                    #[trigger] v.entries[t]).0 ==> v.frees(reply)[k] == v.entries[t].1
            }
            &&& reply.processed_code != 2 && reply.responses is Check ==> {
                let list = reply.responses->Check_0@;
                &&& w.ready == v.ready
                &&& forall|t: int|
                    0 <= t < v.tasks.len() && !(exists|k: int|
                        0 <= k < n && (#[trigger] batch[k]).signature == v.entries[t].0) ==> (
                    #[trigger] w.tasks[t]) == v.tasks[t]
                &&& forall|t: int, k: int|
                    0 <= t < v.tasks.len() && #[trigger] decides(v, batch, n, t, k) ==> {
                        &&& w.tasks[t].tx == v.tasks[t].tx
                        &&& list[k].resolve_flags & 6 == 2 ==> w.tasks[t].state
                            == v.tasks[t].state && w.tasks[t].lookups == Some(
                            LookupsSpec { region: list[k].resolved_pubkeys, keys: list[k].keys@ },
                        )
                        &&& list[k].resolve_flags & 6 != 2 ==> w.tasks[t].state == TaskState::Done
                    }
            }
        }),
{
    let start = v.answered();
    let batch = reply.batch@;
    let n = batch.len();
    v.lemma_answered_wf();
    assert forall|key: [u8; 64], state: TaskState| #[trigger] v.knows(key, state) implies start.knows(
        key,
        state,
    ) by {
        assert(v.task_of(key) == start.task_of(key));
    }
    if reply.processed_code != 2 {
        match reply.responses {
            Responses::Execution(_) => {
                lemma_finish_all_states(start, batch, n);
                let w = v.after(reply);
                assert forall|t: int| 0 <= t < v.tasks.len() implies (#[trigger] w.tasks[t]) == (
                if exists|k: int| 0 <= k < n && (#[trigger] batch[k]).signature == v.entries[t].0 {
                    TaskSpec { state: TaskState::Done, ..v.tasks[t] }
                } else {
                    v.tasks[t]
                }) by {
                    assert(answered_by(start, batch, n, t) == (exists|k: int|
                        0 <= k < n && (#[trigger] batch[k]).signature == v.entries[t].0));
                }
                assert forall|k: int, t: int|
                    0 <= k < n && 0 <= t < v.entries.len() && (#[trigger] batch[k]).signature == (
                    #[trigger] v.entries[t]).0 implies v.frees(reply)[k] == v.entries[t].1 by {
                    v.lemma_task_of(t);
                }
            },
            Responses::Check(list) => {
                lemma_check_all_states(start, batch, list@, n);
                let w = v.after(reply);
                assert forall|t: int|
                    0 <= t < v.tasks.len() && !(exists|k: int|
                        0 <= k < n && (#[trigger] batch[k]).signature == v.entries[t].0) implies (
                #[trigger] w.tasks[t]) == v.tasks[t] by {
                    assert(!answered_by(start, batch, n, t));
                }
                assert forall|t: int, k: int| #[trigger] decides(v, batch, n, t, k) implies decides(
                    start,
                    batch,
                    n,
                    t,
                    k,
                ) by {
                }
                assert forall|t: int, k: int|
                    0 <= t < v.tasks.len() && #[trigger] decides(v, batch, n, t, k) implies {
                    &&& w.tasks[t].tx == v.tasks[t].tx
                    &&& list@[k].resolve_flags & 6 == 2 ==> w.tasks[t].state == v.tasks[t].state
                        && w.tasks[t].lookups == Some(
                        LookupsSpec { region: list@[k].resolved_pubkeys, keys: list@[k].keys@ },
                    )
                    &&& list@[k].resolve_flags & 6 != 2 ==> w.tasks[t].state == TaskState::Done
                } by {
                    assert(decides(start, batch, n, t, k));
                }
            },
            Responses::Other(_) => {},
        }
    }
}

/// What a reply to CHECK gives back are the regions of the tasks that it refuses, in the order of its
/// responses.
pub proof fn law_refused_are_given_back(
    v: ScheduleSpec,
    batch: Seq<Returned>,
    responses: Seq<CheckResponse>,
    n: nat,
    t: int,
)
    requires
        v.wf(),
        n < batch.len(),
        n < responses.len(),
        0 <= t < v.entries.len(),
        batch[n as int].signature == v.entries[t].0,
    ensures
        v.refused(batch, responses, 0).len() == 0,
        responses[n as int].resolve_flags & 6 == 2 ==> v.refused(batch, responses, n + 1)
            == v.refused(batch, responses, n),
        responses[n as int].resolve_flags & 6 != 2 ==> v.refused(batch, responses, n + 1)
            == v.refused(batch, responses, n).push(v.entries[t].1),
{
    lemma_outcome(responses[n as int]);
    v.lemma_task_of(t);
}

/// Some task has signature `key` and is in `state`.
pub open spec fn is_task(v: ScheduleSpec, key: [u8; 64], state: TaskState) -> bool {
    exists|t: int|
        0 <= t < v.tasks.len() && (#[trigger] v.entries[t]).0 == key && v.tasks[t].state == state
}

/// Which replies a worker may send: one to a message that is out. It says that the message came too
/// late; or it was processed, answers each transaction that it names, and names only tasks that were
/// sent for what it answers: for EXECUTE each at most once, and for CHECK none again that it refused.
pub proof fn law_expected_schedule_replies(v: ScheduleSpec, reply: Reply)
    requires
        v.wf(),
    ensures
        v.accepts(reply) ==> v.inflight > 0,
        reply.processed_code == 2 ==> (v.accepts(reply) <==> v.inflight > 0),
        reply.processed_code != 0 && reply.processed_code != 2 ==> !v.accepts(reply),
        reply.processed_code == 0 && reply.responses is Other ==> !v.accepts(reply),
        reply.processed_code == 0 && v.inflight > 0 && reply.responses is Execution ==> (v.accepts(
            reply,
        ) <==> {
            &&& reply.responses->Execution_0@.len() == reply.batch@.len()
            &&& forall|k: int|
                0 <= k < reply.batch@.len() ==> is_task(
                    v,
                    (#[trigger] reply.batch@[k]).signature,
                    TaskState::Assigned,
                )
            &&& forall|i: int, k: int|
                0 <= i < k < reply.batch@.len() ==> (#[trigger] reply.batch@[i]).signature != (
                #[trigger] reply.batch@[k]).signature
        }),
        reply.processed_code == 0 && v.inflight > 0 && reply.responses is Check ==> (v.accepts(
            reply,
        ) <==> {
            &&& reply.responses->Check_0@.len() == reply.batch@.len()
            &&& forall|k: int|
                0 <= k < reply.batch@.len() ==> is_task(
                    v,
                    (#[trigger] reply.batch@[k]).signature,
                    TaskState::Unresolved,
                )
            &&& forall|i: int, k: int|
                0 <= i < k < reply.batch@.len() && (#[trigger] reply.batch@[i]).signature == (
                #[trigger] reply.batch@[k]).signature
                    ==> reply.responses->Check_0@[i].resolve_flags & 6 == 2
        }),
{
    assert forall|key: [u8; 64], state: TaskState| #[trigger] v.knows(key, state) == is_task(
        v,
        key,
        state,
    ) by {
        if v.knows(key, state) {
            v.lemma_task_in_range(key);
            assert(v.entries[v.task_of(key)].0 == key);
        }
        if is_task(v, key, state) {
            let t = choose|t: int|
                0 <= t < v.tasks.len() && (#[trigger] v.entries[t]).0 == key && v.tasks[t].state
                    == state;
            v.lemma_task_of(t);
        }
    }
    let batch = reply.batch@;
    assert forall|k: int, state: TaskState| 0 <= k < batch.len() implies v.knows(
        (#[trigger] batch[k]).signature,
        state,
    ) == #[trigger] is_task(v, batch[k].signature, state) by {
    }
    if reply.responses is Check {
        let list = reply.responses->Check_0@;
        assert forall|i: int| 0 <= i < list.len() implies ((#[trigger] list[i]).outcome() is Some
            <==> list[i].resolve_flags & 6 == 2) by {
            lemma_outcome(list[i]);
        }
    }
}

/// What clearing a schedule hands back: the regions of exactly the tasks that are not done, in the
/// order of insertion. Those that are simple votes, by format, signatures and program, come back as
/// votes, and all others as dropped.
pub proof fn law_clearing_sorts_votes_out(v: ScheduleSpec, votes: bool, n: nat)
    requires
        n <= v.tasks.len(),
    ensures
        v.unexecuted(votes, n) == Seq::new(n, |t: int| t).filter(
            |t: int|
                v.tasks[t].state != TaskState::Done && votes == (v.tasks[t].tx.legacy
                    && v.tasks[t].tx.signatures.len() <= 2 && v.tasks[t].tx.program_indices.len()
                    == 1 && v.tasks[t].tx.static_keys[v.tasks[t].tx.program_indices[0] as int]
                    == VOTE_PROGRAM),
        ).map_values(|t: int| v.entries[t].1),
    decreases n,
{
    reveal(Seq::filter);
    let listed = |t: int|
        v.tasks[t].state != TaskState::Done && votes == (v.tasks[t].tx.legacy
            && v.tasks[t].tx.signatures.len() <= 2 && v.tasks[t].tx.program_indices.len() == 1
            && v.tasks[t].tx.static_keys[v.tasks[t].tx.program_indices[0] as int] == VOTE_PROGRAM);
    let region = |t: int| v.entries[t].1;
    let all = Seq::new(n, |t: int| t);
    if n > 0 {
        let m = (n - 1) as nat;
        law_clearing_sorts_votes_out(v, votes, m);
        let fewer = Seq::new(m, |t: int| t);
        assert(all.drop_last() =~= fewer);
        assert(all.last() == n - 1);
        if listed(n - 1) {
            assert(all.filter(listed).map_values(region) =~= fewer.filter(listed).map_values(
                region,
            ).push(v.entries[n - 1].1));
        }
    }
    assert(v.unexecuted(votes, n) =~= all.filter(listed).map_values(region));
}

/// The key lists that clearing a schedule hands back are those of the tasks that are not done and have
/// one, in the order of insertion.
pub proof fn law_clearing_hands_keys_back(v: ScheduleSpec, n: nat)
    requires
        n <= v.tasks.len(),
    ensures
        v.unused_keys(n) == Seq::new(n, |t: int| t).filter(
            |t: int| v.tasks[t].state != TaskState::Done && v.tasks[t].lookups is Some,
        ).map_values(|t: int| v.tasks[t].lookups->0.region),
    decreases n,
{
    reveal(Seq::filter);
    let listed = |t: int| v.tasks[t].state != TaskState::Done && v.tasks[t].lookups is Some;
    let region = |t: int| v.tasks[t].lookups->0.region;
    let all = Seq::new(n, |t: int| t);
    if n > 0 {
        let m = (n - 1) as nat;
        law_clearing_hands_keys_back(v, m);
        let fewer = Seq::new(m, |t: int| t);
        assert(all.drop_last() =~= fewer);
        assert(all.last() == n - 1);
        if listed(n - 1) {
            assert(all.filter(listed).map_values(region) =~= fewer.filter(listed).map_values(
                region,
            ).push(v.tasks[n - 1].lookups->0.region));
        }
    }
    assert(v.unused_keys(n) =~= all.filter(listed).map_values(region));
}

/// The totals that clearing a schedule reports add up what went to each worker.
pub proof fn law_totals_add_up(counts: Seq<usize>)
    ensures
        sum(counts) == counts.fold_left(0int, |total: int, count: usize| total + count),
    decreases counts.len(),
{
    if counts.len() > 0 {
        law_totals_add_up(counts.drop_last());
    }
}

/// Which transactions can be inserted: those that are long enough to hold a signature and that parse;
/// one whose signature is known, or occurs before it, is not parsed.
pub proof fn law_what_can_be_inserted(v: ScheduleSpec, txs: Seq<Arrival>)
    ensures
        v.insertable(txs) <==> forall|i: int|
            0 <= i < txs.len() ==> (#[trigger] txs[i]).data@.len() >= 65 && (parsed_transaction(
                txs[i].data@,
            ) is Some || (exists|t: int|
                0 <= t < v.entries.len() && (#[trigger] v.entries[t]).0 == first_signature(
                    txs[i].data@,
                )) || (exists|j: int|
                0 <= j < i && first_signature((#[trigger] txs[j]).data@) == first_signature(
                    txs[i].data@,
                ))),
{
    if v.insertable(txs) {
        assert forall|i: int| 0 <= i < txs.len() implies (#[trigger] txs[i]).data@.len() >= 65 && (
        parsed_transaction(txs[i].data@) is Some || (exists|t: int|
            0 <= t < v.entries.len() && (#[trigger] v.entries[t]).0 == first_signature(
                txs[i].data@,
            )) || (exists|j: int|
            0 <= j < i && first_signature((#[trigger] txs[j]).data@) == first_signature(
                txs[i].data@,
            ))) by {
            assert(v.insertable_at(txs, i));
        }
    }
}

/// Which tasks the cursor could not pass: one that it reaches, so that none from the cursor to it awaits
/// looked-up keys, and whose header claims more signatures than there are keys, or that names an
/// account twice to change it.
pub proof fn law_what_can_be_resolved(v: ScheduleSpec, t: int)
    requires
        v.resolvable(),
        v.cursor() <= t < v.tasks.len(),
        v.tasks[t].state == TaskState::Unresolved,
        forall|u: int|
            v.cursor() <= u <= t ==> !((#[trigger] v.tasks[u]).state == TaskState::Unresolved
                && v.tasks[u].tx.num_lookups != 0 && v.tasks[u].lookups is None),
    ensures
        v.tasks[t].tx.num_required_signatures <= v.tasks[t].tx.static_keys.len(),
        self_consistent(v.tasks[t].tx.accesses(known_keys(v.tasks[t]))),
{
    assert forall|u: int| v.cursor() <= u <= t implies !#[trigger] v.blocked(u) by {
        assert(!(v.tasks[u].state == TaskState::Unresolved && v.tasks[u].tx.num_lookups != 0
            && v.tasks[u].lookups is None));
    }
    assert(v.tasks[t].state == TaskState::Unresolved);
}

/// Nothing else keeps the cursor from going on: where each such task is in order, it can.
pub proof fn law_nothing_else_keeps_the_cursor(v: ScheduleSpec)
    requires
        forall|t: int|
            v.cursor() <= t < v.tasks.len() && (#[trigger] v.tasks[t]).state
                == TaskState::Unresolved && (v.tasks[t].tx.num_lookups == 0 || v.tasks[t].lookups
                is Some) ==> v.tasks[t].tx.num_required_signatures
                <= v.tasks[t].tx.static_keys.len() && self_consistent(
                v.tasks[t].tx.accesses(known_keys(v.tasks[t])),
            ),
    ensures
        v.resolvable(),
{
    assert forall|t: int|
        v.cursor() <= t < v.tasks.len() && (#[trigger] v.tasks[t]).state == TaskState::Unresolved
            && (forall|u: int|
            v.cursor() <= u <= t ==> !#[trigger] v.blocked(
                u,
            )) implies v.tasks[t].tx.num_required_signatures <= v.tasks[t].tx.static_keys.len()
        && self_consistent(v.task_accesses(t)) by {
        assert(!v.blocked(t));
    }
}

/// Whether tasks are votes can be told where it can of each that is not done.
pub proof fn law_votes_can_be_told(v: ScheduleSpec)
    ensures
        !v.votes_readable() <==> exists|t: int|
            0 <= t < v.tasks.len() && (#[trigger] v.tasks[t]).state != TaskState::Done
                && !v.tasks[t].tx.vote_readable(),
{
}

} // verus!
