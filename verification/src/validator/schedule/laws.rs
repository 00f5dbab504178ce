//! What holds of a schedule over any number of operations.

use crate::bindings::{
    Reply, Responses, Returned, CheckResponse, PubkeysRegion, TransactionRegion,
    MAX_TRANSACTIONS_PER_MESSAGE, MAX_WORKING_SLOT_EXCEEDED,
};
use crate::ipc::shmem::{first_signature, Arrival};
use crate::validator::schedule::conflict::{conflict, follows, lemma_conflict_has_path};
use crate::validator::schedule::model::{precedes, was_sent, ScheduleSpec, Sent, TaskState};
use vstd::multiset::Multiset;
use vstd::prelude::*;

verus! {

/// The `i`-th dispatch is over before the `j`-th starts: it went to the same worker, which serves
/// its messages in order, or its task was done when the `j`-th was sent.
pub open spec fn directly_before(sent: Seq<Sent>, i: int, j: int) -> bool {
    &&& 0 <= i < j
    &&& sent[i].worker == sent[j].worker || sent[j].done.contains(sent[i].task)
}

/// A chain of dispatches, each over before the next one starts, leads from the `i`-th to the
/// `j`-th.
pub open spec fn executes_before(sent: Seq<Sent>, i: int, j: int) -> bool
    decreases j,
{
    ||| directly_before(sent, i, j)
    ||| exists|k: int|
        i < k < j && #[trigger] directly_before(sent, k, j) && executes_before(sent, i, k)
}

/// Transactions that conflict execute in the order of their insertion: where the `j`-th dispatch
/// sent a task that shares an account with an older task `p`, and one of the two writes it, then
/// `p` was sent before, and executes before it.
pub proof fn law_conflicts_execute_in_order(v: ScheduleSpec, p: int, j: int)
    requires
        v.wf(),
        0 <= j < v.sent.len(),
        0 <= p < v.sent[j].task,
        conflict(v.accesses, p, v.sent[j].task),
    ensures
        exists|i: int|
            0 <= i < j && (#[trigger] v.sent[i]).task == p && executes_before(v.sent, i, j),
    decreases j,
{
    let t = v.sent[j].task;
    lemma_conflict_has_path(v.accesses, p, t);
    if follows(v.accesses, p, t) {
        assert(precedes(v.sent, p, j));
        let i = choose|i: int|
            0 <= i < j && (#[trigger] v.sent[i]).task == p && (v.sent[i].worker == v.sent[j].worker
                || v.sent[j].done.contains(p));
        assert(directly_before(v.sent, i, j));
    } else {
        let q = choose|q: int|
            p < q < t && #[trigger] conflict(v.accesses, p, q) && follows(v.accesses, q, t);
        assert(precedes(v.sent, q, j));
        let k = choose|k: int|
            0 <= k < j && (#[trigger] v.sent[k]).task == q && (v.sent[k].worker == v.sent[j].worker
                || v.sent[j].done.contains(q));
        assert(directly_before(v.sent, k, j));
        law_conflicts_execute_in_order(v, p, k);
        let i = choose|i: int|
            0 <= i < k && (#[trigger] v.sent[i]).task == p && executes_before(v.sent, i, k);
        assert(executes_before(v.sent, i, j));
    }
}

/// No task is sent for EXECUTE twice, and only tasks that the cursor has passed are sent.
pub proof fn law_sent_once(v: ScheduleSpec, i: int, j: int)
    requires
        v.wf(),
        0 <= i < v.sent.len(),
        0 <= j < v.sent.len(),
        v.sent[i].task == v.sent[j].task,
    ensures
        i == j,
        0 <= v.sent[i].task < v.cursor(),
{
    if i < j {
        assert(v.sent[i].task != v.sent[j].task);
    } else if j < i {
        assert(v.sent[j].task != v.sent[i].task);
    }
}

/// Sending leaves what is done alone: a task that was executed, or that CHECK refused, stays done,
/// and goes out for EXECUTE afterwards only where it had gone out before. So one that CHECK refused
/// never reaches a worker for EXECUTE.
pub proof fn law_done_is_not_sent(v: ScheduleSpec, t: int, open: Seq<bool>, n: nat)
    requires
        v.wf(),
        n <= open.len() <= v.tails.len(),
        0 <= t < v.tasks.len(),
        v.tasks[t].state == TaskState::Done,
    ensures
        v.advance().serve_all(open, n).tasks.len() == v.tasks.len(),
        v.advance().serve_all(open, n).tasks[t].state == TaskState::Done,
        was_sent(v.advance().serve_all(open, n).sent, t) == was_sent(v.sent, t),
    decreases n,
{
    if n == 0 {
        lemma_advance_done(v, t);
    } else {
        let m = (n - 1) as nat;
        law_done_is_not_sent(v, t, open, m);
        law_send_keeps_regions(v, open, m);
        let before = v.advance().serve_all(open, m);
        let after = v.advance().serve_all(open, n);
        if open[n - 1] {
            before.lemma_batch_sound(n - 1);
            let (batch, taken) = before.batch(n - 1);
            if batch.len() > 0 {
                assert(!batch.contains(t as usize)) by {
                    if batch.contains(t as usize) {
                        let k = choose|k: int| 0 <= k < batch.len() && batch[k] == t as usize;
                        assert(before.tasks[batch[k] as int].state == TaskState::Resolved);
                    }
                }
                assert forall|i: int| 0 <= i < after.sent.len() && (
                #[trigger] after.sent[i]).task == t implies i < before.sent.len() by {
                    if i >= before.sent.len() {
                        let k = i - before.sent.len();
                        assert(after.sent[i].task == batch[k] as int);
                        assert(batch[k] == t as usize);
                    }
                }
                lemma_sent_grows(before.sent, after.sent, t);
            }
        }
    }
}

/// Replies leave what is done alone, and send nothing.
pub proof fn law_replies_send_nothing(v: ScheduleSpec, reply: Reply, t: int)
    requires
        v.wf(),
        v.accepts(reply),
        0 <= t < v.tasks.len(),
        v.tasks[t].state == TaskState::Done,
    ensures
        v.after(reply).sent == v.sent,
        v.after(reply).tasks.len() == v.tasks.len(),
        v.after(reply).tasks[t].state == TaskState::Done,
{
    let start = v.answered();
    if reply.processed_code != MAX_WORKING_SLOT_EXCEEDED {
        let batch = reply.batch@;
        assert forall|k: int| 0 <= k < batch.len() implies 0 <= start.task_of(
            (#[trigger] batch[k]).signature,
        ) < start.tasks.len() by {
            let key = batch[k].signature;
            assert(v.has_task(key));
            v.lemma_task_in_range(key);
            assert(v.task_of(key) == start.task_of(key));
        }
        match reply.responses {
            Responses::Execution(_) => lemma_finish_all_done(start, batch, t, batch.len()),
            Responses::Check(list) => lemma_check_all_done(start, batch, list@, t, batch.len()),
            Responses::Other(_) => {},
        }
    }
}

proof fn lemma_advance_done(v: ScheduleSpec, t: int)
    requires
        0 <= t < v.tasks.len(),
        v.tasks[t].state == TaskState::Done,
    ensures
        v.advance().tasks.len() == v.tasks.len(),
        v.advance().tasks[t].state == TaskState::Done,
        v.advance().sent == v.sent,
    decreases v.tasks.len() - v.cursor(),
{
    if !v.stuck() {
        lemma_advance_done(v.step_cursor(), t);
    }
}

proof fn lemma_sent_grows(before: Seq<Sent>, after: Seq<Sent>, t: int)
    requires
        before.len() <= after.len(),
        before =~= after.take(before.len() as int),
        forall|i: int|
            0 <= i < after.len() && (#[trigger] after[i]).task == t ==> i < before.len(),
    ensures
        was_sent(after, t) == was_sent(before, t),
{
    if was_sent(before, t) {
        let i = choose|i: int| 0 <= i < before.len() && (#[trigger] before[i]).task == t;
        assert(after[i] == after.take(before.len() as int)[i]);
    }
    if was_sent(after, t) {
        let i = choose|i: int| 0 <= i < after.len() && (#[trigger] after[i]).task == t;
        assert(before[i] == after.take(before.len() as int)[i]);
    }
}

proof fn lemma_finish_all_done(v: ScheduleSpec, batch: Seq<Returned>, t: int, n: nat)
    requires
        0 <= t < v.tasks.len(),
        v.tasks[t].state == TaskState::Done,
        n <= batch.len(),
        forall|k: int|
            0 <= k < batch.len() ==> 0 <= v.task_of((#[trigger] batch[k]).signature)
                < v.tasks.len(),
    ensures
        v.finish_all(batch, n).sent == v.sent,
        v.finish_all(batch, n).tasks.len() == v.tasks.len(),
        v.finish_all(batch, n).tasks[t].state == TaskState::Done,
    decreases n,
{
    if n > 0 {
        lemma_finish_all_done(v, batch, t, (n - 1) as nat);
    }
}

proof fn lemma_check_all_done(
    v: ScheduleSpec,
    batch: Seq<Returned>,
    responses: Seq<CheckResponse>,
    t: int,
    n: nat,
)
    requires
        0 <= t < v.tasks.len(),
        v.tasks[t].state == TaskState::Done,
        n <= batch.len(),
        forall|k: int|
            0 <= k < batch.len() ==> 0 <= v.task_of((#[trigger] batch[k]).signature)
                < v.tasks.len(),
    ensures
        v.check_all(batch, responses, n).sent == v.sent,
        v.check_all(batch, responses, n).tasks.len() == v.tasks.len(),
        v.check_all(batch, responses, n).tasks[t].state == TaskState::Done,
    decreases n,
{
    if n > 0 {
        lemma_check_all_done(v, batch, responses, t, (n - 1) as nat);
    }
}

/// Nothing waits for ever: where no task is on a worker and the cursor has passed all of them, a
/// task that is not done leaves some task ready.
pub proof fn law_progress(v: ScheduleSpec, t: int)
    requires
        v.wf(),
        v.cursor() == v.tasks.len(),
        forall|s: int|
            0 <= s < v.tasks.len() ==> (#[trigger] v.tasks[s]).state != TaskState::Assigned,
        0 <= t < v.tasks.len(),
        v.tasks[t].state != TaskState::Done,
    ensures
        v.ready.len() > 0,
    decreases t,
{
    assert(v.tasks[t].state == TaskState::Resolved);
    if v.waiting_on(t) =~= Set::empty() {
        assert(v.is_ready(t));
        assert(v.ready.contains(t as usize));
    } else {
        let p = v.waiting_on(t).choose();
        assert(v.waiting_on(t).contains(p));
        law_progress(v, p);
    }
}

/// A worker that is open is not left idle: where a task is ready or awaits CHECK, it is sent one
/// message, of at least one transaction and at most as many as a message takes.
pub proof fn law_open_worker_is_served(v: ScheduleSpec, slot: u64, worker: int)
    requires
        v.wf(),
        0 <= worker < v.tails.len(),
        v.ready.len() > 0 || v.unresolved.len() > 0,
    ensures
        v.message(slot, worker).len() == 1,
        v.message(slot, worker)[0].worker == worker,
        0 < v.message(slot, worker)[0].batch.len() <= MAX_TRANSACTIONS_PER_MESSAGE,
{
    v.lemma_batch_sound(worker);
}

/// Sending makes progress: where some task is ready and some worker is open, at least one more task
/// is on its way afterwards. As no task is sent twice, all of them are sent after finitely many
/// rounds.
pub proof fn law_sending_makes_progress(v: ScheduleSpec, open: Seq<bool>, n: nat)
    requires
        v.wf(),
        n <= open.len() <= v.tails.len(),
        v.ready.len() > 0,
    ensures
        v.serve_all(open, n).wf(),
        v.serve_all(open, n).tails.len() == v.tails.len(),
        v.serve_all(open, n).cursor() == v.cursor(),
        v.sent.len() <= v.serve_all(open, n).sent.len() <= v.cursor(),
        (exists|w: int| 0 <= w < n && #[trigger] open[w]) ==> v.sent.len() < v.serve_all(
            open,
            n,
        ).sent.len(),
        !(exists|w: int| 0 <= w < n && #[trigger] open[w]) ==> v.serve_all(open, n) == v,
    decreases n,
{
    v.lemma_sent_bound();
    if n > 0 {
        let m = (n - 1) as nat;
        law_sending_makes_progress(v, open, m);
        let before = v.serve_all(open, m);
        let after = v.serve_all(open, n);
        if open[n - 1] {
            before.lemma_batch_sound(n - 1);
            let (batch, taken) = before.batch(n - 1);
            if batch.len() > 0 {
                before.lemma_send_execute_wf(n - 1, batch, taken);
            } else if before.unresolved.len() > 0 {
                before.lemma_send_check_wf(n - 1);
            }
            after.lemma_sent_bound();
            if exists|w: int| 0 <= w < m && #[trigger] open[w] {
                let w = choose|w: int| 0 <= w < m && #[trigger] open[w];
                assert(0 <= w < n && open[w]);
            }
        } else if exists|w: int| 0 <= w < n && #[trigger] open[w] {
            let w = choose|w: int| 0 <= w < n && #[trigger] open[w];
            assert(0 <= w < m && open[w]);
        }
    }
}

/// What the first `n` tasks that are not done hold in shared memory.
pub open spec fn held(v: ScheduleSpec, n: nat) -> Multiset<TransactionRegion>
    decreases n,
{
    if n == 0 {
        Multiset::empty()
    } else if v.tasks[n - 1].state == TaskState::Done {
        held(v, (n - 1) as nat)
    } else {
        held(v, (n - 1) as nat).insert(v.entries[n - 1].1)
    }
}

/// What a schedule holds in shared memory.
pub open spec fn held_by(v: ScheduleSpec) -> Multiset<TransactionRegion> {
    held(v, v.tasks.len())
}

/// What is held depends on the entries and on which tasks are done.
proof fn lemma_held_same(v: ScheduleSpec, w: ScheduleSpec, n: nat)
    requires
        n <= v.tasks.len(),
        n <= w.tasks.len(),
        n <= v.entries.len(),
        n <= w.entries.len(),
        forall|t: int| 0 <= t < n ==> (#[trigger] v.entries[t]).1 == w.entries[t].1,
        forall|t: int|
            0 <= t < n ==> ((#[trigger] v.tasks[t]).state == TaskState::Done) == (w.tasks[t].state
                == TaskState::Done),
    ensures
        held(v, n) == held(w, n),
    decreases n,
{
    if n > 0 {
        lemma_held_same(v, w, (n - 1) as nat);
        assert(v.entries[n - 1].1 == w.entries[n - 1].1);
        assert((v.tasks[n - 1].state == TaskState::Done) == (w.tasks[n - 1].state
            == TaskState::Done));
    }
}

/// A task that gets done gives its region up.
proof fn lemma_held_done(v: ScheduleSpec, w: ScheduleSpec, t: int, n: nat)
    requires
        0 <= t < n <= v.tasks.len(),
        n <= v.entries.len(),
        w.tasks.len() == v.tasks.len(),
        w.entries == v.entries,
        v.tasks[t].state != TaskState::Done,
        w.tasks[t].state == TaskState::Done,
        forall|s: int|
            0 <= s < n && s != t ==> ((#[trigger] v.tasks[s]).state == TaskState::Done) == (
            w.tasks[s].state == TaskState::Done),
    ensures
        held(v, n) == held(w, n).insert(v.entries[t].1),
    decreases n,
{
    if t == n - 1 {
        lemma_held_same(v, w, t as nat);
    } else {
        lemma_held_done(v, w, t, (n - 1) as nat);
        assert((v.tasks[n - 1].state == TaskState::Done) == (w.tasks[n - 1].state
            == TaskState::Done));
        let a = held(w, (n - 1) as nat);
        let x = v.entries[t].1;
        let y = v.entries[n - 1].1;
        assert(a.insert(x).insert(y) =~= a.insert(y).insert(x));
    }
}

/// The regions of the first `n` of `txs`.
pub open spec fn arrivals(txs: Seq<Arrival>, n: nat) -> Multiset<TransactionRegion>
    decreases n,
{
    if n == 0 {
        Multiset::empty()
    } else {
        arrivals(txs, (n - 1) as nat).insert(txs[n - 1].region)
    }
}

/// Inserting loses no region: each goes into the schedule, or comes back as a duplicate.
pub proof fn law_insert_keeps_regions(v: ScheduleSpec, txs: Seq<Arrival>, n: nat)
    requires
        v.wf(),
        n <= txs.len(),
    ensures
        held_by(v).add(arrivals(txs, n)) == held_by(v.insert_all(txs, n)).add(
            v.duplicates(txs, n).to_multiset(),
        ),
        v.insert_all(txs, n).entries.len() == v.insert_all(txs, n).tasks.len(),
    decreases n,
{
    broadcast use vstd::seq_lib::group_to_multiset_ensures;

    if n == 0 {
        assert(held_by(v).add(arrivals(txs, n)) =~= held_by(v.insert_all(txs, n)).add(
            v.duplicates(txs, n).to_multiset(),
        ));
    } else {
        let m = (n - 1) as nat;
        law_insert_keeps_regions(v, txs, m);
        let before = v.insert_all(txs, m);
        let after = v.insert_all(txs, n);
        let region = txs[n - 1].region;
        let come = arrivals(txs, m);
        let back = v.duplicates(txs, m).to_multiset();
        assert(held_by(v).add(come.insert(region)) =~= held_by(v).add(come).insert(region));
        if before.has_task(first_signature(txs[n - 1].data@)) {
            assert(held_by(before).add(back.insert(region)) =~= held_by(before).add(back).insert(
                region,
            ));
        } else {
            lemma_held_same(before, after, before.tasks.len());
            assert(held_by(after) == held_by(before).insert(region));
            assert(held_by(before).insert(region).add(back) =~= held_by(before).add(back).insert(
                region,
            ));
        }
    }
}

/// Sending work leaves the schedule with the same regions: what a worker has comes back.
pub proof fn law_send_keeps_regions(v: ScheduleSpec, open: Seq<bool>, n: nat)
    requires
        v.wf(),
        n <= open.len() <= v.tails.len(),
    ensures
        held_by(v.advance().serve_all(open, n)) == held_by(v),
        v.advance().serve_all(open, n).wf(),
        v.advance().serve_all(open, n).tails.len() == v.tails.len(),
    decreases n,
{
    if n == 0 {
        lemma_advance_held(v);
        v.lemma_advance_wf();
    } else {
        let m = (n - 1) as nat;
        law_send_keeps_regions(v, open, m);
        let before = v.advance().serve_all(open, m);
        let after = v.advance().serve_all(open, n);
        if open[n - 1] {
            before.lemma_batch_sound(n - 1);
            let (batch, taken) = before.batch(n - 1);
            if batch.len() > 0 {
                before.lemma_send_execute_wf(n - 1, batch, taken);
                assert forall|t: int| 0 <= t < before.tasks.len() implies ((
                #[trigger] before.tasks[t]).state == TaskState::Done) == (after.tasks[t].state
                    == TaskState::Done) by {
                    if batch.contains(t as usize) {
                        let k = choose|k: int| 0 <= k < batch.len() && batch[k] == t as usize;
                        assert(before.tasks[batch[k] as int].state == TaskState::Resolved);
                    }
                }
                lemma_held_same(before, after, before.tasks.len());
            } else if before.unresolved.len() > 0 {
                before.lemma_send_check_wf(n - 1);
                lemma_held_same(before, after, before.tasks.len());
            }
        }
    }
}

/// Moving the cursor leaves the schedule with the same regions.
proof fn lemma_advance_held(v: ScheduleSpec)
    requires
        v.wf(),
    ensures
        held_by(v.advance()) == held_by(v),
    decreases v.tasks.len() - v.cursor(),
{
    if !v.stuck() {
        v.lemma_step_cursor_wf();
        lemma_held_same(v, v.step_cursor(), v.tasks.len());
        lemma_advance_held(v.step_cursor());
    }
}

/// A reply loses no region and gives none back twice: what it frees is exactly what the schedule
/// no longer holds.
pub proof fn law_reply_keeps_regions(v: ScheduleSpec, reply: Reply)
    requires
        v.wf(),
        v.accepts(reply),
    ensures
        held_by(v) == held_by(v.after(reply)).add(v.frees(reply).to_multiset()),
{
    broadcast use vstd::seq_lib::group_to_multiset_ensures;

    let start = v.answered();
    v.lemma_answered_wf();
    lemma_held_same(v, start, v.tasks.len());
    assert forall|key: [u8; 64], state: TaskState| #[trigger] v.knows(key, state) implies start.knows(
        key,
        state,
    ) by {
        assert(v.task_of(key) == start.task_of(key));
    }
    if reply.processed_code == MAX_WORKING_SLOT_EXCEEDED {
        assert(held_by(v) =~= held_by(v.after(reply)).add(v.frees(reply).to_multiset()));
    } else {
        let batch = reply.batch@;
        match reply.responses {
            Responses::Execution(_) => {
                lemma_finish_all_held(start, batch, batch.len());
                assert(finished(start, batch, batch.len()) =~= v.frees(reply)) by {
                    lemma_finished(start, batch, batch.len());
                    assert forall|k: int| 0 <= k < batch.len() implies v.frees(reply)[k]
                        == finished(start, batch, batch.len())[k] by {
                        assert(start.task_of(batch[k].signature) == v.task_of(batch[k].signature));
                    }
                }
            },
            Responses::Check(list) => {
                lemma_check_all_held(start, batch, list@, batch.len());
                lemma_refused_same(start, v, batch, list@, batch.len());
            },
            Responses::Other(_) => {},
        }
    }
}

/// The regions of the first `n` of `batch`.
spec fn finished(v: ScheduleSpec, batch: Seq<Returned>, n: nat) -> Seq<TransactionRegion>
    decreases n,
{
    if n == 0 {
        Seq::empty()
    } else {
        finished(v, batch, (n - 1) as nat).push(
            v.entries[v.task_of(batch[n - 1].signature)].1,
        )
    }
}

proof fn lemma_finished(v: ScheduleSpec, batch: Seq<Returned>, n: nat)
    ensures
        finished(v, batch, n).len() == n,
        forall|k: int|
            0 <= k < n ==> (#[trigger] finished(v, batch, n)[k]) == v.entries[v.task_of(
                batch[k].signature,
            )].1,
    decreases n,
{
    if n > 0 {
        lemma_finished(v, batch, (n - 1) as nat);
    }
}

proof fn lemma_finish_all_held(v: ScheduleSpec, batch: Seq<Returned>, n: nat)
    requires
        v.wf(),
        n <= batch.len(),
        forall|k: int|
            0 <= k < batch.len() ==> v.knows((#[trigger] batch[k]).signature, TaskState::Assigned),
        forall|i: int, k: int|
            0 <= i < k < batch.len() ==> (#[trigger] batch[i]).signature != (
            #[trigger] batch[k]).signature,
    ensures
        held_by(v) == held_by(v.finish_all(batch, n)).add(finished(v, batch, n).to_multiset()),
    decreases n,
{
    broadcast use vstd::seq_lib::group_to_multiset_ensures;

    if n == 0 {
        assert(held_by(v) =~= held_by(v.finish_all(batch, n)).add(
            finished(v, batch, n).to_multiset(),
        ));
    } else {
        let m = (n - 1) as nat;
        lemma_finish_all_held(v, batch, m);
        v.lemma_finish_all_wf(batch, m);
        let before = v.finish_all(batch, m);
        let after = v.finish_all(batch, n);
        let key = batch[n - 1].signature;
        let t = v.task_of(key);
        assert(before.knows(key, TaskState::Assigned));
        assert(before.task_of(key) == t);
        before.lemma_task_in_range(key);
        lemma_held_done(before, after, t, before.tasks.len());
        assert(held_by(v) =~= held_by(after).add(finished(v, batch, n).to_multiset()));
    }
}

proof fn lemma_check_all_held(
    v: ScheduleSpec,
    batch: Seq<Returned>,
    responses: Seq<CheckResponse>,
    n: nat,
)
    requires
        v.wf(),
        n <= batch.len() == responses.len(),
        forall|k: int|
            0 <= k < batch.len() ==> v.knows(
                (#[trigger] batch[k]).signature,
                TaskState::Unresolved,
            ),
        forall|i: int, k: int|
            0 <= i < k < batch.len() && (#[trigger] batch[i]).signature == (
            #[trigger] batch[k]).signature ==> responses[i].outcome() is Some,
    ensures
        held_by(v) == held_by(v.check_all(batch, responses, n)).add(
            v.refused(batch, responses, n).to_multiset(),
        ),
    decreases n,
{
    broadcast use vstd::seq_lib::group_to_multiset_ensures;

    if n == 0 {
        assert(held_by(v) =~= held_by(v.check_all(batch, responses, n)).add(
            v.refused(batch, responses, n).to_multiset(),
        ));
    } else {
        let m = (n - 1) as nat;
        lemma_check_all_held(v, batch, responses, m);
        v.lemma_check_all_wf(batch, responses, m);
        let before = v.check_all(batch, responses, m);
        let after = v.check_all(batch, responses, n);
        let key = batch[n - 1].signature;
        let t = v.task_of(key);
        assert(before.knows(key, TaskState::Unresolved));
        assert(before.task_of(key) == t);
        before.lemma_task_in_range(key);
        if responses[n - 1].outcome() is Some {
            lemma_held_same(before, after, before.tasks.len());
        } else {
            lemma_held_done(before, after, t, before.tasks.len());
        }
        assert(held_by(v) =~= held_by(after).add(v.refused(batch, responses, n).to_multiset()));
    }
}

proof fn lemma_refused_same(
    v: ScheduleSpec,
    w: ScheduleSpec,
    batch: Seq<Returned>,
    responses: Seq<CheckResponse>,
    n: nat,
)
    requires
        v.entries == w.entries,
    ensures
        v.refused(batch, responses, n) == w.refused(batch, responses, n),
    decreases n,
{
    if n > 0 {
        lemma_refused_same(v, w, batch, responses, (n - 1) as nat);
        assert(v.task_of(batch[n - 1].signature) == w.task_of(batch[n - 1].signature));
    }
}

/// Clearing the schedule hands back every region that it holds, as a vote or as dropped, and none
/// of them twice.
pub proof fn law_reset_returns_regions(v: ScheduleSpec, n: nat)
    requires
        v.wf(),
        n <= v.tasks.len(),
    ensures
        held(v, n) == v.unexecuted(true, n).to_multiset().add(
            v.unexecuted(false, n).to_multiset(),
        ),
    decreases n,
{
    broadcast use vstd::seq_lib::group_to_multiset_ensures;

    if n > 0 {
        law_reset_returns_regions(v, (n - 1) as nat);
    }
    assert(held(v, n) =~= v.unexecuted(true, n).to_multiset().add(
        v.unexecuted(false, n).to_multiset(),
    ));
}

/// The lookup keys that the first `n` tasks hold.
pub open spec fn held_keys(v: ScheduleSpec, n: nat) -> Multiset<PubkeysRegion>
    decreases n,
{
    if n == 0 {
        Multiset::empty()
    } else {
        match v.tasks[n - 1].lookups {
            Some(lookups) if v.tasks[n - 1].state != TaskState::Done => held_keys(
                v,
                (n - 1) as nat,
            ).insert(lookups.region),
            _ => held_keys(v, (n - 1) as nat),
        }
    }
}

proof fn lemma_held_keys_same(v: ScheduleSpec, w: ScheduleSpec, n: nat)
    requires
        n <= v.tasks.len(),
        n <= w.tasks.len(),
        forall|t: int|
            0 <= t < n ==> (#[trigger] v.tasks[t]).lookups == w.tasks[t].lookups && (
            v.tasks[t].state == TaskState::Done) == (w.tasks[t].state == TaskState::Done),
    ensures
        held_keys(v, n) == held_keys(w, n),
    decreases n,
{
    if n > 0 {
        lemma_held_keys_same(v, w, (n - 1) as nat);
        assert(v.tasks[n - 1].lookups == w.tasks[n - 1].lookups);
    }
}

proof fn lemma_held_keys_step(v: ScheduleSpec, n: nat)
    requires
        v.wf(),
        !v.stuck(),
        v.tasks[v.cursor() as int].state == TaskState::Unresolved,
        v.cursor() < n <= v.tasks.len(),
    ensures
        held_keys(v, n) == (match v.tasks[v.cursor() as int].lookups {
            Some(lookups) => held_keys(v.step_cursor(), n).insert(lookups.region),
            None => held_keys(v.step_cursor(), n),
        }),
    decreases n,
{
    let w = v.step_cursor();
    let c = v.cursor() as int;
    if n == c + 1 {
        lemma_held_keys_same(v, w, c as nat);
    } else {
        lemma_held_keys_step(v, (n - 1) as nat);
        assert(w.tasks[n - 1] == v.tasks[n - 1]);
        if let Some(lookups) = v.tasks[c].lookups {
            if let Some(other) = v.tasks[n - 1].lookups {
                let a = held_keys(w, (n - 1) as nat);
                assert(a.insert(lookups.region).insert(other.region) =~= a.insert(
                    other.region,
                ).insert(lookups.region));
            }
        }
    }
}

/// Moving the cursor frees exactly the lookup keys that the schedule no longer holds.
pub proof fn law_advance_keeps_keys(v: ScheduleSpec)
    requires
        v.wf(),
    ensures
        held_keys(v, v.tasks.len()) == held_keys(v.advance(), v.tasks.len()).add(
            v.advance_frees().to_multiset(),
        ),
    decreases v.tasks.len() - v.cursor(),
{
    broadcast use vstd::seq_lib::group_to_multiset_ensures;

    if v.stuck() {
        assert(held_keys(v, v.tasks.len()) =~= held_keys(v.advance(), v.tasks.len()).add(
            v.advance_frees().to_multiset(),
        ));
    } else {
        let n = v.tasks.len();
        let w = v.step_cursor();
        let c = v.cursor() as int;
        v.lemma_step_cursor_wf();
        law_advance_keeps_keys(w);
        let rest = w.advance_frees();
        if v.tasks[c].state == TaskState::Done {
            lemma_held_keys_same(v, w, n);
            assert(v.advance_frees() =~= rest);
        } else {
            lemma_held_keys_step(v, n);
            match v.tasks[c].lookups {
                Some(lookups) => {
                    vstd::seq_lib::lemma_multiset_commutative(seq![lookups.region], rest);
                    assert(seq![lookups.region].to_multiset() =~= Multiset::empty().insert(
                        lookups.region,
                    )) by {
                        assert(seq![lookups.region] =~= Seq::empty().push(lookups.region));
                    }
                    assert(held_keys(v, n) =~= held_keys(v.advance(), n).add(
                        v.advance_frees().to_multiset(),
                    ));
                },
                None => {
                    assert(v.advance_frees() =~= rest);
                },
            }
        }
    }
}

/// The lookup keys that the first `n` of `responses` bring.
pub open spec fn brought_keys(responses: Seq<CheckResponse>, n: nat) -> Multiset<PubkeysRegion>
    decreases n,
{
    if n == 0 {
        Multiset::empty()
    } else {
        match responses[n - 1].outcome() {
            Some(lookups) => brought_keys(responses, (n - 1) as nat).insert(lookups.region),
            None => brought_keys(responses, (n - 1) as nat),
        }
    }
}

proof fn lemma_held_keys_checked(v: ScheduleSpec, t: int, response: CheckResponse, n: nat)
    requires
        0 <= t < v.tasks.len(),
        v.tasks[t].state == TaskState::Unresolved,
        v.tasks[t].lookups is None,
        n <= v.tasks.len(),
    ensures
        held_keys(v.checked(t, response.outcome()), n) == (match response.outcome() {
            Some(lookups) if t < n => held_keys(v, n).insert(lookups.region),
            _ => held_keys(v, n),
        }),
    decreases n,
{
    let w = v.checked(t, response.outcome());
    if n > 0 {
        lemma_held_keys_checked(v, t, response, (n - 1) as nat);
        if t != n - 1 {
            assert(w.tasks[n - 1] == v.tasks[n - 1]);
            if let Some(lookups) = response.outcome() {
                if let Some(other) = v.tasks[n - 1].lookups {
                    let a = held_keys(v, (n - 1) as nat);
                    assert(a.insert(lookups.region).insert(other.region) =~= a.insert(
                        other.region,
                    ).insert(lookups.region));
                }
            }
        }
    }
}

/// A CHECK reply for tasks that await their lookup keys brings the schedule exactly the keys of
/// those that passed.
pub proof fn law_check_brings_keys(
    v: ScheduleSpec,
    batch: Seq<Returned>,
    responses: Seq<CheckResponse>,
    n: nat,
)
    requires
        v.wf(),
        n <= batch.len() == responses.len(),
        forall|k: int|
            0 <= k < batch.len() ==> v.knows(
                (#[trigger] batch[k]).signature,
                TaskState::Unresolved,
            ) && v.tasks[v.task_of(batch[k].signature)].lookups is None,
        forall|i: int, k: int|
            0 <= i < k < batch.len() ==> (#[trigger] batch[i]).signature != (
            #[trigger] batch[k]).signature,
    ensures
        held_keys(v.check_all(batch, responses, n), v.tasks.len()) == held_keys(
            v,
            v.tasks.len(),
        ).add(brought_keys(responses, n)),
        forall|k: int|
            n <= k < batch.len() ==> v.check_all(batch, responses, n).tasks[v.task_of(
                (#[trigger] batch[k]).signature,
            )] == v.tasks[v.task_of(batch[k].signature)],
        v.check_all(batch, responses, n).tasks.len() == v.tasks.len(),
    decreases n,
{
    if n == 0 {
        assert(held_keys(v, v.tasks.len()).add(brought_keys(responses, n)) =~= held_keys(
            v,
            v.tasks.len(),
        ));
    } else {
        let m = (n - 1) as nat;
        law_check_brings_keys(v, batch, responses, m);
        let before = v.check_all(batch, responses, m);
        let key = batch[n - 1].signature;
        let t = v.task_of(key);
        assert(v.knows(key, TaskState::Unresolved));
        v.lemma_task_in_range(key);
        lemma_held_keys_checked(before, t, responses[n - 1], v.tasks.len());
        let all = held_keys(v, v.tasks.len());
        let brought = brought_keys(responses, m);
        if let Some(lookups) = responses[n - 1].outcome() {
            assert(all.add(brought).insert(lookups.region) =~= all.add(
                brought.insert(lookups.region),
            ));
        }
        assert forall|k: int| n <= k < batch.len() implies v.check_all(
            batch,
            responses,
            n,
        ).tasks[v.task_of((#[trigger] batch[k]).signature)] == v.tasks[v.task_of(
            batch[k].signature,
        )] by {
            assert(batch[n - 1].signature != batch[k].signature);
            assert(v.knows(batch[k].signature, TaskState::Unresolved));
            v.lemma_task_in_range(batch[k].signature);
        }
    }
}

/// Clearing the schedule hands back every list of lookup keys that it holds.
pub proof fn law_reset_returns_keys(v: ScheduleSpec, n: nat)
    requires
        v.wf(),
        n <= v.tasks.len(),
    ensures
        held_keys(v, n) == v.unused_keys(n).to_multiset(),
    decreases n,
{
    broadcast use vstd::seq_lib::group_to_multiset_ensures;

    if n > 0 {
        law_reset_returns_keys(v, (n - 1) as nat);
    }
    assert(held_keys(v, n) =~= v.unused_keys(n).to_multiset());
}

} // verus!
