//! What the fallback stage does to transactions, counters and workers, read off its inputs and results.

use crate::bindings::{
    ExecutionResponse, PackMessageSpec, Reply, Responses, TransactionRegion, BANK_NOT_AVAILABLE,
    WOULD_EXCEED_MAX_BLOCK_COST_LIMIT,
};
use crate::validator::fallback_stage::{FallbackSpec, Metrics};
use vstd::prelude::*;

verus! {

/// How many of `responses` say that the transaction landed.
pub open spec fn landed(responses: Seq<ExecutionResponse>) -> nat {
    responses.filter(|r: ExecutionResponse| r.not_included_reason == 0).len()
}

proof fn lemma_count_all(v: FallbackSpec, responses: Seq<ExecutionResponse>, n: nat)
    requires
        n <= responses.len(),
        v.metrics.success + n <= usize::MAX,
        v.metrics.fail + n <= usize::MAX,
    ensures
        ({
            let w = v.count_all(responses, n);
            &&& landed(responses.take(n as int)) <= n
            &&& w.metrics.success == v.metrics.success + landed(responses.take(n as int))
            &&& w.metrics.fail == v.metrics.fail + n - landed(responses.take(n as int))
            &&& w.metrics.total == v.metrics.total
            &&& w.metrics.dropped == v.metrics.dropped
            &&& w.txs == v.txs
            &&& w.num_workers == v.num_workers
            &&& w.next_worker == v.next_worker
            &&& w.processing == v.processing
            &&& w.slot_end <==> v.slot_end || exists|k: int|
                0 <= k < n && ((#[trigger] responses[k]).not_included_reason
                    == WOULD_EXCEED_MAX_BLOCK_COST_LIMIT || responses[k].not_included_reason
                    == BANK_NOT_AVAILABLE)
        }),
    decreases n,
{
    reveal(Seq::filter);
    if n > 0 {
        let m = (n - 1) as nat;
        lemma_count_all(v, responses, m);
        assert(responses.take(n as int).drop_last() =~= responses.take(m as int));
        assert(responses.take(n as int).last() == responses[n - 1]);
        let before = v.count_all(responses, m);
        if before.slot_end && !v.slot_end {
            let k = choose|k: int|
                0 <= k < m && ((#[trigger] responses[k]).not_included_reason
                    == WOULD_EXCEED_MAX_BLOCK_COST_LIMIT || responses[k].not_included_reason
                    == BANK_NOT_AVAILABLE);
            assert(0 <= k < n);
        }
        assert(responses[n - 1] == responses[n - 1]);
    }
}

/// Which replies a worker may send: one to a message that is out, which says that the message came
/// too late, or that it was processed and how each execution went; and the counters can take it.
pub proof fn law_expected_replies(v: FallbackSpec, reply: Reply)
    ensures
        v.accepts(reply) ==> v.processing > 0,
        reply.processed_code == 2 ==> (v.accepts(reply) <==> v.processing > 0
            && v.metrics.dropped + reply.batch@.len() <= usize::MAX),
        reply.processed_code != 0 && reply.processed_code != 2 ==> !v.accepts(reply),
        reply.processed_code == 0 && !(reply.responses is Execution) ==> !v.accepts(reply),
        reply.processed_code == 0 && v.processing > 0 && reply.responses is Execution
            && v.metrics.success + reply.batch@.len() <= usize::MAX && v.metrics.fail
            + reply.batch@.len() <= usize::MAX ==> v.accepts(reply),
{
}

/// What a reply does. One message less is out. Where it came too late for the slot, all its
/// transactions are dropped. Else each response counts its transaction as landed or failed, and the
/// slot is over exactly where some response says that the block is full or that there is no bank;
/// nothing else ends it. All transactions that are counted are over, and nothing that waits changes.
pub proof fn law_reply_is_counted(v: FallbackSpec, reply: Reply)
    requires
        v.accepts(reply),
    ensures
        v.after(reply).processing == v.processing - 1,
        v.after(reply).txs == v.txs,
        v.after(reply).num_workers == v.num_workers,
        v.after(reply).next_worker == v.next_worker,
        v.after(reply).metrics.total == v.metrics.total,
        reply.processed_code == 2 ==> {
            &&& FallbackSpec::num_over(reply) == reply.batch@.len()
            &&& v.after(reply).metrics.dropped == v.metrics.dropped + reply.batch@.len()
            &&& v.after(reply).metrics.success == v.metrics.success
            &&& v.after(reply).metrics.fail == v.metrics.fail
            &&& v.after(reply).slot_end == v.slot_end
        },
        reply.processed_code != 2 ==> {
            let list = reply.responses->Execution_0@;
            let n = FallbackSpec::num_over(reply);
            &&& reply.responses is Execution
            &&& n <= reply.batch@.len() && n <= list.len()
            &&& n == reply.batch@.len() || n == list.len()
            &&& v.after(reply).metrics.dropped == v.metrics.dropped
            &&& landed(list.take(n as int)) <= n
            &&& v.after(reply).metrics.success == v.metrics.success + landed(list.take(n as int))
            &&& v.after(reply).metrics.fail == v.metrics.fail + n - landed(list.take(n as int))
            &&& v.after(reply).slot_end <==> v.slot_end || exists|k: int|
                0 <= k < n && ((#[trigger] list[k]).not_included_reason
                    == WOULD_EXCEED_MAX_BLOCK_COST_LIMIT || list[k].not_included_reason
                    == BANK_NOT_AVAILABLE)
        },
{
    let answered = FallbackSpec { processing: (v.processing - 1) as usize, ..v };
    if reply.processed_code != 2 {
        lemma_count_all(answered, reply.responses->Execution_0@, FallbackSpec::num_over(reply));
    }
}

/// Replies are taken one after the other, and hand back the regions of what is over, in order.
pub proof fn law_replies_in_turn(v: FallbackSpec, replies: Seq<Reply>, n: nat)
    requires
        n < replies.len(),
    ensures
        v.after_all(replies, 0) == v,
        v.after_all(replies, n + 1) == v.after_all(replies, n).after(replies[n as int]),
        v.accepts_all(replies, 0),
        v.accepts_all(replies, n + 1) <==> v.accepts_all(replies, n) && v.after_all(
            replies,
            n,
        ).accepts(replies[n as int]),
        FallbackSpec::over_all(replies, 0).len() == 0,
        FallbackSpec::over_all(replies, n + 1).len() == FallbackSpec::over_all(replies, n).len()
            + FallbackSpec::num_over(replies[n as int]),
        forall|k: int|
            0 <= k < FallbackSpec::over_all(replies, n + 1).len() ==> (
            #[trigger] FallbackSpec::over_all(replies, n + 1)[k]) == (if k
                < FallbackSpec::over_all(replies, n).len() {
                FallbackSpec::over_all(replies, n)[k]
            } else {
                replies[n as int].batch@[k - FallbackSpec::over_all(replies, n).len()].region
            }),
{
}

/// What comes in waits behind what waits already, and is counted; nothing else changes.
pub proof fn law_arrivals_wait_in_line(v: FallbackSpec, txs: Seq<TransactionRegion>)
    requires
        v.metrics.total + txs.len() <= usize::MAX,
    ensures
        v.enqueue(txs).txs == v.txs + txs,
        v.enqueue(txs).metrics.total == v.metrics.total + txs.len(),
        v.enqueue(txs).metrics.success == v.metrics.success,
        v.enqueue(txs).metrics.fail == v.metrics.fail,
        v.enqueue(txs).metrics.dropped == v.metrics.dropped,
        v.enqueue(txs).processing == v.processing,
        v.enqueue(txs).slot_end == v.slot_end,
        v.enqueue(txs).num_workers == v.num_workers,
        v.enqueue(txs).next_worker == v.next_worker,
{
}

/// A slot closes with what waits counted as dropped, and the next one starts with nothing waiting,
/// nothing counted and nothing at its end; whose turn it is stays.
pub proof fn law_slots_close_clean(v: FallbackSpec)
    requires
        v.metrics.dropped + v.txs.len() <= usize::MAX,
    ensures
        v.final_metrics().total == v.metrics.total,
        v.final_metrics().success == v.metrics.success,
        v.final_metrics().fail == v.metrics.fail,
        v.final_metrics().dropped == v.metrics.dropped + v.txs.len(),
        v.cleared().txs.len() == 0,
        v.cleared().metrics == (Metrics { total: 0, success: 0, fail: 0, dropped: 0 }),
        !v.cleared().slot_end,
        v.cleared().num_workers == v.num_workers,
        v.cleared().next_worker == v.next_worker,
        v.cleared().processing == v.processing,
{
}

/// A new stage has counted nothing, sent nothing and begins with the first worker.
pub proof fn law_stages_start_empty(num_workers: usize)
    ensures
        FallbackSpec::fresh(num_workers).txs.len() == 0,
        FallbackSpec::fresh(num_workers).num_workers == num_workers,
        FallbackSpec::fresh(num_workers).next_worker == 0,
        FallbackSpec::fresh(num_workers).processing == 0,
        !FallbackSpec::fresh(num_workers).slot_end,
        FallbackSpec::fresh(num_workers).metrics == (Metrics {
            total: 0,
            success: 0,
            fail: 0,
            dropped: 0,
        }),
{
}

/// How many of `messages` go to `worker`.
pub open spec fn sent_to(messages: Seq<PackMessageSpec>, worker: int) -> nat {
    messages.filter(|m: PackMessageSpec| m.worker == worker).len()
}

proof fn lemma_sent_to_prepend(first: PackMessageSpec, rest: Seq<PackMessageSpec>, worker: int)
    ensures
        sent_to(seq![first] + rest, worker) == sent_to(rest, worker) + (if first.worker == worker {
            1nat
        } else {
            0nat
        }),
{
    reveal(Seq::filter);
    let pred = |m: PackMessageSpec| m.worker == worker;
    Seq::filter_distributes_over_add(seq![first], rest, pred);
    assert(seq![first].drop_last() =~= Seq::empty());
    assert(Seq::<PackMessageSpec>::empty().filter(pred) =~= Seq::empty());
}

/// The worker that comes up after `d` more, going round from `turn`.
pub open spec fn round(turn: int, num_workers: int, d: int) -> int {
    (turn + d) % num_workers
}

/// `worker` is the next in turn: going round from `turn`, it is the first of `num_workers` workers
/// with places left.
pub open spec fn next_in_turn(
    turn: int,
    num_workers: int,
    worker: int,
    left: spec_fn(int) -> int,
) -> bool {
    exists|j: int|
        0 <= j < num_workers && worker == #[trigger] round(turn, num_workers, j) && left(worker) > 0
            && forall|d: int| 0 <= d < j ==> left(#[trigger] round(turn, num_workers, d)) == 0
}

proof fn lemma_round_in_range(turn: int, num_workers: int, d: int)
    requires
        num_workers > 0,
    ensures
        0 <= round(turn, num_workers, d) < num_workers,
{
    assert(0 <= (turn + d) % num_workers < num_workers) by (nonlinear_arith)
        requires
            num_workers > 0,
    ;
}

/// Every worker comes up when one goes round.
proof fn lemma_round(turn: int, num_workers: int, x: int) -> (d: int)
    requires
        0 <= turn < num_workers,
        0 <= x < num_workers,
    ensures
        0 <= d < num_workers,
        round(turn, num_workers, d) == x,
{
    if x >= turn {
        vstd::arithmetic::div_mod::lemma_small_mod(x as nat, num_workers as nat);
        x - turn
    } else {
        vstd::arithmetic::div_mod::lemma_mod_add_multiples_vanish(x, num_workers);
        vstd::arithmetic::div_mod::lemma_small_mod(x as nat, num_workers as nat);
        x - turn + num_workers
    }
}

proof fn lemma_pick(v: FallbackSpec, room: Seq<usize>, k: int)
    requires
        v.wf(),
        room.len() >= v.num_workers,
        0 <= k <= v.num_workers,
    ensures
        v.pick(room, k) matches Some(w) ==> 0 <= w < v.num_workers && room[w] > 0 && exists|j: int|
            k <= j < v.num_workers && w == #[trigger] round(v.next_worker, v.num_workers, j)
                && forall|d: int|
                k <= d < j ==> room[#[trigger] round(v.next_worker, v.num_workers, d)] == 0,
        v.pick(room, k) is None ==> forall|d: int|
            k <= d < v.num_workers ==> room[#[trigger] round(v.next_worker, v.num_workers, d)] == 0,
    decreases v.num_workers - k,
{
    if k < v.num_workers {
        let w = round(v.next_worker, v.num_workers, k);
        lemma_round_in_range(v.next_worker, v.num_workers, k);
        if room[w] == 0 {
            lemma_pick(v, room, k + 1);
        }
    }
}

/// Sending goes as far as it can. The oldest transactions leave, one to a message for EXECUTE in the
/// slot, and no worker gets more than it has room for. Sending stops only where nothing waits, the slot
/// is over, more messages are out than 8 for each worker, or no worker has room left; it counts
/// nothing, and the worker behind the last one served is the next in turn.
pub proof fn law_sending_goes_as_far_as_it_can(v: FallbackSpec, slot: u64, room: Seq<usize>)
    requires
        v.wf(),
        room.len() >= v.num_workers,
    ensures
        v.send_all(room).wf(),
        v.messages(slot, room).len() <= v.txs.len(),
        v.send_all(room).txs == v.txs.skip(v.messages(slot, room).len() as int),
        v.send_all(room).processing == v.processing + v.messages(slot, room).len(),
        v.send_all(room).metrics == v.metrics,
        v.send_all(room).slot_end == v.slot_end,
        v.send_all(room).num_workers == v.num_workers,
        v.send_all(room).next_worker == (if v.messages(slot, room).len() == 0 {
            v.next_worker
        } else {
            (v.messages(slot, room).last().worker + 1) % v.num_workers
        }),
        v.slot_end ==> v.messages(slot, room).len() == 0,
        v.messages(slot, room).len() > 0 ==> v.processing + v.messages(slot, room).len() <= 8
            * v.num_workers + 1,
        ({
            ||| v.messages(slot, room).len() == v.txs.len()
            ||| v.slot_end
            ||| v.processing + v.messages(slot, room).len() > 8 * v.num_workers
            ||| forall|x: int|
                0 <= x < v.num_workers ==> room[x] == #[trigger] sent_to(v.messages(slot, room), x)
        }),
        forall|x: int|
            0 <= x < v.num_workers ==> #[trigger] sent_to(v.messages(slot, room), x) <= room[x],
        forall|k: int|
            0 <= k < v.messages(slot, room).len() ==> {
                let message = #[trigger] v.messages(slot, room)[k];
                &&& message.flags == 1
                &&& message.max_working_slot == slot
                &&& message.batch == seq![v.txs[k]]
                &&& 0 <= message.worker < v.num_workers
            },
    decreases v.txs.len(),
{
    let sent = v.messages(slot, room);
    lemma_pick(v, room, 0);
    match v.pick(room, 0) {
        Some(w) if v.may_send() => {
            let nw = v.num_workers;
            let less = room.update(w, (room[w] - 1) as usize);
            let next = v.send(w);
            lemma_round_in_range(w, nw, 1);
            assert(8 * nw == nw * 8);
            law_sending_goes_as_far_as_it_can(next, slot, less);
            let rest = next.messages(slot, less);
            let first = sent[0];
            assert(sent =~= seq![first] + rest);
            assert(v.send_all(room).txs =~= v.txs.skip(sent.len() as int));
            if rest.len() > 0 {
                assert(sent.last() == rest.last());
            } else {
                assert(sent.last() == first);
            }
            assert forall|x: int| 0 <= x < nw implies #[trigger] sent_to(sent, x) <= room[x] && (
            less[x] == sent_to(rest, x) ==> room[x] == sent_to(sent, x)) by {
                lemma_sent_to_prepend(first, rest, x);
                assert(sent_to(rest, x) <= less[x]);
            }
            if forall|x: int| 0 <= x < nw ==> less[x] == #[trigger] sent_to(rest, x) {
                assert forall|x: int| 0 <= x < nw implies room[x] == #[trigger] sent_to(
                    sent,
                    x,
                ) by {
                    assert(less[x] == sent_to(rest, x));
                }
            }
            assert forall|k: int| 0 <= k < sent.len() implies {
                let message = #[trigger] sent[k];
                &&& message.flags == 1
                &&& message.max_working_slot == slot
                &&& message.batch == seq![v.txs[k]]
                &&& 0 <= message.worker < v.num_workers
            } by {
                if k > 0 {
                    assert(sent[k] == rest[k - 1]);
                    assert(next.txs[k - 1] == v.txs[k]);
                }
            }
        },
        _ => {
            reveal(Seq::filter);
            assert(v.txs.skip(0) =~= v.txs);
            assert forall|x: int| #[trigger] sent_to(sent, x) == 0 by {
                assert(sent.filter(|m: PackMessageSpec| m.worker == x) =~= sent);
            }
            if v.pick(room, 0) is None {
                assert forall|x: int| 0 <= x < v.num_workers implies room[x] == #[trigger] sent_to(
                    sent,
                    x,
                ) by {
                    let d = lemma_round(v.next_worker, v.num_workers, x);
                    assert(room[round(v.next_worker, v.num_workers, d)] == 0);
                }
            }
        },
    }
}

/// Workers take turns: each message goes to the first worker with room left that comes up when one
/// goes round from the worker behind that of the message before it, or, for the first message, from
/// where the last round ended.
pub proof fn law_workers_take_turns(v: FallbackSpec, slot: u64, room: Seq<usize>, k: int)
    requires
        v.wf(),
        room.len() >= v.num_workers,
        0 <= k < v.messages(slot, room).len(),
    ensures
        next_in_turn(
            if k == 0 {
                v.next_worker
            } else {
                (v.messages(slot, room)[k - 1].worker + 1) % v.num_workers
            },
            v.num_workers,
            v.messages(slot, room)[k].worker,
            |x: int| room[x] - sent_to(v.messages(slot, room).take(k), x),
        ),
    decreases v.txs.len(),
{
    let sent = v.messages(slot, room);
    let nw = v.num_workers;
    let left = |x: int| room[x] - sent_to(sent.take(k), x);
    lemma_pick(v, room, 0);
    let w = v.pick(room, 0)->0;
    let less = room.update(w, (room[w] - 1) as usize);
    let next = v.send(w);
    let rest = next.messages(slot, less);
    let first = sent[0];
    assert(sent =~= seq![first] + rest);
    if k == 0 {
        reveal(Seq::filter);
        let none = sent.take(0);
        assert forall|x: int| #[trigger] left(x) == room[x] by {
            assert(none.filter(|m: PackMessageSpec| m.worker == x) =~= none);
        }
        let j = choose|j: int|
            0 <= j < nw && w == #[trigger] round(v.next_worker, nw, j) && forall|d: int|
                0 <= d < j ==> room[#[trigger] round(v.next_worker, nw, d)] == 0;
        assert forall|d: int| 0 <= d < j implies left(#[trigger] round(v.next_worker, nw, d))
            == 0 by {
            assert(room[round(v.next_worker, nw, d)] == 0);
        }
        assert(w == round(v.next_worker, nw, j) && left(w) > 0);
        assert(next_in_turn(v.next_worker, nw, w, left));
    } else {
        lemma_round_in_range(w, nw, 1);
        law_workers_take_turns(next, slot, less, k - 1);
        assert(sent[k] == rest[k - 1]);
        let turn = (sent[k - 1].worker + 1) % nw;
        if k > 1 {
            assert(sent[k - 1] == rest[k - 2]);
        }
        let later = |x: int| less[x] - sent_to(rest.take(k - 1), x);
        assert(next_in_turn(turn, nw, rest[k - 1].worker, later));
        assert(sent.take(k) =~= seq![first] + rest.take(k - 1));
        assert forall|x: int| 0 <= x < nw implies #[trigger] left(x) == later(x) by {
            lemma_sent_to_prepend(first, rest.take(k - 1), x);
        }
        let j = choose|j: int|
            0 <= j < nw && rest[k - 1].worker == #[trigger] round(turn, nw, j) && later(
                rest[k - 1].worker,
            ) > 0 && forall|d: int| 0 <= d < j ==> later(#[trigger] round(turn, nw, d)) == 0;
        assert forall|d: int| 0 <= d < j implies left(#[trigger] round(turn, nw, d)) == 0 by {
            lemma_round_in_range(turn, nw, d);
            assert(later(round(turn, nw, d)) == 0);
            assert(left(round(turn, nw, d)) == later(round(turn, nw, d)));
        }
        lemma_round_in_range(turn, nw, j);
        assert(left(sent[k].worker) == later(sent[k].worker));
        assert(sent[k].worker == round(turn, nw, j) && left(sent[k].worker) > 0);
        assert(next_in_turn(turn, nw, sent[k].worker, left));
    }
}

} // verus!
