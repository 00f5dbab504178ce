//! Which tasks go to a worker together, and in which order.

use crate::bindings::Returned;
use crate::validator::schedule::conflict::{follows, followers, lemma_followers};
use crate::validator::schedule::model::{was_sent_to, ScheduleSpec, TaskSpec, TaskState};
use crate::validator::schedule::validity::{lemma_followed_uses, lemma_waiting_finite};
use vstd::prelude::*;

verus! {

/// Task `s` waits for `p` alone: it has not been sent, follows `p`, and every other task that it
/// follows is done.
pub open spec fn waits_for_only(v: ScheduleSpec, p: int, s: int) -> bool {
    &&& 0 <= p < s < v.cursor()
    &&& v.tasks[s].state == TaskState::Resolved
    &&& v.tasks[p].state != TaskState::Done
    &&& follows(v.accesses, p, s)
    &&& forall|q: int|
        0 <= q < s && #[trigger] follows(v.accesses, q, s) && v.tasks[q].state != TaskState::Done
            ==> q == p
}

/// Task `s` waits for the worker's last task `tail` alone, or for one of the first `n` of `batch`
/// alone.
pub open spec fn continues(
    v: ScheduleSpec,
    tail: Option<usize>,
    batch: Seq<usize>,
    n: int,
    s: usize,
) -> bool {
    ||| tail is Some && waits_for_only(v, tail->0 as int, s as int)
    ||| exists|i: int| 0 <= i < n && waits_for_only(v, (#[trigger] batch[i]) as int, s as int)
}

/// `s` is one of the first `n` of `batch`.
pub open spec fn among(batch: Seq<usize>, n: int, s: usize) -> bool {
    exists|y: int| 0 <= y < n && (#[trigger] batch[y]) == s
}

/// The first `n` of `batch` hold all that waits for the worker's last task alone, or for one of them
/// alone.
pub open spec fn exhausted(v: ScheduleSpec, tail: Option<usize>, batch: Seq<usize>, n: int) -> bool {
    forall|s: usize| #[trigger] continues(v, tail, batch, n, s) ==> among(batch, n, s)
}

/// The member of `batch` at position `x` is a ready task: all that were ready before it stand before it,
/// and so does all that waits for what stands before it.
pub open spec fn ready_member(
    v: ScheduleSpec,
    tail: Option<usize>,
    batch: Seq<usize>,
    x: int,
) -> bool {
    &&& exists|m: int|
        0 <= m < v.ready.len() && batch[x] == #[trigger] v.ready[m] && forall|l: int|
            0 <= l < m ==> among(batch, x, #[trigger] v.ready[l])
    &&& exhausted(v, tail, batch, x)
}

/// The member of `batch` at position `x` is there for a reason: it goes on from what stands before it,
/// or it is a ready task and nothing goes on from there.
pub open spec fn member_fits(
    v: ScheduleSpec,
    tail: Option<usize>,
    batch: Seq<usize>,
    x: int,
) -> bool {
    continues(v, tail, batch, x, batch[x]) || ready_member(v, tail, batch, x)
}

proof fn lemma_waits_for_only(v: ScheduleSpec, p: int, s: usize)
    requires
        v.wf(),
        0 <= p < v.cursor(),
    ensures
        waits_for_only(v, p, s as int) <==> v.successors(p).contains(s) && v.chainable(s as int),
{
    lemma_followers(v.accesses, p, v.cursor());
    lemma_waiting_finite(v, s as int);
    let waits = v.waiting_on(s as int);
    if waits_for_only(v, p, s as int) {
        assert(followers(v.accesses, p, v.cursor()).contains(s));
        assert(waits =~= Set::empty().insert(p)) by {
            assert forall|q: int| waits.contains(q) <==> q == p by {
                if waits.contains(q) {
                    assert(follows(v.accesses, q, s as int));
                }
            }
        }
    }
    if v.successors(p).contains(s) && v.chainable(s as int) {
        assert(followers(v.accesses, p, v.cursor()).contains(s));
        lemma_followed_uses(v, p, s as int);
        v.lemma_chainable(p, s as int);
        assert forall|q: int|
            0 <= q < s && #[trigger] follows(v.accesses, q, s as int) && v.tasks[q].state
                != TaskState::Done implies q == p by {
            assert(waits.contains(q));
        }
    }
}

proof fn lemma_extend_all(v: ScheduleSpec, candidates: Seq<usize>, k: nat, batch: Seq<usize>)
    requires
        batch.len() <= 64,
        k <= candidates.len(),
        forall|i: int, j: int|
            0 <= i < j < candidates.len() ==> (#[trigger] candidates[i]) < (
            #[trigger] candidates[j]),
    ensures
        ({
            let grown = v.extend(candidates, k, batch);
            &&& grown.len() <= 64
            &&& batch.len() <= grown.len()
            &&& forall|x: int| 0 <= x < batch.len() ==> (#[trigger] grown[x]) == batch[x]
            &&& forall|x: int|
                batch.len() <= x < grown.len() ==> v.chainable((#[trigger] grown[x]) as int)
                    && exists|i: int| k <= i < candidates.len() && #[trigger] candidates[i] == grown[x]
            &&& forall|x: int, y: int|
                batch.len() <= x < y < grown.len() ==> (#[trigger] grown[x]) < (
                #[trigger] grown[y])
            &&& grown.len() < 64 ==> forall|i: int|
                k <= i < candidates.len() && v.chainable((#[trigger] candidates[i]) as int)
                    ==> among(grown, grown.len() as int, candidates[i])
        }),
    decreases candidates.len() - k,
{
    let grown = v.extend(candidates, k, batch);
    if k < candidates.len() && batch.len() < 64 {
        let s = candidates[k as int];
        if v.chainable(s as int) && !batch.contains(s) {
            let next = batch.push(s);
            lemma_extend_all(v, candidates, k + 1, next);
            assert(grown[batch.len() as int] == next[batch.len() as int]);
            assert forall|x: int| 0 <= x < batch.len() implies (#[trigger] grown[x])
                == batch[x] by {
                assert(grown[x] == next[x]);
            }
            assert forall|x: int| batch.len() <= x < grown.len() implies v.chainable(
                (#[trigger] grown[x]) as int,
            ) && exists|i: int| k <= i < candidates.len() && #[trigger] candidates[i] == grown[x] by {
                if x == batch.len() {
                    assert(candidates[k as int] == grown[x]);
                } else {
                    let i = choose|i: int|
                        k + 1 <= i < candidates.len() && #[trigger] candidates[i] == grown[x];
                    assert(candidates[i] == grown[x]);
                }
            }
            assert forall|x: int, y: int| batch.len() <= x < y < grown.len() implies (
            #[trigger] grown[x]) < (#[trigger] grown[y]) by {
                if x == batch.len() {
                    let i = choose|i: int|
                        k + 1 <= i < candidates.len() && #[trigger] candidates[i] == grown[y];
                    assert(candidates[k as int] < candidates[i]);
                }
            }
            if grown.len() < 64 {
                assert forall|i: int|
                    k <= i < candidates.len() && v.chainable(
                        (#[trigger] candidates[i]) as int,
                    ) implies among(grown, grown.len() as int, candidates[i]) by {
                    if i == k {
                        assert(grown[batch.len() as int] == s);
                    }
                }
            }
        } else {
            lemma_extend_all(v, candidates, k + 1, batch);
            assert forall|x: int| batch.len() <= x < grown.len() implies v.chainable(
                (#[trigger] grown[x]) as int,
            ) && exists|i: int| k <= i < candidates.len() && #[trigger] candidates[i] == grown[x] by {
                let i = choose|i: int|
                    k + 1 <= i < candidates.len() && #[trigger] candidates[i] == grown[x];
                assert(candidates[i] == grown[x]);
            }
            if grown.len() < 64 {
                assert forall|i: int|
                    k <= i < candidates.len() && v.chainable(
                        (#[trigger] candidates[i]) as int,
                    ) implies among(grown, grown.len() as int, candidates[i]) by {
                    if i == k {
                        let y = choose|y: int| 0 <= y < batch.len() && batch[y] == s;
                        assert(grown[y] == s);
                    }
                }
            }
        }
    }
}

/// What holds of a member does not depend on what stands behind it.
proof fn lemma_member_fits_prefix(
    v: ScheduleSpec,
    tail: Option<usize>,
    batch: Seq<usize>,
    grown: Seq<usize>,
    x: int,
)
    requires
        0 <= x < batch.len() <= grown.len(),
        forall|y: int| 0 <= y < batch.len() ==> (#[trigger] grown[y]) == batch[y],
        member_fits(v, tail, batch, x),
    ensures
        member_fits(v, tail, grown, x),
{
    assert forall|s: usize| continues(v, tail, batch, x, s) == #[trigger] continues(
        v,
        tail,
        grown,
        x,
        s,
    ) by {
        lemma_continues_prefix(v, tail, batch, grown, x, s);
    }
    assert forall|s: usize| #[trigger] among(batch, x, s) implies among(grown, x, s) by {
        let y = choose|y: int| 0 <= y < x && (#[trigger] batch[y]) == s;
        assert(grown[y] == s);
    }
    assert(grown[x] == batch[x]);
    if ready_member(v, tail, batch, x) {
        let m = choose|m: int|
            0 <= m < v.ready.len() && batch[x] == #[trigger] v.ready[m] && forall|l: int|
                0 <= l < m ==> among(batch, x, #[trigger] v.ready[l]);
        assert forall|l: int| 0 <= l < m implies among(grown, x, #[trigger] v.ready[l]) by {
            assert(among(batch, x, v.ready[l]));
        }
        assert(grown[x] == v.ready[m]);
        assert(exhausted(v, tail, grown, x)) by {
            assert forall|s: usize| #[trigger] continues(v, tail, grown, x, s) implies among(
                grown,
                x,
                s,
            ) by {
                assert(continues(v, tail, batch, x, s));
                assert(among(batch, x, s));
            }
        }
    } else {
        assert(continues(v, tail, batch, x, batch[x]));
    }
}

proof fn lemma_continues_prefix(
    v: ScheduleSpec,
    tail: Option<usize>,
    batch: Seq<usize>,
    grown: Seq<usize>,
    n: int,
    s: usize,
)
    requires
        n <= batch.len() <= grown.len(),
        forall|y: int| 0 <= y < batch.len() ==> (#[trigger] grown[y]) == batch[y],
    ensures
        continues(v, tail, batch, n, s) == continues(v, tail, grown, n, s),
{
    if exists|i: int| 0 <= i < n && waits_for_only(v, (#[trigger] batch[i]) as int, s as int) {
        let i = choose|i: int|
            0 <= i < n && waits_for_only(v, (#[trigger] batch[i]) as int, s as int);
        assert(grown[i] == batch[i]);
    }
    if exists|i: int| 0 <= i < n && waits_for_only(v, (#[trigger] grown[i]) as int, s as int) {
        let i = choose|i: int|
            0 <= i < n && waits_for_only(v, (#[trigger] grown[i]) as int, s as int);
        assert(grown[i] == batch[i]);
    }
}

/// Every member fits, each that goes on from another one goes on from the tail or one of the first
/// `explored`, what goes on from those is there as long as there is room, and what goes on from the
/// same task stands in the order of insertion.
spec fn greedy(v: ScheduleSpec, tail: Option<usize>, batch: Seq<usize>, explored: int) -> bool {
    &&& forall|x: int| 0 <= x < batch.len() ==> #[trigger] member_fits(v, tail, batch, x)
    &&& forall|x: int|
        0 <= x < batch.len() ==> v.is_ready((#[trigger] batch[x]) as int) || continues(
            v,
            tail,
            batch,
            explored,
            batch[x],
        )
    &&& batch.len() < 64 ==> forall|s: usize| #[trigger]
        continues(v, tail, batch, explored, s) ==> among(batch, batch.len() as int, s)
    &&& forall|x: int, y: int, p: int|
        0 <= x < y < batch.len() && #[trigger] waits_for_only(v, p, batch[x] as int)
            && #[trigger] waits_for_only(v, p, batch[y] as int) ==> batch[x] < batch[y]
}

/// Adding what goes on from `parent`, which is the tail or the member at position `explored`.
proof fn lemma_extend_greedy(
    v: ScheduleSpec,
    tail: Option<usize>,
    batch: Seq<usize>,
    explored: int,
    parent: usize,
)
    requires
        v.wf(),
        parent < v.cursor(),
        0 <= explored <= batch.len() < 64,
        tail matches Some(last) ==> last < v.cursor() && v.tasks[last as int].state
            != TaskState::Resolved,
        batch.no_duplicates(),
        forall|k: int|
            0 <= k < batch.len() ==> v.tasks[(#[trigger] batch[k]) as int].state
                == TaskState::Resolved,
        (explored < batch.len() && parent == batch[explored] && greedy(v, tail, batch, explored))
            || (batch.len() == 0 && tail == Some(parent)),
    ensures
        ({
            let grown = v.extend(v.successors(parent as int), 0, batch);
            greedy(
                v,
                tail,
                grown,
                if batch.len() == 0 {
                    0
                } else {
                    explored + 1
                },
            )
        }),
{
    let candidates = v.successors(parent as int);
    let grown = v.extend(candidates, 0, batch);
    let n = batch.len() as int;
    let seen = if n == 0 {
        0
    } else {
        explored + 1
    };
    lemma_followers(v.accesses, parent as int, v.cursor());
    lemma_extend_all(v, candidates, 0, batch);
    // What is new waits for `parent` alone.
    assert forall|x: int| n <= x < grown.len() implies waits_for_only(
        v,
        parent as int,
        (#[trigger] grown[x]) as int,
    ) by {
        let i = choose|i: int| 0 <= i < candidates.len() && #[trigger] candidates[i] == grown[x];
        assert(candidates.contains(grown[x]));
        lemma_waits_for_only(v, parent as int, grown[x]);
    }
    assert forall|x: int| n <= x < grown.len() implies #[trigger] continues(
        v,
        tail,
        grown,
        seen,
        grown[x],
    ) && continues(v, tail, grown, x, grown[x]) by {
        assert(waits_for_only(v, parent as int, grown[x] as int));
        if n > 0 {
            assert(grown[explored] == parent);
        }
    }
    assert forall|x: int| 0 <= x < grown.len() implies #[trigger] member_fits(v, tail, grown, x) by {
        if x < n {
            assert(member_fits(v, tail, batch, x));
            lemma_member_fits_prefix(v, tail, batch, grown, x);
        } else {
            assert(continues(v, tail, grown, seen, grown[x]));
        }
    }
    assert forall|x: int| 0 <= x < grown.len() implies v.is_ready((#[trigger] grown[x]) as int)
        || continues(v, tail, grown, seen, grown[x]) by {
        if x < n {
            assert(grown[x] == batch[x]);
            assert(v.is_ready(batch[x] as int) || continues(v, tail, batch, explored, batch[x]));
            if continues(v, tail, batch, explored, batch[x]) {
                lemma_continues_prefix(v, tail, batch, grown, explored, batch[x]);
                lemma_continues_more(v, tail, grown, explored, seen, batch[x]);
            }
        } else {
            assert(continues(v, tail, grown, seen, grown[x]));
        }
    }
    if grown.len() < 64 {
        assert forall|s: usize| #[trigger] continues(v, tail, grown, seen, s) implies among(
            grown,
            grown.len() as int,
            s,
        ) by {
            if waits_for_only(v, parent as int, s as int) {
                lemma_waits_for_only(v, parent as int, s);
                let i = choose|i: int| 0 <= i < candidates.len() && candidates[i] == s;
                assert(v.chainable(candidates[i] as int));
                assert(among(grown, grown.len() as int, candidates[i]));
            } else {
                assert(continues(v, tail, grown, explored, s)) by {
                    if !(tail is Some && waits_for_only(v, tail->0 as int, s as int)) {
                        let i = choose|i: int|
                            0 <= i < seen && waits_for_only(
                                v,
                                (#[trigger] grown[i]) as int,
                                s as int,
                            );
                        assert(i != explored);
                        assert(0 <= i < explored);
                    }
                }
                lemma_continues_prefix(v, tail, batch, grown, explored, s);
                assert(continues(v, tail, batch, explored, s));
                assert(among(batch, n, s));
                let y = choose|y: int| 0 <= y < n && (#[trigger] batch[y]) == s;
                assert(grown[y] == s);
            }
        }
    }
    assert forall|x: int, y: int, p: int|
        0 <= x < y < grown.len() && #[trigger] waits_for_only(v, p, grown[x] as int)
            && #[trigger] waits_for_only(v, p, grown[y] as int) implies grown[x] < grown[y] by {
        if y < n {
            assert(grown[x] == batch[x] && grown[y] == batch[y]);
            assert(waits_for_only(v, p, batch[x] as int) && waits_for_only(
                v,
                p,
                batch[y] as int,
            ));
        } else {
            assert(waits_for_only(v, parent as int, grown[y] as int));
            assert(p == parent) by {
                assert(follows(v.accesses, p, grown[y] as int));
            }
            if x < n {
                // An older member goes on from another task.
                assert(grown[x] == batch[x]);
                assert(!v.is_ready(batch[x] as int)) by {
                    assert(v.waiting_on(batch[x] as int).contains(p));
                }
                assert(continues(v, tail, batch, explored, batch[x]));
                assert(follows(v.accesses, p, batch[x] as int));
                if tail is Some && waits_for_only(v, tail->0 as int, batch[x] as int) {
                    assert(tail->0 == p);
                    assert(v.tasks[batch[explored] as int].state == TaskState::Resolved);
                } else {
                    let i = choose|i: int|
                        0 <= i < explored && waits_for_only(
                            v,
                            (#[trigger] batch[i]) as int,
                            batch[x] as int,
                        );
                    assert(batch[i] == p);
                    assert(batch[i] == batch[explored]);
                }
                assert(false);
            }
        }
    }
}

proof fn lemma_continues_more(
    v: ScheduleSpec,
    tail: Option<usize>,
    batch: Seq<usize>,
    n: int,
    m: int,
    s: usize,
)
    requires
        n <= m,
        continues(v, tail, batch, n, s),
    ensures
        continues(v, tail, batch, m, s),
{
    if !(tail is Some && waits_for_only(v, tail->0 as int, s as int)) {
        let i = choose|i: int|
            0 <= i < n && waits_for_only(v, (#[trigger] batch[i]) as int, s as int);
        assert(0 <= i < m);
    }
}

proof fn lemma_grow_greedy(
    v: ScheduleSpec,
    tail: Option<usize>,
    batch: Seq<usize>,
    explored: nat,
    taken: nat,
)
    requires
        v.wf(),
        v.sound_batch(tail, batch, taken),
        explored <= batch.len(),
        tail matches Some(last) ==> last < v.cursor() && v.tasks[last as int].state
            != TaskState::Resolved,
        greedy(v, tail, batch, explored as int),
    ensures
        ({
            let (grown, took) = v.grow(batch, explored, taken);
            &&& v.sound_batch(tail, grown, took)
            &&& exists|seen: int| 0 <= seen <= grown.len() && #[trigger] greedy(v, tail, grown, seen)
            &&& grown.len() < 64 ==> took == v.ready.len() && exhausted(
                v,
                tail,
                grown,
                grown.len() as int,
            )
        }),
    decreases 64 - explored + v.ready.len() - taken,
{
    if batch.len() < 64 {
        v.lemma_grow_step(tail, batch, explored, taken);
        if explored < batch.len() {
            let parent = batch[explored as int];
            let grown = v.extend(v.successors(parent as int), 0, batch);
            lemma_extend_greedy(v, tail, batch, explored as int, parent);
            lemma_grow_greedy(v, tail, grown, explored + 1, taken);
        } else if taken < v.ready.len() {
            let r = v.ready[taken as int];
            let grown = batch.push(r);
            let n = batch.len() as int;
            assert(v.ready.contains(r));
            assert(v.is_ready(r as int));
            assert forall|x: int| 0 <= x < grown.len() implies #[trigger] member_fits(
                v,
                tail,
                grown,
                x,
            ) by {
                if x < n {
                    assert(member_fits(v, tail, batch, x));
                    lemma_member_fits_prefix(v, tail, batch, grown, x);
                } else {
                    assert forall|l: int| 0 <= l < taken implies among(
                        grown,
                        n,
                        #[trigger] v.ready[l],
                    ) by {
                        assert(batch.contains(v.ready[l]));
                        let y = choose|y: int| 0 <= y < n && batch[y] == v.ready[l];
                        assert(grown[y] == v.ready[l]);
                    }
                    assert(grown[x] == v.ready[taken as int]);
                    assert forall|s: usize| #[trigger] continues(v, tail, grown, n, s) implies among(
                        grown,
                        n,
                        s,
                    ) by {
                        lemma_continues_prefix(v, tail, batch, grown, n, s);
                        assert(continues(v, tail, batch, explored as int, s));
                        let y = choose|y: int| 0 <= y < n && (#[trigger] batch[y]) == s;
                        assert(grown[y] == s);
                    }
                    assert(ready_member(v, tail, grown, x));
                }
            }
            assert forall|x: int| 0 <= x < grown.len() implies v.is_ready(
                (#[trigger] grown[x]) as int,
            ) || continues(v, tail, grown, explored as int, grown[x]) by {
                if x < n {
                    assert(grown[x] == batch[x]);
                    lemma_continues_prefix(v, tail, batch, grown, explored as int, batch[x]);
                }
            }
            assert forall|s: usize| #[trigger] continues(
                v,
                tail,
                grown,
                explored as int,
                s,
            ) implies among(grown, grown.len() as int, s) by {
                lemma_continues_prefix(v, tail, batch, grown, explored as int, s);
                assert(continues(v, tail, batch, explored as int, s));
                let y = choose|y: int| 0 <= y < n && (#[trigger] batch[y]) == s;
                assert(grown[y] == s);
            }
            assert forall|x: int, y: int, p: int|
                0 <= x < y < grown.len() && #[trigger] waits_for_only(v, p, grown[x] as int)
                    && #[trigger] waits_for_only(v, p, grown[y] as int) implies grown[x]
                < grown[y] by {
                if y < n {
                    assert(waits_for_only(v, p, batch[x] as int) && waits_for_only(
                        v,
                        p,
                        batch[y] as int,
                    ));
                } else {
                    assert(v.waiting_on(r as int).contains(p));
                    assert(false);
                }
            }
            assert(greedy(v, tail, grown, explored as int));
            lemma_grow_greedy(v, tail, grown, explored, taken + 1);
        } else {
            assert(greedy(v, tail, batch, explored as int));
        }
    } else {
        assert(greedy(v, tail, batch, explored as int));
    }
}

/// What a worker is given to execute. The batch holds no task twice and at most 64 of them. It first
/// holds what waits for the worker's last task alone, then for each member what waits for that alone;
/// where nothing goes on from there, the next ready task, oldest first. It is filled up as long as there
/// is anything, and what waits for the same task stands in the order of insertion.
pub proof fn law_batches_are_greedy(v: ScheduleSpec, worker: int)
    requires
        v.wf(),
        0 <= worker < v.tails.len(),
    ensures
        ({
            let (batch, taken) = v.batch(worker);
            let tail = v.tails[worker];
            &&& batch.len() <= 64
            &&& batch.no_duplicates()
            &&& taken <= v.ready.len()
            &&& forall|i: int|
                0 <= i < v.ready.len() ==> (batch.contains(#[trigger] v.ready[i]) <==> i < taken)
            &&& forall|x: int| 0 <= x < batch.len() ==> #[trigger] member_fits(v, tail, batch, x)
            &&& batch.len() < 64 ==> taken == v.ready.len() && exhausted(
                v,
                tail,
                batch,
                batch.len() as int,
            )
            &&& forall|x: int, y: int, p: int|
                0 <= x < y < batch.len() && #[trigger] waits_for_only(v, p, batch[x] as int)
                    && #[trigger] waits_for_only(v, p, batch[y] as int) ==> batch[x] < batch[y]
        }),
{
    let tail = v.tails[worker];
    v.lemma_batch_start(worker);
    v.lemma_batch_sound(worker);
    if let Some(last) = tail {
        assert(was_sent_to(v.sent, last as int, worker));
        let i = choose|i: int|
            0 <= i < v.sent.len() && (#[trigger] v.sent[i]).task == last && v.sent[i].worker
                == worker;
        assert(v.tasks[v.sent[i].task].state != TaskState::Resolved);
        let chain = v.extend(v.successors(last as int), 0, Seq::empty());
        lemma_extend_greedy(v, tail, Seq::empty(), 0, last);
        lemma_grow_greedy(v, tail, chain, 0, 0);
    } else {
        assert(greedy(v, tail, Seq::empty(), 0));
        lemma_grow_greedy(v, tail, Seq::empty(), 0, 0);
    }
    let (batch, taken) = v.batch(worker);
    let seen = choose|seen: int| 0 <= seen <= batch.len() && #[trigger] greedy(v, tail, batch, seen);
    assert(greedy(v, tail, batch, seen));
    assert forall|i: int| 0 <= i < v.ready.len() implies (batch.contains(#[trigger] v.ready[i])
        <==> i < taken) by {
    }
}

/// Leaving out keeps a rising list rising.
proof fn lemma_filter_rises(list: Seq<usize>, pred: spec_fn(usize) -> bool, bound: usize)
    requires
        forall|i: int, j: int|
            0 <= i < j < list.len() ==> (#[trigger] list[i]) < (#[trigger] list[j]),
        forall|i: int| 0 <= i < list.len() ==> (#[trigger] list[i]) <= bound,
    ensures
        forall|i: int, j: int|
            0 <= i < j < list.filter(pred).len() ==> (#[trigger] list.filter(pred)[i]) < (
            #[trigger] list.filter(pred)[j]),
        forall|i: int|
            0 <= i < list.filter(pred).len() ==> (#[trigger] list.filter(pred)[i]) <= bound && pred(
                list.filter(pred)[i],
            ) && list.contains(list.filter(pred)[i]),
    decreases list.len(),
{
    reveal(Seq::filter);
    if list.len() > 0 {
        let before = list.drop_last();
        let kept = before.filter(pred);
        let all = list.filter(pred);
        if before.len() > 0 {
            assert forall|i: int| 0 <= i < before.len() implies (#[trigger] before[i])
                <= before.last() by {
                assert(list[i] == before[i]);
                if i < before.len() - 1 {
                    assert(list[i] < list[before.len() - 1]);
                }
            }
            lemma_filter_rises(before, pred, before.last());
            assert(list[before.len() - 1] < list[list.len() - 1]);
        }
        assert forall|i: int| 0 <= i < all.len() implies (#[trigger] all[i]) <= bound && pred(
            all[i],
        ) && list.contains(all[i]) by {
            if i < kept.len() {
                assert(all[i] == kept[i]);
                assert(before.contains(kept[i]));
                let k = choose|k: int| 0 <= k < before.len() && before[k] == kept[i];
                assert(list[k] == all[i]);
            } else {
                assert(all[i] == list[list.len() - 1]);
            }
        }
        assert forall|i: int, j: int| 0 <= i < j < all.len() implies (#[trigger] all[i]) < (
        #[trigger] all[j]) by {
            assert(all[i] == kept[i]);
            if j < kept.len() {
                assert(all[j] == kept[j]);
            } else {
                assert(all[j] == list.last());
                assert(kept[i] <= before.last());
            }
        }
    }
}

/// What the end of a task sets free: exactly the tasks that waited for it alone become ready, oldest
/// first, behind those that were ready. Nothing else changes but that the task is done.
pub proof fn law_finishing_releases_what_waited(v: ScheduleSpec, t: int)
    requires
        v.wf(),
        0 <= t < v.tasks.len(),
        v.tasks[t].state == TaskState::Assigned,
    ensures
        ({
            let w = v.finish(t);
            let n = v.ready.len() as int;
            &&& w == (ScheduleSpec { tasks: w.tasks, ready: w.ready, ..v })
            &&& w.tasks == v.tasks.update(t, TaskSpec { state: TaskState::Done, ..v.tasks[t] })
            &&& w.ready.len() >= n
            &&& forall|i: int| 0 <= i < n ==> (#[trigger] w.ready[i]) == v.ready[i]
            &&& forall|i: int|
                n <= i < w.ready.len() ==> waits_for_only(v, t, (#[trigger] w.ready[i]) as int)
            &&& forall|i: int, j: int|
                n <= i < j < w.ready.len() ==> (#[trigger] w.ready[i]) < (#[trigger] w.ready[j])
            &&& forall|s: usize| #[trigger]
                waits_for_only(v, t, s as int) ==> among(w.ready, w.ready.len() as int, s)
        }),
{
    let w = v.finish(t);
    let n = v.ready.len() as int;
    v.lemma_finish_wf(t);
    let moved = v.with_state(t, TaskState::Done);
    let pred = |s: usize| moved.is_ready(s as int);
    let list = v.successors(t);
    let fired = list.filter(pred);
    lemma_followers(v.accesses, t, v.cursor());
    lemma_filter_rises(list, pred, usize::MAX);
    assert(w.ready =~= v.ready + fired);
    assert forall|i: int| n <= i < w.ready.len() implies waits_for_only(
        v,
        t,
        (#[trigger] w.ready[i]) as int,
    ) by {
        let s = fired[i - n];
        assert(list.contains(s));
        assert(followers(v.accesses, t, v.cursor()).contains(s));
        assert(moved.is_ready(s as int));
        v.lemma_finish_waiting(t, s as int);
        assert forall|q: int|
            0 <= q < s && #[trigger] follows(v.accesses, q, s as int) && v.tasks[q].state
                != TaskState::Done implies q == t by {
            assert(v.waiting_on(s as int).contains(q));
            if q != t {
                assert(v.waiting_on(s as int).remove(t).contains(q));
            }
        }
        lemma_followed_uses(v, t, s as int);
    }
    assert forall|i: int, j: int| n <= i < j < w.ready.len() implies (#[trigger] w.ready[i]) < (
    #[trigger] w.ready[j]) by {
        assert(w.ready[i] == fired[i - n] && w.ready[j] == fired[j - n]);
    }
    assert forall|s: usize| #[trigger] waits_for_only(v, t, s as int) implies among(
        w.ready,
        w.ready.len() as int,
        s,
    ) by {
        v.lemma_finish_waiting(t, s as int);
        assert(moved.waiting_on(s as int) =~= Set::empty()) by {
            assert forall|q: int| !moved.waiting_on(s as int).contains(q) by {
                if v.waiting_on(s as int).remove(t).contains(q) {
                    assert(follows(v.accesses, q, s as int));
                }
            }
        }
        assert(w.is_ready(s as int)) by {
            assert(w.waiting_on(s as int) =~= moved.waiting_on(s as int));
        }
        assert(w.ready.contains(s));
        let y = choose|y: int| 0 <= y < w.ready.len() && w.ready[y] == s;
        assert(w.ready[y] == s);
    }
}

/// Answers to EXECUTE end one task after the other, each the one with the signature that comes back.
pub proof fn law_tasks_finish_in_turn(v: ScheduleSpec, batch: Seq<Returned>, n: nat, t: int)
    requires
        v.wf(),
        n < batch.len(),
        0 <= t < v.entries.len(),
        batch[n as int].signature == v.entries[t].0,
    ensures
        v.finish_all(batch, 0) == v,
        v.finish_all(batch, n + 1) == v.finish_all(batch, n).finish(t),
{
    v.lemma_task_of(t);
}

} // verus!
