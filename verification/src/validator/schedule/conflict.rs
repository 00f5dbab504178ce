//! Which transactions must wait for which.
//!
//! A history lists, for each task in order, the accounts that it uses. Two tasks conflict where
//! they share an account that one of them writes.

use crate::transaction::Access;
use vstd::prelude::*;

verus! {

/// Task `t` uses account `key`.
pub open spec fn touches(history: Seq<Seq<Access>>, t: int, key: [u8; 32]) -> bool {
    exists|a: int| 0 <= a < history[t].len() && (#[trigger] history[t][a]).key == key
}

/// Task `t` may change account `key`.
pub open spec fn writes(history: Seq<Seq<Access>>, t: int, key: [u8; 32]) -> bool {
    exists|a: int|
        0 <= a < history[t].len() && (#[trigger] history[t][a]).key == key && history[t][a].write
}

/// Tasks `p` and `t` both use `key`, and one of them writes it.
pub open spec fn conflict_on(history: Seq<Seq<Access>>, p: int, t: int, key: [u8; 32]) -> bool {
    &&& touches(history, p, key)
    &&& touches(history, t, key)
    &&& writes(history, p, key) || writes(history, t, key)
}

/// Tasks `p` and `t` share an account that one of them writes.
pub open spec fn conflict(history: Seq<Seq<Access>>, p: int, t: int) -> bool {
    exists|key: [u8; 32]| #[trigger] conflict_on(history, p, t, key)
}

/// Task `t` follows `p` on `key`: they conflict there, and no task between them writes it.
pub open spec fn follows_on(history: Seq<Seq<Access>>, p: int, t: int, key: [u8; 32]) -> bool {
    &&& 0 <= p < t
    &&& conflict_on(history, p, t, key)
    &&& forall|q: int| p < q < t ==> !#[trigger] writes(history, q, key)
}

/// Task `t` follows `p` on some account: an edge of the dependency graph.
pub open spec fn follows(history: Seq<Seq<Access>>, p: int, t: int) -> bool {
    exists|key: [u8; 32]| #[trigger] follows_on(history, p, t, key)
}

/// The tasks below `n` that follow `p`, oldest first.
pub open spec fn followers(history: Seq<Seq<Access>>, p: int, n: nat) -> Seq<usize>
    decreases n,
{
    if n == 0 {
        Seq::empty()
    } else if follows(history, p, n - 1) {
        followers(history, p, (n - 1) as nat).push((n - 1) as usize)
    } else {
        followers(history, p, (n - 1) as nat)
    }
}

/// A task follows only older ones.
pub proof fn lemma_follows_older(history: Seq<Seq<Access>>, p: int, t: int)
    requires
        follows(history, p, t),
    ensures
        0 <= p < t,
{
    let key = choose|key: [u8; 32]| follows_on(history, p, t, key);
}

/// A longer history says the same of the tasks that the shorter one knows.
pub proof fn lemma_follows_stable(history: Seq<Seq<Access>>, next: Seq<Access>, p: int, t: int)
    requires
        t < history.len(),
    ensures
        follows(history.push(next), p, t) == follows(history, p, t),
{
    let longer = history.push(next);
    assert forall|key: [u8; 32]| #[trigger]
        follows_on(longer, p, t, key) == follows_on(history, p, t, key) by {
        if 0 <= p < t {
            assert forall|q: int|
                #![trigger writes(longer, q, key)]
                #![trigger writes(history, q, key)]
                p <= q <= t implies writes(longer, q, key) == writes(history, q, key) by {
                assert(longer[q] == history[q]);
            }
            assert(longer[p] == history[p]);
            assert(longer[t] == history[t]);
        }
    }
    if follows(longer, p, t) {
        let key = choose|key: [u8; 32]| follows_on(longer, p, t, key);
        assert(follows_on(history, p, t, key));
    }
    if follows(history, p, t) {
        let key = choose|key: [u8; 32]| follows_on(history, p, t, key);
        assert(follows_on(longer, p, t, key));
    }
}

/// What follows `p` does not change when the history grows.
pub proof fn lemma_followers_stable(history: Seq<Seq<Access>>, next: Seq<Access>, p: int, n: nat)
    requires
        n <= history.len(),
    ensures
        followers(history.push(next), p, n) == followers(history, p, n),
    decreases n,
{
    if n > 0 {
        lemma_followers_stable(history, next, p, (n - 1) as nat);
        lemma_follows_stable(history, next, p, n - 1);
    }
}

/// The followers of `p` are the tasks below `n` that follow it, each once, in rising order.
pub proof fn lemma_followers(history: Seq<Seq<Access>>, p: int, n: nat)
    requires
        n <= usize::MAX,
        0 <= p,
    ensures
        followers(history, p, n).len() <= n,
        forall|t: usize| #[trigger]
            followers(history, p, n).contains(t) <==> t < n && follows(history, p, t as int),
        forall|i: int, j: int|
            0 <= i < j < followers(history, p, n).len() ==> #[trigger] followers(history, p, n)[i]
                < #[trigger] followers(history, p, n)[j],
        forall|i: int|
            0 <= i < followers(history, p, n).len() ==> p < (#[trigger] followers(
                history,
                p,
                n,
            )[i]) < n,
    decreases n,
{
    if n > 0 {
        let before = followers(history, p, (n - 1) as nat);
        let list = followers(history, p, n);
        lemma_followers(history, p, (n - 1) as nat);
        assert forall|t: usize| #[trigger] list.contains(t) <==> t < n && follows(
            history,
            p,
            t as int,
        ) by {
            if before.contains(t) {
                let i = choose|i: int| 0 <= i < before.len() && before[i] == t;
                assert(list[i] == t);
            }
            if t == n - 1 && follows(history, p, t as int) {
                assert(list[list.len() - 1] == t);
            }
            if list.contains(t) {
                let i = choose|i: int| 0 <= i < list.len() && list[i] == t;
                if i < before.len() {
                    assert(before[i] == t);
                }
            }
        }
    }
}

/// Where `p` and `t` conflict, `t` follows `p`, or it follows a later task that conflicts
/// with `p`.
pub proof fn lemma_conflict_has_path(history: Seq<Seq<Access>>, p: int, t: int)
    requires
        0 <= p < t,
        conflict(history, p, t),
    ensures
        follows(history, p, t) || exists|q: int|
            p < q < t && #[trigger] conflict(history, p, q) && follows(history, q, t),
{
    let key = choose|key: [u8; 32]| conflict_on(history, p, t, key);
    if forall|q: int| p < q < t ==> !#[trigger] writes(history, q, key) {
        assert(follows_on(history, p, t, key));
    } else {
        let w = choose|q: int| p < q < t && #[trigger] writes(history, q, key);
        let q = lemma_last_writer(history, w, t, key);
        assert(touches(history, q, key));
        assert(conflict_on(history, p, q, key));
        assert(conflict_on(history, q, t, key));
        assert(follows_on(history, q, t, key));
        assert(conflict(history, p, q));
    }
}

/// From a writer of `key` below `t`, finds the last one below `t`.
proof fn lemma_last_writer(history: Seq<Seq<Access>>, w: int, t: int, key: [u8; 32]) -> (last: int)
    requires
        w < t,
        writes(history, w, key),
    ensures
        w <= last < t,
        writes(history, last, key),
        forall|q: int| last < q < t ==> !#[trigger] writes(history, q, key),
    decreases t - w,
{
    if exists|q: int| w < q < t && #[trigger] writes(history, q, key) {
        let q = choose|q: int| w < q < t && #[trigger] writes(history, q, key);
        lemma_last_writer(history, q, t, key)
    } else {
        w
    }
}

/// Two tasks conflict exactly where both name some account and one of them may change it.
pub proof fn law_conflicts_are_shared_writes(history: Seq<Seq<Access>>, p: int, t: int)
    ensures
        conflict(history, p, t) <==> exists|a: int, b: int|
            0 <= a < history[p].len() && 0 <= b < history[t].len() && (
            #[trigger] history[p][a]).key == (#[trigger] history[t][b]).key && (history[p][a].write
                || history[t][b].write),
{
    if conflict(history, p, t) {
        let key = choose|key: [u8; 32]| #[trigger] conflict_on(history, p, t, key);
        lemma_conflict_on_positions(history, p, t, key);
    }
    if exists|a: int, b: int|
        0 <= a < history[p].len() && 0 <= b < history[t].len() && (#[trigger] history[p][a]).key
            == (#[trigger] history[t][b]).key && (history[p][a].write || history[t][b].write) {
        let (a, b) = choose|a: int, b: int|
            0 <= a < history[p].len() && 0 <= b < history[t].len() && (
            #[trigger] history[p][a]).key == (#[trigger] history[t][b]).key && (history[p][a].write
                || history[t][b].write);
        assert(conflict_on(history, p, t, history[p][a].key));
    }
}

proof fn lemma_conflict_on_positions(history: Seq<Seq<Access>>, p: int, t: int, key: [u8; 32])
    requires
        conflict_on(history, p, t, key),
    ensures
        exists|a: int, b: int|
            0 <= a < history[p].len() && 0 <= b < history[t].len() && (
            #[trigger] history[p][a]).key == key && (#[trigger] history[t][b]).key == key && (
            history[p][a].write || history[t][b].write),
{
    let a0 = choose|a: int| 0 <= a < history[p].len() && (#[trigger] history[p][a]).key == key;
    let b0 = choose|a: int| 0 <= a < history[t].len() && (#[trigger] history[t][a]).key == key;
    if writes(history, p, key) {
        let a = choose|a: int|
            0 <= a < history[p].len() && (#[trigger] history[p][a]).key == key
                && history[p][a].write;
        assert(history[p][a].key == key && history[t][b0].key == key);
    } else {
        let b = choose|a: int|
            0 <= a < history[t].len() && (#[trigger] history[t][a]).key == key
                && history[t][a].write;
        assert(history[p][a0].key == key && history[t][b].key == key);
    }
}

/// A task follows exactly those older ones with which it shares an account that one of the two may
/// change and that no task between them may change.
pub proof fn law_tasks_follow_the_last_use(history: Seq<Seq<Access>>, p: int, t: int)
    ensures
        follows(history, p, t) <==> 0 <= p < t && exists|a: int, b: int|
            0 <= a < history[p].len() && 0 <= b < history[t].len() && (
            #[trigger] history[p][a]).key == (#[trigger] history[t][b]).key && (history[p][a].write
                || history[t][b].write) && forall|q: int, c: int|
                p < q < t && 0 <= c < history[q].len() && (#[trigger] history[q][c]).key
                    == history[p][a].key ==> !history[q][c].write,
{
    if follows(history, p, t) {
        let key = choose|key: [u8; 32]| #[trigger] follows_on(history, p, t, key);
        lemma_conflict_on_positions(history, p, t, key);
        let (a, b) = choose|a: int, b: int|
            0 <= a < history[p].len() && 0 <= b < history[t].len() && (
            #[trigger] history[p][a]).key == key && (#[trigger] history[t][b]).key == key && (
            history[p][a].write || history[t][b].write);
        assert forall|q: int, c: int|
            p < q < t && 0 <= c < history[q].len() && (#[trigger] history[q][c]).key
                == history[p][a].key implies !history[q][c].write by {
            assert(!writes(history, q, key));
        }
        assert(history[p][a].key == history[t][b].key);
    }
    if 0 <= p < t && exists|a: int, b: int|
        0 <= a < history[p].len() && 0 <= b < history[t].len() && (#[trigger] history[p][a]).key
            == (#[trigger] history[t][b]).key && (history[p][a].write || history[t][b].write)
            && forall|q: int, c: int|
            p < q < t && 0 <= c < history[q].len() && (#[trigger] history[q][c]).key
                == history[p][a].key ==> !history[q][c].write {
        let (a, b) = choose|a: int, b: int|
            0 <= a < history[p].len() && 0 <= b < history[t].len() && (
            #[trigger] history[p][a]).key == (#[trigger] history[t][b]).key && (history[p][a].write
                || history[t][b].write) && forall|q: int, c: int|
                p < q < t && 0 <= c < history[q].len() && (#[trigger] history[q][c]).key
                    == history[p][a].key ==> !history[q][c].write;
        let key = history[p][a].key;
        assert forall|q: int| p < q < t implies !#[trigger] writes(history, q, key) by {
            if writes(history, q, key) {
                let c = choose|c: int|
                    0 <= c < history[q].len() && (#[trigger] history[q][c]).key == key
                        && history[q][c].write;
                assert(!history[q][c].write);
            }
        }
        assert(follows_on(history, p, t, key));
    }
}

} // verus!
