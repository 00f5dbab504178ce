//! Every operation keeps a schedule well formed.

use crate::bindings::{CheckResponse, Returned, TransactionRegion, MAX_TRANSACTIONS_PER_MESSAGE};
use crate::validator::schedule::conflict::{follows, follows_on, followers, lemma_follows_stable, lemma_followers, touches};
use crate::validator::schedule::model::{
    precedes, sum, was_sent, was_sent_to, LookupsSpec, ScheduleSpec, Sent, TaskState,
};
use crate::transaction::TransactionSpec;
use vstd::prelude::*;

verus! {

/// Raising one count raises the sum.
pub proof fn lemma_sum_update(counts: Seq<usize>, w: int, value: usize)
    requires
        0 <= w < counts.len(),
    ensures
        sum(counts.update(w, value)) == sum(counts) - counts[w] + value,
    decreases counts.len(),
{
    let updated = counts.update(w, value);
    if w == counts.len() - 1 {
        assert(updated.drop_last() =~= counts.drop_last());
    } else {
        assert(updated.drop_last() =~= counts.drop_last().update(w, value));
        lemma_sum_update(counts.drop_last(), w, value);
    }
}

/// No count is above the sum.
pub proof fn lemma_sum_bounds(counts: Seq<usize>, w: int)
    requires
        0 <= w < counts.len(),
    ensures
        counts[w] <= sum(counts),
    decreases counts.len(),
{
    if w < counts.len() - 1 {
        assert(counts.drop_last()[w] == counts[w]);
        lemma_sum_bounds(counts.drop_last(), w);
    }
}

/// Counts of nothing sum up to nothing.
pub proof fn lemma_sum_zero(counts: Seq<usize>)
    requires
        forall|w: int| 0 <= w < counts.len() ==> counts[w] == 0,
    ensures
        sum(counts) == 0,
    decreases counts.len(),
{
    if counts.len() > 0 {
        assert forall|w: int| 0 <= w < counts.drop_last().len() implies counts.drop_last()[w]
            == 0 by {
            assert(counts.drop_last()[w] == counts[w]);
        }
        lemma_sum_zero(counts.drop_last());
    }
}

/// A task that is followed uses some account.
pub proof fn lemma_followed_uses(v: ScheduleSpec, p: int, t: int)
    requires
        follows(v.accesses, p, t),
    ensures
        0 <= p < t,
        v.accesses[p].len() > 0,
{
    let key = choose|key: [u8; 32]| follows_on(v.accesses, p, t, key);
    assert(touches(v.accesses, p, key));
}

/// What a task waits on are finitely many older tasks.
pub proof fn lemma_waiting_finite(v: ScheduleSpec, t: int)
    ensures
        v.waiting_on(t).finite(),
{
    vstd::set_lib::lemma_int_range(0, if t < 0 { 0 } else { t });
    assert(v.waiting_on(t).subset_of(vstd::set_lib::set_int_range(0, if t < 0 { 0 } else { t })));
    vstd::set_lib::lemma_len_subset(
        v.waiting_on(t),
        vstd::set_lib::set_int_range(0, if t < 0 { 0 } else { t }),
    );
}

/// Filtering keeps what the predicate holds of, each once where it occurred once.
proof fn lemma_filter(list: Seq<usize>, pred: spec_fn(usize) -> bool)
    requires
        list.no_duplicates(),
    ensures
        forall|s: usize| #[trigger] list.filter(pred).contains(s) <==> list.contains(s) && pred(s),
        list.filter(pred).no_duplicates(),
    decreases list.len(),
{
    reveal(Seq::filter);
    if list.len() > 0 {
        let before = list.drop_last();
        lemma_filter(before, pred);
        let kept = before.filter(pred);
        let all = list.filter(pred);
        assert forall|s: usize| #[trigger] all.contains(s) <==> list.contains(s) && pred(s) by {
            assert(kept.contains(s) <==> before.contains(s) && pred(s));
            if before.contains(s) {
                let i = choose|i: int| 0 <= i < before.len() && before[i] == s;
                assert(list[i] == s);
            }
            if list.contains(s) {
                let i = choose|i: int| 0 <= i < list.len() && list[i] == s;
                if i < before.len() {
                    assert(before[i] == s);
                }
            }
            if kept.contains(s) {
                let i = choose|i: int| 0 <= i < kept.len() && kept[i] == s;
                assert(all[i] == s);
            }
            if pred(list.last()) {
                assert(all[kept.len() as int] == list.last());
            }
            if all.contains(s) {
                let i = choose|i: int| 0 <= i < all.len() && all[i] == s;
                if i < kept.len() {
                    assert(kept[i] == s);
                }
            }
            assert(list[list.len() - 1] == list.last());
        }
        if pred(list.last()) {
            assert forall|i: int| 0 <= i < kept.len() implies kept[i] != list.last() by {
                assert(kept.contains(kept[i]));
                let k = choose|k: int| 0 <= k < before.len() && before[k] == kept[i];
                assert(list[k] != list[list.len() - 1]);
            }
        }
    }
}

impl ScheduleSpec {
    /// A schedule without tasks is well formed.
    pub proof fn lemma_empty_wf(num_workers: nat)
        ensures
            Self::empty(num_workers).wf(),
    {
        let v = Self::empty(num_workers);
        lemma_sum_zero(v.check_counts);
        lemma_sum_zero(v.execute_counts);
    }

    /// Inserting a transaction keeps the schedule well formed.
    pub proof fn lemma_insert_wf(
        self,
        key: [u8; 64],
        region: TransactionRegion,
        tx: TransactionSpec,
    )
        requires
            self.wf(),
            self.tasks.len() < usize::MAX,
        ensures
            self.insert(key, region, tx).wf(),
    {
        if !self.has_task(key) {
            let v = self.insert(key, region, tx);
            assert forall|t: int| 0 <= t < self.tasks.len() implies v.tasks[t] == self.tasks[t] by {
            }
            assert forall|t: int| #[trigger] self.is_ready(t) == v.is_ready(t) by {
                if 0 <= t < self.cursor() {
                    assert(v.waiting_on(t) =~= self.waiting_on(t));
                }
            }
            assert(v.queues_wf());
            assert(v.sent_wf());
        }
    }

    /// Moving the cursor over one task changes nothing for the tasks behind it.
    pub proof fn lemma_step_cursor_waiting(self, t: int)
        requires
            self.states_wf(),
            !self.stuck(),
            t < self.cursor(),
        ensures
            self.step_cursor().waiting_on(t) == self.waiting_on(t),
    {
        let c = self.cursor() as int;
        let v = self.step_cursor();
        let next = v.accesses[c];
        assert(v.accesses =~= self.accesses.push(next));
        assert forall|p: int| #[trigger] follows(v.accesses, p, t) == follows(
            self.accesses,
            p,
            t,
        ) by {
            lemma_follows_stable(self.accesses, next, p, t);
        }
        assert(v.waiting_on(t) =~= self.waiting_on(t));
    }

    /// Moving the cursor over one task keeps the schedule well formed.
    pub proof fn lemma_step_cursor_wf(self)
        requires
            self.wf(),
            !self.stuck(),
        ensures
            self.step_cursor().wf(),
            self.step_cursor().cursor() == self.cursor() + 1,
    {
        let c = self.cursor() as int;
        let v = self.step_cursor();
        let next = v.accesses[c];
        assert(v.accesses =~= self.accesses.push(next));
        assert forall|p: int, t: int| t < c implies #[trigger] follows(v.accesses, p, t) == follows(
            self.accesses,
            p,
            t,
        ) by {
            lemma_follows_stable(self.accesses, next, p, t);
        }
        assert forall|t: int| t < c implies #[trigger] v.waiting_on(t) == self.waiting_on(t) by {
            self.lemma_step_cursor_waiting(t);
        }
        assert forall|t: usize| #[trigger] v.ready.contains(t) <==> v.is_ready(t as int) by {
            if t < c {
                assert(v.waiting_on(t as int) == self.waiting_on(t as int));
                assert(self.is_ready(t as int) == v.is_ready(t as int));
            }
            if self.ready.contains(t) {
                let i = choose|i: int| 0 <= i < self.ready.len() && self.ready[i] == t;
                assert(v.ready[i] == t);
                assert(self.is_ready(t as int));
            }
            if v.ready.contains(t) {
                let i = choose|i: int| 0 <= i < v.ready.len() && v.ready[i] == t;
                if i < self.ready.len() {
                    assert(self.ready[i] == t);
                    assert(self.ready.contains(t));
                }
            }
            if t == c && v.is_ready(c) {
                assert(v.ready[self.ready.len() as int] == c);
            }
        }
        assert(v.ready.no_duplicates()) by {
            assert forall|i: int| 0 <= i < self.ready.len() implies self.ready[i] < c by {
                assert(self.ready.contains(self.ready[i]));
            }
        }
        assert(v.sent_wf());
    }

    /// Moving the cursor as far as it goes keeps the schedule well formed.
    pub proof fn lemma_advance_wf(self)
        requires
            self.wf(),
        ensures
            self.advance().wf(),
            self.advance().stuck(),
            self.advance().tails == self.tails,
            self.advance().inflight == self.inflight,
            self.advance().unresolved == self.unresolved,
            self.advance().entries == self.entries,
            self.advance().tasks.len() == self.tasks.len(),
        decreases self.tasks.len() - self.cursor(),
    {
        if !self.stuck() {
            self.lemma_step_cursor_wf();
            self.step_cursor().lemma_advance_wf();
        }
    }

    /// A task that waits for one other, and follows `p` which is not done, waits for `p` alone.
    pub proof fn lemma_chainable(self, p: int, s: int)
        requires
            self.wf(),
            0 <= p < self.cursor(),
            self.tasks[p].state != TaskState::Done,
            follows(self.accesses, p, s),
            self.chainable(s),
        ensures
            forall|q: int| self.waiting_on(s).contains(q) <==> q == p,
    {
        lemma_followed_uses(self, p, s);
        lemma_waiting_finite(self, s);
        assert(self.waiting_on(s).contains(p));
        assert(self.waiting_on(s).remove(p).len() == 0);
        assert forall|q: int| self.waiting_on(s).contains(q) implies q == p by {
            if q != p {
                assert(self.waiting_on(s).remove(p).contains(q));
            }
        }
    }

    /// Appending what waits for `parent` alone keeps a batch sound.
    proof fn lemma_extend(
        self,
        tail: Option<usize>,
        parent: usize,
        k: nat,
        batch: Seq<usize>,
        taken: nat,
    )
        requires
            self.wf(),
            parent < self.cursor(),
            self.sound_batch(tail, batch, taken),
            tail == Some(parent) || batch.contains(parent),
        ensures
            ({
                let grown = self.extend(self.successors(parent as int), k, batch);
                &&& self.sound_batch(tail, grown, taken)
                &&& batch.is_prefix_of(grown)
            }),
        decreases self.successors(parent as int).len() - k,
    {
        let candidates = self.successors(parent as int);
        if k < candidates.len() && batch.len() < MAX_TRANSACTIONS_PER_MESSAGE {
            let s = candidates[k as int];
            lemma_followers(self.accesses, parent as int, self.cursor());
            assert(followers(self.accesses, parent as int, self.cursor()).contains(s));
            if self.chainable(s as int) && !batch.contains(s) {
                let grown = batch.push(s);
                self.lemma_chainable(parent as int, s as int);
                assert(self.waiting_on(s as int).contains(parent as int));
                assert forall|i: int, q: int|
                    0 <= i < grown.len() && #[trigger] self.waiting_on(
                        grown[i] as int,
                    ).contains(q) implies (tail matches Some(last) && last == q) || (exists|j: int|
                    0 <= j < i && #[trigger] grown[j] == q) by {
                    if i < batch.len() {
                        assert(self.waiting_on(batch[i] as int).contains(q));
                        if exists|j: int| 0 <= j < i && #[trigger] batch[j] == q {
                            let j = choose|j: int| 0 <= j < i && #[trigger] batch[j] == q;
                            assert(grown[j] == q);
                        }
                    } else if tail != Some(parent) {
                        let j = choose|j: int| 0 <= j < batch.len() && batch[j] == parent;
                        assert(grown[j] == q);
                    }
                }
                assert forall|i: int| 0 <= i < taken implies grown.contains(
                    #[trigger] self.ready[i],
                ) by {
                    assert(batch.contains(self.ready[i]));
                    let j = choose|j: int| 0 <= j < batch.len() && batch[j] == self.ready[i];
                    assert(grown[j] == self.ready[i]);
                }
                assert forall|i: int| taken <= i < self.ready.len() implies !grown.contains(
                    #[trigger] self.ready[i],
                ) by {
                    assert(!batch.contains(self.ready[i]));
                    assert(self.ready.contains(self.ready[i]));
                    assert(self.is_ready(self.ready[i] as int));
                    if grown.contains(self.ready[i]) {
                        let j = choose|j: int| 0 <= j < grown.len() && grown[j] == self.ready[i];
                        if j < batch.len() {
                            assert(batch[j] == self.ready[i]);
                        }
                    }
                }
                if batch.contains(parent) {
                    let j = choose|j: int| 0 <= j < batch.len() && batch[j] == parent;
                    assert(grown[j] == parent);
                }
                self.lemma_extend(tail, parent, k + 1, grown, taken);
            } else {
                self.lemma_extend(tail, parent, k + 1, batch, taken);
            }
        }
    }

    /// Filling a batch up keeps it sound.
    proof fn lemma_grow(self, tail: Option<usize>, batch: Seq<usize>, explored: nat, taken: nat)
        requires
            self.wf(),
            self.sound_batch(tail, batch, taken),
            explored <= batch.len(),
        ensures
            ({
                let (grown, took) = self.grow(batch, explored, taken);
                &&& self.sound_batch(tail, grown, took)
                &&& batch.is_prefix_of(grown)
                &&& grown.len() == 0 ==> self.ready.len() == 0
            }),
        decreases MAX_TRANSACTIONS_PER_MESSAGE - explored + self.ready.len() - taken,
    {
        if batch.len() < MAX_TRANSACTIONS_PER_MESSAGE {
            self.lemma_grow_step(tail, batch, explored, taken);
            if explored < batch.len() {
                let parent = batch[explored as int];
                let grown = self.extend(self.successors(parent as int), 0, batch);
                self.lemma_grow(tail, grown, explored + 1, taken);
            } else if taken < self.ready.len() {
                self.lemma_grow(tail, batch.push(self.ready[taken as int]), explored, taken + 1);
            } else if taken > 0 {
                assert(batch.contains(self.ready[0]));
            }
        }
    }

    /// What a batch for a worker starts with is sound.
    pub proof fn lemma_batch_start(self, worker: int)
        requires
            self.wf(),
            0 <= worker < self.tails.len(),
        ensures
            self.tails[worker] matches Some(last) ==> last < self.cursor() && self.sound_batch(
                self.tails[worker],
                self.extend(self.successors(last as int), 0, Seq::empty()),
                0,
            ),
            self.sound_batch(self.tails[worker], Seq::empty(), 0),
    {
        let tail = self.tails[worker];
        assert(self.sound_batch(tail, Seq::empty(), 0));
        if let Some(last) = tail {
            assert(was_sent_to(self.sent, last as int, worker));
            self.lemma_extend(tail, last, 0, Seq::empty(), 0);
        }
    }

    /// One step of filling a batch up keeps it sound.
    pub proof fn lemma_grow_step(
        self,
        tail: Option<usize>,
        batch: Seq<usize>,
        explored: nat,
        taken: nat,
    )
        requires
            self.wf(),
            self.sound_batch(tail, batch, taken),
            explored <= batch.len() < MAX_TRANSACTIONS_PER_MESSAGE,
        ensures
            explored < batch.len() ==> batch[explored as int] < self.cursor() && ({
                let grown = self.extend(
                    self.successors(batch[explored as int] as int),
                    0,
                    batch,
                );
                self.sound_batch(tail, grown, taken) && batch.is_prefix_of(grown)
            }),
            explored == batch.len() && taken < self.ready.len() ==> self.sound_batch(
                tail,
                batch.push(self.ready[taken as int]),
                taken + 1,
            ),
    {
        if explored < batch.len() {
            let parent = batch[explored as int];
            assert(batch.contains(parent));
            self.lemma_extend(tail, parent, 0, batch, taken);
        } else if taken < self.ready.len() {
            let r = self.ready[taken as int];
            let grown = batch.push(r);
            assert(self.ready.contains(r));
            assert(self.is_ready(r as int));
            assert(!batch.contains(r));
            assert forall|i: int, q: int|
                0 <= i < grown.len() && #[trigger] self.waiting_on(grown[i] as int).contains(
                    q,
                ) implies (tail matches Some(last) && last == q) || (exists|j: int|
                0 <= j < i && #[trigger] grown[j] == q) by {
                if i < batch.len() {
                    assert(self.waiting_on(batch[i] as int).contains(q));
                    if exists|j: int| 0 <= j < i && #[trigger] batch[j] == q {
                        let j = choose|j: int| 0 <= j < i && #[trigger] batch[j] == q;
                        assert(grown[j] == q);
                    }
                }
            }
            assert forall|i: int| 0 <= i < taken + 1 implies grown.contains(
                #[trigger] self.ready[i],
            ) by {
                if i < taken {
                    assert(batch.contains(self.ready[i]));
                    let j = choose|j: int| 0 <= j < batch.len() && batch[j] == self.ready[i];
                    assert(grown[j] == self.ready[i]);
                } else {
                    assert(grown[batch.len() as int] == r);
                }
            }
            assert forall|i: int| taken + 1 <= i < self.ready.len() implies !grown.contains(
                #[trigger] self.ready[i],
            ) by {
                assert(!batch.contains(self.ready[i]));
                if grown.contains(self.ready[i]) {
                    let j = choose|j: int| 0 <= j < grown.len() && grown[j] == self.ready[i];
                    if j < batch.len() {
                        assert(batch[j] == self.ready[i]);
                    }
                }
            }
        }
    }

    /// The batch that is built for a worker is sound, and is empty only where nothing is ready.
    pub proof fn lemma_batch_sound(self, worker: int)
        requires
            self.wf(),
            0 <= worker < self.tails.len(),
        ensures
            self.sound_batch(self.tails[worker], self.batch(worker).0, self.batch(worker).1),
            self.batch(worker).0.len() == 0 ==> self.ready.len() == 0,
    {
        let tail = self.tails[worker];
        self.lemma_batch_start(worker);
        if let Some(last) = tail {
            self.lemma_grow(
                tail,
                self.extend(self.successors(last as int), 0, Seq::empty()),
                0,
                0,
            );
        } else {
            self.lemma_grow(tail, Seq::empty(), 0, 0);
        }
    }

    /// Sending a sound batch keeps the schedule well formed.
    pub proof fn lemma_send_execute_wf(self, worker: int, batch: Seq<usize>, taken: nat)
        requires
            self.wf(),
            0 <= worker < self.tails.len(),
            batch.len() > 0,
            self.sound_batch(self.tails[worker], batch, taken),
        ensures
            self.send_execute(worker, batch, taken).wf(),
            self.execute_counts[worker] + batch.len() <= usize::MAX,
    {
        let v = self.send_execute(worker, batch, taken);
        assert forall|t: int| 0 <= t < self.tasks.len() implies (#[trigger] v.tasks[t]).state == (
        if batch.contains(t as usize) {
            TaskState::Assigned
        } else {
            self.tasks[t].state
        }) && v.tasks[t].lookups == self.tasks[t].lookups by {
        }
        assert forall|t: usize| #[trigger] batch.contains(t) implies t < self.cursor()
            && self.tasks[t as int].state == TaskState::Resolved by {
            let k = choose|k: int| 0 <= k < batch.len() && batch[k] == t;
            assert(batch[k] < self.cursor());
        }
        assert(v.states_wf());
        assert forall|t: int| t < self.cursor() implies #[trigger] v.waiting_on(t)
            == self.waiting_on(t) by {
            self.lemma_send_execute_waiting(worker, batch, taken, t);
        }
        self.lemma_send_execute_queues(worker, batch, taken);
        self.lemma_send_execute_sent(worker, batch, taken);
        self.lemma_sent_bound();
        v.lemma_sent_bound();
        lemma_sum_bounds(self.execute_counts, worker);
        lemma_sum_update(
            self.execute_counts,
            worker,
            (self.execute_counts[worker] + batch.len()) as usize,
        );
    }

    /// Sending a batch changes nothing about what a task waits on.
    pub proof fn lemma_send_execute_waiting(
        self,
        worker: int,
        batch: Seq<usize>,
        taken: nat,
        t: int,
    )
        requires
            self.states_wf(),
            self.sound_batch(self.tails[worker], batch, taken),
            t < self.cursor(),
        ensures
            self.send_execute(worker, batch, taken).waiting_on(t) == self.waiting_on(t),
    {
        let v = self.send_execute(worker, batch, taken);
        assert forall|p: int| v.waiting_on(t).contains(p) == self.waiting_on(t).contains(p) by {
            if 0 <= p < t && batch.contains(p as usize) {
                let k = choose|k: int| 0 <= k < batch.len() && batch[k] == p as usize;
                assert(self.tasks[batch[k] as int].state == TaskState::Resolved);
            }
        }
        assert(v.waiting_on(t) =~= self.waiting_on(t));
    }

    /// What is ready after sending a sound batch.
    proof fn lemma_send_execute_queues(self, worker: int, batch: Seq<usize>, taken: nat)
        requires
            self.wf(),
            0 <= worker < self.tails.len(),
            self.sound_batch(self.tails[worker], batch, taken),
            forall|t: int|
                t < self.cursor() ==> #[trigger] self.send_execute(worker, batch, taken).waiting_on(
                    t,
                ) == self.waiting_on(t),
        ensures
            self.send_execute(worker, batch, taken).queues_wf(),
    {
        let v = self.send_execute(worker, batch, taken);
        assert forall|t: usize| #[trigger] v.ready.contains(t) <==> v.is_ready(t as int) by {
            if v.ready.contains(t) {
                let i = choose|i: int| 0 <= i < v.ready.len() && v.ready[i] == t;
                assert(self.ready[i + taken] == t);
                assert(self.ready.contains(t));
                assert(!batch.contains(t));
                assert(self.is_ready(t as int));
                assert(v.waiting_on(t as int) == self.waiting_on(t as int));
            }
            if v.is_ready(t as int) {
                assert(v.waiting_on(t as int) == self.waiting_on(t as int));
                assert(!batch.contains(t));
                assert(self.is_ready(t as int));
                assert(self.ready.contains(t));
                let i = choose|i: int| 0 <= i < self.ready.len() && self.ready[i] == t;
                assert(v.ready[i - taken] == t);
            }
        }
    }

    /// What is recorded after sending a sound batch.
    proof fn lemma_send_execute_sent(self, worker: int, batch: Seq<usize>, taken: nat)
        requires
            self.wf(),
            0 <= worker < self.tails.len(),
            batch.len() > 0,
            self.sound_batch(self.tails[worker], batch, taken),
        ensures
            self.send_execute(worker, batch, taken).sent_wf(),
    {
        let v = self.send_execute(worker, batch, taken);
        let n = self.sent.len() as int;
        assert forall|j: int| 0 <= j < v.sent.len() implies {
            let s = #[trigger] v.sent[j];
            &&& 0 <= s.task < v.cursor()
            &&& 0 <= s.worker < v.tails.len()
            &&& v.tasks[s.task].state == TaskState::Assigned || v.tasks[s.task].state
                == TaskState::Done
        } by {
            if j < n {
                assert(v.sent[j] == self.sent[j]);
            } else {
                assert(v.sent[j].task == batch[j - n]);
                assert(batch.contains(batch[j - n]));
            }
        }
        assert forall|i: int, j: int| 0 <= i < j < v.sent.len() implies (#[trigger] v.sent[i]).task
            != (#[trigger] v.sent[j]).task by {
            if j < n {
                assert(self.sent[i].task != self.sent[j].task);
            } else if i < n {
                assert(self.sent[i] == v.sent[i]);
                assert(self.tasks[batch[j - n] as int].state == TaskState::Resolved);
            } else {
                assert(batch[i - n] != batch[j - n]);
            }
        }
        assert forall|t: int| #[trigger] was_sent(self.sent, t) implies was_sent(v.sent, t) by {
            let i = choose|i: int| 0 <= i < self.sent.len() && (#[trigger] self.sent[i]).task == t;
            assert(v.sent[i].task == t);
        }
        assert forall|t: int|
            0 <= t < v.cursor() && ((#[trigger] v.tasks[t]).state == TaskState::Assigned || (
            v.tasks[t].state == TaskState::Done && v.accesses[t].len() > 0)) implies was_sent(
            v.sent,
            t,
        ) by {
            if batch.contains(t as usize) {
                let k = choose|k: int| 0 <= k < batch.len() && batch[k] == t as usize;
                assert(v.sent[n + k].task == t);
            } else {
                assert(was_sent(self.sent, t));
            }
        }
        assert forall|q: int, j: int|
            0 <= j < v.sent.len() && #[trigger] follows(v.accesses, q, v.sent[j].task) implies precedes(
            v.sent,
            q,
            j,
        ) by {
            if j < n {
                assert(v.sent[j] == self.sent[j]);
                assert(precedes(self.sent, q, j));
                let i = choose|i: int|
                    0 <= i < j && (#[trigger] self.sent[i]).task == q && (self.sent[i].worker
                        == self.sent[j].worker || self.sent[j].done.contains(q));
                assert(v.sent[i] == self.sent[i]);
            } else {
                let k = j - n;
                assert(v.sent[j] == (Sent { worker, task: batch[k] as int, done: self.done() }));
                lemma_followed_uses(self, q, batch[k] as int);
                if self.tasks[q].state == TaskState::Done {
                    assert(was_sent(self.sent, q));
                    let i = choose|i: int|
                        0 <= i < self.sent.len() && (#[trigger] self.sent[i]).task == q;
                    assert(v.sent[i].task == q);
                    assert(self.done().contains(q));
                } else {
                    assert(self.waiting_on(batch[k] as int).contains(q));
                    if exists|i: int| 0 <= i < k && #[trigger] batch[i] == q {
                        let i = choose|i: int| 0 <= i < k && #[trigger] batch[i] == q;
                        assert(v.sent[n + i].task == q);
                    } else {
                        assert(self.tails[worker] == Some(q as usize));
                        assert(was_sent_to(self.sent, q, worker));
                        let i = choose|i: int|
                            0 <= i < self.sent.len() && (#[trigger] self.sent[i]).task == q
                                && self.sent[i].worker == worker;
                        assert(v.sent[i] == self.sent[i]);
                    }
                }
            }
        }
        assert forall|w: int| 0 <= w < v.tails.len() implies ((#[trigger] v.tails[w]) matches Some(
            t,
        ) ==> was_sent_to(v.sent, t as int, w)) by {
            if w == worker {
                assert(v.sent[n + batch.len() - 1].task == batch.last());
            } else if let Some(t) = self.tails[w] {
                assert(was_sent_to(self.sent, t as int, w));
                let i = choose|i: int|
                    0 <= i < self.sent.len() && (#[trigger] self.sent[i]).task == t
                        && self.sent[i].worker == w;
                assert(v.sent[i] == self.sent[i]);
            }
        }
    }

    /// No more tasks were sent than the cursor has passed.
    pub proof fn lemma_sent_bound(self)
        requires
            self.states_wf(),
            self.sent_wf(),
        ensures
            self.sent.len() <= self.cursor(),
    {
        let ids = self.sent.map_values(|s: Sent| s.task);
        assert(ids.no_duplicates()) by {
            assert forall|i: int, j: int| 0 <= i < ids.len() && 0 <= j < ids.len() && i
                != j implies ids[i] != ids[j] by {
                if i < j {
                    assert(self.sent[i].task != self.sent[j].task);
                } else {
                    assert(self.sent[j].task != self.sent[i].task);
                }
            }
        }
        ids.unique_seq_to_set();
        let range = vstd::set_lib::set_int_range(0, self.cursor() as int);
        vstd::set_lib::lemma_int_range(0, self.cursor() as int);
        assert(ids.to_set().subset_of(range)) by {
            assert forall|t: int| ids.to_set().contains(t) implies range.contains(t) by {
                let i = choose|i: int| 0 <= i < ids.len() && ids[i] == t;
                assert(self.sent[i].task == t);
            }
        }
        vstd::set_lib::lemma_len_subset(ids.to_set(), range);
    }

    /// Sending tasks for CHECK keeps the schedule well formed.
    pub proof fn lemma_send_check_wf(self, worker: int)
        requires
            self.wf(),
            0 <= worker < self.tails.len(),
        ensures
            self.send_check(worker).wf(),
            self.check_counts[worker] + self.check_size() <= usize::MAX,
    {
        let v = self.send_check(worker);
        lemma_sum_bounds(self.check_counts, worker);
        lemma_sum_update(
            self.check_counts,
            worker,
            (self.check_counts[worker] + self.check_size()) as usize,
        );
        assert forall|t: int| #[trigger] self.is_ready(t) == v.is_ready(t) by {
            assert(v.waiting_on(t) =~= self.waiting_on(t));
        }
        assert(v.queues_wf());
    }

    /// Taking a CHECK result keeps the schedule well formed.
    pub proof fn lemma_checked_wf(self, t: int, result: Option<LookupsSpec>)
        requires
            self.wf(),
            0 <= t < self.tasks.len(),
            self.tasks[t].state == TaskState::Unresolved,
        ensures
            self.checked(t, result).wf(),
    {
        let v = self.checked(t, result);
        assert forall|s: int| #[trigger] self.is_ready(s) == v.is_ready(s) by {
            if 0 <= s < self.cursor() {
                assert(v.waiting_on(s) =~= self.waiting_on(s));
            }
        }
        assert(v.queues_wf());
        assert(v.sent_wf());
    }

    /// What task `s` waits on once `t` is done.
    pub proof fn lemma_finish_waiting(self, t: int, s: int)
        requires
            0 <= t < self.tasks.len(),
            s <= self.tasks.len(),
        ensures
            self.with_state(t, TaskState::Done).waiting_on(s) == self.waiting_on(s).remove(t),
    {
        assert(self.with_state(t, TaskState::Done).waiting_on(s) =~= self.waiting_on(s).remove(t));
    }

    /// Marking a sent task as executed keeps the schedule well formed.
    pub proof fn lemma_finish_wf(self, t: int)
        requires
            self.wf(),
            0 <= t < self.tasks.len(),
            self.tasks[t].state == TaskState::Assigned,
        ensures
            self.finish(t).wf(),
    {
        let moved = self.with_state(t, TaskState::Done);
        let v = self.finish(t);
        let pred = |s: usize| moved.is_ready(s as int);
        let list = self.successors(t);
        let fired = list.filter(pred);
        lemma_followers(self.accesses, t, self.cursor());
        lemma_filter(list, pred);
        assert forall|s: int| #[trigger] moved.is_ready(s) == v.is_ready(s) by {
            assert(moved.waiting_on(s) =~= v.waiting_on(s));
        }
        assert forall|s: int| s < self.cursor() implies #[trigger] moved.waiting_on(s)
            == self.waiting_on(s).remove(t) by {
            self.lemma_finish_waiting(t, s);
        }
        assert forall|s: usize| #[trigger] v.ready.contains(s) <==> v.is_ready(s as int) by {
            if self.ready.contains(s) {
                let i = choose|i: int| 0 <= i < self.ready.len() && self.ready[i] == s;
                assert(v.ready[i] == s);
                assert(self.is_ready(s as int));
                assert(moved.waiting_on(s as int) =~= Set::empty());
            }
            if fired.contains(s) {
                let i = choose|i: int| 0 <= i < fired.len() && fired[i] == s;
                assert(v.ready[self.ready.len() + i] == s);
            }
            if v.ready.contains(s) {
                let i = choose|i: int| 0 <= i < v.ready.len() && v.ready[i] == s;
                if i < self.ready.len() {
                    assert(self.ready[i] == s);
                } else {
                    assert(fired[i - self.ready.len()] == s);
                }
            }
            if v.is_ready(s as int) && !self.is_ready(s as int) {
                assert(self.waiting_on(s as int).contains(t)) by {
                    if !self.waiting_on(s as int).contains(t) {
                        assert(self.waiting_on(s as int).remove(t) =~= self.waiting_on(s as int));
                    }
                }
                assert(list.contains(s));
                assert(pred(s));
                assert(fired.contains(s));
            }
        }
        assert(v.ready.no_duplicates()) by {
            assert forall|i: int, j: int|
                0 <= i < self.ready.len() && 0 <= j < fired.len() implies self.ready[i]
                != fired[j] by {
                assert(self.ready.contains(self.ready[i]));
                assert(fired.contains(fired[j]));
                assert(self.waiting_on(fired[j] as int).contains(t));
            }
        }
        assert(v.sent_wf());
    }

    /// A signature names one task.
    pub proof fn lemma_task_of(self, i: int)
        requires
            self.distinct(),
            0 <= i < self.entries.len(),
        ensures
            self.has_task(self.entries[i].0),
            self.task_of(self.entries[i].0) == i,
    {
        let key = self.entries[i].0;
        let j = self.task_of(key);
        assert(0 <= j < self.entries.len() && self.entries[j].0 == key);
        if j < i {
            assert(self.entries[j].0 != self.entries[i].0);
        } else if i < j {
            assert(self.entries[i].0 != self.entries[j].0);
        }
    }

    /// A signature that is known names a task.
    pub proof fn lemma_task_in_range(self, key: [u8; 64])
        requires
            self.has_task(key),
        ensures
            0 <= self.task_of(key) < self.entries.len(),
            self.entries[self.task_of(key)].0 == key,
    {
        let j = self.task_of(key);
        assert(0 <= j < self.entries.len() && self.entries[j].0 == key);
    }

    /// Finishing one transaction after another keeps the schedule well formed, and touches no
    /// other task's state.
    pub proof fn lemma_finish_all_wf(self, batch: Seq<Returned>, n: nat)
        requires
            self.wf(),
            n <= batch.len(),
            forall|k: int|
                0 <= k < batch.len() ==> self.knows(
                    (#[trigger] batch[k]).signature,
                    TaskState::Assigned,
                ),
            forall|i: int, k: int|
                0 <= i < k < batch.len() ==> (#[trigger] batch[i]).signature != (
                #[trigger] batch[k]).signature,
        ensures
            self.finish_all(batch, n).wf(),
            self.finish_all(batch, n).entries == self.entries,
            self.finish_all(batch, n).inflight == self.inflight,
            forall|k: int|
                n <= k < batch.len() ==> self.finish_all(batch, n).knows(
                    (#[trigger] batch[k]).signature,
                    TaskState::Assigned,
                ),
        decreases n,
    {
        if n > 0 {
            let m = (n - 1) as nat;
            self.lemma_finish_all_wf(batch, m);
            let v = self.finish_all(batch, m);
            let key = batch[n - 1].signature;
            let t = self.task_of(key);
            assert(v.knows(key, TaskState::Assigned));
            assert(v.task_of(key) == t);
            v.lemma_task_in_range(key);
            v.lemma_finish_wf(t);
            assert forall|k: int| n <= k < batch.len() implies self.finish_all(batch, n).knows(
                (#[trigger] batch[k]).signature,
                TaskState::Assigned,
            ) by {
                let other = batch[k].signature;
                assert(batch[n - 1].signature != batch[k].signature);
                assert(v.knows(other, TaskState::Assigned));
                v.lemma_task_in_range(other);
                assert(v.task_of(other) != t);
            }
        }
    }

    /// Taking one CHECK result after another keeps the schedule well formed.
    pub proof fn lemma_check_all_wf(
        self,
        batch: Seq<Returned>,
        responses: Seq<CheckResponse>,
        n: nat,
    )
        requires
            self.wf(),
            n <= batch.len() == responses.len(),
            forall|k: int|
                0 <= k < batch.len() ==> self.knows(
                    (#[trigger] batch[k]).signature,
                    TaskState::Unresolved,
                ),
            forall|i: int, k: int|
                0 <= i < k < batch.len() && (#[trigger] batch[i]).signature == (
                #[trigger] batch[k]).signature ==> responses[i].outcome() is Some,
        ensures
            self.check_all(batch, responses, n).wf(),
            self.check_all(batch, responses, n).entries == self.entries,
            self.check_all(batch, responses, n).inflight == self.inflight,
            forall|k: int|
                n <= k < batch.len() ==> self.check_all(batch, responses, n).knows(
                    (#[trigger] batch[k]).signature,
                    TaskState::Unresolved,
                ),
        decreases n,
    {
        if n > 0 {
            let m = (n - 1) as nat;
            self.lemma_check_all_wf(batch, responses, m);
            let v = self.check_all(batch, responses, m);
            let key = batch[n - 1].signature;
            let t = self.task_of(key);
            assert(v.knows(key, TaskState::Unresolved));
            assert(v.task_of(key) == t);
            v.lemma_task_in_range(key);
            v.lemma_checked_wf(t, responses[n - 1].outcome());
            assert forall|k: int| n <= k < batch.len() implies self.check_all(
                batch,
                responses,
                n,
            ).knows((#[trigger] batch[k]).signature, TaskState::Unresolved) by {
                let other = batch[k].signature;
                assert(v.knows(other, TaskState::Unresolved));
                v.lemma_task_in_range(other);
                if other == key {
                    assert(batch[n - 1].signature == batch[k].signature);
                } else {
                    assert(v.task_of(other) != t);
                }
            }
        }
    }

    /// One message less in flight keeps the schedule well formed.
    pub proof fn lemma_answered_wf(self)
        requires
            self.wf(),
            self.inflight > 0,
        ensures
            self.answered().wf(),
    {
        let v = self.answered();
        assert forall|t: int| #[trigger] self.is_ready(t) == v.is_ready(t) by {
            assert(v.waiting_on(t) =~= self.waiting_on(t));
        }
        assert(v.queues_wf());
    }
}

} // verus!
