//! Clearing a schedule between slots.

use crate::bindings::{PubkeysRegion, TransactionRegion, MAX_WORKERS};
use crate::validator::schedule::model::{sum, ScheduleSpec, TaskState};
use crate::validator::schedule::Schedule;
use crate::tx_map::{tx_map_drain, tx_map_len};
use vstd::prelude::*;

verus! {

/// What clearing a schedule hands back.
pub struct Cleared {
    /// The votes that were not executed, to be queued again.
    pub votes: Vec<TransactionRegion>,
    /// The other transactions that were not executed, to be freed.
    pub dropped: Vec<TransactionRegion>,
    /// The lookup keys of what was not executed, to be freed.
    pub keys: Vec<PubkeysRegion>,
    /// How many transactions were sent for CHECK.
    pub checked: usize,
    /// How many transactions were sent for EXECUTE.
    pub executed: usize,
}

impl ScheduleSpec {
    /// The regions of those among the first `n` tasks that are not done and are votes, or are
    /// none, as `votes` says.
    pub open spec fn unexecuted(self, votes: bool, n: nat) -> Seq<TransactionRegion>
        decreases n,
    {
        if n == 0 {
            Seq::empty()
        } else {
            let t = n - 1;
            let earlier = self.unexecuted(votes, t as nat);
            if self.tasks[t].state != TaskState::Done && self.tasks[t].tx.is_vote() == votes {
                earlier.push(self.entries[t].1)
            } else {
                earlier
            }
        }
    }

    /// The lookup keys of those among the first `n` tasks that are not done.
    pub open spec fn unused_keys(self, n: nat) -> Seq<PubkeysRegion>
        decreases n,
    {
        if n == 0 {
            Seq::empty()
        } else {
            let t = n - 1;
            let earlier = self.unused_keys(t as nat);
            match self.tasks[t].lookups {
                Some(lookups) if self.tasks[t].state != TaskState::Done => earlier.push(
                    lookups.region,
                ),
                _ => earlier,
            }
        }
    }

    /// Each task that is not done tells whether it is a vote.
    pub open spec fn votes_readable(self) -> bool {
        forall|t: int|
            0 <= t < self.tasks.len() && (#[trigger] self.tasks[t]).state != TaskState::Done
                ==> self.tasks[t].tx.vote_readable()
    }
}

/// The total of `counts`.
fn total(counts: &Vec<usize>) -> (result: usize)
    requires
        sum(counts@) <= usize::MAX,
    ensures
        result == sum(counts@),
{
    let mut result: usize = 0;
    let mut w: usize = 0;
    while w < counts.len()
        invariant
            w <= counts@.len(),
            sum(counts@) <= usize::MAX,
            result == sum(counts@.take(w as int)),
        decreases counts.len() - w,
    {
        proof {
            lemma_sum_take(counts@, w + 1);
            assert(counts@.take(w + 1).drop_last() =~= counts@.take(w as int));
        }
        result = result + counts[w];
        w = w + 1;
    }
    assert(counts@.take(w as int) =~= counts@);
    result
}

/// A prefix sums up to no more than the whole.
proof fn lemma_sum_take(counts: Seq<usize>, n: int)
    requires
        0 <= n <= counts.len(),
    ensures
        sum(counts.take(n)) <= sum(counts),
    decreases counts.len(),
{
    if n < counts.len() {
        lemma_sum_take(counts.drop_last(), n);
        assert(counts.drop_last().take(n) =~= counts.take(n));
    } else {
        assert(counts.take(n) =~= counts);
    }
}

impl Schedule {
    /// Clears the schedule for the next slot. Returns what was not executed.
    pub fn reset(&mut self) -> (result: Cleared)
        requires
            old(self).wf(),
            old(self)@.inflight == 0,
            old(self)@.tails.len() <= MAX_WORKERS,
            old(self)@.votes_readable(),
        ensures
            final(self).wf(),
            final(self)@ == ScheduleSpec::empty(old(self)@.tails.len()),
            result.votes@ == old(self)@.unexecuted(true, old(self)@.tasks.len()),
            result.dropped@ == old(self)@.unexecuted(false, old(self)@.tasks.len()),
            result.keys@ == old(self)@.unused_keys(old(self)@.tasks.len()),
            result.checked == sum(old(self)@.check_counts),
            result.executed == sum(old(self)@.execute_counts),
    {
        let ghost was = self@;
        proof {
            was.lemma_sent_bound();
        }
        let checked: usize = total(&self.check_counts);
        let executed: usize = total(&self.execute_counts);
        let num_workers: usize = self.tails.len();
        let num_tasks: usize = tx_map_len(&self.map);
        let entries = tx_map_drain(&mut self.map, num_tasks);
        let mut votes: Vec<TransactionRegion> = Vec::new();
        let mut dropped: Vec<TransactionRegion> = Vec::new();
        let mut keys: Vec<PubkeysRegion> = Vec::new();
        let mut t: usize = 0;
        while t < num_tasks
            invariant
                t <= num_tasks == was.tasks.len(),
                was.votes_readable(),
                entries@ == was.entries,
                entries@.len() == num_tasks,
                self.tasks@.len() == num_tasks,
                forall|i: int| 0 <= i < num_tasks ==> was.tasks[i] == (#[trigger] self.tasks@[i])@,
                votes@ == was.unexecuted(true, t as nat),
                dropped@ == was.unexecuted(false, t as nat),
                keys@ == was.unused_keys(t as nat),
            decreases num_tasks - t,
        {
            let task = &self.tasks[t];
            assert(was.tasks[t as int] == task@);
            if task.state != TaskState::Done {
                if let Some(resolved) = &task.alt_pubkeys {
                    keys.push(resolved.region);
                }
                if task.view.is_vote() {
                    votes.push(entries[t].1);
                } else {
                    dropped.push(entries[t].1);
                }
            }
            t = t + 1;
        }
        self.tasks.clear();
        self.accounts.clear();
        self.cursor = 0;
        self.unresolved.clear();
        self.ready.clear();
        let mut w: usize = 0;
        while w < num_workers
            invariant
                w <= num_workers,
                num_workers == self.tails@.len(),
                num_workers == self.check_counts@.len(),
                num_workers == self.execute_counts@.len(),
                forall|i: int| 0 <= i < w ==> (#[trigger] self.tails@[i]) is None,
                forall|i: int| 0 <= i < w ==> self.check_counts@[i] == 0,
                forall|i: int| 0 <= i < w ==> self.execute_counts@[i] == 0,
                self.tasks@.len() == 0,
                self.inflight == 0,
                self.accounts.tells(Seq::empty()),
                self.cursor == 0,
                self.unresolved@.len() == 0,
                self.ready@.len() == 0,
                crate::tx_map::tx_entries(self.map).len() == 0,
            decreases num_workers - w,
        {
            self.tails[w] = None;
            self.check_counts[w] = 0;
            self.execute_counts[w] = 0;
            w = w + 1;
        }
        self.accesses = Ghost(Seq::empty());
        self.sent = Ghost(Seq::empty());
        proof {
            let v = ScheduleSpec::empty(num_workers as nat);
            ScheduleSpec::lemma_empty_wf(num_workers as nat);
            assert(self@.entries =~= v.entries);
            assert(self@.tasks =~= v.tasks);
            assert(self@.unresolved =~= v.unresolved);
            assert(self@.ready =~= v.ready);
            assert(self@.tails =~= v.tails);
            assert(self@.check_counts =~= v.check_counts);
            assert(self@.execute_counts =~= v.execute_counts);
            assert(self@ == v);
        }
        Cleared { votes, dropped, keys, checked, executed }
    }

    /// Whether each task that is not done tells whether it is a vote.
    pub fn votes_readable(&self) -> (result: bool)
        ensures
            result == self@.votes_readable(),
    {
        let mut t: usize = 0;
        while t < self.tasks.len()
            invariant
                t <= self.tasks@.len(),
                forall|i: int|
                    0 <= i < t && (#[trigger] self@.tasks[i]).state != TaskState::Done
                        ==> self@.tasks[i].tx.vote_readable(),
            decreases self.tasks.len() - t,
        {
            let task = &self.tasks[t];
            assert(self@.tasks[t as int] == task@);
            if task.state != TaskState::Done && !task.view.vote_readable() {
                return false;
            }
            t = t + 1;
        }
        true
    }
}

} // verus!
