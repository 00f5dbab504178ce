//! Moving the cursor: finding what each task follows.

use crate::arrays::same_key;
use crate::bindings::PubkeysRegion;
use crate::validator::schedule::accounts::{lemma_with_access, with_access, Accounts};
use crate::validator::schedule::conflict::{
    follows, follows_on, followers, lemma_followers, lemma_followers_stable, lemma_follows_older,
    touches, writes,
};
use crate::validator::schedule::model::{ScheduleSpec, TaskState};
use crate::validator::schedule::validity::lemma_waiting_finite;
use crate::validator::schedule::{list_contains, Schedule, Task};
use crate::task_list::{
    lemma_list_len, lemma_take_contains, task_ids, task_list_as_slice, task_list_new,
    task_list_push, TaskList,
};
use crate::transaction::{self_consistent, Access};
use vstd::prelude::*;

verus! {

/// What the cursor may reach from behind a task, it may reach from before it.
proof fn lemma_step_cursor_resolvable(v: ScheduleSpec)
    requires
        v.resolvable(),
        !v.stuck(),
    ensures
        v.step_cursor().resolvable(),
{
    let after = v.step_cursor();
    assert forall|t: int|
        after.cursor() <= t < after.tasks.len() && (#[trigger] after.tasks[t]).state
            == TaskState::Unresolved && (forall|u: int|
            after.cursor() <= u <= t ==> !#[trigger] after.blocked(
                u,
            )) implies after.tasks[t].tx.num_required_signatures
        <= after.tasks[t].tx.static_keys.len() && self_consistent(after.task_accesses(t)) by {
        assert(after.tasks[t] == v.tasks[t]);
        assert forall|u: int| v.cursor() <= u <= t implies !#[trigger] v.blocked(u) by {
            if u > v.cursor() {
                assert(after.tasks[u] == v.tasks[u]);
                assert(!after.blocked(u));
            }
        }
    }
}

impl Schedule {
    /// Records the accounts that task `idx` uses, and returns the tasks that it follows and that
    /// are not done, each once.
    fn predecessors(
        accounts: &mut Accounts,
        tasks: &Vec<Task>,
        idx: usize,
        uses: &Vec<Access>,
        Ghost(history): Ghost<Seq<Seq<Access>>>,
    ) -> (preds: TaskList)
        requires
            old(accounts).tells(history),
            history.len() == idx,
            idx < tasks@.len(),
            self_consistent(uses@),
        ensures
            final(accounts).tells(history.push(uses@)),
            task_ids(preds).no_duplicates(),
            forall|p: usize| #[trigger]
                task_ids(preds).contains(p) <==> follows(history.push(uses@), p as int, idx as int)
                    && tasks@[p as int].state != TaskState::Done,
    {
        let mut preds = task_list_new();
        proof {
            accounts.lemma_tells_idle(history);
            assert(uses@.take(0) =~= Seq::empty());
            let idle = history.push(uses@.take(0));
            assert forall|p: usize| !#[trigger] follows(idle, p as int, idx as int) by {
                if follows(idle, p as int, idx as int) {
                    let key = choose|key: [u8; 32]| follows_on(idle, p as int, idx as int, key);
                    assert(touches(idle, idx as int, key));
                }
            }
        }
        let mut i: usize = 0;
        while i < uses.len()
            invariant
                i <= uses@.len(),
                history.len() == idx,
                idx < tasks@.len(),
                self_consistent(uses@),
                accounts.tells(history.push(uses@.take(i as int))),
                task_ids(preds).no_duplicates(),
                forall|p: usize| #[trigger]
                    task_ids(preds).contains(p) <==> follows(
                        history.push(uses@.take(i as int)),
                        p as int,
                        idx as int,
                    ) && tasks@[p as int].state != TaskState::Done,
            decreases uses.len() - i,
        {
            let access = uses[i];
            let ghost before = history.push(uses@.take(i as int));
            let ghost after = history.push(uses@.take(i + 1));
            let ghost known = task_ids(preds);
            proof {
                assert(with_access(before, access) =~= after) by {
                    assert(uses@.take(i as int).push(access) =~= uses@.take(i + 1));
                }
                lemma_with_access(before, access);
                assert(before[idx as int] == uses@.take(i as int));
                if touches(before, idx as int, access.key) {
                    let a = choose|a: int|
                        0 <= a < before[idx as int].len() && (
                        #[trigger] before[idx as int][a]).key == access.key;
                    assert(uses@[a] == before[idx as int][a]);
                    assert(uses@[a].key == uses@[i as int].key);
                }
                if writes(before, idx as int, access.key) {
                    let a = choose|a: int|
                        0 <= a < before[idx as int].len() && (
                        #[trigger] before[idx as int][a]).key == access.key
                            && before[idx as int][a].write;
                    assert(uses@[a] == before[idx as int][a]);
                    assert(uses@[a].key == uses@[i as int].key);
                }
            }
            let (readers, last_writer) = accounts.touch(idx, access, Ghost(before));
            assert forall|p: usize| readers@.contains(p) implies p < idx by {
                assert(follows_on(after, p as int, idx as int, access.key));
            }
            assert(last_writer matches Some(writer) ==> writer < idx) by {
                if let Some(writer) = last_writer {
                    assert(follows_on(after, writer as int, idx as int, access.key));
                }
            }
            let mut k: usize = 0;
            while k < readers.len()
                invariant
                    k <= readers@.len(),
                    idx < tasks@.len(),
                    forall|p: usize| readers@.contains(p) ==> p < idx,
                    task_ids(preds).no_duplicates(),
                    forall|p: usize| #[trigger]
                        task_ids(preds).contains(p) <==> known.contains(p) || (readers@.take(
                            k as int,
                        ).contains(p) && tasks@[p as int].state != TaskState::Done),
                decreases readers.len() - k,
            {
                let ghost listed = task_ids(preds);
                assert(readers@.contains(readers@[k as int]));
                Self::add_predecessor(&mut preds, tasks, readers[k]);
                k = k + 1;
                proof {
                    assert forall|p: usize| #[trigger] readers@.take(k as int).contains(p) <==> (
                    readers@.take(k - 1).contains(p) || readers@[k - 1] == p) by {
                        lemma_take_contains(readers@, k - 1, p);
                    }
                }
            }
            assert(readers@.take(readers@.len() as int) =~= readers@);
            if let Some(writer) = last_writer {
                Self::add_predecessor(&mut preds, tasks, writer);
            }
            proof {
                assert forall|p: usize| #[trigger] follows(after, p as int, idx as int) <==> (
                follows(before, p as int, idx as int) || follows_on(
                    after,
                    p as int,
                    idx as int,
                    access.key,
                )) by {
                    assert forall|key: [u8; 32]| #[trigger]
                        follows_on(before, p as int, idx as int, key) implies follows_on(
                        after,
                        p as int,
                        idx as int,
                        key,
                    ) by {
                        assert forall|q: int| p < q < idx implies !#[trigger] writes(
                            after,
                            q,
                            key,
                        ) by {
                            assert(!writes(before, q, key));
                        }
                    }
                    if follows(after, p as int, idx as int) && !follows_on(
                        after,
                        p as int,
                        idx as int,
                        access.key,
                    ) {
                        let key = choose|key: [u8; 32]|
                            follows_on(after, p as int, idx as int, key);
                        assert forall|q: int| p < q < idx implies !#[trigger] writes(
                            before,
                            q,
                            key,
                        ) by {
                            assert(!writes(after, q, key));
                        }
                        assert(follows_on(before, p as int, idx as int, key));
                    }
                    if follows(before, p as int, idx as int) {
                        let key = choose|key: [u8; 32]|
                            follows_on(before, p as int, idx as int, key);
                        assert(follows_on(after, p as int, idx as int, key));
                    }
                }
            }
            i = i + 1;
        }
        assert(uses@.take(uses@.len() as int) =~= uses@);
        preds
    }

    /// Lists `pred`, unless it is done or listed already.
    fn add_predecessor(preds: &mut TaskList, tasks: &Vec<Task>, pred: usize)
        requires
            pred < tasks@.len(),
            task_ids(*old(preds)).no_duplicates(),
        ensures
            task_ids(*final(preds)).no_duplicates(),
            forall|p: usize| #[trigger]
                task_ids(*final(preds)).contains(p) <==> task_ids(*old(preds)).contains(p) || (p
                    == pred && tasks@[p as int].state != TaskState::Done),
    {
        if tasks[pred].state == TaskState::Done {
            return;
        }
        if !list_contains(task_list_as_slice(preds), pred) {
            task_list_push(preds, pred);
            proof {
                let before = task_ids(*old(preds));
                let after = task_ids(*preds);
                assert forall|p: usize| #[trigger] after.contains(p) <==> before.contains(p) || p
                    == pred by {
                    if before.contains(p) {
                        let j = choose|j: int| 0 <= j < before.len() && before[j] == p;
                        assert(after[j] == p);
                    }
                    assert(after[before.len() as int] == pred);
                    if after.contains(p) {
                        let j = choose|j: int| 0 <= j < after.len() && after[j] == p;
                        if j < before.len() {
                            assert(before[j] == p);
                        }
                    }
                }
            }
        }
    }

    /// Resolves the task at the cursor, and returns its lookup keys' region where it has one.
    fn resolve_node(&mut self) -> (freed: Option<PubkeysRegion>)
        requires
            old(self).wf(),
            old(self)@.resolvable(),
            !old(self)@.stuck(),
            old(self)@.tasks[old(self)@.cursor() as int].state == TaskState::Unresolved,
        ensures
            final(self).wf(),
            final(self)@ == old(self)@.step_cursor(),
            freed == (match old(self)@.tasks[old(self)@.cursor() as int].lookups {
                Some(lookups) => Some(lookups.region),
                None => None,
            }),
    {
        let idx: usize = self.cursor;
        let ghost was = self@;
        let ghost tasks0 = self.tasks@;
        let alt_pubkeys = self.tasks[idx].alt_pubkeys.take();
        let uses = match &alt_pubkeys {
            Some(resolved) => self.tasks[idx].view.accesses(resolved.keys.as_slice()),
            None => self.tasks[idx].view.accesses(&[]),
        };
        proof {
            assert(was.tasks[idx as int] == tasks0[idx as int]@);
            assert(uses@ == was.task_accesses(idx as int)) by {
                if alt_pubkeys is None {
                    let none: [[u8; 32]; 0] = [];
                    assert(none@ =~= Seq::empty());
                }
            }
        }
        let preds = Self::predecessors(
            &mut self.accounts,
            &self.tasks,
            idx,
            &uses,
            Ghost(was.accesses),
        );
        let preds = task_list_as_slice(&preds);
        assert forall|i: int| 0 <= i < preds@.len() implies preds@[i] < idx by {
            assert(preds@.contains(preds@[i]));
            lemma_follows_older(was.accesses.push(uses@), preds@[i] as int, idx as int);
        }
        self.tasks[idx].state = TaskState::Resolved;
        self.tasks[idx].pending = preds.len();
        if preds.len() == 0 {
            self.ready.push_back(idx);
        }
        let ghost tasks1 = self.tasks@;
        let ghost before = *self;
        let mut k: usize = 0;
        while k < preds.len()
            invariant
                k <= preds@.len(),
                idx < tasks1.len() <= usize::MAX,
                preds@.no_duplicates(),
                forall|i: int| 0 <= i < preds@.len() ==> preds@[i] < idx,
                *self == (Schedule { tasks: self.tasks, ..before }),
                self.tasks@.len() == tasks1.len(),
                forall|t: int|
                    0 <= t < tasks1.len() ==> (#[trigger] self.tasks@[t]) == (Task {
                        successors: self.tasks@[t].successors,
                        ..tasks1[t]
                    }),
                forall|t: int|
                    0 <= t < tasks1.len() ==> (#[trigger] self.tasks@[t]).successors@ == (
                    if preds@.take(k as int).contains(t as usize) {
                        tasks1[t].successors@.push(idx)
                    } else {
                        tasks1[t].successors@
                    }),
            decreases preds.len() - k,
        {
            let p: usize = preds[k];
            let ghost listed = self.tasks@;
            self.tasks[p].successors.push(idx);
            proof {
                assert forall|t: int| 0 <= t < tasks1.len() implies (
                #[trigger] self.tasks@[t]).successors@ == (if preds@.take(k + 1).contains(
                    t as usize,
                ) {
                    tasks1[t].successors@.push(idx)
                } else {
                    tasks1[t].successors@
                }) by {
                    lemma_take_contains(preds@, k as int, t as usize);
                    if t == p {
                        assert(!preds@.take(k as int).contains(p));
                    }
                    assert(listed[t] == listed[t]);
                }
            }
            k = k + 1;
        }
        assert(preds@.take(k as int) =~= preds@);
        self.cursor = self.cursor + 1;
        self.accesses = Ghost(was.accesses.push(uses@));
        proof {
            let v = was.step_cursor();
            let h = was.accesses;
            let next = uses@;
            assert(self@.tasks =~= v.tasks);
            assert forall|p: int| #[trigger] v.waiting_on(idx as int).contains(p) <==> 0 <= p
                <= usize::MAX && preds@.contains(p as usize) by {
                if 0 <= p < idx {
                    assert(tasks1[p]@ == was.tasks[p]);
                } else if 0 <= p <= usize::MAX && preds@.contains(p as usize) {
                    lemma_follows_older(h.push(next), p, idx as int);
                }
            }
            lemma_list_len(preds@, v.waiting_on(idx as int));
            lemma_waiting_finite(v, idx as int);
            assert(preds@.len() == 0 <==> v.waiting_on(idx as int) =~= Set::empty());
            was.lemma_step_cursor_wf();
            assert(self@ == v);
            assert forall|t: int| 0 <= t < self.cursor implies (
            #[trigger] self.tasks@[t]).successors@ == v.successors(t) && self.tasks@[t].pending
                == v.waiting_on(t).len() by {
                lemma_followers_stable(h, next, t, idx as nat);
                if t == idx {
                    if follows(h.push(next), t, t) {
                        lemma_follows_older(h.push(next), t, t);
                    }
                    lemma_followers(h, t, idx as nat);
                    if followers(h, t, idx as nat).len() > 0 {
                        assert(t < followers(h, t, idx as nat)[0] < idx);
                    }
                    assert(self.tasks@[t].successors@ =~= v.successors(t));
                } else {
                    was.lemma_step_cursor_waiting(t);
                    assert(tasks1[t] == tasks0[t]);
                    assert(self.tasks@[t].pending == v.waiting_on(t).len());
                    assert(self.tasks@[t].successors@ == v.successors(t));
                }
            }
        }
        match alt_pubkeys {
            Some(resolved) => Some(resolved.region),
            None => None,
        }
    }

    /// Moves the cursor over a task that CHECK refused.
    fn skip_node(&mut self)
        requires
            old(self).wf(),
            !old(self)@.stuck(),
            old(self)@.tasks[old(self)@.cursor() as int].state == TaskState::Done,
        ensures
            final(self).wf(),
            final(self)@ == old(self)@.step_cursor(),
    {
        let ghost was = self@;
        let ghost c = self.cursor as int;
        self.cursor = self.cursor + 1;
        self.accesses = Ghost(was.accesses.push(Seq::empty()));
        proof {
            let v = was.step_cursor();
            let h = was.accesses;
            let longer = h.push(Seq::empty());
            self.accounts.lemma_tells_idle(h);
            was.lemma_step_cursor_wf();
            assert(self@.tasks =~= v.tasks);
            assert(self@ == v);
            assert forall|p: int| !#[trigger] follows(longer, p, c) by {
                if follows(longer, p, c) {
                    let key = choose|key: [u8; 32]| follows_on(longer, p, c, key);
                    assert(touches(longer, c, key));
                }
            }
            assert(v.waiting_on(c) =~= Set::empty());
            assert forall|t: int| 0 <= t < self.cursor implies (
            #[trigger] self.tasks@[t]).successors@ == v.successors(t) && self.tasks@[t].pending
                == v.waiting_on(t).len() by {
                if t == c {
                    assert(self.tasks@[t].successors@ =~= v.successors(t));
                } else {
                    was.lemma_step_cursor_waiting(t);
                    lemma_followers_stable(h, Seq::empty(), t, c as nat);
                }
            }
        }
    }

    /// Whether the cursor cannot move.
    fn is_stuck(&self) -> (result: bool)
        requires
            self.wf(),
        ensures
            result == self@.stuck(),
    {
        if self.cursor >= self.tasks.len() {
            return true;
        }
        let task = &self.tasks[self.cursor];
        assert(self@.tasks[self.cursor as int] == task@);
        task.state == TaskState::Unresolved && task.has_alts && task.alt_pubkeys.is_none()
    }

    /// Moves the cursor over one task, and returns its lookup keys' region where it has one.
    fn step_cursor(&mut self) -> (freed: Option<PubkeysRegion>)
        requires
            old(self).wf(),
            old(self)@.resolvable(),
            !old(self)@.stuck(),
        ensures
            final(self).wf(),
            final(self)@ == old(self)@.step_cursor(),
            old(self)@.step_frees() == (match freed {
                Some(region) => seq![region],
                None => Seq::empty(),
            }),
    {
        assert(self@.tasks[self.cursor as int] == self.tasks@[self.cursor as int]@);
        if self.tasks[self.cursor].state == TaskState::Unresolved {
            self.resolve_node()
        } else {
            // Its lookups failed: there is nothing to resolve.
            self.skip_node();
            None
        }
    }

    /// Walks the cursor forward, resolving each task in the order of insertion. Returns the
    /// regions of the lookup keys that are no longer needed.
    pub(crate) fn advance_cursor(&mut self) -> (freed: Vec<PubkeysRegion>)
        requires
            old(self).wf(),
            old(self)@.resolvable(),
        ensures
            final(self).wf(),
            final(self)@ == old(self)@.advance(),
            freed@ == old(self)@.advance_frees(),
    {
        let ghost was = self@;
        let mut freed: Vec<PubkeysRegion> = Vec::new();
        while !self.is_stuck()
            invariant
                self.wf(),
                self@.resolvable(),
                self@.advance() == was.advance(),
                freed@ + self@.advance_frees() =~= was.advance_frees(),
            decreases self@.tasks.len() - self@.cursor(),
        {
            let ghost here = self@;
            let ghost so_far = freed@;
            if let Some(region) = self.step_cursor() {
                freed.push(region);
            }
            proof {
                lemma_step_cursor_resolvable(here);
                assert(freed@ =~= so_far + here.step_frees());
            }
        }
        freed
    }

    /// Whether the cursor may pass every task that it now reaches: each header fits its keys, and
    /// no transaction uses an account twice to write it.
    pub fn resolvable(&self) -> (result: bool)
        requires
            self.wf(),
        ensures
            result == self@.resolvable(),
    {
        let mut t: usize = self.cursor;
        while t < self.tasks.len()
            invariant
                self.wf(),
                self@.cursor() <= t <= self.tasks@.len(),
                forall|u: int| self@.cursor() <= u < t ==> !#[trigger] self@.blocked(u),
                forall|i: int|
                    self@.cursor() <= i < t && (#[trigger] self@.tasks[i]).state
                        == TaskState::Unresolved ==> self@.tasks[i].tx.num_required_signatures
                        <= self@.tasks[i].tx.static_keys.len() && self_consistent(
                        self@.task_accesses(i),
                    ),
            ensures
                self@.resolvable(),
            decreases self.tasks.len() - t,
        {
            let task = &self.tasks[t];
            assert(self@.tasks[t as int] == task@);
            if task.state == TaskState::Unresolved {
                if task.has_alts && task.alt_pubkeys.is_none() {
                    assert(self@.blocked(t as int));
                    break;
                }
                let uses = match &task.alt_pubkeys {
                    Some(resolved) => task.view.accesses(resolved.keys.as_slice()),
                    None => task.view.accesses(&[]),
                };
                proof {
                    assert(uses@ == self@.task_accesses(t as int)) by {
                        if task.alt_pubkeys is None {
                            let none: [[u8; 32]; 0] = [];
                            assert(none@ =~= Seq::empty());
                        }
                    }
                }
                if task.view.num_required_signatures as usize > task.view.static_keys.len()
                    || !Self::is_self_consistent(&uses) {
                    return false;
                }
            }
            t = t + 1;
        }
        true
    }

    /// Whether no account occurs twice with one of the two uses a write.
    fn is_self_consistent(uses: &Vec<Access>) -> (result: bool)
        ensures
            result == self_consistent(uses@),
    {
        let mut b: usize = 0;
        while b < uses.len()
            invariant
                b <= uses@.len(),
                forall|i: int, j: int|
                    0 <= i < j < b && (#[trigger] uses@[i]).key == (#[trigger] uses@[j]).key
                        ==> !uses@[i].write && !uses@[j].write,
            decreases uses.len() - b,
        {
            let mut a: usize = 0;
            while a < b
                invariant
                    a <= b < uses@.len(),
                    forall|i: int|
                        0 <= i < a && (#[trigger] uses@[i]).key == uses@[b as int].key
                            ==> !uses@[i].write && !uses@[b as int].write,
                decreases b - a,
            {
                if (uses[a].write || uses[b].write) && same_key(&uses[a].key, &uses[b].key) {
                    return false;
                }
                a = a + 1;
            }
            b = b + 1;
        }
        true
    }
}

} // verus!
