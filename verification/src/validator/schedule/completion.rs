//! What becomes of every task from an empty schedule on, while workers answer what they are sent.

use crate::bindings::{CheckResponse, Reply, Responses, Returned, PROCESSED};
use crate::ipc::shmem::{first_signature, Arrival};
use crate::transaction::parsed_transaction;
use crate::validator::schedule::laws::{law_progress, law_sent_once};
use crate::validator::schedule::model::{was_sent, ScheduleSpec, TaskState};
use vstd::prelude::*;

verus! {

/// What a message asks of a worker: the numbers of its tasks.
pub enum Errand {
    Execute(Seq<usize>),
    Check(Seq<usize>),
}

impl Errand {
    /// The tasks of the message.
    pub open spec fn tasks(self) -> Seq<usize> {
        match self {
            Errand::Execute(tasks) => tasks,
            Errand::Check(tasks) => tasks,
        }
    }
}

/// Some message of `out` is to execute task `t`.
pub open spec fn executing(out: Seq<Errand>, t: usize) -> bool {
    exists|i: int|
        0 <= i < out.len() && (#[trigger] out[i]) is Execute && out[i].tasks().contains(t)
}

/// Some message of `out` is to check task `t`.
pub open spec fn checking(out: Seq<Errand>, t: usize) -> bool {
    exists|i: int|
        0 <= i < out.len() && (#[trigger] out[i]) is Check && out[i].tasks().contains(t)
}

/// What is asked of `worker` when it is given work.
pub open spec fn errand(v: ScheduleSpec, worker: int) -> Seq<Errand> {
    let batch = v.batch(worker).0;
    if batch.len() > 0 {
        seq![Errand::Execute(batch)]
    } else if v.unresolved.len() > 0 {
        seq![Errand::Check(v.unresolved.take(v.check_size() as int))]
    } else {
        Seq::empty()
    }
}

/// What is asked of the first `n` workers when those that are open are given work.
pub open spec fn errands(v: ScheduleSpec, open: Seq<bool>, n: nat) -> Seq<Errand>
    decreases n,
{
    if n == 0 {
        Seq::empty()
    } else {
        let earlier = errands(v, open, (n - 1) as nat);
        if open[n - 1] {
            earlier + errand(v.serve_all(open, (n - 1) as nat), n - 1)
        } else {
            earlier
        }
    }
}

/// Each message that is sent carries the transactions of one errand, in its order.
pub proof fn law_messages_are_errands(v: ScheduleSpec, slot: u64, open: Seq<bool>, n: nat)
    ensures
        v.messages(slot, open, n).len() == errands(v, open, n).len(),
        v.serve_all(open, n).entries == v.entries,
        forall|k: int|
            0 <= k < errands(v, open, n).len() ==> (#[trigger] v.messages(slot, open, n)[k]).batch
                == v.regions(errands(v, open, n)[k].tasks()),
    decreases n,
{
    if n > 0 {
        let m = (n - 1) as nat;
        law_messages_are_errands(v, slot, open, m);
        let before = v.serve_all(open, m);
        let messages = v.messages(slot, open, n);
        let all = errands(v, open, n);
        assert forall|k: int| 0 <= k < all.len() implies (#[trigger] messages[k]).batch == v.regions(
            all[k].tasks(),
        ) by {
            if k < errands(v, open, m).len() {
                assert(messages[k] == v.messages(slot, open, m)[k]);
                assert(all[k] == errands(v, open, m)[k]);
            } else {
                assert(messages[k] == before.message(slot, n - 1)[0]);
                assert(all[k] == errand(before, n - 1)[0]);
                assert(before.regions(all[k].tasks()) =~= v.regions(all[k].tasks()));
            }
        }
    }
}

/// `reply` says that the worker did what `errand` asks: each transaction comes back, in order, with
/// a response.
pub open spec fn answers(v: ScheduleSpec, errand: Errand, reply: Reply) -> bool {
    &&& reply.processed_code == PROCESSED
    &&& reply.batch@.len() == errand.tasks().len()
    &&& forall|k: int|
        0 <= k < reply.batch@.len() ==> errand.tasks()[k] < v.entries.len() && (
        #[trigger] reply.batch@[k]).signature == v.entries[errand.tasks()[k] as int].0
    &&& errand is Execute ==> reply.responses is Execution
    &&& errand is Check ==> reply.responses is Check
}

/// Something that happens to a schedule.
pub enum Event {
    /// Transactions are inserted.
    Insert(Seq<Arrival>),
    /// The workers that are open are given work.
    Send(Seq<bool>),
    /// The worker with the message at this place among those that are out answers it.
    Answer(int, Reply),
}

/// A schedule with the messages that are out.
pub struct Run {
    pub v: ScheduleSpec,
    /// The messages that workers have not answered.
    pub out: Seq<Errand>,
    /// The tasks that CHECK refused.
    pub refused: Set<int>,
}

/// Some of the first `n` responses refuses task `t`.
pub open spec fn refuses(
    v: ScheduleSpec,
    batch: Seq<Returned>,
    responses: Seq<CheckResponse>,
    n: nat,
    t: int,
) -> bool {
    exists|k: int|
        0 <= k < n && v.task_of((#[trigger] batch[k]).signature) == t && responses[k].outcome()
            is None
}

/// Some of the first `n` of `batch` is task `t`.
pub open spec fn named(v: ScheduleSpec, batch: Seq<Returned>, n: nat, t: int) -> bool {
    exists|k: int| 0 <= k < n && v.task_of((#[trigger] batch[k]).signature) == t
}

impl Run {
    /// An empty schedule.
    pub open spec fn start(num_workers: nat) -> Self {
        Run { v: ScheduleSpec::empty(num_workers), out: Seq::empty(), refused: Set::empty() }
    }

    /// Whether `event` may happen: the schedule's operations take it, and what a worker answers is a
    /// message that it was sent.
    pub open spec fn allows(self, event: Event) -> bool {
        match event {
            Event::Insert(txs) => self.v.insertable(txs) && self.v.tasks.len() + txs.len()
                <= usize::MAX,
            Event::Send(open) => self.v.resolvable() && open.len() <= self.v.tails.len()
                && self.v.inflight + open.len() <= usize::MAX,
            Event::Answer(i, reply) => 0 <= i < self.out.len() && self.v.accepts(reply) && answers(
                self.v,
                self.out[i],
                reply,
            ),
        }
    }

    /// What `event` makes of it.
    pub open spec fn step(self, event: Event) -> Self {
        match event {
            Event::Insert(txs) => Run { v: self.v.insert_all(txs, txs.len()), ..self },
            Event::Send(open) => Run {
                v: self.v.advance().serve_all(open, open.len()),
                out: self.out + errands(self.v.advance(), open, open.len()),
                ..self
            },
            Event::Answer(i, reply) => Run {
                v: self.v.after(reply),
                out: self.out.remove(i),
                refused: match reply.responses {
                    Responses::Check(list) => self.refused.union(
                        Set::new(
                            |t: int|
                                refuses(self.v, reply.batch@, list@, reply.batch@.len(), t),
                        ),
                    ),
                    _ => self.refused,
                },
            },
        }
    }

    /// What the first `n` of `events` make of an empty schedule.
    pub open spec fn after(num_workers: nat, events: Seq<Event>, n: nat) -> Self
        decreases n,
    {
        if n == 0 {
            Self::start(num_workers)
        } else {
            Self::after(num_workers, events, (n - 1) as nat).step(events[n - 1])
        }
    }

    /// Whether the first `n` of `events` may happen to an empty schedule, in turn.
    pub open spec fn possible(num_workers: nat, events: Seq<Event>, n: nat) -> bool
        decreases n,
    {
        n == 0 || (Self::possible(num_workers, events, (n - 1) as nat) && Self::after(
            num_workers,
            events,
            (n - 1) as nat,
        ).allows(events[n - 1]))
    }

    /// The messages that are out account for every task that is on a worker, and every task that is
    /// done was sent or refused.
    pub open spec fn tracks(self) -> bool {
        &&& self.v.wf()
        &&& self.v.inflight == self.out.len()
        &&& forall|t: usize|
            t < self.v.tasks.len() && (#[trigger] self.v.tasks[t as int]).state
                == TaskState::Assigned ==> executing(self.out, t)
        &&& forall|t: usize|
            t < self.v.tasks.len() && #[trigger] self.v.blocked(t as int)
                ==> self.v.unresolved.contains(t) || checking(self.out, t)
        &&& forall|i: int|
            0 <= i < self.v.unresolved.len() ==> (#[trigger] self.v.unresolved[i])
                < self.v.tasks.len() && self.v.tasks[self.v.unresolved[i] as int].tx.num_lookups > 0
        &&& forall|i: int, k: int|
            0 <= i < self.out.len() && self.out[i] is Check && 0 <= k < self.out[i].tasks().len()
                ==> (#[trigger] self.out[i].tasks()[k]) < self.v.tasks.len()
                && self.v.tasks[self.out[i].tasks()[k] as int].tx.num_lookups > 0
        &&& forall|t: int|
            0 <= t < self.v.tasks.len() && (#[trigger] self.v.tasks[t]).state == TaskState::Done
                ==> was_sent(self.v.sent, t) || self.refused.contains(t)
        &&& forall|t: int| #[trigger]
            self.refused.contains(t) ==> 0 <= t < self.v.tasks.len() && self.v.tasks[t].state
                == TaskState::Done && self.v.tasks[t].tx.num_lookups > 0 && !was_sent(
                self.v.sent,
                t,
            )
    }

    proof fn lemma_insert_tracks(self, txs: Seq<Arrival>, n: nat)
        requires
            self.tracks(),
            n <= txs.len(),
            self.v.tasks.len() + txs.len() <= usize::MAX,
        ensures
            (Run { v: self.v.insert_all(txs, n), ..self }).tracks(),
            self.v.insert_all(txs, n).tasks.len() <= self.v.tasks.len() + n,
        decreases n,
    {
        if n > 0 {
            let m = (n - 1) as nat;
            self.lemma_insert_tracks(txs, m);
            let before = Run { v: self.v.insert_all(txs, m), ..self };
            let after = Run { v: self.v.insert_all(txs, n), ..self };
            let tx = txs[n - 1];
            let key = first_signature(tx.data@);
            let parsed = parsed_transaction(tx.data@)->0;
            before.v.lemma_insert_wf(key, tx.region, parsed);
            if !before.v.has_task(key) {
                let len = before.v.tasks.len();
                assert forall|t: usize|
                    t < after.v.tasks.len() && #[trigger] after.v.blocked(
                        t as int,
                    ) implies after.v.unresolved.contains(t) || checking(after.out, t) by {
                    if t < len {
                        assert(before.v.blocked(t as int));
                        if before.v.unresolved.contains(t) {
                            let i = choose|i: int|
                                0 <= i < before.v.unresolved.len() && before.v.unresolved[i] == t;
                            assert(after.v.unresolved[i] == t);
                        }
                    } else {
                        assert(after.v.unresolved[before.v.unresolved.len() as int] == t);
                    }
                }
                assert forall|t: usize|
                    t < after.v.tasks.len() && (#[trigger] after.v.tasks[t as int]).state
                        == TaskState::Assigned implies executing(after.out, t) by {
                    assert(before.v.tasks[t as int].state == TaskState::Assigned);
                }
                assert forall|t: int|
                    0 <= t < after.v.tasks.len() && (#[trigger] after.v.tasks[t]).state
                        == TaskState::Done implies was_sent(after.v.sent, t)
                    || after.refused.contains(t) by {
                    assert(before.v.tasks[t].state == TaskState::Done);
                }
                assert forall|i: int| 0 <= i < after.v.unresolved.len() implies (
                #[trigger] after.v.unresolved[i]) < after.v.tasks.len()
                    && after.v.tasks[after.v.unresolved[i] as int].tx.num_lookups > 0 by {
                    if i < before.v.unresolved.len() {
                        assert(after.v.unresolved[i] == before.v.unresolved[i]);
                    }
                }
                assert forall|i: int, k: int|
                    0 <= i < after.out.len() && after.out[i] is Check && 0 <= k
                        < after.out[i].tasks().len() implies (#[trigger] after.out[i].tasks()[k])
                    < after.v.tasks.len()
                    && after.v.tasks[after.out[i].tasks()[k] as int].tx.num_lookups > 0 by {
                    assert(before.out[i].tasks()[k] < before.v.tasks.len());
                }
                assert forall|t: int| #[trigger] after.refused.contains(t) implies 0 <= t
                    < after.v.tasks.len() && after.v.tasks[t].state == TaskState::Done
                    && after.v.tasks[t].tx.num_lookups > 0 && !was_sent(after.v.sent, t) by {
                    assert(before.refused.contains(t));
                    assert(after.v.tasks[t] == before.v.tasks[t]);
                }
            }
        }
    }

    proof fn lemma_advance_tracks(self)
        requires
            self.tracks(),
        ensures
            (Run { v: self.v.advance(), ..self }).tracks(),
        decreases self.v.tasks.len() - self.v.cursor(),
    {
        if !self.v.stuck() {
            let after = Run { v: self.v.step_cursor(), ..self };
            let c = self.v.cursor() as int;
            self.v.lemma_step_cursor_wf();
            assert forall|t: int| 0 <= t < self.v.tasks.len() implies (
            #[trigger] after.v.tasks[t]).tx == self.v.tasks[t].tx && (t != c ==> after.v.tasks[t]
                == self.v.tasks[t]) by {
            }
            assert(after.v.tasks[c].state == TaskState::Resolved || after.v.tasks[c]
                == self.v.tasks[c]);
            assert forall|t: usize|
                t < after.v.tasks.len() && #[trigger] after.v.blocked(
                    t as int,
                ) implies after.v.unresolved.contains(t) || checking(after.out, t) by {
                assert(self.v.blocked(t as int));
            }
            assert forall|t: usize|
                t < after.v.tasks.len() && (#[trigger] after.v.tasks[t as int]).state
                    == TaskState::Assigned implies executing(after.out, t) by {
                assert(self.v.tasks[t as int].state == TaskState::Assigned);
            }
            assert forall|t: int|
                0 <= t < after.v.tasks.len() && (#[trigger] after.v.tasks[t]).state
                    == TaskState::Done implies was_sent(after.v.sent, t)
                || after.refused.contains(t) by {
                assert(self.v.tasks[t].state == TaskState::Done);
            }
            after.lemma_advance_tracks();
        }
    }

    proof fn lemma_serve_tracks(self, worker: int)
        requires
            self.tracks(),
            0 <= worker < self.v.tails.len(),
            self.v.inflight < usize::MAX,
        ensures
            (Run {
                v: self.v.serve(worker),
                out: self.out + errand(self.v, worker),
                ..self
            }).tracks(),
            self.v.serve(worker).tails.len() == self.v.tails.len(),
            self.v.serve(worker).inflight == self.v.inflight + errand(self.v, worker).len(),
    {
        let after = Run {
            v: self.v.serve(worker),
            out: self.out + errand(self.v, worker),
            ..self
        };
        let n = self.out.len() as int;
        let (batch, taken) = self.v.batch(worker);
        self.v.lemma_batch_sound(worker);
        assert forall|i: int| 0 <= i < n implies (#[trigger] after.out[i]) == self.out[i] by {
        }
        if batch.len() > 0 {
            self.v.lemma_send_execute_wf(worker, batch, taken);
            assert forall|t: int| 0 <= t < self.v.tasks.len() implies (
            #[trigger] after.v.tasks[t]).tx == self.v.tasks[t].tx && (!batch.contains(t as usize)
                ==> after.v.tasks[t] == self.v.tasks[t]) && (batch.contains(t as usize)
                ==> after.v.tasks[t].state == TaskState::Assigned && self.v.tasks[t].state
                == TaskState::Resolved) by {
                if batch.contains(t as usize) {
                    let k = choose|k: int| 0 <= k < batch.len() && batch[k] == t as usize;
                    assert(self.v.tasks[batch[k] as int].state == TaskState::Resolved);
                }
            }
            assert forall|t: usize|
                t < after.v.tasks.len() && (#[trigger] after.v.tasks[t as int]).state
                    == TaskState::Assigned implies executing(after.out, t) by {
                if batch.contains(t) {
                    assert(after.out[n] is Execute);
                    assert(after.out[n].tasks().contains(t));
                } else {
                    assert(self.v.tasks[t as int].state == TaskState::Assigned);
                    lemma_executing_grows(self.out, after.out, t);
                }
            }
            assert forall|t: usize|
                t < after.v.tasks.len() && #[trigger] after.v.blocked(
                    t as int,
                ) implies after.v.unresolved.contains(t) || checking(after.out, t) by {
                assert(self.v.blocked(t as int));
                lemma_checking_grows(self.out, after.out, t);
            }
            assert forall|t: int| #[trigger] was_sent(self.v.sent, t) implies was_sent(
                after.v.sent,
                t,
            ) by {
                let i = choose|i: int|
                    0 <= i < self.v.sent.len() && (#[trigger] self.v.sent[i]).task == t;
                assert(after.v.sent[i].task == t);
            }
            assert forall|t: int| #[trigger] self.refused.contains(t) implies !was_sent(
                after.v.sent,
                t,
            ) by {
                if was_sent(after.v.sent, t) {
                    let i = choose|i: int|
                        0 <= i < after.v.sent.len() && (#[trigger] after.v.sent[i]).task == t;
                    if i < self.v.sent.len() {
                        assert(self.v.sent[i].task == t);
                        assert(was_sent(self.v.sent, t));
                    } else {
                        let k = i - self.v.sent.len();
                        assert(after.v.sent[i].task == batch[k] as int);
                        assert(batch.contains(t as usize));
                        assert(after.v.tasks[t].state == TaskState::Assigned);
                    }
                }
            }
            assert forall|t: int|
                0 <= t < after.v.tasks.len() && (#[trigger] after.v.tasks[t]).state
                    == TaskState::Done implies was_sent(after.v.sent, t)
                || after.refused.contains(t) by {
                assert(self.v.tasks[t].state == TaskState::Done);
            }
            assert forall|t: int| #[trigger] after.refused.contains(t) implies after.v.tasks[t].state
                == TaskState::Done && after.v.tasks[t].tx.num_lookups > 0 by {
                assert(after.v.tasks[t].tx == self.v.tasks[t].tx);
            }
            assert(after.tracks());
        } else if self.v.unresolved.len() > 0 {
            self.v.lemma_send_check_wf(worker);
            let size = self.v.check_size() as int;
            let list = self.v.unresolved;
            assert(after.out[n] is Check);
            assert(after.out[n].tasks() == list.take(size));
            assert forall|t: usize|
                t < after.v.tasks.len() && #[trigger] after.v.blocked(
                    t as int,
                ) implies after.v.unresolved.contains(t) || checking(after.out, t) by {
                assert(self.v.blocked(t as int));
                if list.contains(t) {
                    let i = choose|i: int| 0 <= i < list.len() && list[i] == t;
                    if i < size {
                        assert(list.take(size)[i] == t);
                        assert(after.out[n].tasks().contains(t));
                    } else {
                        assert(after.v.unresolved[i - size] == t);
                    }
                } else {
                    lemma_checking_grows(self.out, after.out, t);
                }
            }
            assert forall|t: usize|
                t < after.v.tasks.len() && (#[trigger] after.v.tasks[t as int]).state
                    == TaskState::Assigned implies executing(after.out, t) by {
                assert(self.v.tasks[t as int].state == TaskState::Assigned);
                lemma_executing_grows(self.out, after.out, t);
            }
            assert forall|i: int| 0 <= i < after.v.unresolved.len() implies (
            #[trigger] after.v.unresolved[i]) < after.v.tasks.len()
                && after.v.tasks[after.v.unresolved[i] as int].tx.num_lookups > 0 by {
                assert(after.v.unresolved[i] == list[i + size]);
            }
            assert forall|i: int, k: int|
                0 <= i < after.out.len() && after.out[i] is Check && 0 <= k
                    < after.out[i].tasks().len() implies (#[trigger] after.out[i].tasks()[k])
                < after.v.tasks.len()
                && after.v.tasks[after.out[i].tasks()[k] as int].tx.num_lookups > 0 by {
                if i < n {
                    assert(self.out[i].tasks()[k] < self.v.tasks.len());
                } else {
                    assert(after.out[i].tasks()[k] == list[k]);
                }
            }
            assert(after.tracks());
        } else {
            assert(after.out =~= self.out);
        }
    }

    proof fn lemma_serve_all_tracks(self, open: Seq<bool>, n: nat)
        requires
            self.tracks(),
            n <= open.len() <= self.v.tails.len(),
            self.v.inflight + open.len() <= usize::MAX,
        ensures
            (Run {
                v: self.v.serve_all(open, n),
                out: self.out + errands(self.v, open, n),
                ..self
            }).tracks(),
            self.v.serve_all(open, n).tails.len() == self.v.tails.len(),
            errands(self.v, open, n).len() <= n,
            self.v.serve_all(open, n).inflight == self.v.inflight + errands(self.v, open, n).len(),
            errands(self.v, open, n).len() == 0 ==> self.v.serve_all(open, n) == self.v && forall|
                w: int,
            |
                0 <= w < n && #[trigger] open[w] ==> self.v.ready.len() == 0
                    && self.v.unresolved.len() == 0,
        decreases n,
    {
        if n == 0 {
            assert(self.out + errands(self.v, open, n) =~= self.out);
        } else {
            let m = (n - 1) as nat;
            self.lemma_serve_all_tracks(open, m);
            let before = Run {
                v: self.v.serve_all(open, m),
                out: self.out + errands(self.v, open, m),
                ..self
            };
            if open[n - 1] {
                before.lemma_serve_tracks(n - 1);
                before.v.lemma_batch_sound(n - 1);
                assert(self.out + errands(self.v, open, n) =~= before.out + errand(
                    before.v,
                    n - 1,
                ));
            }
        }
    }

    proof fn lemma_answer_tracks(self, i: int, reply: Reply)
        requires
            self.tracks(),
            self.allows(Event::Answer(i, reply)),
        ensures
            self.step(Event::Answer(i, reply)).tracks(),
    {
        let after = self.step(Event::Answer(i, reply));
        let start = self.v.answered();
        let batch = reply.batch@;
        let list = self.out[i].tasks();
        self.v.lemma_answered_wf();
        assert forall|key: [u8; 64]| #[trigger] start.task_of(key) == self.v.task_of(key) by {
        }
        assert forall|k: int| 0 <= k < batch.len() implies start.task_of(
            (#[trigger] batch[k]).signature,
        ) == list[k] && list[k] < self.v.tasks.len() by {
            assert(batch[k].signature == self.v.entries[list[k] as int].0);
            self.v.lemma_task_of(list[k] as int);
        }
        assert forall|key: [u8; 64], state: TaskState| #[trigger] self.v.knows(
            key,
            state,
        ) implies start.knows(key, state) by {
        }
        // What the message asked for, and only that, is named by the reply.
        assert forall|t: usize| list.contains(t) implies #[trigger] named(
            start,
            batch,
            batch.len(),
            t as int,
        ) by {
            let k = choose|k: int| 0 <= k < list.len() && list[k] == t;
            assert(start.task_of(batch[k].signature) == t);
        }
        match reply.responses {
            Responses::Execution(_) => {
                assert(self.out[i] is Execute);
                start.lemma_finish_all_wf(batch, batch.len());
                lemma_finish_all_effect(start, batch, batch.len());
                assert forall|t: usize|
                    t < after.v.tasks.len() && (#[trigger] after.v.tasks[t as int]).state
                        == TaskState::Assigned implies executing(after.out, t) by {
                    assert(!named(start, batch, batch.len(), t as int));
                    assert(self.v.tasks[t as int].state == TaskState::Assigned);
                    lemma_executing_shrinks(self.out, i, t);
                }
                assert forall|t: usize|
                    t < after.v.tasks.len() && #[trigger] after.v.blocked(
                        t as int,
                    ) implies after.v.unresolved.contains(t) || checking(after.out, t) by {
                    assert(self.v.blocked(t as int));
                    lemma_checking_shrinks(self.out, i, t);
                }
                assert forall|t: int|
                    0 <= t < after.v.tasks.len() && (#[trigger] after.v.tasks[t]).state
                        == TaskState::Done implies was_sent(after.v.sent, t)
                    || after.refused.contains(t) by {
                    if named(start, batch, batch.len(), t) {
                        let k = choose|k: int|
                            0 <= k < batch.len() && start.task_of((#[trigger] batch[k]).signature)
                                == t;
                        assert(start.knows(batch[k].signature, TaskState::Assigned));
                        assert(self.v.tasks[t].state == TaskState::Assigned);
                    } else {
                        assert(self.v.tasks[t].state == TaskState::Done);
                    }
                }
            },
            Responses::Check(responses) => {
                assert(self.out[i] is Check);
                let responses = responses@;
                start.lemma_check_all_wf(batch, responses, batch.len());
                lemma_check_all_effect(start, batch, responses, batch.len());
                assert forall|t: usize|
                    t < after.v.tasks.len() && (#[trigger] after.v.tasks[t as int]).state
                        == TaskState::Assigned implies executing(after.out, t) by {
                    if named(start, batch, batch.len(), t as int) {
                        let k = choose|k: int|
                            0 <= k < batch.len() && start.task_of((#[trigger] batch[k]).signature)
                                == t as int;
                        assert(start.knows(batch[k].signature, TaskState::Unresolved));
                    }
                    assert(self.v.tasks[t as int].state == TaskState::Assigned);
                    lemma_executing_shrinks(self.out, i, t);
                }
                assert forall|t: usize|
                    t < after.v.tasks.len() && #[trigger] after.v.blocked(
                        t as int,
                    ) implies after.v.unresolved.contains(t) || checking(after.out, t) by {
                    assert(!named(start, batch, batch.len(), t as int));
                    assert(self.v.blocked(t as int));
                    lemma_checking_shrinks(self.out, i, t);
                }
                assert forall|t: int| #[trigger]
                    refuses(self.v, batch, responses, batch.len(), t) == refuses(
                        start,
                        batch,
                        responses,
                        batch.len(),
                        t,
                    ) by {
                    if refuses(self.v, batch, responses, batch.len(), t) {
                        let k = choose|k: int|
                            0 <= k < batch.len() && self.v.task_of((#[trigger] batch[k]).signature)
                                == t && responses[k].outcome() is None;
                        assert(start.task_of(batch[k].signature) == t);
                    }
                    if refuses(start, batch, responses, batch.len(), t) {
                        let k = choose|k: int|
                            0 <= k < batch.len() && start.task_of((#[trigger] batch[k]).signature)
                                == t && responses[k].outcome() is None;
                        assert(self.v.task_of(batch[k].signature) == t);
                    }
                }
                assert forall|t: int|
                    0 <= t < after.v.tasks.len() && (#[trigger] after.v.tasks[t]).state
                        == TaskState::Done implies was_sent(after.v.sent, t)
                    || after.refused.contains(t) by {
                    if self.v.tasks[t].state == TaskState::Done {
                        assert(was_sent(self.v.sent, t) || self.refused.contains(t));
                    } else {
                        assert(refuses(start, batch, responses, batch.len(), t));
                        assert(refuses(self.v, batch, responses, batch.len(), t));
                    }
                }
                assert forall|t: int| #[trigger] after.refused.contains(t) implies 0 <= t
                    < after.v.tasks.len() && after.v.tasks[t].state == TaskState::Done
                    && after.v.tasks[t].tx.num_lookups > 0 && !was_sent(after.v.sent, t) by {
                    if self.refused.contains(t) {
                        assert(after.v.tasks[t].tx == self.v.tasks[t].tx);
                    } else {
                        assert(refuses(self.v, batch, responses, batch.len(), t));
                        let k = choose|k: int|
                            0 <= k < batch.len() && self.v.task_of((#[trigger] batch[k]).signature)
                                == t && responses[k].outcome() is None;
                        assert(list[k] == t);
                        assert(self.out[i].tasks()[k] < self.v.tasks.len());
                        assert(start.knows(batch[k].signature, TaskState::Unresolved));
                        assert(refuses(start, batch, responses, batch.len(), t));
                        assert(after.v.tasks[t].tx == self.v.tasks[t].tx);
                        if was_sent(self.v.sent, t) {
                            let j = choose|j: int|
                                0 <= j < self.v.sent.len() && (#[trigger] self.v.sent[j]).task == t;
                            assert(self.v.tasks[self.v.sent[j].task].state
                                != TaskState::Unresolved);
                        }
                    }
                }
            },
            Responses::Other(_) => {},
        }
        assert forall|j: int, k: int|
            0 <= j < after.out.len() && after.out[j] is Check && 0 <= k
                < after.out[j].tasks().len() implies (#[trigger] after.out[j].tasks()[k])
            < after.v.tasks.len()
            && after.v.tasks[after.out[j].tasks()[k] as int].tx.num_lookups > 0 by {
            let from = if j < i {
                j
            } else {
                j + 1
            };
            assert(after.out[j] == self.out[from]);
            assert(self.out[from].tasks()[k] < self.v.tasks.len());
            let t = self.out[from].tasks()[k] as int;
            assert(after.v.tasks[t].tx == self.v.tasks[t].tx);
        }
        assert forall|j: int| 0 <= j < after.v.unresolved.len() implies (
        #[trigger] after.v.unresolved[j]) < after.v.tasks.len()
            && after.v.tasks[after.v.unresolved[j] as int].tx.num_lookups > 0 by {
            assert(self.v.unresolved[j] < self.v.tasks.len());
            let t = self.v.unresolved[j] as int;
            assert(after.v.tasks[t].tx == self.v.tasks[t].tx);
        }
        assert(after.tracks());
    }

    /// Whatever happens to a schedule from the start on, the messages that are out account for what
    /// is on workers.
    pub proof fn lemma_tracks(num_workers: nat, events: Seq<Event>, n: nat)
        requires
            n <= events.len(),
            Self::possible(num_workers, events, n),
        ensures
            Self::after(num_workers, events, n).tracks(),
        decreases n,
    {
        if n == 0 {
            ScheduleSpec::lemma_empty_wf(num_workers);
        } else {
            let m = (n - 1) as nat;
            Self::lemma_tracks(num_workers, events, m);
            let before = Self::after(num_workers, events, m);
            match events[n - 1] {
                Event::Insert(txs) => before.lemma_insert_tracks(txs, txs.len()),
                Event::Send(open) => {
                    before.lemma_advance_tracks();
                    before.v.lemma_advance_wf();
                    (Run { v: before.v.advance(), ..before }).lemma_serve_all_tracks(
                        open,
                        open.len(),
                    );
                },
                Event::Answer(i, reply) => before.lemma_answer_tracks(i, reply),
            }
        }
    }
}

proof fn lemma_executing_grows(out: Seq<Errand>, more: Seq<Errand>, t: usize)
    requires
        out.len() <= more.len(),
        forall|i: int| 0 <= i < out.len() ==> (#[trigger] more[i]) == out[i],
        executing(out, t),
    ensures
        executing(more, t),
{
    let i = choose|i: int|
        0 <= i < out.len() && (#[trigger] out[i]) is Execute && out[i].tasks().contains(t);
    assert(more[i] == out[i]);
}

proof fn lemma_checking_grows(out: Seq<Errand>, more: Seq<Errand>, t: usize)
    requires
        out.len() <= more.len(),
        forall|i: int| 0 <= i < out.len() ==> (#[trigger] more[i]) == out[i],
    ensures
        checking(out, t) ==> checking(more, t),
{
    if checking(out, t) {
        let i = choose|i: int|
            0 <= i < out.len() && (#[trigger] out[i]) is Check && out[i].tasks().contains(t);
        assert(more[i] == out[i]);
    }
}

proof fn lemma_executing_shrinks(out: Seq<Errand>, i: int, t: usize)
    requires
        0 <= i < out.len(),
        executing(out, t),
        out[i] is Execute ==> !out[i].tasks().contains(t),
    ensures
        executing(out.remove(i), t),
{
    let j = choose|j: int|
        0 <= j < out.len() && (#[trigger] out[j]) is Execute && out[j].tasks().contains(t);
    let to = if j < i {
        j
    } else {
        j - 1
    };
    assert(out.remove(i)[to] == out[j]);
}

proof fn lemma_checking_shrinks(out: Seq<Errand>, i: int, t: usize)
    requires
        0 <= i < out.len(),
        out[i] is Check ==> !out[i].tasks().contains(t),
    ensures
        checking(out, t) ==> checking(out.remove(i), t),
{
    if checking(out, t) {
        let j = choose|j: int|
            0 <= j < out.len() && (#[trigger] out[j]) is Check && out[j].tasks().contains(t);
        let to = if j < i {
            j
        } else {
            j - 1
        };
        assert(out.remove(i)[to] == out[j]);
    }
}

/// Finishing transactions marks them as done, and changes no other task.
proof fn lemma_finish_all_effect(v: ScheduleSpec, batch: Seq<Returned>, n: nat)
    requires
        n <= batch.len(),
        forall|k: int|
            0 <= k < batch.len() ==> 0 <= v.task_of((#[trigger] batch[k]).signature)
                < v.tasks.len(),
    ensures
        v.finish_all(batch, n).unresolved == v.unresolved,
        v.finish_all(batch, n).sent == v.sent,
        v.finish_all(batch, n).tasks.len() == v.tasks.len(),
        forall|t: int|
            0 <= t < v.tasks.len() ==> (#[trigger] v.finish_all(batch, n).tasks[t]).tx
                == v.tasks[t].tx && v.finish_all(batch, n).tasks[t].lookups == v.tasks[t].lookups
                && v.finish_all(batch, n).tasks[t].state == (if named(v, batch, n, t) {
                TaskState::Done
            } else {
                v.tasks[t].state
            }),
    decreases n,
{
    if n > 0 {
        let m = (n - 1) as nat;
        lemma_finish_all_effect(v, batch, m);
        let last = v.task_of(batch[n - 1].signature);
        assert forall|t: int| 0 <= t < v.tasks.len() implies named(v, batch, n, t) == (
        #[trigger] named(v, batch, m, t) || t == last) by {
            lemma_named(v, batch, m, t);
        }
        assert forall|t: int| 0 <= t < v.tasks.len() implies (
        #[trigger] v.finish_all(batch, n).tasks[t]).tx == v.tasks[t].tx && v.finish_all(
            batch,
            n,
        ).tasks[t].lookups == v.tasks[t].lookups && v.finish_all(batch, n).tasks[t].state == (
        if named(v, batch, n, t) {
            TaskState::Done
        } else {
            v.tasks[t].state
        }) by {
            assert(named(v, batch, n, t) == (named(v, batch, m, t) || t == last));
            assert(v.finish_all(batch, m).tasks[t].tx == v.tasks[t].tx);
        }
    }
}

proof fn lemma_named(v: ScheduleSpec, batch: Seq<Returned>, m: nat, t: int)
    requires
        m < batch.len(),
    ensures
        named(v, batch, m + 1, t) == (named(v, batch, m, t) || t == v.task_of(
            batch[m as int].signature,
        )),
{
    if named(v, batch, m, t) {
        let k = choose|k: int| 0 <= k < m && v.task_of((#[trigger] batch[k]).signature) == t;
        assert(0 <= k < m + 1 && v.task_of(batch[k].signature) == t);
    }
    if t == v.task_of(batch[m as int].signature) {
        assert(0 <= m < m + 1 && v.task_of(batch[m as int].signature) == t);
    }
}

/// CHECK results give their tasks the looked-up keys or mark them as done, and change no other task.
proof fn lemma_check_all_effect(
    v: ScheduleSpec,
    batch: Seq<Returned>,
    responses: Seq<CheckResponse>,
    n: nat,
)
    requires
        n <= batch.len() == responses.len(),
        forall|k: int|
            0 <= k < batch.len() ==> 0 <= v.task_of((#[trigger] batch[k]).signature)
                < v.tasks.len(),
    ensures
        v.check_all(batch, responses, n).unresolved == v.unresolved,
        v.check_all(batch, responses, n).sent == v.sent,
        v.check_all(batch, responses, n).tasks.len() == v.tasks.len(),
        forall|t: int|
            0 <= t < v.tasks.len() ==> {
                let task = #[trigger] v.check_all(batch, responses, n).tasks[t];
                &&& task.tx == v.tasks[t].tx
                &&& !named(v, batch, n, t) ==> task == v.tasks[t]
                &&& refuses(v, batch, responses, n, t) ==> task.state == TaskState::Done
                &&& !refuses(v, batch, responses, n, t) ==> task.state == v.tasks[t].state
                &&& named(v, batch, n, t) && !refuses(v, batch, responses, n, t)
                    ==> task.lookups is Some
            },
    decreases n,
{
    if n > 0 {
        let m = (n - 1) as nat;
        lemma_check_all_effect(v, batch, responses, m);
        let last = v.task_of(batch[n - 1].signature);
        assert forall|t: int| 0 <= t < v.tasks.len() implies {
            let task = #[trigger] v.check_all(batch, responses, n).tasks[t];
            &&& task.tx == v.tasks[t].tx
            &&& !named(v, batch, n, t) ==> task == v.tasks[t]
            &&& refuses(v, batch, responses, n, t) ==> task.state == TaskState::Done
            &&& !refuses(v, batch, responses, n, t) ==> task.state == v.tasks[t].state
            &&& named(v, batch, n, t) && !refuses(v, batch, responses, n, t) ==> task.lookups is Some
        } by {
            lemma_named(v, batch, m, t);
            lemma_refuses(v, batch, responses, m, t);
            let before = v.check_all(batch, responses, m).tasks[t];
            assert(before.tx == v.tasks[t].tx);
        }
    }
}

proof fn lemma_refuses(
    v: ScheduleSpec,
    batch: Seq<Returned>,
    responses: Seq<CheckResponse>,
    m: nat,
    t: int,
)
    requires
        m < batch.len() == responses.len(),
    ensures
        refuses(v, batch, responses, m + 1, t) == (refuses(v, batch, responses, m, t) || (t
            == v.task_of(batch[m as int].signature) && responses[m as int].outcome() is None)),
{
    if refuses(v, batch, responses, m, t) {
        let k = choose|k: int|
            0 <= k < m && v.task_of((#[trigger] batch[k]).signature) == t && responses[k].outcome()
                is None;
        assert(0 <= k < m + 1 && v.task_of(batch[k].signature) == t);
    }
    if t == v.task_of(batch[m as int].signature) && responses[m as int].outcome() is None {
        assert(0 <= m < m + 1 && v.task_of(batch[m as int].signature) == t);
    }
}

/// One of the first `n` of `events` inserts a transaction with first signature `key`.
pub open spec fn inserted(events: Seq<Event>, n: nat, key: [u8; 64]) -> bool
    decreases n,
{
    n > 0 && (inserted(events, (n - 1) as nat, key) || (events[n - 1] matches Event::Insert(txs)
        && exists|j: int|
        0 <= j < txs.len() && first_signature((#[trigger] txs[j]).data@) == key))
}

/// The tasks are exactly the transactions that were inserted, one for each signature.
pub proof fn law_tasks_are_what_was_inserted(
    num_workers: nat,
    events: Seq<Event>,
    n: nat,
    key: [u8; 64],
)
    requires
        n <= events.len(),
        Run::possible(num_workers, events, n),
    ensures
        Run::after(num_workers, events, n).v.has_task(key) <==> inserted(events, n, key),
        Run::after(num_workers, events, n).v.distinct(),
        Run::after(num_workers, events, n).v.entries.len() == Run::after(
            num_workers,
            events,
            n,
        ).v.tasks.len(),
    decreases n,
{
    Run::lemma_tracks(num_workers, events, n);
    if n > 0 {
        let m = (n - 1) as nat;
        law_tasks_are_what_was_inserted(num_workers, events, m, key);
        Run::lemma_tracks(num_workers, events, m);
        let before = Run::after(num_workers, events, m);
        match events[n - 1] {
            Event::Insert(txs) => before.v.lemma_insert_all_knows(txs, txs.len(), key),
            Event::Send(open) => {
                before.v.lemma_advance_wf();
                law_messages_are_errands(before.v.advance(), 0, open, open.len());
            },
            Event::Answer(_, reply) => {
                let start = before.v.answered();
                before.v.lemma_answered_wf();
                assert forall|key: [u8; 64], state: TaskState| #[trigger] before.v.knows(
                    key,
                    state,
                ) implies start.knows(key, state) by {
                    assert(start.task_of(key) == before.v.task_of(key));
                }
                match reply.responses {
                    Responses::Execution(_) => start.lemma_finish_all_wf(
                        reply.batch@,
                        reply.batch@.len(),
                    ),
                    Responses::Check(list) => start.lemma_check_all_wf(
                        reply.batch@,
                        list@,
                        reply.batch@.len(),
                    ),
                    Responses::Other(_) => {},
                }
            },
        }
    }
}

/// Task `t` was sent for EXECUTE exactly once.
pub open spec fn sent_exactly_once(v: ScheduleSpec, t: int) -> bool {
    exists|i: int|
        0 <= i < v.sent.len() && (#[trigger] v.sent[i]).task == t && forall|j: int|
            0 <= j < v.sent.len() && (#[trigger] v.sent[j]).task == t ==> j == i
}

/// Once every message is answered, no task is on a worker.
pub proof fn law_answered_workers_are_idle(num_workers: nat, events: Seq<Event>)
    requires
        Run::possible(num_workers, events, events.len()),
        Run::after(num_workers, events, events.len()).v.inflight == 0,
    ensures
        ({
            let v = Run::after(num_workers, events, events.len()).v;
            forall|t: int|
                0 <= t < v.tasks.len() ==> (#[trigger] v.tasks[t]).state != TaskState::Assigned
        }),
{
    Run::lemma_tracks(num_workers, events, events.len());
    let run = Run::after(num_workers, events, events.len());
    assert forall|t: int| 0 <= t < run.v.tasks.len() implies (#[trigger] run.v.tasks[t]).state
        != TaskState::Assigned by {
        let id = t as usize;
        assert(run.v.tasks[id as int] == run.v.tasks[t]);
        assert(!executing(run.out, id));
    }
}

/// Every transaction that is inserted is executed, and executed once: whatever was inserted, sent and
/// answered since the schedule was empty, in whatever order, when some worker was open and there was
/// nothing left to send to it and nothing is in flight, every task is done. Each was sent for EXECUTE
/// exactly once, but for those that CHECK refused, which were not sent at all; a transaction without
/// lookup tables is never refused.
pub proof fn law_every_task_is_executed_once(
    num_workers: nat,
    events: Seq<Event>,
    open: Seq<bool>,
    worker: int,
    t: int,
)
    requires
        Run::possible(num_workers, events.push(Event::Send(open)), events.len() + 1),
        0 <= worker < open.len(),
        open[worker],
        Run::after(num_workers, events.push(Event::Send(open)), events.len() + 1).v.inflight == 0,
        0 <= t < Run::after(
            num_workers,
            events.push(Event::Send(open)),
            events.len() + 1,
        ).v.tasks.len(),
    ensures
        ({
            let run = Run::after(num_workers, events.push(Event::Send(open)), events.len() + 1);
            &&& run.v.tasks[t].state == TaskState::Done
            &&& run.refused.contains(t) ==> !was_sent(run.v.sent, t)
            &&& !run.refused.contains(t) ==> sent_exactly_once(run.v, t)
            &&& run.v.tasks[t].tx.num_lookups == 0 ==> sent_exactly_once(run.v, t)
        }),
{
    let all = events.push(Event::Send(open));
    let n = events.len();
    let before = Run::after(num_workers, all, n);
    let run = Run::after(num_workers, all, n + 1);
    Run::lemma_tracks(num_workers, all, n);
    Run::lemma_tracks(num_workers, all, n + 1);
    let moved = Run { v: before.v.advance(), ..before };
    before.lemma_advance_tracks();
    before.v.lemma_advance_wf();
    moved.lemma_serve_all_tracks(open, open.len());
    // Nothing is in flight, so nothing was sent: the schedule is as the cursor left it.
    assert(run.v == moved.v);
    assert(run.v.ready.len() == 0 && run.v.unresolved.len() == 0);
    assert(run.out.len() == 0);
    if run.v.cursor() < run.v.tasks.len() {
        let c = run.v.cursor() as usize;
        assert(run.v.blocked(c as int));
        assert(!checking(run.out, c));
        assert(false);
    }
    assert forall|s: int| 0 <= s < run.v.tasks.len() implies (#[trigger] run.v.tasks[s]).state
        != TaskState::Assigned by {
        let id = s as usize;
        assert(run.v.tasks[id as int] == run.v.tasks[s]);
        assert(!executing(run.out, id));
    }
    if run.v.tasks[t].state != TaskState::Done {
        law_progress(run.v, t);
        assert(false);
    }
    if !run.refused.contains(t) {
        assert(was_sent(run.v.sent, t));
        let i = choose|i: int| 0 <= i < run.v.sent.len() && (#[trigger] run.v.sent[i]).task == t;
        assert forall|j: int| 0 <= j < run.v.sent.len() && (
        #[trigger] run.v.sent[j]).task == t implies j == i by {
            law_sent_once(run.v, i, j);
        }
        assert(sent_exactly_once(run.v, t));
    }
}

} // verus!
