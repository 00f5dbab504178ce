//! Block production as a whole: what the workers are sent from the start of a session on.

use crate::bindings::{PackMessageSpec, Reply, TransactionRegion};
use crate::ipc::progress::Progress;
use crate::ipc::shmem::Arrival;
use crate::validator::schedule::model::ScheduleSpec;
use crate::validator::scheduler::{Phase, SchedulerSpec, Source};
use vstd::prelude::*;

verus! {

/// Something that happens while blocks are produced: an operation of the scheduler or of the
/// schedule of its block, with what it is given.
pub enum Event {
    /// A progress message, and whether the scheduler is told to stop.
    Poll(Progress, bool),
    /// Outstanding CHECKs are waited for.
    Settle(bool),
    /// Votes and other transactions come in.
    Store(Seq<Arrival>, Seq<Arrival>),
    /// What found no room is reported.
    Report,
    /// The workers that are open are offered stored transactions for CHECK.
    Check(Seq<bool>),
    /// A worker answers a CHECK.
    Checked(Reply),
    /// The tip accounts are asked for, with these flags, at these addresses.
    ReadTips(u16, [TransactionRegion; 3]),
    /// The tip accounts have been read.
    TipsRead,
    /// The block engine has sent a block for this slot.
    Offer(u64),
    /// Transactions enter the schedule.
    Insert(Seq<Arrival>),
    /// The workers that are open are given work from the schedule.
    Send(Seq<bool>),
    /// A worker answers for the schedule.
    Answer(Reply),
    /// Stored votes are taken out for the schedule.
    TakeVotes,
    /// The schedule is cleared.
    Clear,
    /// The block is closed; these votes are stored again.
    CloseBlock(Seq<Arrival>, bool),
    /// The fallback stage is handed transactions, with the room at each worker.
    Execute(Source, Seq<TransactionRegion>, Seq<usize>),
    /// A worker answers for the fallback stage.
    Executed(Reply),
    /// The fallback stage is closed.
    CloseFallback,
    /// A strategy server has sent a bundle.
    Bundle(Seq<Seq<u8>>),
}

/// The state of block production, with all messages that the workers were sent, in order.
pub struct Production {
    pub scheduler: SchedulerSpec,
    pub schedule: ScheduleSpec,
    pub sent: Seq<PackMessageSpec>,
}

impl Production {
    /// The start of a session.
    pub open spec fn start(num_workers: usize, last: Progress) -> Self {
        Production {
            scheduler: SchedulerSpec::fresh(num_workers, last),
            schedule: ScheduleSpec::empty(num_workers as nat),
            sent: Seq::empty(),
        }
    }

    /// The scheduler after `event`.
    pub open spec fn next_scheduler(self, event: Event) -> SchedulerSpec {
        let v = self.scheduler;
        match event {
            Event::Poll(p, exit) => v.polled(p, exit),
            Event::Settle(exit) => v.settle(exit),
            Event::Store(votes, nonvotes) => v.stored(votes, nonvotes),
            Event::Report => v.without_dropped(),
            Event::Check(open) => v.checked(open),
            Event::Checked(reply) => v.resolved(reply),
            Event::TipsRead => SchedulerSpec { phase: Phase::AwaitBlock, ..v },
            Event::Offer(slot) => v.offered(slot),
            Event::TakeVotes => v.without_votes(),
            Event::CloseBlock(votes, exit) => v.stored(votes, Seq::empty()).begin(exit),
            Event::Execute(source, queued, room) => v.executed(source, queued, room),
            Event::Executed(reply) => SchedulerSpec { fallback: v.fallback.after(reply), ..v },
            Event::CloseFallback => v.closed_fallback(),
            Event::ReadTips(..) => v,
            Event::Insert(_) => v,
            Event::Send(_) => v,
            Event::Answer(_) => v,
            Event::Clear => v,
            Event::Bundle(_) => v,
        }
    }

    /// The schedule after `event`.
    pub open spec fn next_schedule(self, event: Event) -> ScheduleSpec {
        let v = self.schedule;
        match event {
            Event::Insert(txs) => v.insert_all(txs, txs.len()),
            Event::Send(open) => v.advance().serve_all(open, open.len()),
            Event::Answer(reply) => v.after(reply),
            Event::Clear => ScheduleSpec::empty(v.tails.len()),
            _ => v,
        }
    }

    /// The messages that `event` sends.
    pub open spec fn messages(self, event: Event) -> Seq<PackMessageSpec> {
        match event {
            Event::Check(open) => self.scheduler.check_messages(open),
            Event::ReadTips(flags, addresses) => seq![
                PackMessageSpec {
                    worker: 0,
                    flags,
                    max_working_slot: self.scheduler.slot,
                    batch: addresses@,
                },
            ],
            Event::Send(open) => self.schedule.advance().messages(
                self.scheduler.slot,
                open,
                open.len(),
            ),
            Event::Execute(source, queued, room) => self.scheduler.execute_messages(
                source,
                queued,
                room,
            ),
            _ => Seq::empty(),
        }
    }

    /// What `event` makes of it.
    pub open spec fn step(self, event: Event) -> Self {
        Production {
            scheduler: self.next_scheduler(event),
            schedule: self.next_schedule(event),
            sent: self.sent + self.messages(event),
        }
    }

    /// What `events` make of it, in turn.
    pub open spec fn after(self, events: Seq<Event>) -> Self
        decreases events.len(),
    {
        if events.len() == 0 {
            self
        } else {
            self.after(events.drop_last()).step(events.last())
        }
    }

    /// Bundles can be left out.
    proof fn lemma_without_bundles(self, events: Seq<Event>)
        ensures
            self.after(events) == self.after(without_bundles(events)),
        decreases events.len(),
    {
        reveal(Seq::filter);
        if events.len() > 0 {
            let earlier = without_bundles(events.drop_last());
            self.lemma_without_bundles(events.drop_last());
            if events.last() is Bundle {
                let here = self.after(events.drop_last());
                assert(here.sent + here.messages(events.last()) =~= here.sent);
            } else {
                assert(earlier.push(events.last()).drop_last() =~= earlier);
            }
        }
    }
}

/// All of `events` but bundles.
pub open spec fn without_bundles(events: Seq<Event>) -> Seq<Event> {
    events.filter(|event: Event| !(event is Bundle))
}

/// Bundles do not modify block production: two sessions in which the same happens, whatever bundles
/// strategy servers send in either, send the workers the same messages in the same order, and end in
/// the same state.
pub proof fn law_bundles_change_nothing(start: Production, one: Seq<Event>, other: Seq<Event>)
    requires
        without_bundles(one) == without_bundles(other),
    ensures
        start.after(one).sent == start.after(other).sent,
        start.after(one) == start.after(other),
{
    start.lemma_without_bundles(one);
    start.lemma_without_bundles(other);
}

/// A session with one more bundle, sent at any moment, sends the workers what it sends without it, and
/// ends in the same state.
pub proof fn law_a_bundle_changes_nothing(
    start: Production,
    before: Seq<Event>,
    bundle: Seq<Seq<u8>>,
    rest: Seq<Event>,
)
    ensures
        start.after(before.push(Event::Bundle(bundle)) + rest) == start.after(before + rest),
    decreases rest.len(),
{
    let with = before.push(Event::Bundle(bundle));
    if rest.len() == 0 {
        let here = start.after(before);
        assert(with + rest =~= with);
        assert(with.drop_last() =~= before);
        assert(before + rest =~= before);
        assert(here.sent + here.messages(Event::Bundle(bundle)) =~= here.sent);
    } else {
        law_a_bundle_changes_nothing(start, before, bundle, rest.drop_last());
        assert((with + rest).drop_last() =~= with + rest.drop_last());
        assert((before + rest).drop_last() =~= before + rest.drop_last());
    }
}

/// Asking for the tip accounts sends one message, about the three of them, for the slot at hand and to
/// the first worker; it changes neither the scheduler nor the schedule.
pub proof fn law_the_first_worker_reads_tips(
    start: Production,
    flags: u16,
    addresses: [TransactionRegion; 3],
)
    ensures
        start.step(Event::ReadTips(flags, addresses)).scheduler == start.scheduler,
        start.step(Event::ReadTips(flags, addresses)).schedule == start.schedule,
        ({
            let sent = start.step(Event::ReadTips(flags, addresses)).sent;
            &&& sent.len() == start.sent.len() + 1
            &&& sent.drop_last() == start.sent
            &&& sent.last().worker == 0
            &&& sent.last().flags == flags
            &&& sent.last().max_working_slot == start.scheduler.slot
            &&& sent.last().batch.len() == 3
            &&& sent.last().batch == addresses@
        }),
{
    let sent = start.step(Event::ReadTips(flags, addresses)).sent;
    assert(sent.drop_last() =~= start.sent);
}

} // verus!
