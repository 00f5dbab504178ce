//! Transaction scheduler: the leader-slot state machine.

use crate::bindings::{
    message_views, PackMessage, PackMessageSpec, PubkeysRegion, Reply, TransactionRegion,
};
use crate::consts::{BATCH_SIZE, NONVOTE_STORAGE_CAPACITY, PACK_TO_WORKER_CAPACITY, VOTE_STORAGE_CAPACITY};
use crate::ipc::progress::{Progress, LEADER_READY, LEADER_STARTING, NOT_LEADER};
use crate::ipc::shmem::Arrival;
use crate::validator::fallback_stage::{FallbackSpec, FallbackStage, Metrics};
use crate::validator::storage::{keys_of, Storage, StorageSpec};
use vstd::prelude::*;

verus! {

/// Slot percentage after which the block engine is given up for stored transactions.
pub const BLOCK_STAGE_TIMEOUT_PERCENT: u8 = 75;

/// Slot percentage at which the block stage yields to the vote stage.
pub const VOTE_STAGE_START_PERCENT: u8 = 94;

/// Within this many slots of a leader slot, stored transactions are not checked.
pub const PRE_LEADER_HOLD_SLOTS: u64 = 2;

/// How often transactions that found no room are reported.
pub const DROPPED_INTERVAL_MS: u64 = 1000;

/// Where the scheduler stands.
#[derive(Clone, Copy, Debug, PartialEq, Eq, Structural)]
pub enum Phase {
    /// Nothing is known of the next leader slot.
    Waiting,
    /// In a slot of another leader: stored transactions are checked.
    NotLeader,
    /// Such a slot is over; CHECKs of votes are outstanding.
    DrainVotes,
    /// Such a slot is over; CHECKs of other transactions are outstanding.
    DrainNonvotes,
    /// In an own slot, before its bank is there.
    Starting,
    /// The tip accounts are being read.
    Tips,
    /// Waiting for a block from the block engine.
    AwaitBlock,
    /// Executing that block.
    Block,
    /// Executing votes.
    Votes,
    /// The slot is over; the block is to be closed.
    VotesDone,
    /// Executing stored transactions.
    Fallback,
    /// Nothing more can land; the fallback stage is to be closed.
    FallbackDone,
    /// Waiting for the end of the slot.
    FallbackRest,
    /// The scheduler has stopped.
    Exited,
}

/// What a scheduler holds.
pub struct SchedulerSpec {
    pub phase: Phase,
    /// The slot that is being served.
    pub slot: u64,
    /// Stored transactions are held back from CHECK.
    pub hold: bool,
    /// Incoming transactions are mirrored.
    pub is_leader: bool,
    /// The latest progress message.
    pub last: Progress,
    pub votes: StorageSpec,
    pub nonvotes: StorageSpec,
    pub fallback: FallbackSpec,
    pub num_workers: int,
}

/// `a - b`, or 0 where that is negative.
pub open spec fn distance(a: u64, b: u64) -> int {
    if a >= b {
        a - b
    } else {
        0
    }
}

/// Whether `phase` belongs to an own slot.
pub open spec fn leads(phase: Phase) -> bool {
    match phase {
        Phase::Waiting => false,
        Phase::NotLeader => false,
        Phase::DrainVotes => false,
        Phase::DrainNonvotes => false,
        Phase::Exited => false,
        _ => true,
    }
}

/// Whether CHECKs may be outstanding in `phase`.
pub open spec fn checks(phase: Phase) -> bool {
    phase == Phase::NotLeader || phase == Phase::DrainVotes || phase == Phase::DrainNonvotes
}

impl SchedulerSpec {
    /// What every operation keeps.
    pub open spec fn wf(self) -> bool {
        &&& self.votes.wf()
        &&& self.nonvotes.wf()
        &&& self.fallback.wf()
        &&& self.fallback.num_workers == self.num_workers
        &&& self.num_workers * BATCH_SIZE <= usize::MAX
        &&& self.is_leader == leads(self.phase)
        &&& self.votes.inflight == 0 || self.nonvotes.inflight == 0
        &&& self.phase == Phase::NotLeader && self.hold ==> self.votes.inflight == 0
            && self.nonvotes.inflight == 0
        &&& self.phase == Phase::DrainNonvotes ==> self.votes.inflight == 0
        &&& !checks(self.phase) ==> self.votes.inflight == 0 && self.nonvotes.inflight == 0
    }

    /// A scheduler that knows of no slot and holds nothing.
    pub open spec fn fresh(num_workers: usize, last: Progress) -> Self {
        SchedulerSpec {
            phase: Phase::Waiting,
            slot: 0,
            hold: false,
            is_leader: false,
            last,
            votes: StorageSpec::fresh(VOTE_STORAGE_CAPACITY),
            nonvotes: StorageSpec::fresh(NONVOTE_STORAGE_CAPACITY),
            fallback: FallbackSpec::fresh(num_workers),
            num_workers: num_workers as int,
        }
    }

    /// Starts on the slot of the latest progress message. A stop is heeded only where another one
    /// leads it, so that there is no gap in the processing of votes.
    pub open spec fn begin(self, exit: bool) -> Self {
        let at = SchedulerSpec { slot: self.last.current_slot, ..self };
        if self.last.leader_state != NOT_LEADER {
            SchedulerSpec { phase: Phase::Starting, is_leader: true, ..at }
        } else if exit {
            SchedulerSpec { phase: Phase::Exited, is_leader: false, ..at }
        } else {
            SchedulerSpec {
                phase: Phase::NotLeader,
                is_leader: false,
                hold: distance(self.last.next_leader_slot, self.last.current_slot)
                    <= PRE_LEADER_HOLD_SLOTS,
                votes: StorageSpec { cursor: 0, ..self.votes },
                nonvotes: StorageSpec { cursor: 0, ..self.nonvotes },
                ..at
            }
        }
    }

    /// Waits for outstanding CHECKs, then starts on the next slot.
    pub open spec fn settle(self, exit: bool) -> Self {
        if self.votes.inflight != 0 {
            SchedulerSpec { phase: Phase::DrainVotes, ..self }
        } else if self.nonvotes.inflight != 0 {
            SchedulerSpec { phase: Phase::DrainNonvotes, ..self }
        } else {
            self.begin(exit)
        }
    }

    /// The scheduler after the progress message `p`.
    pub open spec fn polled(self, p: Progress, exit: bool) -> Self {
        let v = SchedulerSpec { last: p, ..self };
        match self.phase {
            Phase::Waiting => if p.next_leader_slot == 0 {
                v
            } else {
                v.begin(exit)
            },
            Phase::NotLeader => if p.leader_state == NOT_LEADER && p.current_slot == self.slot {
                v
            } else {
                v.settle(exit)
            },
            Phase::Starting => if p.leader_state == LEADER_STARTING && p.current_slot
                == self.slot {
                v
            } else if p.leader_state == LEADER_READY {
                SchedulerSpec { phase: Phase::Tips, slot: p.current_slot, ..v }
            } else {
                v.begin(exit)
            },
            Phase::AwaitBlock => if p.current_slot_progress < BLOCK_STAGE_TIMEOUT_PERCENT {
                v
            } else {
                SchedulerSpec { phase: Phase::Fallback, ..v }
            },
            Phase::Block => if p.current_slot_progress < VOTE_STAGE_START_PERCENT {
                v
            } else {
                SchedulerSpec { phase: Phase::Votes, ..v }
            },
            Phase::Votes => if p.current_slot == self.slot {
                v
            } else {
                SchedulerSpec { phase: Phase::VotesDone, ..v }
            },
            Phase::Fallback => if p.current_slot == self.slot && !self.fallback.slot_end {
                v
            } else {
                SchedulerSpec { phase: Phase::FallbackDone, ..v }
            },
            Phase::FallbackRest => if p.current_slot == self.slot {
                v
            } else {
                v.begin(exit)
            },
            _ => v,
        }
    }

    /// Whether the scheduler gives up at the progress message `p`: the tip accounts could not be
    /// read in time.
    pub open spec fn gives_up(self, p: Progress) -> bool {
        self.phase == Phase::Tips && p.current_slot_progress >= BLOCK_STAGE_TIMEOUT_PERCENT
    }

    /// The slot to announce to the block engine when the scheduler starts on the slot of the latest
    /// progress message: an own one.
    pub open spec fn begin_announces(self) -> Option<u64> {
        if self.last.leader_state != NOT_LEADER {
            Some(self.last.current_slot)
        } else {
            None
        }
    }

    /// The slot to announce when outstanding CHECKs are waited for.
    pub open spec fn settle_announces(self) -> Option<u64> {
        if self.votes.inflight != 0 || self.nonvotes.inflight != 0 {
            None
        } else {
            self.begin_announces()
        }
    }

    /// The slot to announce at the progress message `p`.
    pub open spec fn announces(self, p: Progress) -> Option<u64> {
        let v = SchedulerSpec { last: p, ..self };
        match self.phase {
            Phase::Waiting if p.next_leader_slot != 0 => v.begin_announces(),
            Phase::NotLeader if p.leader_state != NOT_LEADER || p.current_slot != self.slot =>
                v.settle_announces(),
            Phase::Starting if p.leader_state == LEADER_READY => if p.current_slot != self.slot {
                Some(p.current_slot)
            } else {
                None
            },
            Phase::Starting if p.leader_state != LEADER_STARTING || p.current_slot != self.slot =>
                v.begin_announces(),
            Phase::FallbackRest if p.current_slot != self.slot => v.begin_announces(),
            _ => None,
        }
    }

    /// Whether it is the turn of the votes to be checked: CHECKs of them are outstanding, or
    /// nothing is and some of them are unchecked.
    pub open spec fn votes_turn(self) -> bool {
        self.votes.inflight != 0 || (self.nonvotes.inflight == 0 && self.votes.needs_check())
    }

    /// The scheduler after the workers were offered stored transactions for CHECK; just before a
    /// leader slot they are offered none.
    pub open spec fn checked(self, open: Seq<bool>) -> Self {
        if self.hold {
            self
        } else if self.votes_turn() {
            SchedulerSpec { votes: self.votes.check(open, open.len()), ..self }
        } else {
            SchedulerSpec { nonvotes: self.nonvotes.check(open, open.len()), ..self }
        }
    }

    /// The messages that offering stored transactions for CHECK sends.
    pub open spec fn check_messages(self, open: Seq<bool>) -> Seq<PackMessageSpec> {
        if self.hold {
            Seq::empty()
        } else if self.votes_turn() {
            self.votes.check_messages(self.slot, open, open.len())
        } else {
            self.nonvotes.check_messages(self.slot, open, open.len())
        }
    }

    /// Takes transactions in.
    pub open spec fn stored(self, votes: Seq<Arrival>, nonvotes: Seq<Arrival>) -> Self {
        SchedulerSpec {
            votes: self.votes.insert_all(votes, votes.len()),
            nonvotes: self.nonvotes.insert_all(nonvotes, nonvotes.len()),
            ..self
        }
    }

    /// The store whose CHECKs are outstanding.
    pub open spec fn checking(self) -> StorageSpec {
        if self.votes.inflight != 0 {
            self.votes
        } else {
            self.nonvotes
        }
    }

    /// The scheduler after the reply to a CHECK.
    pub open spec fn resolved(self, reply: Reply) -> Self {
        if self.votes.inflight != 0 {
            SchedulerSpec { votes: self.votes.after(reply), ..self }
        } else {
            SchedulerSpec { nonvotes: self.nonvotes.after(reply), ..self }
        }
    }

    /// Where the fallback stage gets its next transactions from.
    pub open spec fn source(self, votes_queued: bool, nonvotes_queued: bool) -> Source {
        if self.votes.entries.len() != 0 {
            Source::VoteStore
        } else if votes_queued {
            Source::VoteQueue
        } else if self.nonvotes.entries.len() != 0 && self.fallback.txs.len() == 0 {
            Source::NonvoteStore
        } else if nonvotes_queued && self.fallback.txs.len() == 0 {
            Source::NonvoteQueue
        } else {
            Source::Nothing
        }
    }

    /// Whether the fallback stage may get its next transactions from `source`, whatever is queued.
    pub open spec fn may_supply(self, source: Source) -> bool {
        exists|votes_queued: bool, nonvotes_queued: bool|
            source == #[trigger] self.source(votes_queued, nonvotes_queued)
    }

    /// The transactions that a source gives; `queued` are those that the queues gave.
    pub open spec fn supply(self, source: Source, queued: Seq<TransactionRegion>) -> Seq<
        TransactionRegion,
    > {
        match source {
            Source::VoteStore => first_regions(
                self.votes,
                (self.num_workers * BATCH_SIZE) as usize,
            ),
            Source::VoteQueue => queued,
            Source::NonvoteStore => first_regions(self.nonvotes, BATCH_SIZE),
            Source::NonvoteQueue => queued,
            Source::Nothing => Seq::empty(),
        }
    }

    /// The scheduler without what a source gives.
    pub open spec fn supplied(self, source: Source) -> Self {
        match source {
            Source::VoteStore => SchedulerSpec {
                votes: self.votes.drain((self.num_workers * BATCH_SIZE) as usize),
                ..self
            },
            Source::NonvoteStore => SchedulerSpec {
                nonvotes: self.nonvotes.drain(BATCH_SIZE),
                ..self
            },
            _ => self,
        }
    }

    /// The scheduler after the fallback stage was handed the transactions of `source`.
    pub open spec fn executed(
        self,
        source: Source,
        queued: Seq<TransactionRegion>,
        room: Seq<usize>,
    ) -> Self {
        SchedulerSpec {
            fallback: self.fallback.enqueue(self.supply(source, queued)).send_all(room),
            ..self.supplied(source)
        }
    }

    /// The messages that handing the fallback stage the transactions of `source` sends.
    pub open spec fn execute_messages(
        self,
        source: Source,
        queued: Seq<TransactionRegion>,
        room: Seq<usize>,
    ) -> Seq<PackMessageSpec> {
        self.fallback.enqueue(self.supply(source, queued)).messages(self.slot, room)
    }

    /// The scheduler after the fallback stage was closed, which waits for the workers to answer.
    pub open spec fn closed_fallback(self) -> Self {
        if self.fallback.processing != 0 {
            self
        } else {
            SchedulerSpec {
                phase: Phase::FallbackRest,
                fallback: self.fallback.cleared(),
                ..self
            }
        }
    }

    /// The scheduler after a block for `slot` was offered.
    pub open spec fn offered(self, slot: u64) -> Self {
        if slot == self.slot {
            SchedulerSpec { phase: Phase::Block, ..self }
        } else {
            self
        }
    }

    /// The scheduler after stored votes were taken out for the vote stage.
    pub open spec fn without_votes(self) -> Self {
        SchedulerSpec { votes: self.votes.drain(BATCH_SIZE), ..self }
    }

    /// The scheduler after it gave out how many transactions found no room.
    pub open spec fn without_dropped(self) -> Self {
        SchedulerSpec {
            votes: StorageSpec { dropped: 0, ..self.votes },
            nonvotes: StorageSpec { dropped: 0, ..self.nonvotes },
            ..self
        }
    }

    /// The scheduler after it gave out everything that is stored.
    pub open spec fn released(self) -> Self {
        SchedulerSpec {
            votes: self.votes.drain(usize::MAX),
            nonvotes: self.nonvotes.drain(usize::MAX),
            ..self
        }
    }
}

/// The regions of the first `max` transactions of a store.
pub open spec fn first_regions(store: StorageSpec, max: usize) -> Seq<TransactionRegion> {
    Seq::new(store.drain_end(max) as nat, |i: int| store.entries[i].1)
}

/// Where the fallback stage gets transactions from.
#[derive(Clone, Copy, Debug, PartialEq, Eq, Structural)]
pub enum Source {
    /// Stored votes, a batch for each worker.
    VoteStore,
    /// Queued votes, all of them.
    VoteQueue,
    /// Other stored transactions, one batch.
    NonvoteStore,
    /// Other queued transactions, one batch.
    NonvoteQueue,
    /// Nothing.
    Nothing,
}

/// Drives the leader-slot state machine.
pub struct Scheduler {
    phase: Phase,
    slot: u64,
    hold: bool,
    is_leader: bool,
    last: Progress,
    votes: Storage,
    nonvotes: Storage,
    fallback: FallbackStage,
    num_workers: usize,
}

impl View for Scheduler {
    type V = SchedulerSpec;

    closed spec fn view(&self) -> SchedulerSpec {
        SchedulerSpec {
            phase: self.phase,
            slot: self.slot,
            hold: self.hold,
            is_leader: self.is_leader,
            last: self.last,
            votes: self.votes@,
            nonvotes: self.nonvotes@,
            fallback: self.fallback@,
            num_workers: self.num_workers as int,
        }
    }
}

/// The tip accounts could not be read in time.
#[derive(Clone, Copy, Debug, PartialEq, Eq, Structural)]
pub struct TipTimeout;

impl Scheduler {
    /// A scheduler that knows of no slot. `last` is the latest progress message.
    pub fn new(num_workers: usize, last: Progress) -> (result: Self)
        requires
            num_workers * BATCH_SIZE <= usize::MAX,
        ensures
            result@.wf(),
            result@ == SchedulerSpec::fresh(num_workers, last),
    {
        assert(num_workers * PACK_TO_WORKER_CAPACITY < usize::MAX) by (nonlinear_arith)
            requires
                num_workers * BATCH_SIZE <= usize::MAX,
        ;
        Scheduler {
            phase: Phase::Waiting,
            slot: 0,
            hold: false,
            is_leader: false,
            last,
            votes: Storage::new(VOTE_STORAGE_CAPACITY),
            nonvotes: Storage::new(NONVOTE_STORAGE_CAPACITY),
            fallback: FallbackStage::new(num_workers),
            num_workers,
        }
    }

    /// Where the scheduler stands.
    pub fn phase(&self) -> (result: Phase)
        ensures
            result == self@.phase,
    {
        self.phase
    }

    /// The slot that is being served.
    pub fn slot(&self) -> (result: u64)
        ensures
            result == self@.slot,
    {
        self.slot
    }

    /// Whether incoming transactions are to be mirrored: during own slots only.
    pub fn is_leader(&self) -> (result: bool)
        requires
            self@.wf(),
        ensures
            result == leads(self@.phase),
    {
        self.is_leader
    }

    /// Starts on the slot of the latest progress message.
    fn begin(&mut self, exit: bool) -> (announced: Option<u64>)
        requires
            old(self)@.wf(),
            old(self)@.votes.inflight == 0,
            old(self)@.nonvotes.inflight == 0,
        ensures
            final(self)@.wf(),
            final(self)@ == old(self)@.begin(exit),
            announced == old(self)@.begin_announces(),
    {
        self.slot = self.last.current_slot;
        if self.last.leader_state != NOT_LEADER {
            self.phase = Phase::Starting;
            self.is_leader = true;
            return Some(self.slot);
        }
        self.is_leader = false;
        if exit {
            self.phase = Phase::Exited;
        } else {
            self.phase = Phase::NotLeader;
            self.votes.reset_cursor();
            self.nonvotes.reset_cursor();
            self.hold = self.last.next_leader_slot.saturating_sub(self.slot)
                <= PRE_LEADER_HOLD_SLOTS;
        }
        None
    }

    /// Waits for outstanding CHECKs, then starts on the next slot. Returns a slot to announce.
    pub fn settle(&mut self, exit: bool) -> (announced: Option<u64>)
        requires
            old(self)@.wf(),
            checks(old(self)@.phase),
        ensures
            final(self)@.wf(),
            final(self)@ == old(self)@.settle(exit),
            announced == old(self)@.settle_announces(),
    {
        if self.votes.inflight() != 0 {
            self.phase = Phase::DrainVotes;
            None
        } else if self.nonvotes.inflight() != 0 {
            self.phase = Phase::DrainNonvotes;
            None
        } else {
            self.begin(exit)
        }
    }

    /// Takes a progress message. Returns a slot to announce to the block engine, or an error where
    /// the tip accounts could not be read in time.
    pub fn poll(&mut self, p: Progress, exit: bool) -> (result: Result<Option<u64>, TipTimeout>)
        requires
            old(self)@.wf(),
        ensures
            final(self)@.wf(),
            final(self)@ == old(self)@.polled(p, exit),
            result is Err <==> old(self)@.gives_up(p),
            result matches Ok(announced) ==> announced == old(self)@.announces(p),
    {
        self.last = p;
        match self.phase {
            Phase::Waiting => {
                if p.next_leader_slot != 0 {
                    return Ok(self.begin(exit));
                }
            },
            Phase::NotLeader => {
                if p.leader_state != NOT_LEADER || p.current_slot != self.slot {
                    return Ok(self.settle(exit));
                }
            },
            Phase::Starting => {
                if p.leader_state == LEADER_READY {
                    self.phase = Phase::Tips;
                    if p.current_slot != self.slot {
                        self.slot = p.current_slot;
                        return Ok(Some(p.current_slot));
                    }
                } else if p.leader_state != LEADER_STARTING || p.current_slot != self.slot {
                    return Ok(self.begin(exit));
                }
            },
            Phase::Tips => {
                if p.current_slot_progress >= BLOCK_STAGE_TIMEOUT_PERCENT {
                    return Err(TipTimeout);
                }
            },
            Phase::AwaitBlock => {
                if p.current_slot_progress >= BLOCK_STAGE_TIMEOUT_PERCENT {
                    self.phase = Phase::Fallback;
                }
            },
            Phase::Block => {
                if p.current_slot_progress >= VOTE_STAGE_START_PERCENT {
                    self.phase = Phase::Votes;
                }
            },
            Phase::Votes => {
                if p.current_slot != self.slot {
                    self.phase = Phase::VotesDone;
                }
            },
            Phase::Fallback => {
                if p.current_slot != self.slot || self.fallback.done() {
                    self.phase = Phase::FallbackDone;
                }
            },
            Phase::FallbackRest => {
                if p.current_slot != self.slot {
                    return Ok(self.begin(exit));
                }
            },
            _ => {},
        }
        Ok(None)
    }

    /// Takes a bundle that a strategy server has sent. It is let go: the stream to such servers is
    /// one-way, and nothing that they send enters a block.
    pub fn take_bundle(&mut self, _bundle: Vec<Vec<u8>>)
        ensures
            final(self)@ == old(self)@,
    {
    }

    /// Stores and deduplicates incoming transactions. Returns the regions to free.
    pub fn store(&mut self, votes: &[Arrival], nonvotes: &[Arrival]) -> (freed: (
        Vec<TransactionRegion>,
        Vec<TransactionRegion>,
    ))
        requires
            old(self)@.wf(),
            old(self)@.votes.insertable(votes@),
            old(self)@.nonvotes.insertable(nonvotes@),
        ensures
            final(self)@.wf(),
            final(self)@ == old(self)@.stored(votes@, nonvotes@),
            freed.0@ == old(self)@.votes.rejected(votes@, votes@.len()),
            freed.1@ == old(self)@.nonvotes.rejected(nonvotes@, nonvotes@.len()),
    {
        proof {
            self@.votes.lemma_insert_all_inflight(votes@, votes@.len());
            self@.nonvotes.lemma_insert_all_inflight(nonvotes@, nonvotes@.len());
        }
        let freed_votes = self.votes.insert(votes);
        let freed_nonvotes = self.nonvotes.insert(nonvotes);
        (freed_votes, freed_nonvotes)
    }

    /// Whether the storage of votes and that of other transactions have no room.
    pub fn full(&self) -> (result: (bool, bool))
        ensures
            result == (self@.votes.full(), self@.nonvotes.full()),
    {
        (self.votes.is_full(), self.nonvotes.is_full())
    }

    /// Gets and clears how many votes and how many other transactions found no room.
    pub fn dropped(&mut self) -> (result: (usize, usize))
        requires
            old(self)@.wf(),
        ensures
            final(self)@.wf(),
            result == (old(self)@.votes.dropped, old(self)@.nonvotes.dropped),
            final(self)@ == old(self)@.without_dropped(),
    {
        let votes: usize = self.votes.dropped();
        let nonvotes: usize = self.nonvotes.dropped();
        (votes, nonvotes)
    }

    /// Whether a report of what found no room is due `elapsed_ms` after the last one. The interval then
    /// starts anew, whether or not there is anything to report.
    pub fn report_due(elapsed_ms: u64) -> (result: bool)
        ensures
            result == (elapsed_ms > DROPPED_INTERVAL_MS),
    {
        elapsed_ms > DROPPED_INTERVAL_MS
    }

    /// Returns what found no room since the last report, `elapsed_ms` after it, where a report is due
    /// and there is anything to report.
    pub fn report(&mut self, elapsed_ms: u64) -> (result: Option<(usize, usize)>)
        requires
            old(self)@.wf(),
        ensures
            final(self)@.wf(),
            result is Some <==> elapsed_ms > DROPPED_INTERVAL_MS && (old(self)@.votes.dropped != 0
                || old(self)@.nonvotes.dropped != 0),
            result matches Some(report) ==> report == (
                old(self)@.votes.dropped,
                old(self)@.nonvotes.dropped,
            ),
            final(self)@ == (if result is Some {
                old(self)@.without_dropped()
            } else {
                old(self)@
            }),
    {
        if !Self::report_due(elapsed_ms) {
            return None;
        }
        let (votes, nonvotes): (usize, usize) = self.dropped();
        if votes != 0 || nonvotes != 0 {
            Some((votes, nonvotes))
        } else {
            None
        }
    }

    /// Sends stored transactions for CHECK to the workers whose channel has room. Votes and other
    /// transactions take turns, so that the replies are never mixed. Just before a leader slot nothing
    /// is sent.
    pub fn check(&mut self, open: &[bool]) -> (messages: Vec<PackMessage>)
        requires
            old(self)@.wf(),
            old(self)@.phase == Phase::NotLeader,
        ensures
            final(self)@.wf(),
            final(self)@ == old(self)@.checked(open@),
            message_views(messages@) == old(self)@.check_messages(open@),
            old(self)@.hold ==> messages@.len() == 0 && final(self)@ == old(self)@,
    {
        if self.hold {
            let messages: Vec<PackMessage> = Vec::new();
            assert(message_views(messages@) =~= Seq::empty());
            return messages;
        }
        if self.votes.inflight() != 0 || (self.nonvotes.inflight() == 0
            && self.votes.needs_check()) {
            self.votes.check(self.slot, open)
        } else {
            self.nonvotes.check(self.slot, open)
        }
    }

    /// Whether CHECKs are outstanding.
    pub fn checking(&self) -> (result: bool)
        ensures
            result == (self@.votes.inflight != 0 || self@.nonvotes.inflight != 0),
    {
        self.votes.inflight() != 0 || self.nonvotes.inflight() != 0
    }

    /// Whether a worker may send `reply` to a CHECK.
    pub fn accepts_check(&self, reply: &Reply) -> (result: bool)
        ensures
            result == self@.checking().accepts(*reply),
    {
        if self.votes.inflight() != 0 {
            self.votes.accepts(reply)
        } else {
            self.nonvotes.accepts(reply)
        }
    }

    /// Takes the reply to a CHECK. Returns the regions and the lookup keys to free.
    pub fn resolve(&mut self, reply: &Reply) -> (freed: (
        Vec<TransactionRegion>,
        Vec<PubkeysRegion>,
    ))
        requires
            old(self)@.wf(),
            old(self)@.votes.inflight != 0 || old(self)@.nonvotes.inflight != 0,
            old(self)@.checking().accepts(*reply),
        ensures
            final(self)@.wf(),
            final(self)@ == old(self)@.resolved(*reply),
            freed.0@ == old(self)@.checking().answered().removed(
                reply.batch@,
                StorageSpec::responses(*reply),
                StorageSpec::num_answered(*reply),
            ),
            freed.1@ == keys_of(StorageSpec::responses(*reply), StorageSpec::num_answered(*reply)),
    {
        proof {
            self@.votes.lemma_after_inflight(*reply);
            self@.nonvotes.lemma_after_inflight(*reply);
        }
        if self.votes.inflight() != 0 {
            self.votes.resolve(reply)
        } else {
            self.nonvotes.resolve(reply)
        }
    }

    /// The tip accounts have been read.
    pub fn tips_read(&mut self)
        requires
            old(self)@.wf(),
            old(self)@.phase == Phase::Tips,
        ensures
            final(self)@.wf(),
            final(self)@ == (SchedulerSpec { phase: Phase::AwaitBlock, ..old(self)@ }),
    {
        self.phase = Phase::AwaitBlock;
    }

    /// A block for `slot` is there. Takes it where it is for the slot that is being served; else it
    /// is stale and to be discarded.
    pub fn offer_block(&mut self, slot: u64) -> (taken: bool)
        requires
            old(self)@.wf(),
            old(self)@.phase == Phase::AwaitBlock,
        ensures
            final(self)@.wf(),
            taken == (slot == old(self)@.slot),
            final(self)@ == old(self)@.offered(slot),
    {
        if slot == self.slot {
            self.phase = Phase::Block;
            true
        } else {
            false
        }
    }

    /// Takes stored votes out for the vote stage.
    pub fn take_votes(&mut self) -> (votes: Vec<TransactionRegion>)
        requires
            old(self)@.wf(),
            old(self)@.phase == Phase::Votes,
        ensures
            final(self)@.wf(),
            votes@ == first_regions(old(self)@.votes, BATCH_SIZE),
            final(self)@ == old(self)@.without_votes(),
    {
        self.votes.drain(BATCH_SIZE)
    }

    /// The block is closed: stores the votes that it did not take, and starts on the next slot.
    /// Returns the regions to free and a slot to announce.
    pub fn close_block(&mut self, votes: &[Arrival], exit: bool) -> (result: (
        Vec<TransactionRegion>,
        Option<u64>,
    ))
        requires
            old(self)@.wf(),
            old(self)@.phase == Phase::VotesDone,
            old(self)@.votes.insertable(votes@),
        ensures
            final(self)@.wf(),
            final(self)@ == old(self)@.stored(votes@, Seq::empty()).begin(exit),
            result.0@ == old(self)@.votes.rejected(votes@, votes@.len()),
            result.1 == old(self)@.begin_announces(),
    {
        proof {
            self@.votes.lemma_insert_all_inflight(votes@, votes@.len());
        }
        let freed = self.votes.insert(votes);
        let announced = self.begin(exit);
        (freed, announced)
    }

    /// Where the fallback stage gets its next transactions from.
    pub fn fallback_source(&self, votes_queued: bool, nonvotes_queued: bool) -> (result: Source)
        ensures
            result == self@.source(votes_queued, nonvotes_queued),
    {
        if !self.votes.is_empty() {
            Source::VoteStore
        } else if votes_queued {
            Source::VoteQueue
        } else if !self.nonvotes.is_empty() && !self.fallback.backpressured() {
            Source::NonvoteStore
        } else if nonvotes_queued && !self.fallback.backpressured() {
            Source::NonvoteQueue
        } else {
            Source::Nothing
        }
    }

    /// Where the fallback stage gets its next transactions from, and how many to take from the queues
    /// for it: all votes, or at most a batch of others.
    pub fn fallback_take(&self, votes_queued: usize, nonvotes_queued: usize) -> (result: (
        Source,
        usize,
    ))
        ensures
            result.0 == self@.source(votes_queued > 0, nonvotes_queued > 0),
            result.1 == match result.0 {
                Source::VoteQueue => votes_queued,
                Source::NonvoteQueue => if nonvotes_queued <= BATCH_SIZE {
                    nonvotes_queued
                } else {
                    BATCH_SIZE
                },
                _ => 0,
            },
    {
        let source = self.fallback_source(votes_queued > 0, nonvotes_queued > 0);
        let count: usize = match source {
            Source::VoteQueue => votes_queued,
            Source::NonvoteQueue => if nonvotes_queued <= BATCH_SIZE {
                nonvotes_queued
            } else {
                BATCH_SIZE
            },
            _ => 0,
        };
        (source, count)
    }

    /// Hands the fallback stage the transactions of `source`, which is the one that it is to get them
    /// from now; `queued` are those that the queues gave. Returns the messages to send.
    pub fn fallback_execute(
        &mut self,
        source: Source,
        queued: &[TransactionRegion],
        room: &[usize],
    ) -> (messages: Vec<PackMessage>)
        requires
            old(self)@.wf(),
            old(self)@.phase == Phase::Fallback,
            old(self)@.may_supply(source),
            source is NonvoteQueue ==> queued@.len() <= BATCH_SIZE,
            room@.len() >= old(self)@.num_workers,
            old(self)@.fallback.metrics.total + old(self)@.supply(source, queued@).len()
                <= usize::MAX,
        ensures
            final(self)@.wf(),
            final(self)@ == old(self)@.executed(source, queued@, room@),
            message_views(messages@) == old(self)@.execute_messages(source, queued@, room@),
    {
        let ghost was = self@;
        proof {
            was.fallback.enqueue(was.supply(source, queued@)).lemma_send_all_frame(room@);
        }
        match source {
            Source::VoteStore => {
                let txs = self.votes.drain(self.num_workers * BATCH_SIZE);
                assert(txs@ =~= was.supply(source, queued@));
                self.fallback.execute(self.slot, txs.as_slice(), room)
            },
            Source::NonvoteStore => {
                let txs = self.nonvotes.drain(BATCH_SIZE);
                assert(txs@ =~= was.supply(source, queued@));
                self.fallback.execute(self.slot, txs.as_slice(), room)
            },
            Source::Nothing => {
                let none: Vec<TransactionRegion> = Vec::new();
                assert(none@ =~= was.supply(source, queued@));
                self.fallback.execute(self.slot, none.as_slice(), room)
            },
            _ => self.fallback.execute(self.slot, queued, room),
        }
    }

    /// Whether a worker may send `reply` to the fallback stage.
    pub fn accepts_execution(&self, reply: &Reply) -> (result: bool)
        ensures
            result == self@.fallback.accepts(*reply),
    {
        self.fallback.accepts(reply)
    }

    /// Takes a reply for the fallback stage. Returns the regions to free.
    pub fn fallback_resolve(&mut self, reply: &Reply) -> (freed: Vec<TransactionRegion>)
        requires
            old(self)@.wf(),
            old(self)@.fallback.accepts(*reply),
        ensures
            final(self)@.wf(),
            final(self)@ == (SchedulerSpec {
                fallback: old(self)@.fallback.after(*reply),
                ..old(self)@
            }),
            freed@ == Seq::new(FallbackSpec::num_over(*reply), |k: int| reply.batch@[k].region),
    {
        proof {
            self@.fallback.lemma_after_frame(*reply);
        }
        self.fallback.resolve(reply)
    }

    /// The fallback stage.
    pub fn fallback(&self) -> (result: &FallbackStage)
        ensures
            result@ == self@.fallback,
    {
        &self.fallback
    }

    /// The session is over: hands out all stored votes and all other stored transactions, to be
    /// freed.
    pub fn release(&mut self) -> (freed: (Vec<TransactionRegion>, Vec<TransactionRegion>))
        requires
            old(self)@.wf(),
        ensures
            final(self)@.wf(),
            freed.0@ == first_regions(old(self)@.votes, usize::MAX),
            freed.1@ == first_regions(old(self)@.nonvotes, usize::MAX),
            final(self)@ == old(self)@.released(),
            final(self)@.votes.entries.len() == 0,
            final(self)@.nonvotes.entries.len() == 0,
    {
        let votes = self.votes.drain(usize::MAX);
        let nonvotes = self.nonvotes.drain(usize::MAX);
        (votes, nonvotes)
    }

    /// Whether to wait on for replies before the fallback stage is closed.
    pub fn fallback_draining(&self, elapsed_ms: u64) -> (result: bool)
        ensures
            result == (self@.fallback.processing != 0 && elapsed_ms
                < crate::validator::fallback_stage::RESET_TIMEOUT_MS),
    {
        self.fallback.draining(elapsed_ms)
    }

    /// The fallback stage is over: closes it. Returns its counters and the regions to free; `None`,
    /// with nothing changed, where a worker has not answered.
    pub fn close_fallback(&mut self) -> (result: Option<(Metrics, Vec<TransactionRegion>)>)
        requires
            old(self)@.wf(),
            old(self)@.phase == Phase::FallbackDone,
            old(self)@.fallback.metrics.dropped + old(self)@.fallback.txs.len() <= usize::MAX,
        ensures
            final(self)@.wf(),
            result is None <==> old(self)@.fallback.processing != 0,
            final(self)@ == old(self)@.closed_fallback(),
            result matches Some((metrics, freed)) ==> metrics == old(
                self,
            )@.fallback.final_metrics() && freed@ == old(self)@.fallback.txs,
    {
        let result = self.fallback.reset();
        if result.is_some() {
            self.phase = Phase::FallbackRest;
        }
        result
    }
}

/// Replies are never mixed: CHECKs of votes and of other transactions are never outstanding
/// together, and none is while the scheduler leads.
pub proof fn law_checks_are_never_mixed(v: SchedulerSpec)
    requires
        v.wf(),
    ensures
        v.votes.inflight == 0 || v.nonvotes.inflight == 0,
        leads(v.phase) ==> v.votes.inflight == 0 && v.nonvotes.inflight == 0,
{
}

/// Stored transactions are not checked just before a leader slot: a slot of another leader that is
/// this close to it starts without outstanding CHECKs, and none is sent as long as it lasts.
pub proof fn law_hold_stops_checks(v: SchedulerSpec, exit: bool, open: Seq<bool>)
    requires
        v.begin(exit).wf(),
        v.begin(exit).phase == Phase::NotLeader,
        distance(v.last.next_leader_slot, v.last.current_slot) <= PRE_LEADER_HOLD_SLOTS,
    ensures
        v.begin(exit).votes.inflight == 0,
        v.begin(exit).nonvotes.inflight == 0,
        v.begin(exit).check_messages(open) == Seq::<PackMessageSpec>::empty(),
        v.begin(exit).checked(open) == v.begin(exit),
{
}

/// The scheduler stops in the slot of another leader only, and only when it was told to.
pub proof fn law_stops_between_own_slots(v: SchedulerSpec, p: Progress, exit: bool)
    requires
        v.phase != Phase::Exited,
        v.polled(p, exit).phase == Phase::Exited,
    ensures
        exit,
        p.leader_state == NOT_LEADER,
        v.phase != Phase::Tips && v.phase != Phase::AwaitBlock && v.phase != Phase::Block && v.phase
            != Phase::Votes && v.phase != Phase::Fallback,
{
}

/// An own slot is announced before its block is built: where a progress message opens the way to
/// reading the tip accounts, the slot is the validator's current one, and it is announced then
/// unless it is the slot that was already being started.
pub proof fn law_own_slots_are_announced(v: SchedulerSpec, p: Progress, exit: bool)
    requires
        v.polled(p, exit).phase == Phase::Starting || v.polled(p, exit).phase == Phase::Tips,
        v.phase != Phase::Tips,
    ensures
        v.announces(p) == Some(v.polled(p, exit).slot) || (v.phase == Phase::Starting && v.slot
            == v.polled(p, exit).slot && v.announces(p) is None),
        v.polled(p, exit).slot == p.current_slot,
{
}

/// Mirroring is on exactly while the scheduler serves an own slot: a progress message that starts
/// it on the slot of another leader turns it off, and one that starts an own slot turns it on.
pub proof fn law_mirroring_follows_leadership(v: SchedulerSpec, exit: bool)
    ensures
        v.begin(exit).is_leader == (v.last.leader_state != NOT_LEADER),
        v.begin(exit).is_leader == leads(v.begin(exit).phase),
{
}

} // verus!
