//! What the scheduler does at each progress message and each operation, read off its inputs and results.

use crate::bindings::{Reply, TransactionRegion};
use crate::ipc::progress::{Progress, LEADER_READY, LEADER_STARTING, NOT_LEADER};
use crate::ipc::shmem::Arrival;
use crate::validator::fallback_stage::FallbackSpec;
use crate::validator::scheduler::{first_regions, leads, Phase, SchedulerSpec, Source};
use crate::validator::storage::StorageSpec;
use crate::validator::storage_laws::{
    law_one_pass_checks_all, num_open, regions, transactions,
};
use vstd::prelude::*;

verus! {

/// `w` is `v` with `p` as the latest progress message, and nothing else changed.
pub open spec fn goes_on(v: SchedulerSpec, p: Progress, w: SchedulerSpec) -> bool {
    w == (SchedulerSpec { last: p, ..v })
}

/// `w` is `v` with `p` as the latest progress message and now in `phase`, and nothing else changed.
pub open spec fn moves_on(v: SchedulerSpec, p: Progress, phase: Phase, w: SchedulerSpec) -> bool {
    w == (SchedulerSpec { last: p, phase, ..v })
}

/// The same transactions are stored, and a new pass over them starts: all are unchecked.
pub open spec fn new_pass(before: StorageSpec, after: StorageSpec) -> bool {
    &&& after.entries == before.entries
    &&& after.cursor == 0
    &&& after.inflight == before.inflight
    &&& after.capacity == before.capacity
    &&& after.dropped == before.dropped
}

/// `w` is `v` when it starts on the slot of the progress message `p`. An own slot is announced, and
/// transactions are mirrored from then on. In the slot of another leader they are not; the scheduler
/// stops there where it is told to, and else starts a new pass over both stores, which is held back
/// where the next own slot is at most two slots away.
pub open spec fn starts_on(
    v: SchedulerSpec,
    p: Progress,
    exit: bool,
    w: SchedulerSpec,
    announced: Option<u64>,
) -> bool {
    &&& w.last == p
    &&& w.slot == p.current_slot
    &&& w.fallback == v.fallback
    &&& w.num_workers == v.num_workers
    &&& if p.leader_state != NOT_LEADER {
        &&& w.phase == Phase::Starting
        &&& w.is_leader
        &&& announced == Some(p.current_slot)
        &&& w.votes == v.votes
        &&& w.nonvotes == v.nonvotes
        &&& w.hold == v.hold
    } else if exit {
        &&& w.phase == Phase::Exited
        &&& !w.is_leader
        &&& announced is None
        &&& w.votes == v.votes
        &&& w.nonvotes == v.nonvotes
        &&& w.hold == v.hold
    } else {
        &&& w.phase == Phase::NotLeader
        &&& !w.is_leader
        &&& announced is None
        &&& new_pass(v.votes, w.votes)
        &&& new_pass(v.nonvotes, w.nonvotes)
        &&& w.hold <==> p.next_leader_slot <= p.current_slot + 2
    }
}

/// `w` is `v` when its slot of another leader is over at the progress message `p`: CHECKs that are out
/// are waited for, those of votes first, and then the scheduler starts on the slot of `p`.
pub open spec fn settles(
    v: SchedulerSpec,
    p: Progress,
    exit: bool,
    w: SchedulerSpec,
    announced: Option<u64>,
) -> bool {
    if v.votes.inflight != 0 {
        moves_on(v, p, Phase::DrainVotes, w) && announced is None
    } else if v.nonvotes.inflight != 0 {
        moves_on(v, p, Phase::DrainNonvotes, w) && announced is None
    } else {
        starts_on(v, p, exit, w, announced)
    }
}

/// Before anything is known of a next leader slot, the scheduler waits; then it starts on the slot of
/// the progress message that tells.
pub proof fn law_waits_for_the_first_slot(v: SchedulerSpec, p: Progress, exit: bool)
    requires
        v.phase == Phase::Waiting,
    ensures
        p.next_leader_slot == 0 ==> goes_on(v, p, v.polled(p, exit)) && v.announces(p) is None,
        p.next_leader_slot != 0 ==> starts_on(v, p, exit, v.polled(p, exit), v.announces(p)),
        !v.gives_up(p),
{
}

/// The slot of another leader lasts until the validator reports another slot or becomes the leader.
pub proof fn law_slots_of_others_last(v: SchedulerSpec, p: Progress, exit: bool)
    requires
        v.phase == Phase::NotLeader,
    ensures
        p.leader_state == NOT_LEADER && p.current_slot == v.slot ==> goes_on(
            v,
            p,
            v.polled(p, exit),
        ) && v.announces(p) is None,
        p.leader_state != NOT_LEADER || p.current_slot != v.slot ==> settles(
            v,
            p,
            exit,
            v.polled(p, exit),
            v.announces(p),
        ),
        !v.gives_up(p),
{
}

/// While outstanding CHECKs are waited for, progress messages only make themselves known; the waiting
/// ends when the last reply is there, and the slot of the latest message is then started on.
pub proof fn law_outstanding_checks_are_awaited(v: SchedulerSpec, p: Progress, exit: bool)
    ensures
        v.phase == Phase::DrainVotes || v.phase == Phase::DrainNonvotes ==> goes_on(
            v,
            p,
            v.polled(p, exit),
        ) && v.announces(p) is None && !v.gives_up(p),
        settles(v, v.last, exit, v.settle(exit), v.settle_announces()),
{
}

/// A slot that is being started on goes on while its bank is awaited. Where the bank is there, the tip
/// accounts are read, for the slot that the validator reports; a slot that was not announced yet is.
/// Else the slot that the validator reports is started on.
pub proof fn law_starting_awaits_the_bank(v: SchedulerSpec, p: Progress, exit: bool)
    requires
        v.phase == Phase::Starting,
    ensures
        p.leader_state == LEADER_STARTING && p.current_slot == v.slot ==> goes_on(
            v,
            p,
            v.polled(p, exit),
        ) && v.announces(p) is None,
        p.leader_state == LEADER_READY ==> {
            &&& v.polled(p, exit) == (SchedulerSpec {
                last: p,
                phase: Phase::Tips,
                slot: p.current_slot,
                ..v
            })
            &&& p.current_slot == v.slot ==> v.announces(p) is None
            &&& p.current_slot != v.slot ==> v.announces(p) == Some(p.current_slot)
        },
        p.leader_state != LEADER_READY && !(p.leader_state == LEADER_STARTING && p.current_slot
            == v.slot) ==> starts_on(v, p, exit, v.polled(p, exit), v.announces(p)),
        !v.gives_up(p),
{
}

/// The tip accounts are waited for until 75 percent of the slot are over, whatever the validator
/// reports; then the scheduler gives up. Nothing else makes it give up.
pub proof fn law_tips_are_awaited(v: SchedulerSpec, p: Progress, exit: bool)
    ensures
        v.gives_up(p) <==> v.phase == Phase::Tips && p.current_slot_progress >= 75,
        v.phase == Phase::Tips ==> goes_on(v, p, v.polled(p, exit)) && v.announces(p) is None,
{
}

/// A block is waited for until 75 percent of the slot are over; then the fallback stage starts.
pub proof fn law_blocks_are_awaited(v: SchedulerSpec, p: Progress, exit: bool)
    requires
        v.phase == Phase::AwaitBlock,
    ensures
        p.current_slot_progress < 75 ==> goes_on(v, p, v.polled(p, exit)),
        p.current_slot_progress >= 75 ==> moves_on(v, p, Phase::Fallback, v.polled(p, exit)),
        v.announces(p) is None,
{
}

/// The block is executed until 94 percent of the slot are over; then the vote stage starts.
pub proof fn law_block_stage_lasts(v: SchedulerSpec, p: Progress, exit: bool)
    requires
        v.phase == Phase::Block,
    ensures
        p.current_slot_progress < 94 ==> goes_on(v, p, v.polled(p, exit)),
        p.current_slot_progress >= 94 ==> moves_on(v, p, Phase::Votes, v.polled(p, exit)),
        v.announces(p) is None,
{
}

/// The vote stage lasts exactly as long as the slot.
pub proof fn law_vote_stage_lasts(v: SchedulerSpec, p: Progress, exit: bool)
    requires
        v.phase == Phase::Votes,
    ensures
        p.current_slot == v.slot ==> goes_on(v, p, v.polled(p, exit)),
        p.current_slot != v.slot ==> moves_on(v, p, Phase::VotesDone, v.polled(p, exit)),
        v.announces(p) is None,
{
}

/// The fallback stage lasts as long as the slot, unless a reply shows that nothing more can land.
pub proof fn law_fallback_stage_lasts(v: SchedulerSpec, p: Progress, exit: bool)
    requires
        v.phase == Phase::Fallback,
    ensures
        p.current_slot == v.slot && !v.fallback.slot_end ==> goes_on(v, p, v.polled(p, exit)),
        p.current_slot != v.slot || v.fallback.slot_end ==> moves_on(
            v,
            p,
            Phase::FallbackDone,
            v.polled(p, exit),
        ),
        v.announces(p) is None,
{
}

/// What is left of the slot behind a closed fallback stage is waited for.
pub proof fn law_rest_of_the_slot_is_awaited(v: SchedulerSpec, p: Progress, exit: bool)
    requires
        v.phase == Phase::FallbackRest,
    ensures
        p.current_slot == v.slot ==> goes_on(v, p, v.polled(p, exit)) && v.announces(p) is None,
        p.current_slot != v.slot ==> starts_on(v, p, exit, v.polled(p, exit), v.announces(p)),
{
}

/// A block or fallback stage that is to be closed waits for that, and a scheduler that has stopped does
/// nothing more.
pub proof fn law_closing_is_awaited(v: SchedulerSpec, p: Progress, exit: bool)
    requires
        v.phase == Phase::VotesDone || v.phase == Phase::FallbackDone || v.phase == Phase::Exited,
    ensures
        goes_on(v, p, v.polled(p, exit)),
        v.announces(p) is None,
{
}

/// No stage of an own slot is left for the closing of its block while the validator still reports that
/// slot, but for a fallback stage in which nothing more can land; and no own slot that a block is built
/// for is started over.
pub proof fn law_own_slots_are_served_to_the_end(v: SchedulerSpec, p: Progress, exit: bool)
    requires
        v.phase == Phase::Tips || v.phase == Phase::AwaitBlock || v.phase == Phase::Block || v.phase
            == Phase::Votes || v.phase == Phase::Fallback || v.phase == Phase::FallbackRest,
        p.current_slot == v.slot,
    ensures
        v.polled(p, exit).phase != Phase::VotesDone,
        v.polled(p, exit).phase == Phase::FallbackDone ==> v.fallback.slot_end,
        v.polled(p, exit).phase != Phase::Starting,
        v.polled(p, exit).phase != Phase::NotLeader,
        v.polled(p, exit).phase != Phase::Exited,
        v.polled(p, exit).slot == v.slot,
        v.polled(p, exit).is_leader == v.is_leader,
        v.announces(p) is None,
{
}

/// Starting on the slot of the latest progress message.
pub proof fn law_starting_on_a_slot(v: SchedulerSpec, exit: bool)
    ensures
        starts_on(v, v.last, exit, v.begin(exit), v.begin_announces()),
{
}

/// Transactions are mirrored, and slots count as own ones, from the moment that an own slot is started
/// on until another slot is.
pub proof fn law_own_phases(phase: Phase)
    ensures
        leads(phase) <==> phase != Phase::Waiting && phase != Phase::NotLeader && phase
            != Phase::DrainVotes && phase != Phase::DrainNonvotes && phase != Phase::Exited,
{
}

/// Each slot of another leader checks everything that is stored anew: where checks are not held back
/// and enough workers are open, all votes go out for CHECK in that slot; and where there are none, all
/// other transactions do.
pub proof fn law_each_slot_checks_everything(v: SchedulerSpec, exit: bool, open: Seq<bool>)
    requires
        v.begin(exit).wf(),
        v.last.leader_state == NOT_LEADER,
        !exit,
        v.last.next_leader_slot > v.last.current_slot + 2,
        v.votes.inflight == 0,
        v.nonvotes.inflight == 0,
    ensures
        v.votes.entries.len() > 0 && 64 * num_open(open) >= v.votes.entries.len() ==> transactions(
            v.begin(exit).check_messages(open),
        ) == regions(v.votes.entries),
        v.votes.entries.len() == 0 && 64 * num_open(open) >= v.nonvotes.entries.len()
            ==> transactions(v.begin(exit).check_messages(open)) == regions(v.nonvotes.entries),
        forall|k: int|
            0 <= k < v.begin(exit).check_messages(open).len() ==> (#[trigger] v.begin(
                exit,
            ).check_messages(open)[k]).max_working_slot == v.last.current_slot,
{
    let w = v.begin(exit);
    assert(v.votes.entries.skip(0) =~= v.votes.entries);
    assert(v.nonvotes.entries.skip(0) =~= v.nonvotes.entries);
    if v.votes.entries.len() > 0 {
        crate::validator::storage_laws::law_open_workers_check(w.votes, w.slot, open, open.len());
        if 64 * num_open(open) >= v.votes.entries.len() {
            law_one_pass_checks_all(w.votes, w.slot, open);
        }
    } else {
        crate::validator::storage_laws::law_open_workers_check(
            w.nonvotes,
            w.slot,
            open,
            open.len(),
        );
        if 64 * num_open(open) >= v.nonvotes.entries.len() {
            law_one_pass_checks_all(w.nonvotes, w.slot, open);
        }
    }
}

/// Whose turn it is to be checked. Just before an own slot it is nobody's. Else it is that of the store
/// with CHECKs in flight, and where there are none, that of the votes as long as one is unchecked.
pub proof fn law_stores_take_turns(v: SchedulerSpec, open: Seq<bool>)
    ensures
        v.hold ==> v.checked(open) == v && v.check_messages(open).len() == 0,
        !v.hold && (v.votes.inflight != 0 || (v.nonvotes.inflight == 0 && v.votes.cursor
            < v.votes.entries.len())) ==> {
            &&& v.checked(open) == (SchedulerSpec {
                votes: v.votes.check(open, open.len()),
                ..v
            })
            &&& v.check_messages(open) == v.votes.check_messages(v.slot, open, open.len())
        },
        !v.hold && v.votes.inflight == 0 && (v.nonvotes.inflight != 0 || v.votes.cursor
            >= v.votes.entries.len()) ==> {
            &&& v.checked(open) == (SchedulerSpec {
                nonvotes: v.nonvotes.check(open, open.len()),
                ..v
            })
            &&& v.check_messages(open) == v.nonvotes.check_messages(v.slot, open, open.len())
        },
{
}

/// Votes come into the store of votes and other transactions into the other one; a reply to a CHECK
/// goes to the store whose CHECKs are in flight. Nothing else changes.
pub proof fn law_stores_are_kept_apart(
    v: SchedulerSpec,
    votes: Seq<Arrival>,
    nonvotes: Seq<Arrival>,
    reply: Reply,
)
    ensures
        v.stored(votes, nonvotes) == (SchedulerSpec {
            votes: v.votes.insert_all(votes, votes.len()),
            nonvotes: v.nonvotes.insert_all(nonvotes, nonvotes.len()),
            ..v
        }),
        v.votes.inflight != 0 ==> v.checking() == v.votes && v.resolved(reply) == (SchedulerSpec {
            votes: v.votes.after(reply),
            ..v
        }),
        v.votes.inflight == 0 ==> v.checking() == v.nonvotes && v.resolved(reply) == (
        SchedulerSpec { nonvotes: v.nonvotes.after(reply), ..v }),
{
}

/// Where the fallback stage gets transactions from: all votes first, those that are stored before those
/// that are queued, and the others, in the same order, only while nothing waits for a worker.
pub proof fn law_votes_come_first(v: SchedulerSpec, votes_queued: bool, nonvotes_queued: bool)
    ensures
        v.votes.entries.len() > 0 ==> v.source(votes_queued, nonvotes_queued) == Source::VoteStore,
        v.votes.entries.len() == 0 && votes_queued ==> v.source(votes_queued, nonvotes_queued)
            == Source::VoteQueue,
        v.votes.entries.len() == 0 && !votes_queued && v.fallback.txs.len() > 0 ==> v.source(
            votes_queued,
            nonvotes_queued,
        ) == Source::Nothing,
        v.votes.entries.len() == 0 && !votes_queued && v.fallback.txs.len() == 0
            && v.nonvotes.entries.len() > 0 ==> v.source(votes_queued, nonvotes_queued)
            == Source::NonvoteStore,
        v.votes.entries.len() == 0 && !votes_queued && v.fallback.txs.len() == 0
            && v.nonvotes.entries.len() == 0 ==> v.source(votes_queued, nonvotes_queued) == (
        if nonvotes_queued {
            Source::NonvoteQueue
        } else {
            Source::Nothing
        }),
        forall|source: Source|
            v.may_supply(source) <==> (source == v.source(true, true) || source == v.source(
                true,
                false,
            ) || source == v.source(false, true) || source == v.source(false, false)),
{
    assert forall|source: Source|
        v.may_supply(source) implies (source == v.source(true, true) || source == v.source(
        true,
        false,
    ) || source == v.source(false, true) || source == v.source(false, false)) by {
        let (a, b) = choose|a: bool, b: bool| source == #[trigger] v.source(a, b);
        assert(source == v.source(a, b));
    }
}

/// What the fallback stage is handed: from the store of votes up to 64 of the oldest for each worker,
/// from the other store up to 64 of the oldest, and from a queue what it gave. Those leave their store,
/// wait behind what waits, and are sent as far as the workers have room.
pub proof fn law_fallback_is_supplied(
    v: SchedulerSpec,
    source: Source,
    queued: Seq<TransactionRegion>,
    room: Seq<usize>,
)
    requires
        v.wf(),
    ensures
        ({
            let votes = if v.votes.entries.len() <= 64 * v.num_workers {
                v.votes.entries.len() as int
            } else {
                64 * v.num_workers
            };
            let others = if v.nonvotes.entries.len() <= 64 {
                v.nonvotes.entries.len() as int
            } else {
                64
            };
            let txs = match source {
                Source::VoteStore => regions(v.votes.entries.take(votes)),
                Source::NonvoteStore => regions(v.nonvotes.entries.take(others)),
                Source::VoteQueue => queued,
                Source::NonvoteQueue => queued,
                Source::Nothing => Seq::empty(),
            };
            let w = v.executed(source, queued, room);
            &&& w.fallback == v.fallback.enqueue(txs).send_all(room)
            &&& v.execute_messages(source, queued, room) == v.fallback.enqueue(txs).messages(
                v.slot,
                room,
            )
            &&& v.supply(source, queued) == txs
            &&& w.votes.entries == (if source == Source::VoteStore {
                v.votes.entries.skip(votes)
            } else {
                v.votes.entries
            })
            &&& w.nonvotes.entries == (if source == Source::NonvoteStore {
                v.nonvotes.entries.skip(others)
            } else {
                v.nonvotes.entries
            })
            &&& source != Source::VoteStore ==> w.votes == v.votes
            &&& source != Source::NonvoteStore ==> w.nonvotes == v.nonvotes
            &&& w.votes.inflight == v.votes.inflight && w.votes.dropped == v.votes.dropped
                && w.votes.capacity == v.votes.capacity
            &&& w.nonvotes.inflight == v.nonvotes.inflight && w.nonvotes.dropped
                == v.nonvotes.dropped && w.nonvotes.capacity == v.nonvotes.capacity
            &&& w.phase == v.phase
            &&& w.slot == v.slot
            &&& w.hold == v.hold
            &&& w.is_leader == v.is_leader
            &&& w.last == v.last
            &&& w.num_workers == v.num_workers
        }),
{
    let votes = if v.votes.entries.len() <= 64 * v.num_workers {
        v.votes.entries.len() as int
    } else {
        64 * v.num_workers
    };
    let others = if v.nonvotes.entries.len() <= 64 {
        v.nonvotes.entries.len() as int
    } else {
        64
    };
    assert(v.num_workers * 64 == 64 * v.num_workers);
    assert(v.num_workers >= 0);
    let max = (v.num_workers * 64) as usize;
    assert(first_regions(v.votes, max) =~= regions(v.votes.entries.take(votes)));
    assert(first_regions(v.nonvotes, 64) =~= regions(v.nonvotes.entries.take(others)));
    assert(v.supply(source, queued) =~= match source {
        Source::VoteStore => regions(v.votes.entries.take(votes)),
        Source::NonvoteStore => regions(v.nonvotes.entries.take(others)),
        Source::VoteQueue => queued,
        Source::NonvoteQueue => queued,
        Source::Nothing => Seq::empty(),
    });
}

/// The oldest stored votes, up to 64, are taken out for the vote stage.
pub proof fn law_votes_are_taken_oldest_first(v: SchedulerSpec)
    ensures
        ({
            let n = if v.votes.entries.len() <= 64 {
                v.votes.entries.len() as int
            } else {
                64
            };
            &&& first_regions(v.votes, 64) == regions(v.votes.entries.take(n))
            &&& v.without_votes().votes.entries == v.votes.entries.skip(n)
            &&& v.without_votes() == (SchedulerSpec { votes: v.without_votes().votes, ..v })
            &&& v.without_votes().votes.cursor == (if v.votes.cursor >= n {
                v.votes.cursor - n
            } else {
                0
            })
            &&& v.without_votes().votes == (StorageSpec {
                entries: v.without_votes().votes.entries,
                cursor: v.without_votes().votes.cursor,
                ..v.votes
            })
        }),
{
    let n = if v.votes.entries.len() <= 64 {
        v.votes.entries.len() as int
    } else {
        64
    };
    assert(first_regions(v.votes, 64) =~= regions(v.votes.entries.take(n)));
}

/// A block for the slot that is being served starts the block stage; any other block changes nothing.
pub proof fn law_only_the_current_block_is_taken(v: SchedulerSpec, slot: u64)
    ensures
        slot == v.slot ==> v.offered(slot) == (SchedulerSpec { phase: Phase::Block, ..v }),
        slot != v.slot ==> v.offered(slot) == v,
{
}

/// The fallback stage is closed once every message is answered: nothing waits in it then, and the rest
/// of the slot is waited for.
pub proof fn law_fallback_closes_when_answered(v: SchedulerSpec)
    ensures
        v.fallback.processing != 0 ==> v.closed_fallback() == v,
        v.fallback.processing == 0 ==> v.closed_fallback() == (SchedulerSpec {
            phase: Phase::FallbackRest,
            fallback: v.closed_fallback().fallback,
            ..v
        }) && v.closed_fallback().fallback == v.fallback.cleared(),
{
}

/// A report takes the counts of what found no room, and the end of a session takes all that is stored;
/// nothing else changes.
pub proof fn law_reports_and_releases(v: SchedulerSpec)
    requires
        v.wf(),
    ensures
        v.without_dropped().votes.dropped == 0,
        v.without_dropped().nonvotes.dropped == 0,
        v.without_dropped() == (SchedulerSpec {
            votes: StorageSpec { dropped: 0, ..v.votes },
            nonvotes: StorageSpec { dropped: 0, ..v.nonvotes },
            ..v
        }),
        v.released().votes.entries.len() == 0,
        v.released().nonvotes.entries.len() == 0,
        first_regions(v.votes, usize::MAX) == regions(v.votes.entries),
        first_regions(v.nonvotes, usize::MAX) == regions(v.nonvotes.entries),
        v.released() == (SchedulerSpec {
            votes: v.released().votes,
            nonvotes: v.released().nonvotes,
            ..v
        }),
{
    assert(first_regions(v.votes, usize::MAX) =~= regions(v.votes.entries));
    assert(first_regions(v.nonvotes, usize::MAX) =~= regions(v.nonvotes.entries));
}

/// A new scheduler knows of no slot, does not lead, holds nothing, and may store 4096 votes and 65536
/// other transactions.
pub proof fn law_schedulers_start_empty(num_workers: usize, last: Progress)
    ensures
        ({
            let v = SchedulerSpec::fresh(num_workers, last);
            &&& v.phase == Phase::Waiting
            &&& v.slot == 0
            &&& !v.hold
            &&& !v.is_leader
            &&& v.last == last
            &&& v.num_workers == num_workers
            &&& v.fallback == FallbackSpec::fresh(num_workers)
            &&& v.votes == StorageSpec::fresh(4096)
            &&& v.nonvotes == StorageSpec::fresh(65536)
        }),
{
}

/// CHECKs can be out only in the slot of another leader or while they are waited for, only those of one
/// store at a time, and none in a slot that is held back.
pub proof fn law_checks_out(v: SchedulerSpec)
    requires
        v.wf(),
    ensures
        v.votes.inflight != 0 ==> v.nonvotes.inflight == 0 && (v.phase == Phase::NotLeader || v.phase
            == Phase::DrainVotes),
        v.nonvotes.inflight != 0 ==> v.votes.inflight == 0 && (v.phase == Phase::NotLeader || v.phase
            == Phase::DrainVotes || v.phase == Phase::DrainNonvotes),
        v.phase == Phase::NotLeader && v.hold ==> v.votes.inflight == 0 && v.nonvotes.inflight == 0,
        v.is_leader <==> v.phase != Phase::Waiting && v.phase != Phase::NotLeader && v.phase
            != Phase::DrainVotes && v.phase != Phase::DrainNonvotes && v.phase != Phase::Exited,
{
}

} // verus!
