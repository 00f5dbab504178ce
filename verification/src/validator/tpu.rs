//! TPU packet ingestion into the scheduler's vote and nonvote queues.

use crate::bindings::TransactionRegion;
use crate::consts::BATCH_SIZE;
use crate::ipc::tpu_to_pack::Packet;
use crate::rdtsc::instant::Instant;
use vstd::prelude::*;

verus! {

/// How often drops are reported.
pub const STATS_INTERVAL_MS: u64 = 1000;

/// Counts what found no room in the queues.
pub struct Stats {
    /// When drops were last reported.
    pub timer: Instant,
    pub dropped_votes: usize,
    pub dropped_nonvotes: usize,
}

impl Stats {
    /// Nothing dropped.
    pub fn new() -> (result: Self)
        ensures
            result.dropped_votes == 0,
            result.dropped_nonvotes == 0,
    {
        Stats { timer: Instant::now(), dropped_votes: 0, dropped_nonvotes: 0 }
    }

    /// Returns what was dropped since the last report, where one is due and there is anything to
    /// report. The clock decides whether one is due; as long as it is not, drops that wait for a
    /// report put it off no further.
    pub fn log(&mut self) -> (result: Option<(usize, usize)>)
        ensures
            result matches Some(report) ==> report == (
                old(self).dropped_votes,
                old(self).dropped_nonvotes,
            ) && report != (0usize, 0usize) && final(self).dropped_votes == 0 && final(self).dropped_nonvotes == 0,
            result is None ==> final(self).dropped_votes == old(self).dropped_votes && final(self).dropped_nonvotes == old(self).dropped_nonvotes,
            result is None && (old(self).dropped_votes != 0 || old(self).dropped_nonvotes != 0)
                ==> *final(self) == *old(self),
    {
        let elapsed: u64 = self.timer.elapsed_ms();
        self.log_after(elapsed)
    }

    /// What [`Stats::log`] does `elapsed_ms` after the last report: what [`Stats::log_at`] does at the
    /// time that the clock now shows.
    pub fn log_after(&mut self, elapsed_ms: u64) -> (result: Option<(usize, usize)>)
        ensures
            result is Some <==> elapsed_ms > STATS_INTERVAL_MS && (old(self).dropped_votes != 0
                || old(self).dropped_nonvotes != 0),
            result matches Some(report) ==> report == (
                old(self).dropped_votes,
                old(self).dropped_nonvotes,
            ),
            elapsed_ms > STATS_INTERVAL_MS ==> final(self).dropped_votes == 0,
            elapsed_ms > STATS_INTERVAL_MS ==> final(self).dropped_nonvotes == 0,
            elapsed_ms <= STATS_INTERVAL_MS ==> *final(self) == *old(self),
    {
        self.log_at(elapsed_ms, Instant::now())
    }

    /// Returns what was dropped since the last report, `elapsed_ms` after it, where one is due and there
    /// is anything to report. The interval starts anew at `now` where a report was due, even with nothing
    /// to report, and only there.
    pub fn log_at(&mut self, elapsed_ms: u64, now: Instant) -> (result: Option<(usize, usize)>)
        ensures
            result == (if elapsed_ms > STATS_INTERVAL_MS && (old(self).dropped_votes != 0 || old(
                self,
            ).dropped_nonvotes != 0) {
                Some((old(self).dropped_votes, old(self).dropped_nonvotes))
            } else {
                None
            }),
            *final(self) == (if elapsed_ms > STATS_INTERVAL_MS {
                Stats { timer: now, dropped_votes: 0, dropped_nonvotes: 0 }
            } else {
                *old(self)
            }),
    {
        if elapsed_ms <= STATS_INTERVAL_MS {
            return None;
        }
        self.timer = now;
        if self.dropped_votes != 0 || self.dropped_nonvotes != 0 {
            let report = (self.dropped_votes, self.dropped_nonvotes);
            self.dropped_votes = 0;
            self.dropped_nonvotes = 0;
            Some(report)
        } else {
            None
        }
    }
}

/// Whether incoming transactions are mirrored: while this validator leads, and someone listens.
pub fn mirrors(is_leader: bool, receivers: usize) -> (result: bool)
    ensures
        result == (is_leader && receivers != 0),
{
    is_leader && receivers != 0
}

/// What becomes of packets.
pub struct Ingested {
    /// To the vote queue.
    pub votes: Vec<TransactionRegion>,
    /// To the nonvote queue.
    pub nonvotes: Vec<TransactionRegion>,
    /// To those who listen.
    pub mirrored: Vec<TransactionRegion>,
    /// No room: to be freed.
    pub freed: Vec<TransactionRegion>,
}

/// The value of [`Ingested`].
pub struct IngestedSpec {
    pub votes: Seq<TransactionRegion>,
    pub nonvotes: Seq<TransactionRegion>,
    pub mirrored: Seq<TransactionRegion>,
    pub freed: Seq<TransactionRegion>,
    /// How many votes found no room.
    pub dropped_votes: int,
    /// How many other transactions found no room.
    pub dropped_nonvotes: int,
}

/// What becomes of the first `n` packets, where the queues have `vote_room` and `nonvote_room`
/// places left.
pub open spec fn ingested(
    packets: Seq<Packet>,
    vote_room: usize,
    nonvote_room: usize,
    mirror: bool,
    n: nat,
) -> IngestedSpec
    decreases n,
{
    if n == 0 {
        IngestedSpec {
            votes: Seq::empty(),
            nonvotes: Seq::empty(),
            mirrored: Seq::empty(),
            freed: Seq::empty(),
            dropped_votes: 0,
            dropped_nonvotes: 0,
        }
    } else {
        let v = ingested(packets, vote_room, nonvote_room, mirror, (n - 1) as nat);
        match packets[n - 1] {
            Packet::Vote(tx) => if v.votes.len() < vote_room {
                IngestedSpec { votes: v.votes.push(tx), ..v }
            } else {
                IngestedSpec {
                    freed: v.freed.push(tx),
                    dropped_votes: v.dropped_votes + 1,
                    ..v
                }
            },
            Packet::Nonvote(tx) => {
                let m = if mirror {
                    IngestedSpec { mirrored: v.mirrored.push(tx), ..v }
                } else {
                    v
                };
                if v.nonvotes.len() < nonvote_room {
                    IngestedSpec { nonvotes: v.nonvotes.push(tx), ..m }
                } else {
                    IngestedSpec {
                        freed: v.freed.push(tx),
                        dropped_nonvotes: v.dropped_nonvotes + 1,
                        ..m
                    }
                }
            },
        }
    }
}

/// How many of `available` items one tick takes.
pub open spec fn per_tick(available: nat) -> nat {
    if available <= BATCH_SIZE {
        available
    } else {
        BATCH_SIZE as nat
    }
}

/// What becomes of a batch of packets from the remote TPU.
#[derive(Clone, Copy, Debug, PartialEq, Eq, Structural)]
pub enum RemoteBatch {
    /// There is none.
    Empty,
    /// The nonvote queue has no room for this many: they are discarded, after they went to those who
    /// listen where mirroring is on.
    Discard(usize, bool),
    /// This many go to the nonvote queue, and to those who listen where mirroring is on.
    Forward(usize, bool),
}

/// What becomes of the next batch, where `available` packets from the remote TPU are queued and the
/// nonvote queue has `nonvote_room` places left.
pub open spec fn remote_batch(available: usize, nonvote_room: usize, mirror: bool) -> RemoteBatch {
    let n = per_tick(available as nat) as usize;
    if n == 0 {
        RemoteBatch::Empty
    } else if n > nonvote_room {
        RemoteBatch::Discard(n, mirror)
    } else {
        RemoteBatch::Forward(n, mirror)
    }
}

impl RemoteBatch {
    /// How many packets leave the queue.
    pub open spec fn taken(self) -> nat {
        match self {
            RemoteBatch::Empty => 0,
            RemoteBatch::Discard(n, _) => n as nat,
            RemoteBatch::Forward(n, _) => n as nat,
        }
    }

    /// How many of them go to those who listen.
    pub open spec fn mirrored(self) -> nat {
        match self {
            RemoteBatch::Discard(n, true) => n as nat,
            RemoteBatch::Forward(n, true) => n as nat,
            _ => 0,
        }
    }
}

impl Stats {
    /// Serves up to a batch of packets from the validator's TPU.
    pub fn service_tpu(
        &mut self,
        packets: &[Packet],
        vote_room: usize,
        nonvote_room: usize,
        mirror: bool,
    ) -> (result: Ingested)
        requires
            old(self).dropped_votes + per_tick(packets@.len()) <= usize::MAX,
            old(self).dropped_nonvotes + per_tick(packets@.len()) <= usize::MAX,
        ensures
            final(self).timer == old(self).timer,
            ({
                let v = ingested(
                    packets@,
                    vote_room,
                    nonvote_room,
                    mirror,
                    per_tick(packets@.len()),
                );
                &&& result.votes@ == v.votes
                &&& result.nonvotes@ == v.nonvotes
                &&& result.mirrored@ == v.mirrored
                &&& result.freed@ == v.freed
                &&& final(self).dropped_votes == old(self).dropped_votes + v.dropped_votes
                &&& final(self).dropped_nonvotes == old(self).dropped_nonvotes
                    + v.dropped_nonvotes
            }),
    {
        let n: usize = if packets.len() <= BATCH_SIZE {
            packets.len()
        } else {
            BATCH_SIZE
        };
        let mut result = Ingested {
            votes: Vec::new(),
            nonvotes: Vec::new(),
            mirrored: Vec::new(),
            freed: Vec::new(),
        };
        let mut k: usize = 0;
        while k < n
            invariant
                k <= n <= packets@.len(),
                n <= BATCH_SIZE,
                old(self).dropped_votes + n <= usize::MAX,
                old(self).dropped_nonvotes + n <= usize::MAX,
                self.timer == old(self).timer,
                ({
                    let v = ingested(packets@, vote_room, nonvote_room, mirror, k as nat);
                    &&& result.votes@ == v.votes
                    &&& result.nonvotes@ == v.nonvotes
                    &&& result.mirrored@ == v.mirrored
                    &&& result.freed@ == v.freed
                    &&& 0 <= v.dropped_votes <= k
                    &&& 0 <= v.dropped_nonvotes <= k
                    &&& self.dropped_votes == old(self).dropped_votes + v.dropped_votes
                    &&& self.dropped_nonvotes == old(self).dropped_nonvotes + v.dropped_nonvotes
                }),
            decreases n - k,
        {
            match packets[k] {
                Packet::Vote(tx) => {
                    if result.votes.len() < vote_room {
                        result.votes.push(tx);
                    } else {
                        result.freed.push(tx);
                        self.dropped_votes = self.dropped_votes + 1;
                    }
                },
                Packet::Nonvote(tx) => {
                    if mirror {
                        result.mirrored.push(tx);
                    }
                    if result.nonvotes.len() < nonvote_room {
                        result.nonvotes.push(tx);
                    } else {
                        result.freed.push(tx);
                        self.dropped_nonvotes = self.dropped_nonvotes + 1;
                    }
                },
            }
            k = k + 1;
        }
        result
    }

    /// Serves up to a batch of packets from the remote TPU, where `available` are queued.
    pub fn service_remote(&mut self, available: usize, nonvote_room: usize, mirror: bool) -> (
        result: RemoteBatch)
        requires
            old(self).dropped_nonvotes + per_tick(available as nat) <= usize::MAX,
        ensures
            final(self).timer == old(self).timer,
            final(self).dropped_votes == old(self).dropped_votes,
            result == remote_batch(available, nonvote_room, mirror),
            final(self).dropped_nonvotes == old(self).dropped_nonvotes + (if result is Discard {
                per_tick(available as nat) as int
            } else {
                0
            }),
    {
        let n: usize = if available <= BATCH_SIZE {
            available
        } else {
            BATCH_SIZE
        };
        if n == 0 {
            RemoteBatch::Empty
        } else if n > nonvote_room {
            self.dropped_nonvotes = self.dropped_nonvotes + n;
            RemoteBatch::Discard(n, mirror)
        } else {
            RemoteBatch::Forward(n, mirror)
        }
    }
}

/// Votes are never mirrored, nothing is mirrored where mirroring is off, and mirroring changes
/// nothing about what the queues get: the stream is a copy of what comes in.
pub proof fn law_mirroring_is_a_copy(
    packets: Seq<Packet>,
    vote_room: usize,
    nonvote_room: usize,
    n: nat,
)
    requires
        n <= packets.len(),
    ensures
        ({
            let on = ingested(packets, vote_room, nonvote_room, true, n);
            let off = ingested(packets, vote_room, nonvote_room, false, n);
            &&& off.mirrored.len() == 0
            &&& on.votes == off.votes
            &&& on.nonvotes == off.nonvotes
            &&& on.freed == off.freed
            &&& forall|k: int|
                0 <= k < on.mirrored.len() ==> exists|i: int|
                    0 <= i < n && #[trigger] packets[i] == Packet::Nonvote(
                        #[trigger] on.mirrored[k],
                    )
        }),
    decreases n,
{
    if n > 0 {
        let m = (n - 1) as nat;
        law_mirroring_is_a_copy(packets, vote_room, nonvote_room, m);
        let before = ingested(packets, vote_room, nonvote_room, true, m);
        let on = ingested(packets, vote_room, nonvote_room, true, n);
        assert forall|k: int| 0 <= k < on.mirrored.len() implies exists|i: int|
            0 <= i < n && #[trigger] packets[i] == Packet::Nonvote(#[trigger] on.mirrored[k]) by {
            if k < before.mirrored.len() {
                assert(on.mirrored[k] == before.mirrored[k]);
                let i = choose|i: int|
                    0 <= i < m && #[trigger] packets[i] == Packet::Nonvote(
                        #[trigger] before.mirrored[k],
                    );
                assert(packets[i] == Packet::Nonvote(on.mirrored[k]));
            } else {
                assert(packets[n - 1] == Packet::Nonvote(on.mirrored[k]));
            }
        }
    }
}

/// The transactions among the first `n` packets that are no votes, in order.
pub open spec fn nonvotes_of(packets: Seq<Packet>, n: nat) -> Seq<TransactionRegion>
    decreases n,
{
    if n == 0 {
        Seq::empty()
    } else {
        match packets[n - 1] {
            Packet::Vote(_) => nonvotes_of(packets, (n - 1) as nat),
            Packet::Nonvote(tx) => nonvotes_of(packets, (n - 1) as nat).push(tx),
        }
    }
}

/// Mirroring does not depend on room: while it is on, exactly the transactions that come in and are
/// no votes are mirrored, each once and in order, and while it is off none is; packets of the remote
/// TPU are mirrored as they leave their queue, discarded or not.
pub proof fn law_mirroring_ignores_room(
    packets: Seq<Packet>,
    vote_room: usize,
    nonvote_room: usize,
    mirror: bool,
    n: nat,
    available: usize,
)
    requires
        n <= packets.len(),
    ensures
        ingested(packets, vote_room, nonvote_room, mirror, n).mirrored == (if mirror {
            nonvotes_of(packets, n)
        } else {
            Seq::empty()
        }),
        remote_batch(available, nonvote_room, mirror).taken() == per_tick(available as nat),
        remote_batch(available, nonvote_room, mirror).mirrored() == (if mirror {
            per_tick(available as nat)
        } else {
            0
        }),
    decreases n,
{
    if n > 0 {
        law_mirroring_ignores_room(
            packets,
            vote_room,
            nonvote_room,
            mirror,
            (n - 1) as nat,
            available,
        );
    }
}

/// Every packet goes to a queue or is freed, and the counters tell how many found no room.
pub proof fn law_every_packet_is_accounted_for(
    packets: Seq<Packet>,
    vote_room: usize,
    nonvote_room: usize,
    mirror: bool,
    n: nat,
)
    ensures
        ({
            let v = ingested(packets, vote_room, nonvote_room, mirror, n);
            &&& v.votes.len() + v.nonvotes.len() + v.freed.len() == n
            &&& v.freed.len() == v.dropped_votes + v.dropped_nonvotes
            &&& v.votes.len() <= vote_room
            &&& v.nonvotes.len() <= nonvote_room
        }),
    decreases n,
{
    if n > 0 {
        law_every_packet_is_accounted_for(
            packets,
            vote_room,
            nonvote_room,
            mirror,
            (n - 1) as nat,
        );
    }
}

/// The regions of `packets`, in order.
pub open spec fn packet_regions(packets: Seq<Packet>) -> Seq<TransactionRegion> {
    packets.map_values(
        |packet: Packet|
            match packet {
                Packet::Vote(tx) => tx,
                Packet::Nonvote(tx) => tx,
            },
    )
}

/// No packet is lost or doubled, and none changes its queue. The votes that are queued are the first
/// votes among the packets, in order, as many as there is room for; the same holds of the others. What
/// is mirrored, where mirroring is on, are all others. The regions that came in are those that are
/// queued and those that are freed, and the counters tell how many of each kind are freed.
pub proof fn law_packets_keep_their_queue(
    packets: Seq<Packet>,
    vote_room: usize,
    nonvote_room: usize,
    mirror: bool,
    n: nat,
)
    requires
        n <= packets.len(),
    ensures
        ({
            let v = ingested(packets, vote_room, nonvote_room, mirror, n);
            let votes = packet_regions(packets.take(n as int).filter(|p: Packet| p is Vote));
            let others = packet_regions(packets.take(n as int).filter(|p: Packet| p is Nonvote));
            &&& v.votes == votes.take(
                if votes.len() <= vote_room {
                    votes.len() as int
                } else {
                    vote_room as int
                },
            )
            &&& v.nonvotes == others.take(
                if others.len() <= nonvote_room {
                    others.len() as int
                } else {
                    nonvote_room as int
                },
            )
            &&& v.mirrored == (if mirror {
                others
            } else {
                Seq::empty()
            })
            &&& votes.len() + others.len() == n
            &&& v.dropped_votes == votes.len() - v.votes.len()
            &&& v.dropped_nonvotes == others.len() - v.nonvotes.len()
            &&& v.votes.to_multiset().add(v.nonvotes.to_multiset()).add(v.freed.to_multiset())
                == packet_regions(packets.take(n as int)).to_multiset()
        }),
    decreases n,
{
    broadcast use vstd::seq_lib::group_to_multiset_ensures;

    reveal(Seq::filter);
    let all = packets.take(n as int);
    let v = ingested(packets, vote_room, nonvote_room, mirror, n);
    if n == 0 {
        assert(v.votes =~= packet_regions(all.filter(|p: Packet| p is Vote)).take(0));
        assert(v.nonvotes =~= packet_regions(all.filter(|p: Packet| p is Nonvote)).take(0));
        assert(v.mirrored =~= packet_regions(all.filter(|p: Packet| p is Nonvote)));
        assert(v.votes.to_multiset().add(v.nonvotes.to_multiset()).add(v.freed.to_multiset())
            =~= packet_regions(all).to_multiset());
    } else {
        let m = (n - 1) as nat;
        law_packets_keep_their_queue(packets, vote_room, nonvote_room, mirror, m);
        let fewer = packets.take(m as int);
        let u = ingested(packets, vote_room, nonvote_room, mirror, m);
        assert(all.drop_last() =~= fewer);
        assert(all.last() == packets[n - 1]);
        let votes0 = packet_regions(fewer.filter(|p: Packet| p is Vote));
        let others0 = packet_regions(fewer.filter(|p: Packet| p is Nonvote));
        let votes = packet_regions(all.filter(|p: Packet| p is Vote));
        let others = packet_regions(all.filter(|p: Packet| p is Nonvote));
        let before = u.votes.to_multiset().add(u.nonvotes.to_multiset()).add(u.freed.to_multiset());
        let after = v.votes.to_multiset().add(v.nonvotes.to_multiset()).add(v.freed.to_multiset());
        match packets[n - 1] {
            Packet::Vote(tx) => {
                assert(votes =~= votes0.push(tx));
                assert(others =~= others0);
                assert(packet_regions(all) =~= packet_regions(fewer).push(tx));
                assert(after =~= before.insert(tx));
                if votes.len() <= vote_room {
                    assert(v.votes =~= votes.take(votes.len() as int));
                } else {
                    assert(v.votes =~= votes.take(vote_room as int));
                }
            },
            Packet::Nonvote(tx) => {
                assert(others =~= others0.push(tx));
                assert(votes =~= votes0);
                assert(packet_regions(all) =~= packet_regions(fewer).push(tx));
                assert(after =~= before.insert(tx));
                if others.len() <= nonvote_room {
                    assert(v.nonvotes =~= others.take(others.len() as int));
                } else {
                    assert(v.nonvotes =~= others.take(nonvote_room as int));
                }
            },
        }
    }
}

/// One tick takes what there is, up to 64 packets from each source. Packets of the remote TPU stay
/// together: all that a tick takes go to the nonvote queue where it has room for them, and none of
/// them where it has not.
pub proof fn law_remote_batches_stay_together(available: usize, nonvote_room: usize, mirror: bool)
    ensures
        per_tick(available as nat) <= 64,
        per_tick(available as nat) <= available,
        per_tick(available as nat) == 64 || per_tick(available as nat) == available,
        available == 0 ==> remote_batch(available, nonvote_room, mirror) == RemoteBatch::Empty,
        0 < available <= 64 && available <= nonvote_room ==> remote_batch(
            available,
            nonvote_room,
            mirror,
        ) == RemoteBatch::Forward(available, mirror),
        0 < available <= 64 && available > nonvote_room ==> remote_batch(
            available,
            nonvote_room,
            mirror,
        ) == RemoteBatch::Discard(available, mirror),
        available > 64 && nonvote_room >= 64 ==> remote_batch(available, nonvote_room, mirror)
            == RemoteBatch::Forward(64, mirror),
        available > 64 && nonvote_room < 64 ==> remote_batch(available, nonvote_room, mirror)
            == RemoteBatch::Discard(64, mirror),
{
}

} // verus!
