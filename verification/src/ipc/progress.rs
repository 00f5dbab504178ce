//! Validator progress feed.

use vstd::prelude::*;

verus! {

/// Another validator leads the current slot.
pub const NOT_LEADER: u8 = 0;

/// This validator leads the current slot, and its bank is not there yet.
pub const LEADER_STARTING: u8 = 1;

/// This validator leads the current slot, and its bank is there.
pub const LEADER_READY: u8 = 2;

/// For how long the feed may be silent before the validator is taken to be gone.
pub const PROGRESS_MESSAGE_TIMEOUT_MS: u64 = 400;

/// The blockhash before any is known.
pub const NO_HASH: [u8; 32] = [
    0, 0, 0, 0, 0, 0, 0, 0, 0, 0, 0, 0, 0, 0, 0, 0, 0, 0, 0, 0, 0, 0, 0, 0, 0, 0, 0, 0, 0, 0, 0, 0,
];

/// How far the validator has come.
#[derive(Clone, Copy, Debug)]
pub struct Progress {
    pub leader_state: u8,
    pub current_slot: u64,
    /// 0 where it is not known.
    pub next_leader_slot: u64,
    /// How much of the current slot is over, in percent.
    pub current_slot_progress: u8,
    pub epoch: u64,
    pub latest_blockhash: [u8; 32],
}

impl Progress {
    /// Nothing is known yet.
    pub open spec fn unknown() -> Self {
        Progress {
            leader_state: 0,
            current_slot: 0,
            next_leader_slot: 0,
            current_slot_progress: 0,
            epoch: 0,
            latest_blockhash: NO_HASH,
        }
    }
}

/// Keeps the latest progress message.
pub struct ProgressTracker {
    last: Progress,
}

/// The feed has been silent for too long.
#[derive(Clone, Copy, Debug, PartialEq, Eq, Structural)]
pub struct Stale;

/// What a poll of the feed found.
#[derive(Clone, Copy, Debug, PartialEq, Eq, Structural)]
pub enum Polled {
    /// A new message; the time of silence starts anew.
    Fresh,
    /// No new message.
    Silent,
}

impl ProgressTracker {
    /// The latest message.
    pub closed spec fn latest(&self) -> Progress {
        self.last
    }

    /// A tracker that has seen no message.
    pub fn new() -> (result: Self)
        ensures
            result.latest() == Progress::unknown(),
    {
        ProgressTracker {
            last: Progress {
                leader_state: 0,
                current_slot: 0,
                next_leader_slot: 0,
                current_slot_progress: 0,
                epoch: 0,
                latest_blockhash: NO_HASH,
            },
        }
    }

    /// Takes the messages that are pending, oldest first, and keeps the latest. `silent_ms` is the
    /// time since a message last came; where there is none now and that time is over the limit,
    /// the feed is stale.
    pub fn poll(&mut self, pending: &[Progress], silent_ms: u64) -> (result: Result<Polled, Stale>)
        ensures
            pending@.len() > 0 ==> result == Ok::<Polled, Stale>(Polled::Fresh)
                && final(self).latest() == pending@.last(),
            pending@.len() == 0 ==> final(self).latest() == old(self).latest(),
            pending@.len() == 0 && silent_ms <= PROGRESS_MESSAGE_TIMEOUT_MS ==> result == Ok::<
                Polled,
                Stale,
            >(Polled::Silent),
            pending@.len() == 0 && silent_ms > PROGRESS_MESSAGE_TIMEOUT_MS ==> result == Err::<
                Polled,
                Stale,
            >(Stale),
    {
        if pending.len() > 0 {
            self.last = pending[pending.len() - 1];
            Ok(Polled::Fresh)
        } else if silent_ms > PROGRESS_MESSAGE_TIMEOUT_MS {
            Err(Stale)
        } else {
            Ok(Polled::Silent)
        }
    }

    /// Gets the latest message without polling.
    pub fn last(&self) -> (result: Progress)
        ensures
            result == self.latest(),
    {
        self.last
    }

    /// Gets the latest blockhash without polling.
    pub fn blockhash(&self) -> (result: [u8; 32])
        ensures
            result == self.latest().latest_blockhash,
    {
        self.last.latest_blockhash
    }
}

/// Before the first message nothing is known: another validator leads, no slot has begun and none is
/// this validator's, and each byte of the blockhash is 0.
pub proof fn law_nothing_is_known_at_first()
    ensures
        Progress::unknown().leader_state == NOT_LEADER,
        NOT_LEADER != LEADER_STARTING,
        NOT_LEADER != LEADER_READY,
        LEADER_STARTING != LEADER_READY,
        Progress::unknown().current_slot == 0,
        Progress::unknown().next_leader_slot == 0,
        Progress::unknown().current_slot_progress == 0,
        Progress::unknown().epoch == 0,
        forall|i: int| 0 <= i < 32 ==> #[trigger] Progress::unknown().latest_blockhash@[i] == 0,
{
}

} // verus!
