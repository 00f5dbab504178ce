//! Plain values exchanged with the validator.

use vstd::prelude::*;

verus! {

/// A serialized transaction in shared memory.
#[derive(Clone, Copy, Debug, PartialEq, Eq, Structural)]
pub struct TransactionRegion {
    /// Where the bytes start.
    pub offset: usize,
    /// How many bytes there are.
    pub length: u32,
}

/// A list of account keys in shared memory.
#[derive(Clone, Copy, Debug, PartialEq, Eq, Structural)]
pub struct PubkeysRegion {
    /// Where the keys start.
    pub offset: usize,
    /// How many keys there are; 0 means that nothing is allocated.
    pub num_pubkeys: u32,
}

/// Asks a worker to check transactions.
pub const CHECK: u16 = 0;

/// Asks a worker to execute transactions.
pub const EXECUTE: u16 = 1;

/// With [`CHECK`]: whether a transaction is known or too old.
pub const STATUS_CHECKS: u16 = 2;

/// With [`CHECK`]: load the address lookup tables.
pub const LOAD_ADDRESS_LOOKUP_TABLES: u16 = 8;

/// A message to a worker.
pub struct PackMessage {
    /// The worker that it goes to.
    pub worker: usize,
    /// What is asked of the worker.
    pub flags: u16,
    /// The last slot in which the worker may serve it.
    pub max_working_slot: u64,
    /// The transactions.
    pub batch: Vec<TransactionRegion>,
}

/// The value of a [`PackMessage`].
pub struct PackMessageSpec {
    pub worker: int,
    pub flags: u16,
    pub max_working_slot: u64,
    pub batch: Seq<TransactionRegion>,
}

impl View for PackMessage {
    type V = PackMessageSpec;

    open spec fn view(&self) -> PackMessageSpec {
        PackMessageSpec {
            worker: self.worker as int,
            flags: self.flags,
            max_working_slot: self.max_working_slot,
            batch: self.batch@,
        }
    }
}

/// The values of a list of messages.
pub open spec fn message_views(messages: Seq<PackMessage>) -> Seq<PackMessageSpec> {
    messages.map_values(|message: PackMessage| message@)
}

/// A reply says that the worker has served the message.
pub const PROCESSED: u8 = 0;

/// A reply says that the message came too late.
pub const MAX_WORKING_SLOT_EXCEEDED: u8 = 2;

/// The lookup tables were loaded.
pub const RESOLVE_PERFORMED: u8 = 2;

/// The lookup tables could not be loaded.
pub const RESOLVE_FAILED: u8 = 4;

/// The status of a transaction was looked up.
pub const STATUS_PERFORMED: u8 = 2;

/// The transaction is too old.
pub const STATUS_TOO_OLD: u8 = 4;

/// The transaction was processed before.
pub const STATUS_ALREADY_PROCESSED: u8 = 8;

/// The nonce of the transaction cannot be used.
pub const STATUS_INVALID_NONCE: u8 = 16;

/// The transaction is in the block.
pub const INCLUDED: u8 = 0;

/// There is no bank for the slot.
pub const BANK_NOT_AVAILABLE: u8 = 1;

/// The block has no room for the transaction.
pub const WOULD_EXCEED_MAX_BLOCK_COST_LIMIT: u8 = 81;

/// What a worker says of one transaction that it was to execute.
#[derive(Clone, Copy, Debug, PartialEq, Eq, Structural)]
pub struct ExecutionResponse {
    /// Why the transaction is not in the block, or [`INCLUDED`].
    pub not_included_reason: u8,
}

/// What a worker says of one transaction that it was to check.
pub struct CheckResponse {
    pub parsing_and_sanitization_flags: u8,
    pub status_check_flags: u8,
    pub resolve_flags: u8,
    /// Where the looked-up keys lie.
    pub resolved_pubkeys: PubkeysRegion,
    /// The looked-up keys.
    pub keys: Vec<[u8; 32]>,
}

/// A transaction that a worker hands back.
pub struct Returned {
    pub region: TransactionRegion,
    /// Its first signature.
    pub signature: [u8; 64],
}

/// What a worker says of the transactions of a message.
pub enum Responses {
    /// The answers to EXECUTE.
    Execution(Vec<ExecutionResponse>),
    /// The answers to CHECK.
    Check(Vec<CheckResponse>),
    /// No answers that this side knows, with their tag.
    Other(u8),
}

/// A worker's reply to a message.
pub struct Reply {
    pub processed_code: u8,
    /// The transactions of the message.
    pub batch: Vec<Returned>,
    pub responses: Responses,
}

/// The largest number of workers.
pub const MAX_WORKERS: usize = 64;

/// The largest number of transactions that one message carries.
pub const MAX_TRANSACTIONS_PER_MESSAGE: usize = 64;

/// The value of a message is its worker, flags, slot and transactions, and messages keep their order.
pub proof fn law_message_values(messages: Seq<PackMessage>, k: int)
    requires
        0 <= k < messages.len(),
    ensures
        message_views(messages).len() == messages.len(),
        message_views(messages)[k].worker == messages[k].worker,
        message_views(messages)[k].flags == messages[k].flags,
        message_views(messages)[k].max_working_slot == messages[k].max_working_slot,
        message_views(messages)[k].batch == messages[k].batch@,
{
}

} // verus!
