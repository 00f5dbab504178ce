//! System tuning constants.

use crate::bindings::{MAX_TRANSACTIONS_PER_MESSAGE, MAX_WORKERS};
use vstd::prelude::*;

verus! {

/// Standardized queue pull and dispatch size per tick.
pub const BATCH_SIZE: usize = 64;

/// Block engine to scheduler: blocks of transactions.
pub const BLOCK_QUEUE_CAPACITY: usize = 128;

/// Remote TPU to validator: packets.
pub const REMOTE_TPU_QUEUE_CAPACITY: usize = 1024;

/// TPU ingest to scheduler: votes.
pub const VOTE_QUEUE_CAPACITY: usize = 2048;

/// TPU ingest to scheduler: other transactions.
pub const NONVOTE_QUEUE_CAPACITY: usize = 8192;

/// The largest number of votes in storage.
pub const VOTE_STORAGE_CAPACITY: usize = 4096;

/// The largest number of other transactions in storage.
pub const NONVOTE_STORAGE_CAPACITY: usize = 65536;

/// The queue from the validator's TPU.
pub const TPU_TO_PACK_CAPACITY: usize = 1024;

/// The queue to each worker.
pub const PACK_TO_WORKER_CAPACITY: usize = 8;

/// The queue from each worker.
pub const WORKER_TO_PACK_CAPACITY: usize = 16;

/// The queue of progress messages: one slot of 64 ticks.
pub const PROGRESS_TRACKER_CAPACITY: usize = 64;

/// The number of allocator handles: one for each thread.
pub const NUM_ALLOCATOR_HANDLES: usize = 2;

/// The most bytes that one allocation of the shared allocator takes.
pub const MAX_ALLOCATION_SIZE: u32 = 4096;

/// The size of an allocator slab.
pub const SLAB_SIZE: u32 = 2097152;

/// The number of size classes of the allocator.
pub const NUM_SIZE_CLASSES: usize = 5;

/// The number of allocators on the validator's side that are not a worker's.
pub const GLOBAL_ALLOCATORS: usize = 1;

/// The size of the slot for a transaction: the next power of two above the size of a packet.
pub const TX_SLOT_SIZE: usize = 2048;

/// The size of the slot for a batch: one region of 16 bytes for each transaction.
pub const BATCH_SLOT_SIZE: usize = 1024;

/// The most that can be alive in shared memory, without the lists of responses and what they own.
pub open spec fn live_bytes() -> int {
    TX_SLOT_SIZE * (VOTE_QUEUE_CAPACITY + NONVOTE_QUEUE_CAPACITY + VOTE_STORAGE_CAPACITY
        + NONVOTE_STORAGE_CAPACITY + TPU_TO_PACK_CAPACITY) + TX_SLOT_SIZE * (
    PACK_TO_WORKER_CAPACITY + WORKER_TO_PACK_CAPACITY) * MAX_TRANSACTIONS_PER_MESSAGE
        + BATCH_SLOT_SIZE * (PACK_TO_WORKER_CAPACITY + WORKER_TO_PACK_CAPACITY)
}

/// What partly used slabs can take: one for each allocator and size class.
pub open spec fn fragmentation() -> int {
    (GLOBAL_ALLOCATORS + MAX_WORKERS + NUM_ALLOCATOR_HANDLES) * NUM_SIZE_CLASSES * SLAB_SIZE
}

/// The most that lists of responses, and what each response owns, can take, where one of them takes
/// a slot of `slot` bytes.
pub open spec fn response_bytes(slot: int) -> int {
    slot * WORKER_TO_PACK_CAPACITY + slot * WORKER_TO_PACK_CAPACITY * MAX_TRANSACTIONS_PER_MESSAGE
}

/// `n` rounded up to a multiple of `unit`.
pub open spec fn rounded_up(n: int, unit: int) -> int {
    ((n + unit - 1) / unit) * unit
}

/// The first of `p`, `2 * p`, `4 * p` and so on that is no less than `n`.
pub open spec fn doubled_to(n: nat, p: nat) -> nat
    decreases
            if p < n {
                n - p
            } else {
                0
            },
{
    if p >= n || p == 0 {
        p
    } else {
        doubled_to(n, 2 * p)
    }
}

/// The smallest power of two that is no less than `n`.
pub fn next_power_of_two(n: u32) -> (result: u64)
    ensures
        result == doubled_to(n as nat, 1),
        n <= result,
        result <= 1 || result < 2 * n,
{
    let mut p: u64 = 1;
    while p < n as u64
        invariant
            1 <= p,
            p <= 1 || p < 2 * n,
            doubled_to(n as nat, 1) == doubled_to(n as nat, p as nat),
        decreases 2 * n - p,
    {
        p = p * 2;
    }
    p
}

/// The size of the shared memory that all allocators use together: the most that can be alive in
/// every channel, and what partly used slabs can take, rounded up to whole slabs. A list of
/// responses, and what one response owns, is of at most `max_allocation_size` bytes. Running out of
/// this memory cannot be recovered from, so the bound is a generous one.
pub fn allocator_size(max_allocation_size: u32) -> (size: u64)
    ensures
        size == rounded_up(
            live_bytes() + response_bytes(doubled_to(max_allocation_size as nat, 1) as int)
                + fragmentation(),
            SLAB_SIZE as int,
        ),
        size >= live_bytes() + response_bytes(doubled_to(max_allocation_size as nat, 1) as int)
            + fragmentation(),
        size % SLAB_SIZE as u64 == 0,
{
    let slot: u64 = next_power_of_two(max_allocation_size);
    let queued: u64 = VOTE_QUEUE_CAPACITY as u64 + NONVOTE_QUEUE_CAPACITY as u64
        + VOTE_STORAGE_CAPACITY as u64 + NONVOTE_STORAGE_CAPACITY as u64
        + TPU_TO_PACK_CAPACITY as u64;
    let messages: u64 = PACK_TO_WORKER_CAPACITY as u64 + WORKER_TO_PACK_CAPACITY as u64;
    assert(TX_SLOT_SIZE * messages * MAX_TRANSACTIONS_PER_MESSAGE == 3145728) by (nonlinear_arith)
        requires
            messages == 24,
    ;
    assert(live_bytes() == 2048 * 80896 + 3145728 + 1024 * 24) by (nonlinear_arith);
    let live: u64 = TX_SLOT_SIZE as u64 * queued + TX_SLOT_SIZE as u64 * messages
        * MAX_TRANSACTIONS_PER_MESSAGE as u64 + BATCH_SLOT_SIZE as u64 * messages;
    let responses: u64 = slot * WORKER_TO_PACK_CAPACITY as u64 + slot
        * WORKER_TO_PACK_CAPACITY as u64 * MAX_TRANSACTIONS_PER_MESSAGE as u64;
    let allocators: u64 = GLOBAL_ALLOCATORS as u64 + MAX_WORKERS as u64
        + NUM_ALLOCATOR_HANDLES as u64;
    assert(allocators * NUM_SIZE_CLASSES == 335) by (nonlinear_arith)
        requires
            allocators == 67,
    ;
    assert(fragmentation() == 335 * 2097152) by (nonlinear_arith);
    let partial: u64 = allocators * NUM_SIZE_CLASSES as u64 * SLAB_SIZE as u64;
    let unit: u64 = SLAB_SIZE as u64;
    let slabs: u64 = (live + responses + partial + unit - 1) / unit;
    proof {
        vstd::arithmetic::div_mod::lemma_mod_multiples_basic(slabs as int, unit as int);
    }
    slabs * unit
}

/// A power of two.
pub open spec fn is_power_of_two(p: nat) -> bool
    decreases p,
{
    p == 1 || (p > 1 && p % 2 == 0 && is_power_of_two(p / 2))
}

/// Doubling from a power of two gives the smallest power of two, from there on, that is no less than
/// `n`.
pub proof fn law_doubling_finds_the_next_power(n: nat, p: nat)
    requires
        is_power_of_two(p),
    ensures
        is_power_of_two(doubled_to(n, p)),
        doubled_to(n, p) >= n,
        doubled_to(n, p) >= p,
        doubled_to(n, p) == p || doubled_to(n, p) < 2 * n,
    decreases
            if p < n {
                n - p
            } else {
                0
            },
{
    if p < n {
        assert((2 * p) % 2 == 0 && (2 * p) / 2 == p);
        assert(is_power_of_two(2 * p));
        law_doubling_finds_the_next_power(n, 2 * p);
    }
}

/// Rounding up gives the first multiple of `unit` that is no less than `n`.
pub proof fn law_rounding_up(n: int, unit: int)
    requires
        n >= 0,
        unit > 0,
    ensures
        rounded_up(n, unit) % unit == 0,
        n <= rounded_up(n, unit) < n + unit,
{
    let q = (n + unit - 1) / unit;
    vstd::arithmetic::div_mod::lemma_mod_multiples_basic(q, unit);
    vstd::arithmetic::div_mod::lemma_fundamental_div_mod(n + unit - 1, unit);
    vstd::arithmetic::div_mod::lemma_mod_bound(n + unit - 1, unit);
    assert(q * unit == unit * q) by (nonlinear_arith);
}

/// What the shared memory must hold: a slot of 2048 bytes for each of 80896 transactions that can be
/// queued or stored and for each of the 64 of every of 24 messages, 1024 bytes for the batch of each
/// message; 16 lists of responses and what each of 64 responses in them owns; and a partly used slab of
/// 2 MiB for each of 5 size classes of 67 allocators.
pub proof fn law_memory_that_is_needed(slot: int)
    ensures
        live_bytes() == 2048 * 80896 + 2048 * 24 * 64 + 1024 * 24,
        response_bytes(slot) == 16 * slot + 16 * 64 * slot,
        fragmentation() == 67 * 5 * 2097152,
{
    assert(live_bytes() == 2048 * 80896 + 2048 * 24 * 64 + 1024 * 24) by (nonlinear_arith);
    assert(response_bytes(slot) == 16 * slot + 16 * 64 * slot) by (nonlinear_arith);
    assert(fragmentation() == 67 * 5 * 2097152) by (nonlinear_arith);
}

} // verus!
