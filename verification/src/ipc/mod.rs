//! What the scheduler and the validator exchange in shared memory.

pub mod progress;
pub mod shmem;
pub mod tpu_to_pack;

use crate::consts::{
    allocator_size, doubled_to, fragmentation, live_bytes, response_bytes, rounded_up,
    NUM_ALLOCATOR_HANDLES, PACK_TO_WORKER_CAPACITY, PROGRESS_TRACKER_CAPACITY, SLAB_SIZE,
    TPU_TO_PACK_CAPACITY, WORKER_TO_PACK_CAPACITY,
};
use vstd::prelude::*;

verus! {

/// What a session with the validator is asked for.
#[derive(Clone, Copy, Debug, PartialEq, Eq, Structural)]
pub struct Logon {
    pub worker_count: usize,
    pub allocator_size: u64,
    pub allocator_handles: usize,
    pub tpu_to_pack_capacity: usize,
    pub progress_tracker_capacity: usize,
    pub pack_to_worker_capacity: usize,
    pub worker_to_pack_capacity: usize,
    pub flags: u16,
}

/// What is asked for a session with `num_workers` workers. One allocation is of at most
/// `max_allocation_size` bytes.
pub fn logon(num_workers: usize, max_allocation_size: u32) -> (result: Logon)
    ensures
        result.worker_count == num_workers,
        result.allocator_size == rounded_up(
            live_bytes() + response_bytes(doubled_to(max_allocation_size as nat, 1) as int)
                + fragmentation(),
            SLAB_SIZE as int,
        ),
        result.allocator_handles == NUM_ALLOCATOR_HANDLES,
        result.tpu_to_pack_capacity == TPU_TO_PACK_CAPACITY,
        result.progress_tracker_capacity == PROGRESS_TRACKER_CAPACITY,
        result.pack_to_worker_capacity == PACK_TO_WORKER_CAPACITY,
        result.worker_to_pack_capacity == WORKER_TO_PACK_CAPACITY,
        result.flags == 0,
{
    Logon {
        worker_count: num_workers,
        allocator_size: allocator_size(max_allocation_size),
        allocator_handles: NUM_ALLOCATOR_HANDLES,
        tpu_to_pack_capacity: TPU_TO_PACK_CAPACITY,
        progress_tracker_capacity: PROGRESS_TRACKER_CAPACITY,
        pack_to_worker_capacity: PACK_TO_WORKER_CAPACITY,
        worker_to_pack_capacity: WORKER_TO_PACK_CAPACITY,
        flags: 0,
    }
}

} // verus!
