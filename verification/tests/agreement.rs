use agave_scheduler_bindings::pack_message_flags::{self, check_flags};
use agave_scheduler_bindings::worker_message_types::{
    not_included_reasons, resolve_flags, status_check_flags,
};
use agave_scheduler_bindings::{processed_codes, tpu_message_flags};
use agave_scheduling_utils::handshake;
use harmonic_scheduler::bindings;
use harmonic_scheduler::consts;
use harmonic_scheduler::ipc::{logon, progress, tpu_to_pack};

#[test]
fn codes_agree_with_the_validator() {
    assert_eq!(bindings::CHECK, pack_message_flags::CHECK);
    assert_eq!(bindings::EXECUTE, pack_message_flags::EXECUTE);
    assert_eq!(bindings::STATUS_CHECKS, check_flags::STATUS_CHECKS);
    assert_eq!(
        bindings::LOAD_ADDRESS_LOOKUP_TABLES,
        check_flags::LOAD_ADDRESS_LOOKUP_TABLES
    );
    assert_eq!(bindings::PROCESSED, processed_codes::PROCESSED);
    assert_eq!(
        bindings::MAX_WORKING_SLOT_EXCEEDED,
        processed_codes::MAX_WORKING_SLOT_EXCEEDED
    );
    assert_eq!(bindings::RESOLVE_PERFORMED, resolve_flags::PERFORMED);
    assert_eq!(bindings::RESOLVE_FAILED, resolve_flags::FAILED);
    assert_eq!(bindings::STATUS_PERFORMED, status_check_flags::PERFORMED);
    assert_eq!(bindings::STATUS_TOO_OLD, status_check_flags::TOO_OLD);
    assert_eq!(
        bindings::STATUS_ALREADY_PROCESSED,
        status_check_flags::ALREADY_PROCESSED
    );
    assert_eq!(
        bindings::STATUS_INVALID_NONCE,
        status_check_flags::INVALID_NONCE
    );
    assert_eq!(bindings::INCLUDED, not_included_reasons::NONE);
    assert_eq!(
        bindings::BANK_NOT_AVAILABLE,
        not_included_reasons::BANK_NOT_AVAILABLE
    );
    assert_eq!(
        bindings::WOULD_EXCEED_MAX_BLOCK_COST_LIMIT,
        not_included_reasons::WOULD_EXCEED_MAX_BLOCK_COST_LIMIT
    );
    assert_eq!(
        bindings::MAX_TRANSACTIONS_PER_MESSAGE,
        agave_scheduler_bindings::MAX_TRANSACTIONS_PER_MESSAGE
    );
    assert_eq!(bindings::MAX_WORKERS, handshake::MAX_WORKERS);
    assert_eq!(tpu_to_pack::IS_SIMPLE_VOTE, tpu_message_flags::IS_SIMPLE_VOTE);
    assert_eq!(progress::NOT_LEADER, agave_scheduler_bindings::NOT_LEADER);
    assert_eq!(
        progress::LEADER_STARTING,
        agave_scheduler_bindings::LEADER_STARTING
    );
    assert_eq!(progress::LEADER_READY, agave_scheduler_bindings::LEADER_READY);
}

#[test]
fn the_largest_allocation_agrees_with_the_allocator() {
    let file = tempfile::tempfile().unwrap();
    let size = 16 * 1024 * 1024;
    let allocator = rts_alloc::Allocator::create(&file, size, 1, consts::SLAB_SIZE, 0).unwrap();
    assert!(allocator.allocate(consts::MAX_ALLOCATION_SIZE).is_some());
    assert!(allocator.allocate(consts::MAX_ALLOCATION_SIZE + 1).is_none());
}

#[test]
fn slots_fit_what_they_hold() {
    assert_eq!(consts::BATCH_SIZE, bindings::MAX_TRANSACTIONS_PER_MESSAGE);
    assert_eq!(consts::TX_SLOT_SIZE, 1232usize.next_power_of_two());
    assert_eq!(
        consts::BATCH_SLOT_SIZE,
        (bindings::MAX_TRANSACTIONS_PER_MESSAGE
            * std::mem::size_of::<agave_scheduler_bindings::SharableTransactionRegion>())
        .next_power_of_two()
    );
    for n in [0u32, 1, 2, 3, 4, 5, 4095, 4096, 4097, 1 << 31, u32::MAX] {
        assert_eq!(
            consts::next_power_of_two(n),
            u64::from(n).next_power_of_two()
        );
    }
}

#[test]
fn the_allocator_size_is_a_whole_number_of_slabs() {
    let slot: u64 = 4096;
    let live: u64 = 2048 * (2048 + 8192 + 4096 + 65536 + 1024)
        + 2048 * (8 + 16) * 64
        + 1024 * (8 + 16)
        + slot * 16
        + slot * 16 * 64
        + 67 * 5 * 2097152;
    assert_eq!(
        consts::allocator_size(consts::MAX_ALLOCATION_SIZE),
        live.next_multiple_of(u64::from(consts::SLAB_SIZE))
    );
    assert_eq!(consts::allocator_size(consts::MAX_ALLOCATION_SIZE), consts::allocator_size(2049));
    let asked = logon(8, consts::MAX_ALLOCATION_SIZE);
    assert_eq!(asked.allocator_size, consts::allocator_size(consts::MAX_ALLOCATION_SIZE));
    assert_eq!((asked.worker_count, asked.allocator_handles), (8, 2));
    assert_eq!(
        (asked.pack_to_worker_capacity, asked.worker_to_pack_capacity),
        (8, 16)
    );
    assert_eq!(
        (asked.tpu_to_pack_capacity, asked.progress_tracker_capacity),
        (1024, 64)
    );
    assert_eq!(asked.flags, 0);
}
