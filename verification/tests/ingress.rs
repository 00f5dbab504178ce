use harmonic_scheduler::bindings::{
    CheckResponse, ExecutionResponse, PubkeysRegion, TransactionRegion, PROCESSED,
    RESOLVE_PERFORMED,
};
use harmonic_scheduler::ipc::shmem::{
    allocation_size, batch_layout, free_all, AccountDataRegion, BatchRegion, Free, ReadResponse,
    ResponseRegion, WorkerMessage,
};
use harmonic_scheduler::ipc::tpu_to_pack::{classify, Packet};
use harmonic_scheduler::rdtsc::{instant, tsc};
use harmonic_scheduler::state::{
    activate, scheduler_exit, tpu_exit, tpu_override_exit, validator_exit, ADMIN_RPC_ACTIVE,
    BLOCK_ENGINE_ACTIVE, REMOTE_TPU_ACTIVE, SCHEDULER_ACTIVE, TPU_ACTIVE,
};
use harmonic_scheduler::validator::tpu::{mirrors, RemoteBatch, Stats};
use std::time::Duration;

fn region(n: usize) -> TransactionRegion {
    TransactionRegion {
        offset: n,
        length: 1,
    }
}

#[test]
fn packets_are_told_apart_by_flag() {
    assert_eq!(classify(1, region(1)), Packet::Vote(region(1)));
    assert_eq!(classify(3, region(1)), Packet::Vote(region(1)));
    assert_eq!(classify(0, region(1)), Packet::Nonvote(region(1)));
    assert_eq!(classify(2, region(1)), Packet::Nonvote(region(1)));
}

#[test]
fn packets_go_to_their_queue_or_are_freed() {
    let mut stats = Stats::new();
    let packets = [
        Packet::Vote(region(1)),
        Packet::Nonvote(region(2)),
        Packet::Vote(region(3)),
        Packet::Nonvote(region(4)),
        Packet::Nonvote(region(5)),
    ];
    let result = stats.service_tpu(&packets, 1, 2, true);
    assert_eq!(result.votes, vec![region(1)]);
    assert_eq!(result.nonvotes, vec![region(2), region(4)]);
    assert_eq!(result.mirrored, vec![region(2), region(4), region(5)]);
    assert_eq!(result.freed, vec![region(3), region(5)]);
    assert_eq!((stats.dropped_votes, stats.dropped_nonvotes), (1, 1));

    let quiet = stats.service_tpu(&packets, 9, 9, false);
    assert!(quiet.mirrored.is_empty() && quiet.freed.is_empty());
    assert_eq!((stats.dropped_votes, stats.dropped_nonvotes), (1, 1));
}

#[test]
fn a_tick_serves_one_batch() {
    let mut stats = Stats::new();
    let packets: Vec<Packet> = (0..100).map(|n| Packet::Vote(region(n))).collect();
    assert_eq!(stats.service_tpu(&packets, 1000, 0, false).votes.len(), 64);
}

#[test]
fn remote_packets_go_as_a_batch() {
    let mut stats = Stats::new();
    assert_eq!(stats.service_remote(0, 10, true), RemoteBatch::Empty);
    assert_eq!(
        stats.service_remote(5, 5, true),
        RemoteBatch::Forward(5, true)
    );
    assert_eq!(
        stats.service_remote(500, 64, false),
        RemoteBatch::Forward(64, false)
    );
    assert_eq!(stats.dropped_nonvotes, 0);
    // What finds no room is mirrored all the same.
    assert_eq!(
        stats.service_remote(6, 5, true),
        RemoteBatch::Discard(6, true)
    );
    assert_eq!(stats.dropped_nonvotes, 6);
    assert_eq!(
        stats.service_remote(6, 5, false),
        RemoteBatch::Discard(6, false)
    );
    assert_eq!(stats.dropped_nonvotes, 12);
}

#[test]
fn mirroring_needs_leadership_and_a_listener() {
    assert!(mirrors(true, 1));
    assert!(!mirrors(false, 1));
    assert!(!mirrors(true, 0));
}

#[test]
fn drops_are_reported_once_a_second() {
    let mut stats = Stats::new();
    assert_eq!(stats.log(), None);
    assert_eq!(stats.log_after(5000), None);
    stats.dropped_votes = 3;
    assert_eq!(stats.log_after(1000), None);
    assert_eq!(stats.log_after(1001), Some((3, 0)));
    assert_eq!(stats.log_after(1001), None);
}

#[test]
fn a_due_report_starts_the_interval_anew() {
    let mut stats = Stats::new();
    let early = instant::Instant::now();
    let started = std::time::Instant::now();
    while started.elapsed() < std::time::Duration::from_millis(30) {}
    let late = instant::Instant::now();
    // Due, with nothing to report
    assert_eq!(stats.log_at(1001, early), None);
    assert!(stats.timer.elapsed_ms() >= 30);
    stats.dropped_nonvotes = 2;
    // Not due
    assert_eq!(stats.log_at(1000, late), None);
    assert!(stats.timer.elapsed_ms() >= 30);
    assert_eq!(stats.dropped_nonvotes, 2);
    // Due: from now on the time runs from the later moment
    assert_eq!(stats.log_at(1001, late), Some((0, 2)));
    assert!(stats.timer.elapsed_us() <= late.elapsed_us());
    assert!(stats.timer.elapsed_ms() + 30 <= early.elapsed_ms());
    assert_eq!((stats.dropped_votes, stats.dropped_nonvotes), (0, 0));
}

#[test]
fn flags_follow_their_guards() {
    let (flags, admin) = activate(0, ADMIN_RPC_ACTIVE);
    let (flags, _remote) = activate(flags, REMOTE_TPU_ACTIVE);
    assert!(validator_exit(flags));
    let (flags, _engine) = activate(flags, BLOCK_ENGINE_ACTIVE);
    assert!(!validator_exit(flags));
    assert!(tpu_exit(flags) && scheduler_exit(flags) && tpu_override_exit(flags));
    let (flags, _tpu) = activate(flags, TPU_ACTIVE);
    assert!(!scheduler_exit(flags));
    let (flags, _scheduler) = activate(flags, SCHEDULER_ACTIVE);
    assert!(!tpu_exit(flags) && !tpu_override_exit(flags));
    let flags = admin.cleared(flags);
    assert!(validator_exit(flags) && scheduler_exit(flags));
    assert!(!tpu_exit(flags) && !tpu_override_exit(flags));
}

#[test]
fn cycles_are_scaled() {
    // A quarter of a unit for each cycle.
    let quarter = 1u64 << 62;
    let scales = tsc::Scales {
        ms_per_cycle: quarter,
        us_per_cycle: 1 << 63,
        ns_per_cycle: u64::MAX,
    };
    let start = tsc::Instant(1000);
    assert_eq!(start.elapsed_ms(tsc::Instant(1000), &scales), 0);
    assert_eq!(start.elapsed_ms(tsc::Instant(1003), &scales), 0);
    assert_eq!(start.elapsed_ms(tsc::Instant(1004), &scales), 1);
    assert_eq!(start.elapsed_us(tsc::Instant(1005), &scales), 2);
    assert_eq!(start.elapsed_ns(tsc::Instant(1101), &scales), 100);
    // The counter wraps around.
    let late = tsc::Instant(u64::MAX - 1);
    assert_eq!(late.elapsed_ms(tsc::Instant(6), &scales), 2);
}

#[test]
fn elapsed_ms() {
    instant::calibrate();
    let rdtsc_start = instant::Instant::now();
    let std_start = std::time::Instant::now();

    let mut until = Duration::ZERO;
    for duration in [
        Duration::ZERO,
        Duration::from_millis(1),
        Duration::from_millis(10),
        Duration::from_millis(100),
        Duration::from_secs(1),
    ] {
        until += duration;
        while std_start.elapsed() < until {}
        // The two clocks are read one after the other: once more where a millisecond ends between.
        loop {
            let std_ms = std_start.elapsed().as_millis() as u64;
            let rdtsc_ms = rdtsc_start.elapsed_ms();
            if std_start.elapsed().as_millis() as u64 == std_ms {
                assert_eq!(
                    rdtsc_ms, std_ms,
                    "rdtsc={rdtsc_ms}ms std={std_ms}ms duration={duration:?}"
                );
                break;
            }
        }
    }
}

#[test]
fn units_of_time_are_whole() {
    let start = instant::Instant::now();
    let ms = start.elapsed_ms();
    let us = start.elapsed_us();
    let ns = start.elapsed_ns();
    assert!(ms <= us / 1000 && us <= ns / 1000);
    assert_eq!(instant::whole_ms(1_999_999), 1);
    assert_eq!(instant::whole_us(1_999_999), 1_999);
    assert_eq!(instant::whole_ns(1_999_999), 1_999_999);
    assert_eq!(instant::whole_ms(2_500_000_000), 2_500);
    assert_eq!(instant::whole_ms(1_000_000 << 64), 0);
    assert_eq!(instant::whole_ns(u128::MAX), u64::MAX);
}

#[test]
fn allocations_are_bounded() {
    assert_eq!(allocation_size(0, 4096), None);
    assert_eq!(allocation_size(1, 4096), Some(1));
    assert_eq!(allocation_size(4096, 4096), Some(4096));
    assert_eq!(allocation_size(4097, 4096), None);
    assert_eq!(batch_layout(0, 16), None);
    assert_eq!(batch_layout(1, 16), Some((1, 16)));
    assert_eq!(batch_layout(64, 16), Some((64, 1024)));
    assert_eq!(batch_layout(65, 16), None);
}

fn check(resolve_flags: u8, num_pubkeys: u32) -> CheckResponse {
    CheckResponse {
        parsing_and_sanitization_flags: 0,
        status_check_flags: 0,
        resolve_flags,
        resolved_pubkeys: PubkeysRegion {
            offset: 70,
            num_pubkeys,
        },
        keys: vec![],
    }
}

fn read(success: bool, length: u32) -> ReadResponse {
    ReadResponse {
        success,
        region: AccountDataRegion { offset: 80, length },
        data: vec![],
        owner: [0; 32],
    }
}

#[test]
fn only_what_is_allocated_is_freed() {
    assert_eq!(region(5).free(), Some(5));
    assert_eq!(check(RESOLVE_PERFORMED, 2).free(), Some(70));
    assert_eq!(check(RESOLVE_PERFORMED, 0).free(), None);
    assert_eq!(check(0, 2).free(), None);
    assert_eq!(read(true, 4).free(), Some(80));
    assert_eq!(read(true, 0).free(), None);
    assert_eq!(read(false, 4).free(), None);
    assert_eq!(
        ExecutionResponse {
            not_included_reason: 0
        }
        .free(),
        None
    );
    assert_eq!(free_all(&[region(1), region(2)]), vec![1, 2]);
}

#[test]
fn messages_are_freed_children_first() {
    let mut message = WorkerMessage {
        batch: BatchRegion {
            num_transactions: 2,
            transactions_offset: 10,
        },
        processed_code: PROCESSED,
        responses: ResponseRegion {
            tag: 1,
            num_transaction_responses: 2,
            transaction_responses_offset: 20,
        },
    };
    let txs = [region(1), region(2)];
    let responses = [check(RESOLVE_PERFORMED, 1), check(0, 1)];
    assert_eq!(message.free(), vec![10, 20]);
    assert_eq!(message.free_full(&txs, &responses), vec![1, 2, 10, 70, 20]);
    message.responses.num_transaction_responses = 0;
    assert_eq!(message.free(), vec![10]);
    message.responses.num_transaction_responses = 2;
    message.processed_code = 2;
    assert_eq!(message.free(), vec![10]);
    assert_eq!(message.free_full(&txs, &responses), vec![1, 2, 10]);
}
