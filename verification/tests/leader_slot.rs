use harmonic_scheduler::bindings::{
    CheckResponse, ExecutionResponse, PackMessage, PubkeysRegion, Reply, Responses, Returned,
    TransactionRegion, EXECUTE, INCLUDED, PROCESSED, STATUS_PERFORMED,
};
use harmonic_scheduler::ipc::progress::{
    Polled, Progress, ProgressTracker, Stale, LEADER_READY, LEADER_STARTING, NOT_LEADER,
};
use harmonic_scheduler::ipc::shmem::{signature, AccountDataRegion, Arrival, ReadResponse};
use harmonic_scheduler::validator::scheduler::{Phase, Scheduler, Source, TipTimeout};
use harmonic_scheduler::validator::session::drain_count;
use harmonic_scheduler::validator::tips::{
    answers_tip_read, tip_account_data, tip_bundle, tip_read_request,
};

fn progress(leader_state: u8, slot: u64, next_leader_slot: u64, percent: u8) -> Progress {
    Progress {
        leader_state,
        current_slot: slot,
        next_leader_slot,
        current_slot_progress: percent,
        epoch: 0,
        latest_blockhash: [0; 32],
    }
}

fn region(n: usize) -> TransactionRegion {
    TransactionRegion {
        offset: n,
        length: 100,
    }
}

fn data(n: usize) -> Vec<u8> {
    let mut data = vec![0u8; 100];
    data[1..9].copy_from_slice(&(n as u64).to_le_bytes());
    data
}

fn arrival(n: usize) -> Arrival {
    Arrival {
        region: region(n),
        data: data(n),
    }
}

fn check_reply(message: &PackMessage) -> Reply {
    Reply {
        processed_code: PROCESSED,
        batch: message
            .batch
            .iter()
            .map(|region| Returned {
                region: *region,
                signature: signature(&data(region.offset)),
            })
            .collect(),
        responses: Responses::Check(
            message
                .batch
                .iter()
                .map(|_| CheckResponse {
                    parsing_and_sanitization_flags: 0,
                    status_check_flags: STATUS_PERFORMED,
                    resolve_flags: 0,
                    resolved_pubkeys: PubkeysRegion {
                        offset: 0,
                        num_pubkeys: 0,
                    },
                    keys: vec![],
                })
                .collect(),
        ),
    }
}

fn offsets(message: &PackMessage) -> Vec<usize> {
    message.batch.iter().map(|r| r.offset).collect()
}

fn not_leader(next_leader_slot: u64) -> Scheduler {
    let mut scheduler = Scheduler::new(2, progress(0, 0, 0, 0));
    assert_eq!(
        scheduler.poll(progress(NOT_LEADER, 100, next_leader_slot, 0), false),
        Ok(None)
    );
    assert_eq!(scheduler.phase(), Phase::NotLeader);
    scheduler
}

fn leading() -> Scheduler {
    let mut scheduler = not_leader(200);
    assert_eq!(
        scheduler.poll(progress(LEADER_STARTING, 200, 204, 0), false),
        Ok(Some(200))
    );
    assert_eq!(
        scheduler.poll(progress(LEADER_READY, 200, 204, 10), false),
        Ok(None)
    );
    assert_eq!(scheduler.phase(), Phase::Tips);
    scheduler.tips_read();
    scheduler
}

#[test]
fn the_scheduler_waits_for_the_first_message() {
    let mut scheduler = Scheduler::new(2, progress(0, 0, 0, 0));
    assert_eq!(scheduler.phase(), Phase::Waiting);
    assert_eq!(
        scheduler.poll(progress(NOT_LEADER, 5, 0, 0), false),
        Ok(None)
    );
    assert_eq!(scheduler.phase(), Phase::Waiting);
    assert!(!scheduler.is_leader());
}

#[test]
fn bundles_reach_no_worker() {
    let mut plain = not_leader(200);
    let mut sent = not_leader(200);
    for scheduler in [&mut plain, &mut sent] {
        scheduler.store(&[arrival(1)], &[arrival(2)]);
    }
    sent.take_bundle(vec![vec![9; 100], vec![8; 100]]);
    let expected = plain.check(&[true, true]);
    let messages = sent.check(&[true, true]);
    assert_eq!(messages.len(), expected.len());
    assert_eq!(offsets(&messages[0]), offsets(&expected[0]));
    sent.take_bundle(vec![vec![7; 100]]);
    assert_eq!(sent.phase(), plain.phase());

    let mut leader = leading();
    leader.store(&[arrival(3)], &[arrival(4)]);
    leader.take_bundle(vec![vec![9; 100]]);
    assert_eq!(leader.poll(progress(LEADER_READY, 200, 204, 75), false), Ok(None));
    leader.take_bundle(vec![vec![8; 100]]);
    let (source, count) = leader.fallback_take(0, 0);
    assert_eq!((source, count), (Source::VoteStore, 0));
    let messages = leader.fallback_execute(source, &[], &[8, 8]);
    assert_eq!(messages.len(), 1);
    assert_eq!(offsets(&messages[0]), vec![3]);
}

#[test]
fn votes_and_other_transactions_take_turns() {
    let mut scheduler = not_leader(200);
    scheduler.store(&[arrival(1)], &[arrival(2)]);
    let votes = scheduler.check(&[true, true]);
    assert_eq!(votes.len(), 1);
    assert_eq!(offsets(&votes[0]), vec![1]);
    assert_eq!(votes[0].max_working_slot, 100);
    // While the vote is out, nothing else is sent.
    assert!(scheduler.check(&[true, true]).is_empty());
    assert!(scheduler.checking());
    let reply = check_reply(&votes[0]);
    assert!(scheduler.accepts_check(&reply));
    scheduler.resolve(&reply);
    let others = scheduler.check(&[true, true]);
    assert_eq!(offsets(&others[0]), vec![2]);
    // A vote that comes now waits for the other one.
    scheduler.store(&[arrival(3)], &[]);
    assert!(scheduler.check(&[true, true]).is_empty());
    scheduler.resolve(&check_reply(&others[0]));
    assert_eq!(offsets(&scheduler.check(&[true, true])[0]), vec![3]);
}

#[test]
fn nothing_is_checked_just_before_a_leader_slot() {
    for (next, held) in [(102, true), (103, false), (99, true)] {
        let mut scheduler = not_leader(next);
        scheduler.store(&[arrival(1)], &[arrival(2)]);
        let messages = scheduler.check(&[true]);
        if held {
            assert!(messages.is_empty());
            assert!(!scheduler.checking());
        } else {
            assert_eq!(offsets(&messages[0]), vec![1]);
        }
    }
    // The same slot without votes.
    let mut scheduler = not_leader(102);
    scheduler.store(&[], &[arrival(2)]);
    assert!(scheduler.check(&[true, true]).is_empty());
    assert_eq!(scheduler.release().1, vec![region(2)]);
}

#[test]
fn the_fallback_stage_takes_a_bounded_part_of_the_queues() {
    let mut scheduler = leading();
    scheduler.store(&[], &[arrival(2)]);
    assert_eq!(scheduler.fallback_take(3, 500), (Source::VoteQueue, 3));
    assert_eq!(
        scheduler.fallback_take(5000, 0),
        (Source::VoteQueue, 5000)
    );
    assert_eq!(scheduler.fallback_take(0, 500), (Source::NonvoteStore, 0));
    scheduler.release();
    assert_eq!(scheduler.fallback_take(0, 500), (Source::NonvoteQueue, 64));
    assert_eq!(scheduler.fallback_take(0, 5), (Source::NonvoteQueue, 5));
    assert_eq!(scheduler.fallback_take(0, 0), (Source::Nothing, 0));
}

#[test]
fn a_new_scheduler_has_counted_nothing() {
    let mut scheduler = Scheduler::new(2, progress(0, 0, 0, 0));
    assert_eq!(scheduler.fallback().metrics().total, 0);
    assert!(!scheduler.fallback().done());
    assert_eq!(scheduler.dropped(), (0, 0));
    assert_eq!(scheduler.full(), (false, false));
    assert!(!scheduler.checking());
}

#[test]
fn outstanding_checks_are_awaited_between_slots() {
    let mut scheduler = not_leader(200);
    scheduler.store(&[arrival(1)], &[]);
    let messages = scheduler.check(&[true]);
    assert_eq!(
        scheduler.poll(progress(LEADER_STARTING, 101, 200, 0), false),
        Ok(None)
    );
    assert_eq!(scheduler.phase(), Phase::DrainVotes);
    assert!(!scheduler.is_leader());
    scheduler.resolve(&check_reply(&messages[0]));
    assert_eq!(scheduler.settle(false), Some(101));
    assert_eq!(scheduler.phase(), Phase::Starting);
    assert!(scheduler.is_leader());

    let mut scheduler = not_leader(200);
    scheduler.store(&[], &[arrival(1)]);
    let messages = scheduler.check(&[true]);
    scheduler
        .poll(progress(NOT_LEADER, 101, 200, 0), false)
        .unwrap();
    assert_eq!(scheduler.phase(), Phase::DrainNonvotes);
    scheduler.resolve(&check_reply(&messages[0]));
    assert_eq!(scheduler.settle(false), None);
    assert_eq!((scheduler.phase(), scheduler.slot()), (Phase::NotLeader, 101));
    // A new pass starts with the slot.
    assert_eq!(offsets(&scheduler.check(&[true])[0]), vec![1]);
}

#[test]
fn a_stop_is_heeded_between_own_slots_only() {
    let mut scheduler = not_leader(200);
    scheduler
        .poll(progress(NOT_LEADER, 101, 200, 0), true)
        .unwrap();
    assert_eq!(scheduler.phase(), Phase::Exited);

    let mut scheduler = not_leader(200);
    assert_eq!(
        scheduler.poll(progress(LEADER_STARTING, 101, 200, 0), true),
        Ok(Some(101))
    );
    assert_eq!(scheduler.phase(), Phase::Starting);
    // The window shifts away: now it stops.
    assert_eq!(
        scheduler.poll(progress(NOT_LEADER, 102, 200, 0), true),
        Ok(None)
    );
    assert_eq!(scheduler.phase(), Phase::Exited);
    assert!(!scheduler.is_leader());
}

#[test]
fn a_slot_that_shifts_is_announced_again() {
    let mut scheduler = not_leader(200);
    scheduler
        .poll(progress(LEADER_STARTING, 200, 204, 0), false)
        .unwrap();
    assert_eq!(
        scheduler.poll(progress(LEADER_STARTING, 200, 204, 3), false),
        Ok(None)
    );
    assert_eq!(
        scheduler.poll(progress(LEADER_STARTING, 201, 204, 0), false),
        Ok(Some(201))
    );
    assert_eq!(
        scheduler.poll(progress(LEADER_READY, 202, 204, 0), false),
        Ok(Some(202))
    );
    assert_eq!((scheduler.phase(), scheduler.slot()), (Phase::Tips, 202));
}

#[test]
fn unread_tips_end_the_session() {
    let mut scheduler = not_leader(200);
    scheduler
        .poll(progress(LEADER_STARTING, 200, 204, 0), false)
        .unwrap();
    scheduler
        .poll(progress(LEADER_READY, 200, 204, 0), false)
        .unwrap();
    assert_eq!(
        scheduler.poll(progress(LEADER_READY, 200, 204, 74), false),
        Ok(None)
    );
    assert_eq!(
        scheduler.poll(progress(LEADER_READY, 200, 204, 75), false),
        Err(TipTimeout)
    );
}

#[test]
fn a_block_for_the_slot_is_executed() {
    let mut scheduler = leading();
    assert!(!scheduler.offer_block(199));
    assert_eq!(scheduler.phase(), Phase::AwaitBlock);
    assert!(scheduler.offer_block(200));
    assert_eq!(scheduler.phase(), Phase::Block);
    scheduler
        .poll(progress(LEADER_READY, 200, 204, 93), false)
        .unwrap();
    assert_eq!(scheduler.phase(), Phase::Block);
    scheduler
        .poll(progress(LEADER_READY, 200, 204, 94), false)
        .unwrap();
    assert_eq!(scheduler.phase(), Phase::Votes);
    scheduler.store(&[arrival(1)], &[]);
    assert_eq!(scheduler.take_votes(), vec![region(1)]);
    scheduler
        .poll(progress(LEADER_STARTING, 201, 204, 0), false)
        .unwrap();
    assert_eq!(scheduler.phase(), Phase::VotesDone);
    let (freed, announced) = scheduler.close_block(&[arrival(1), arrival(1)], false);
    assert_eq!(freed, vec![region(1)]);
    assert_eq!(announced, Some(201));
    assert_eq!((scheduler.phase(), scheduler.slot()), (Phase::Starting, 201));
    assert!(scheduler.is_leader());
}

#[test]
fn without_a_block_stored_transactions_are_executed() {
    let mut scheduler = leading();
    scheduler.store(&[arrival(1)], &[arrival(2)]);
    scheduler
        .poll(progress(LEADER_READY, 200, 204, 74), false)
        .unwrap();
    assert_eq!(scheduler.phase(), Phase::AwaitBlock);
    scheduler
        .poll(progress(LEADER_READY, 200, 204, 75), false)
        .unwrap();
    assert_eq!(scheduler.phase(), Phase::Fallback);

    // Votes come first, then queued votes, then the rest while nothing waits.
    assert_eq!(scheduler.fallback_source(true, true), Source::VoteStore);
    let sent = scheduler.fallback_execute(Source::VoteStore, &[], &[8, 8]);
    assert_eq!((sent[0].worker, offsets(&sent[0])), (0, vec![1]));
    assert_eq!((sent[0].flags, sent[0].max_working_slot), (EXECUTE, 200));
    assert_eq!(scheduler.fallback_source(true, true), Source::VoteQueue);
    let sent2 = scheduler.fallback_execute(Source::VoteQueue, &[region(9)], &[0, 1]);
    assert_eq!((sent2[0].worker, offsets(&sent2[0])), (1, vec![9]));
    assert_eq!(scheduler.fallback_source(false, true), Source::NonvoteStore);
    assert!(scheduler
        .fallback_execute(Source::NonvoteStore, &[], &[0, 0])
        .is_empty());
    // Backpressure: nothing but votes is taken.
    assert_eq!(scheduler.fallback_source(false, true), Source::Nothing);
    let sent3 = scheduler.fallback_execute(Source::Nothing, &[], &[1, 0]);
    assert_eq!(offsets(&sent3[0]), vec![2]);
    assert_eq!(scheduler.fallback_source(false, true), Source::NonvoteQueue);
    assert_eq!(scheduler.fallback_source(false, false), Source::Nothing);

    scheduler
        .poll(progress(NOT_LEADER, 201, 300, 0), false)
        .unwrap();
    assert_eq!(scheduler.phase(), Phase::FallbackDone);
    assert!(scheduler.close_fallback().is_none());
    for message in [&sent[0], &sent2[0], &sent3[0]] {
        let reply = Reply {
            processed_code: PROCESSED,
            batch: message
                .batch
                .iter()
                .map(|region| Returned {
                    region: *region,
                    signature: [0; 64],
                })
                .collect(),
            responses: Responses::Execution(vec![ExecutionResponse {
                not_included_reason: INCLUDED,
            }]),
        };
        assert!(scheduler.fallback_draining(0));
        assert!(scheduler.accepts_execution(&reply));
        scheduler.fallback_resolve(&reply);
    }
    let (metrics, freed) = scheduler.close_fallback().unwrap();
    assert_eq!((metrics.total, metrics.success), (3, 3));
    assert!(freed.is_empty());
    assert_eq!(scheduler.phase(), Phase::FallbackRest);
    assert!(scheduler.is_leader());
    scheduler
        .poll(progress(NOT_LEADER, 201, 300, 0), false)
        .unwrap();
    assert_eq!(scheduler.phase(), Phase::NotLeader);
    assert!(!scheduler.is_leader());
}

#[test]
fn storage_reports_what_it_drops() {
    let mut scheduler = not_leader(200);
    let votes: Vec<Arrival> = (0..4100).map(arrival).collect();
    let (freed, others) = scheduler.store(&votes, &[]);
    assert_eq!(freed.len(), 4);
    assert!(others.is_empty());
    assert_eq!(scheduler.full(), (true, false));
    assert!(!Scheduler::report_due(1000));
    assert!(Scheduler::report_due(1001));
    assert_eq!(scheduler.report(1000), None);
    assert_eq!(scheduler.report(1001), Some((4, 0)));
    assert_eq!(scheduler.report(1001), None);
    scheduler.store(&votes[..1], &[]);
    assert_eq!(scheduler.dropped(), (1, 0));
    assert_eq!(scheduler.dropped(), (0, 0));
}

#[test]
fn what_is_stored_is_released_at_the_end() {
    let mut scheduler = not_leader(200);
    scheduler.store(&[arrival(1), arrival(2)], &[arrival(3)]);
    assert_eq!(
        scheduler.release(),
        (vec![region(1), region(2)], vec![region(3)])
    );
    assert_eq!(scheduler.release(), (vec![], vec![]));
    assert_eq!(scheduler.fallback().processing(), 0);
}

#[test]
fn the_latest_progress_message_counts() {
    let mut tracker = ProgressTracker::new();
    assert_eq!(tracker.last().current_slot, 0);
    assert_eq!(tracker.blockhash(), [0; 32]);
    let mut second = progress(1, 8, 9, 50);
    second.latest_blockhash = [7; 32];
    assert_eq!(
        tracker.poll(&[progress(0, 7, 8, 1), second], 1000),
        Ok(Polled::Fresh)
    );
    assert_eq!(tracker.last().current_slot, 8);
    assert_eq!(tracker.blockhash(), [7; 32]);
    assert_eq!(tracker.poll(&[], 400), Ok(Polled::Silent));
    assert_eq!(tracker.poll(&[], 401), Err(Stale));
    assert_eq!(tracker.last().current_slot, 8);
}

fn read(success: bool, byte: u8) -> ReadResponse {
    ReadResponse {
        success,
        region: AccountDataRegion {
            offset: 0,
            length: 3,
        },
        data: vec![byte; 3],
        owner: [byte; 32],
    }
}

#[test]
fn tip_accounts_are_taken_in_order() {
    let tips = tip_account_data(5, &[read(true, 1), read(false, 2), read(true, 3)]);
    assert_eq!(tips.epoch, 5);
    let payment = tips.tip_payment_config.unwrap();
    assert_eq!((payment.data, payment.owner), (vec![1; 3], [1; 32]));
    assert!(tips.tip_distribution_config.is_none());
    assert_eq!(tips.tip_distribution_pda.unwrap().owner, [3; 32]);

    assert!(answers_tip_read(PROCESSED, true, 3));
    assert!(!answers_tip_read(2, true, 3));
    assert!(!answers_tip_read(PROCESSED, false, 3));
    assert!(!answers_tip_read(PROCESSED, true, 2));

    let message = tip_read_request(8, 2, 12, [region(1), region(2), region(3)]);
    assert_eq!((message.worker, message.flags), (0, 14));
    assert_eq!(message.max_working_slot, 8);
    assert_eq!(offsets(&message), vec![1, 2, 3]);
}

#[test]
fn a_tip_bundle_leaves_out_what_failed() {
    let init = || Some(vec![vec![1u8], vec![2]]);
    let crank = || Some(vec![vec![3u8]]);
    assert_eq!(
        tip_bundle(init(), crank()),
        vec![vec![1], vec![2], vec![3]]
    );
    assert_eq!(tip_bundle(None, crank()), vec![vec![3]]);
    assert_eq!(tip_bundle(init(), None), vec![vec![1], vec![2]]);
    assert!(tip_bundle(None, None).is_empty());
}

#[test]
fn a_queue_is_drained_up_to_a_limit() {
    assert_eq!(drain_count(5, 0, 4), 4);
    assert_eq!(drain_count(1, 9, 4), 4);
    assert_eq!(drain_count(1, 3, 4), 3);
    assert_eq!(drain_count(0, 0, 4), 0);
    assert_eq!(drain_count(0, 7, usize::MAX), 7);
}
