use harmonic_scheduler::bindings::{
    ExecutionResponse, PackMessage, Reply, Responses, Returned, TransactionRegion,
    BANK_NOT_AVAILABLE, EXECUTE, INCLUDED, MAX_WORKING_SLOT_EXCEEDED, PROCESSED,
    WOULD_EXCEED_MAX_BLOCK_COST_LIMIT,
};
use harmonic_scheduler::consts::PACK_TO_WORKER_CAPACITY;
use harmonic_scheduler::validator::fallback_stage::{FallbackStage, Metrics};
use rand::seq::SliceRandom;
use rand::SeedableRng;
use rand_chacha::ChaChaRng;
use std::collections::VecDeque;

const SLOT: u64 = 1;
const INSTRUCTION_ERROR: u8 = 72;

fn region(n: usize) -> TransactionRegion {
    TransactionRegion {
        offset: n,
        length: 1,
    }
}

fn returned(message: &PackMessage) -> Vec<Returned> {
    message
        .batch
        .iter()
        .map(|region| Returned {
            region: *region,
            signature: [0; 64],
        })
        .collect()
}

fn processed(message: &PackMessage, reason: u8) -> Reply {
    Reply {
        processed_code: PROCESSED,
        batch: returned(message),
        responses: Responses::Execution(vec![
            ExecutionResponse {
                not_included_reason: reason
            };
            message.batch.len()
        ]),
    }
}

fn exceeded(message: &PackMessage) -> Reply {
    Reply {
        processed_code: MAX_WORKING_SLOT_EXCEEDED,
        batch: returned(message),
        responses: Responses::Other(0),
    }
}

fn room(queues: &[VecDeque<PackMessage>]) -> Vec<usize> {
    queues
        .iter()
        .map(|queue| PACK_TO_WORKER_CAPACITY - queue.len())
        .collect()
}

/// Feeds more transactions than the workers can hold so the overflow backs up into storage
/// (backpressured), then drains with a mock worker that lands, fails, and slot-exceeds, asserting
/// the accounting closes and every transaction reaches exactly one terminal state.
#[test]
fn dispatch_and_drain() {
    const NUM_WORKERS: usize = 4;
    const NUM_TXS: usize = 512;

    let mut rng = ChaChaRng::seed_from_u64(0x0123456789ABCDEF);
    let mut fallback = FallbackStage::new(NUM_WORKERS);
    let mut queues: Vec<VecDeque<PackMessage>> =
        (0..NUM_WORKERS).map(|_| VecDeque::new()).collect();
    let txs: Vec<TransactionRegion> = (0..NUM_TXS).map(region).collect();
    let mut messages = 0usize;
    let mut iterations = 0usize;
    let mut freed: Vec<TransactionRegion> = Vec::new();

    let (sent, none) = fallback.tick(SLOT, &txs, &room(&queues), &[]);
    assert!(none.is_empty());
    for message in sent {
        queues[message.worker].push_back(message);
    }
    assert!(
        fallback.backpressured(),
        "overflow beyond worker capacity backs up"
    );

    let mut order: Vec<usize> = (0..NUM_WORKERS).collect();
    loop {
        order.shuffle(&mut rng);
        let mut replies = Vec::new();
        for &w in &order {
            let Some(message) = queues[w].pop_front() else {
                continue;
            };
            messages += 1;
            // Every 16th message simulates the slot ending mid-flight
            if messages % 16 == 0 {
                replies.push(exceeded(&message));
            } else if messages % 2 == 0 {
                replies.push(processed(&message, INCLUDED));
            } else {
                replies.push(processed(&message, INSTRUCTION_ERROR));
            }
        }
        let (sent, over) = fallback.tick(SLOT, &[], &room(&queues), &replies);
        for message in sent {
            queues[message.worker].push_back(message);
        }
        freed.extend(over);

        iterations += 1;
        assert!(iterations < 1_000_000, "drain did not converge");
        if fallback.processing() == 0 && !fallback.backpressured() {
            break;
        }
    }

    let m = fallback.metrics();
    assert_eq!(m.total, NUM_TXS, "every inserted tx is counted");
    assert_eq!(
        m.success + m.fail + m.dropped,
        m.total,
        "every tx reaches a terminal state ({m:?})",
    );
    assert!(m.success > 0, "success path exercised ({m:?})");
    assert!(m.fail > 0, "fail path exercised ({m:?})");
    assert!(m.dropped > 0, "dropped path exercised ({m:?})");
    assert!(!fallback.backpressured(), "backlog drained");
    let mut offsets: Vec<usize> = freed.iter().map(|r| r.offset).collect();
    offsets.sort();
    assert_eq!(offsets, (0..NUM_TXS).collect::<Vec<_>>());

    let (metrics, left) = fallback.reset().unwrap();
    assert_eq!(metrics, m);
    assert!(left.is_empty());
    assert!(!fallback.backpressured());
}

#[test]
fn transactions_go_round_the_workers() {
    let mut fallback = FallbackStage::new(3);
    let txs: Vec<TransactionRegion> = (0..5).map(region).collect();
    let messages = fallback.execute(9, &txs, &[1, 0, 9]);
    let sent: Vec<(usize, usize)> = messages
        .iter()
        .map(|m| (m.worker, m.batch[0].offset))
        .collect();
    assert_eq!(sent, vec![(0, 0), (2, 1), (2, 2), (2, 3), (2, 4)]);
    assert!(messages
        .iter()
        .all(|m| m.flags == EXECUTE && m.max_working_slot == 9 && m.batch.len() == 1));
    assert_eq!(fallback.processing(), 5);
    // The turn goes on where it stopped.
    let messages = fallback.execute(9, &[region(5)], &[1, 1, 1]);
    assert_eq!(messages[0].worker, 0);
}

#[test]
fn no_more_than_the_channels_hold_is_outstanding() {
    let mut fallback = FallbackStage::new(1);
    let txs: Vec<TransactionRegion> = (0..20).map(region).collect();
    assert_eq!(fallback.execute(1, &txs, &[100]).len(), 9);
    assert_eq!(fallback.processing(), 9);
    assert!(fallback.backpressured());
    assert!(fallback.execute(1, &[], &[100]).is_empty());
}

#[test]
fn full_workers_hold_transactions_back() {
    let mut fallback = FallbackStage::new(2);
    assert!(fallback.execute(1, &[region(1)], &[0, 0]).is_empty());
    assert!(fallback.backpressured());
    assert_eq!(fallback.processing(), 0);
    let (metrics, freed) = fallback.reset().unwrap();
    assert_eq!(
        metrics,
        Metrics {
            total: 1,
            success: 0,
            fail: 0,
            dropped: 1
        }
    );
    assert_eq!(freed, vec![region(1)]);
    let mut none = FallbackStage::new(0);
    assert!(none.execute(1, &[region(1)], &[]).is_empty());
}

#[test]
fn a_full_block_ends_the_slot() {
    for reason in [WOULD_EXCEED_MAX_BLOCK_COST_LIMIT, BANK_NOT_AVAILABLE] {
        let mut fallback = FallbackStage::new(1);
        let messages = fallback.execute(1, &[region(0), region(1)], &[1]);
        let reply = processed(&messages[0], reason);
        assert!(fallback.accepts(&reply));
        assert_eq!(fallback.resolve(&reply), vec![region(0)]);
        assert!(fallback.done());
        assert_eq!(fallback.metrics().fail, 1);
        assert!(fallback.execute(1, &[], &[8]).is_empty());
        assert!(fallback.reset().is_some());
        assert!(!fallback.done());
    }
    let mut fallback = FallbackStage::new(1);
    let messages = fallback.execute(1, &[region(0)], &[1]);
    fallback.resolve(&processed(&messages[0], INSTRUCTION_ERROR));
    assert!(!fallback.done());
}

#[test]
fn a_stage_is_not_closed_before_workers_answer() {
    let mut fallback = FallbackStage::new(1);
    let messages = fallback.execute(1, &[region(0)], &[1]);
    assert!(fallback.draining(24));
    assert!(!fallback.draining(25));
    assert!(fallback.reset().is_none());
    assert_eq!(fallback.processing(), 1);
    fallback.resolve(&exceeded(&messages[0]));
    assert!(!fallback.draining(0));
    assert_eq!(fallback.reset().unwrap().0.dropped, 1);
}

#[test]
fn unexpected_execution_replies_are_not_accepted() {
    let mut fallback = FallbackStage::new(1);
    let messages = fallback.execute(1, &[region(0)], &[1]);
    let mut reply = processed(&messages[0], INCLUDED);
    assert!(fallback.accepts(&reply));
    reply.processed_code = 1;
    assert!(!fallback.accepts(&reply));
    reply.processed_code = PROCESSED;
    reply.responses = Responses::Check(vec![]);
    assert!(!fallback.accepts(&reply));
    fallback.resolve(&processed(&messages[0], INCLUDED));
    assert!(!fallback.accepts(&processed(&messages[0], INCLUDED)));
}
