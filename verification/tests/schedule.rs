use bincode::serialize;
use harmonic_scheduler::bindings::{
    CheckResponse, ExecutionResponse, PackMessage, PubkeysRegion, Reply, Responses, Returned,
    TransactionRegion, CHECK, EXECUTE, LOAD_ADDRESS_LOOKUP_TABLES, MAX_WORKING_SLOT_EXCEEDED,
    PROCESSED, RESOLVE_FAILED, RESOLVE_PERFORMED,
};
use harmonic_scheduler::consts::PACK_TO_WORKER_CAPACITY;
use harmonic_scheduler::ipc::shmem::{signature, Arrival};
use harmonic_scheduler::transaction::{TransactionView, VOTE_PROGRAM};
use harmonic_scheduler::validator::schedule::Schedule;
use rand::seq::SliceRandom;
use rand::{Rng, SeedableRng};
use rand_chacha::ChaChaRng;
use solana_pubkey::Pubkey;
use solana_transaction::{AccountMeta, Instruction, Message, Signature, Transaction};
use std::collections::{HashMap, VecDeque};

fn unique_signature(n: u64) -> Signature {
    let mut bytes = [7u8; 64];
    bytes[..8].copy_from_slice(&n.to_le_bytes());
    Signature::from(bytes)
}

fn random_transaction(rng: &mut impl Rng, accounts: &[Pubkey], n: u64) -> Transaction {
    let num_accounts = rng.random_range(1..=37);
    let num_writable = rng.random_range(1..=num_accounts);
    let metas = rand::seq::index::sample(rng, accounts.len(), num_accounts)
        .into_iter()
        .enumerate()
        .map(|(i, j)| {
            if i < num_writable {
                AccountMeta::new(accounts[j], i == 0)
            } else {
                AccountMeta::new_readonly(accounts[j], false)
            }
        })
        .collect();
    let instruction = Instruction::new_with_bytes(Pubkey::default(), &[], metas);
    let mut tx = Transaction::new_unsigned(Message::new(&[instruction], None));
    tx.signatures[0] = unique_signature(n);
    tx
}

fn region(n: usize) -> TransactionRegion {
    TransactionRegion {
        offset: n,
        length: 1,
    }
}

fn arrival(tx: &Transaction, n: usize) -> Arrival {
    Arrival {
        region: region(n),
        data: serialize(tx).unwrap(),
    }
}

fn executed(message: &PackMessage, keys: &[[u8; 64]]) -> Reply {
    Reply {
        processed_code: PROCESSED,
        batch: message
            .batch
            .iter()
            .map(|region| Returned {
                region: *region,
                signature: keys[region.offset],
            })
            .collect(),
        responses: Responses::Execution(vec![
            ExecutionResponse {
                not_included_reason: 0
            };
            message.batch.len()
        ]),
    }
}

#[test]
fn fifo_random_workload() {
    const NUM_WORKERS: usize = 8;
    const NUM_ACCOUNTS: usize = 256;
    const NUM_TXS: usize = 32 * 1024;

    let mut rng = ChaChaRng::seed_from_u64(0x0123456789ABCDEF);
    let mut schedule = Schedule::new(NUM_WORKERS);
    let accounts: Vec<Pubkey> = (0..NUM_ACCOUNTS).map(|_| Pubkey::new_unique()).collect();
    let mut to_worker: Vec<VecDeque<PackMessage>> =
        (0..NUM_WORKERS).map(|_| VecDeque::new()).collect();
    let mut from_worker: Vec<Reply> = Vec::new();

    let txs: Vec<Transaction> = (0..NUM_TXS)
        .map(|n| random_transaction(&mut rng, &accounts, n as u64))
        .collect();
    let arrivals: Vec<Arrival> = txs
        .iter()
        .enumerate()
        .map(|(n, tx)| arrival(tx, n))
        .collect();
    let keys: Vec<[u8; 64]> = arrivals.iter().map(|a| signature(&a.data)).collect();

    let freed = schedule.insert(&arrivals);
    assert!(freed.is_empty());

    let mut processed = Vec::new();
    let mut order: Vec<usize> = (0..NUM_WORKERS).collect();
    let mut freed = 0;
    loop {
        assert!(schedule.resolvable());
        let open: Vec<bool> = to_worker
            .iter()
            .map(|queue| queue.len() < PACK_TO_WORKER_CAPACITY)
            .collect();
        let (messages, keys_freed) = schedule.send_batch(1, &open);
        assert!(keys_freed.is_empty());
        for message in messages {
            assert_eq!(message.flags, EXECUTE);
            assert_eq!(message.max_working_slot, 1);
            to_worker[message.worker].push_back(message);
        }
        if !schedule.active() {
            break;
        }
        for reply in from_worker.drain(..) {
            assert!(schedule.accepts(&reply));
            freed += schedule.handle_response(&reply).len();
        }
        order.shuffle(&mut rng);
        for &w in &order {
            if let Some(message) = to_worker[w].pop_front() {
                for region in &message.batch {
                    processed.push(keys[region.offset]);
                }
                from_worker.push(executed(&message, &keys));
            }
        }
    }
    assert_eq!(freed, NUM_TXS);

    let processed: HashMap<[u8; 64], usize> = processed
        .into_iter()
        .enumerate()
        .map(|(pos, sig)| (sig, pos))
        .collect();
    assert_eq!(processed.len(), NUM_TXS, "every inserted tx must dispatch");

    let mut last_writer: HashMap<Pubkey, usize> = HashMap::new();
    let mut last_any: HashMap<Pubkey, usize> = HashMap::new();
    for (i, tx) in txs.iter().enumerate() {
        let pos = processed[&keys[i]];
        for (j, &key) in tx.message.account_keys.iter().enumerate() {
            if tx.message.is_maybe_writable(j, None) {
                let prior = *last_any.get(&key).unwrap_or(&0);
                assert!(
                    pos >= prior,
                    "writer tx {i} on {key} dispatched at {pos} before prior at {prior}",
                );
                last_writer.insert(key, pos);
                last_any.insert(key, pos);
            } else {
                let prior = *last_writer.get(&key).unwrap_or(&0);
                assert!(
                    pos >= prior,
                    "reader tx {i} on {key} dispatched at {pos} before prior writer at {prior}",
                );
                let any = last_any.entry(key).or_default();
                *any = (*any).max(pos);
            }
        }
    }

    let cleared = schedule.reset();
    assert_eq!(cleared.executed, NUM_TXS);
    assert_eq!(cleared.checked, 0);
    assert!(cleared.votes.is_empty() && cleared.dropped.is_empty() && cleared.keys.is_empty());
}

fn key(n: u8) -> [u8; 64] {
    [n; 64]
}

/// A transaction that writes the first `writable` of `keys` and reads the others.
fn view(writable: u8, keys: &[u8], lookups: u8) -> TransactionView {
    TransactionView {
        signatures: vec![[1; 64]],
        legacy: lookups == 0,
        num_required_signatures: 1,
        num_readonly_signed: 1 - writable.min(1),
        num_readonly_unsigned: keys.len() as u8 - writable.max(1),
        static_keys: keys.iter().map(|k| [*k; 32]).collect(),
        program_indices: vec![0],
        num_lookups: lookups,
        writable_lookups: lookups as u16,
    }
}

fn returned(n: u8) -> Returned {
    Returned {
        region: region(n as usize),
        signature: key(n),
    }
}

fn execution_reply(ids: &[u8]) -> Reply {
    Reply {
        processed_code: PROCESSED,
        batch: ids.iter().map(|n| returned(*n)).collect(),
        responses: Responses::Execution(vec![
            ExecutionResponse {
                not_included_reason: 0
            };
            ids.len()
        ]),
    }
}

fn check_response(resolve_flags: u8, keys: &[u8]) -> CheckResponse {
    CheckResponse {
        parsing_and_sanitization_flags: 0,
        status_check_flags: 0,
        resolve_flags,
        resolved_pubkeys: PubkeysRegion {
            offset: 500,
            num_pubkeys: keys.len() as u32,
        },
        keys: keys.iter().map(|k| [*k; 32]).collect(),
    }
}

fn batches(messages: &[PackMessage]) -> Vec<(usize, Vec<usize>)> {
    messages
        .iter()
        .map(|m| (m.worker, m.batch.iter().map(|r| r.offset).collect()))
        .collect()
}

#[test]
fn conflicting_transactions_follow_each_other() {
    let mut schedule = Schedule::new(2);
    // 0 and 1 write account 10, 2 writes account 20.
    assert!(schedule.insert_view(region(0), key(0), view(1, &[10], 0)));
    assert!(schedule.insert_view(region(1), key(1), view(1, &[10], 0)));
    assert!(schedule.insert_view(region(2), key(2), view(1, &[20], 0)));
    let (messages, _) = schedule.send_batch(7, &[true, true]);
    // The chain goes to one worker, in order; nothing is left for the other one.
    assert_eq!(batches(&messages), vec![(0, vec![0, 1, 2])]);
    assert_eq!(messages[0].max_working_slot, 7);
    assert!(schedule.active());
    assert!(schedule.draining(24));
    assert!(!schedule.draining(25));
    assert_eq!(
        schedule.handle_response(&execution_reply(&[0, 1, 2])),
        vec![region(0), region(1), region(2)]
    );
    assert!(!schedule.active());
    assert!(!schedule.draining(0));
}

#[test]
fn every_task_is_executed_once_or_refused() {
    let mut schedule = Schedule::new(2);
    schedule.insert_view(region(0), key(0), view(1, &[10], 0));
    schedule.insert_view(region(1), key(1), view(1, &[10], 1));
    schedule.insert_view(region(2), key(2), view(1, &[10], 0));
    let (messages, _) = schedule.send_batch(1, &[true, true]);
    assert_eq!(batches(&messages), vec![(0, vec![0]), (1, vec![1])]);
    assert_eq!((messages[0].flags, messages[1].flags & 1), (EXECUTE, CHECK));
    let refusal = Reply {
        processed_code: PROCESSED,
        batch: vec![returned(1)],
        responses: Responses::Check(vec![check_response(RESOLVE_FAILED, &[])]),
    };
    assert_eq!(schedule.handle_response(&refusal), vec![region(1)]);
    schedule.handle_response(&execution_reply(&[0]));
    let (messages, _) = schedule.send_batch(1, &[true, true]);
    assert_eq!(batches(&messages), vec![(0, vec![2])]);
    schedule.handle_response(&execution_reply(&[2]));
    assert!(schedule.send_batch(1, &[true, true]).0.is_empty());
    assert!(!schedule.active());
    let cleared = schedule.reset();
    assert_eq!((cleared.checked, cleared.executed), (1, 2));
    assert!(cleared.votes.is_empty() && cleared.dropped.is_empty());
}

#[test]
fn a_task_with_two_predecessors_waits_for_one_of_them() {
    let mut schedule = Schedule::new(2);
    schedule.insert_view(region(0), key(0), view(1, &[10], 0));
    let (first, _) = schedule.send_batch(1, &[true, false]);
    assert_eq!(batches(&first), vec![(0, vec![0])]);
    schedule.insert_view(region(1), key(1), view(1, &[20], 0));
    let (second, _) = schedule.send_batch(1, &[false, true]);
    assert_eq!(batches(&second), vec![(1, vec![1])]);
    // Task 2 writes both accounts: it waits until one of the two is done, then goes to the other's
    // worker.
    schedule.insert_view(region(2), key(2), view(2, &[10, 20], 0));
    assert!(schedule.send_batch(1, &[true, true]).0.is_empty());
    schedule.handle_response(&execution_reply(&[0]));
    let (third, _) = schedule.send_batch(1, &[true, true]);
    assert_eq!(batches(&third), vec![(1, vec![2])]);
}

#[test]
fn readers_do_not_wait_for_each_other() {
    let mut schedule = Schedule::new(2);
    schedule.insert_view(region(0), key(0), view(1, &[1, 10], 0));
    schedule.insert_view(region(1), key(1), view(1, &[2, 10], 0));
    schedule.insert_view(region(2), key(2), view(2, &[3, 10], 0));
    let (messages, _) = schedule.send_batch(1, &[true, true]);
    // The writer waits for both readers, which are in one batch: it follows once one is done.
    assert_eq!(batches(&messages), vec![(0, vec![0, 1])]);
    schedule.handle_response(&execution_reply(&[0, 1]));
    let (messages, _) = schedule.send_batch(1, &[true, true]);
    assert_eq!(batches(&messages), vec![(0, vec![2])]);
}

#[test]
fn full_workers_get_nothing() {
    let mut schedule = Schedule::new(2);
    schedule.insert_view(region(0), key(0), view(1, &[10], 0));
    assert!(schedule.send_batch(1, &[false, false]).0.is_empty());
    assert!(!schedule.active());
    let (messages, _) = schedule.send_batch(1, &[false, true]);
    assert_eq!(batches(&messages), vec![(1, vec![0])]);
}

#[test]
fn batches_hold_at_most_sixty_four() {
    let mut schedule = Schedule::new(2);
    for n in 0..100u8 {
        schedule.insert_view(region(n as usize), key(n), view(1, &[n], 0));
    }
    let (messages, _) = schedule.send_batch(1, &[true, true]);
    let expected: Vec<(usize, Vec<usize>)> =
        vec![(0, (0..64).collect()), (1, (64..100).collect())];
    assert_eq!(batches(&messages), expected);
}

#[test]
fn duplicates_are_given_back() {
    let mut rng = ChaChaRng::seed_from_u64(1);
    let accounts: Vec<Pubkey> = (0..64).map(|_| Pubkey::new_unique()).collect();
    let tx = random_transaction(&mut rng, &accounts, 0);
    let mut schedule = Schedule::new(1);
    let txs = [arrival(&tx, 3), arrival(&tx, 4)];
    assert_eq!(schedule.try_insert(&txs), Some(vec![region(4)]));
    assert_eq!(schedule.try_insert(&txs), Some(vec![region(3), region(4)]));
    let (messages, _) = schedule.send_batch(1, &[true]);
    assert_eq!(batches(&messages), vec![(0, vec![3])]);
}

#[test]
fn unreadable_transactions_are_refused() {
    let mut schedule = Schedule::new(1);
    let short = Arrival {
        region: region(0),
        data: vec![1; 64],
    };
    let garbage = Arrival {
        region: region(1),
        data: vec![1; 65],
    };
    assert_eq!(schedule.try_insert(&[short]), None);
    assert_eq!(schedule.try_insert(&[garbage]), None);
    assert!(schedule.send_batch(1, &[true]).0.is_empty());
    // A known signature is enough for a duplicate.
    schedule.insert_view(region(9), [1; 64], view(1, &[10], 0));
    let garbage = Arrival {
        region: region(1),
        data: vec![1; 65],
    };
    assert_eq!(schedule.try_insert(&[garbage]), Some(vec![region(1)]));
}

#[test]
fn lookup_tables_are_resolved_before_execution() {
    let mut schedule = Schedule::new(1);
    schedule.insert_view(region(0), key(0), view(1, &[1], 2));
    schedule.insert_view(region(1), key(1), view(1, &[50], 0));
    let (messages, freed) = schedule.send_batch(3, &[true]);
    // The cursor stops at the first task, so only its CHECK goes out.
    assert_eq!(batches(&messages), vec![(0, vec![0])]);
    assert_eq!(messages[0].flags, CHECK | LOAD_ADDRESS_LOOKUP_TABLES);
    assert!(freed.is_empty());
    let reply = Reply {
        processed_code: PROCESSED,
        batch: vec![returned(0)],
        responses: Responses::Check(vec![check_response(RESOLVE_PERFORMED, &[50, 60])]),
    };
    assert!(schedule.accepts(&reply));
    assert!(schedule.handle_response(&reply).is_empty());
    let (messages, freed) = schedule.send_batch(3, &[true]);
    // Both write account 50, so the second follows the first; the looked-up keys are freed.
    assert_eq!(batches(&messages), vec![(0, vec![0, 1])]);
    assert_eq!(messages[0].flags, EXECUTE);
    assert_eq!(
        freed,
        vec![PubkeysRegion {
            offset: 500,
            num_pubkeys: 2
        }]
    );
    let cleared = {
        schedule.handle_response(&execution_reply(&[0, 1]));
        schedule.reset()
    };
    assert_eq!((cleared.checked, cleared.executed), (1, 2));
}

#[test]
fn a_refused_check_drops_the_transaction() {
    for flags in [0, RESOLVE_FAILED, RESOLVE_PERFORMED | RESOLVE_FAILED] {
        let mut schedule = Schedule::new(1);
        schedule.insert_view(region(0), key(0), view(1, &[1], 1));
        schedule.send_batch(3, &[true]);
        let reply = Reply {
            processed_code: PROCESSED,
            batch: vec![returned(0)],
            responses: Responses::Check(vec![check_response(flags, &[])]),
        };
        assert_eq!(schedule.handle_response(&reply), vec![region(0)]);
        assert!(schedule.send_batch(3, &[true]).0.is_empty());
        let cleared = schedule.reset();
        assert!(cleared.votes.is_empty() && cleared.dropped.is_empty());
    }
}

#[test]
fn a_late_message_leaves_its_tasks_unexecuted() {
    let mut schedule = Schedule::new(1);
    let mut vote = view(1, &[10, 11], 0);
    vote.static_keys[1] = VOTE_PROGRAM;
    vote.program_indices = vec![1];
    schedule.insert_view(region(0), key(0), vote);
    schedule.insert_view(region(1), key(1), view(1, &[20], 0));
    schedule.insert_view(region(2), key(2), view(1, &[30], 0));
    schedule.send_batch(3, &[true]);
    let late = Reply {
        processed_code: MAX_WORKING_SLOT_EXCEEDED,
        batch: vec![returned(0), returned(1), returned(2)],
        responses: Responses::Other(0),
    };
    assert!(schedule.accepts(&late));
    assert!(schedule.handle_response(&late).is_empty());
    assert!(!schedule.active());
    assert!(schedule.votes_readable());
    let cleared = schedule.reset();
    assert_eq!(cleared.votes, vec![region(0)]);
    assert_eq!(cleared.dropped, vec![region(1), region(2)]);
    assert_eq!((cleared.checked, cleared.executed), (0, 3));
    // The schedule is empty again.
    assert!(schedule.insert_view(region(0), key(0), view(1, &[10], 0)));
}

#[test]
fn unexpected_replies_are_not_accepted() {
    let mut schedule = Schedule::new(1);
    assert!(!schedule.accepts(&execution_reply(&[])));
    schedule.insert_view(region(0), key(0), view(1, &[10], 0));
    schedule.send_batch(3, &[true]);
    assert!(schedule.accepts(&execution_reply(&[0])));
    // Unknown, twice, too few responses, the wrong kind, an unknown code.
    assert!(!schedule.accepts(&execution_reply(&[1])));
    assert!(!schedule.accepts(&execution_reply(&[0, 0])));
    let mut reply = execution_reply(&[0]);
    reply.responses = Responses::Execution(vec![]);
    assert!(!schedule.accepts(&reply));
    reply.responses = Responses::Check(vec![check_response(RESOLVE_PERFORMED, &[])]);
    assert!(!schedule.accepts(&reply));
    reply.responses = Responses::Other(9);
    assert!(!schedule.accepts(&reply));
    let mut reply = execution_reply(&[0]);
    reply.processed_code = 1;
    assert!(!schedule.accepts(&reply));
}

#[test]
fn a_double_write_is_not_resolvable() {
    let mut schedule = Schedule::new(1);
    schedule.insert_view(region(0), key(0), view(2, &[10, 10], 0));
    assert!(!schedule.resolvable());
    let mut schedule = Schedule::new(1);
    // Two reads of one account are fine.
    schedule.insert_view(region(0), key(0), view(1, &[1, 10, 10], 0));
    assert!(schedule.resolvable());
    let mut schedule = Schedule::new(1);
    let mut bad = view(1, &[1], 0);
    bad.num_required_signatures = 2;
    schedule.insert_view(region(0), key(0), bad);
    assert!(!schedule.resolvable());
}

#[test]
fn accounts_are_listed_by_header() {
    let mut tx = view(1, &[1, 2, 3, 4, 5], 2);
    tx.num_required_signatures = 2;
    tx.num_readonly_signed = 1;
    tx.num_readonly_unsigned = 1;
    tx.writable_lookups = 1;
    let uses: Vec<(u8, bool)> = tx
        .accesses(&[[6; 32], [7; 32]])
        .iter()
        .map(|a| (a.key[0], a.write))
        .collect();
    assert_eq!(
        uses,
        vec![
            (1, true),
            (2, false),
            (3, true),
            (4, true),
            (5, false),
            (6, true),
            (7, false)
        ]
    );
}

#[test]
fn votes_are_told_by_their_program() {
    let mut vote = view(1, &[1, 2], 0);
    vote.static_keys[1] = VOTE_PROGRAM;
    vote.program_indices = vec![1];
    assert!(vote.vote_readable() && vote.is_vote());
    vote.signatures = vec![[0; 64]; 2];
    assert!(vote.is_vote());
    vote.signatures = vec![[0; 64]; 3];
    assert!(!vote.is_vote());
    vote.signatures = vec![[0; 64]];
    vote.legacy = false;
    assert!(!vote.is_vote());
    vote.legacy = true;
    vote.program_indices = vec![1, 1];
    assert!(!vote.is_vote());
    vote.program_indices = vec![0];
    assert!(!vote.is_vote());
    vote.program_indices = vec![2];
    assert!(!vote.vote_readable());
    assert_eq!(
        Pubkey::new_from_array(VOTE_PROGRAM).to_string(),
        "Vote111111111111111111111111111111111111111"
    );
}
