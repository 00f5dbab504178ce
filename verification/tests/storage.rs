use harmonic_scheduler::bindings::{
    CheckResponse, PackMessage, PubkeysRegion, Reply, Responses, Returned, TransactionRegion,
    CHECK, MAX_WORKING_SLOT_EXCEEDED, PROCESSED, RESOLVE_PERFORMED, STATUS_ALREADY_PROCESSED,
    STATUS_CHECKS, STATUS_INVALID_NONCE, STATUS_PERFORMED, STATUS_TOO_OLD,
};
use harmonic_scheduler::ipc::shmem::{signature, Arrival};
use harmonic_scheduler::validator::storage::{check_failed, Storage};

fn region(n: usize) -> TransactionRegion {
    TransactionRegion {
        offset: n,
        length: 100,
    }
}

fn data(n: usize) -> Vec<u8> {
    let mut data = vec![0u8; 100];
    data[0] = 1;
    data[1..9].copy_from_slice(&(n as u64).to_le_bytes());
    data
}

fn arrival(n: usize) -> Arrival {
    Arrival {
        region: region(n),
        data: data(n),
    }
}

fn arrivals(range: std::ops::Range<usize>) -> Vec<Arrival> {
    range.map(arrival).collect()
}

fn response(status_check_flags: u8) -> CheckResponse {
    CheckResponse {
        parsing_and_sanitization_flags: 0,
        status_check_flags,
        resolve_flags: 0,
        resolved_pubkeys: PubkeysRegion {
            offset: 0,
            num_pubkeys: 0,
        },
        keys: vec![],
    }
}

fn reply(ids: &[usize], failed: &[usize]) -> Reply {
    Reply {
        processed_code: PROCESSED,
        batch: ids
            .iter()
            .map(|n| Returned {
                region: region(*n),
                signature: signature(&data(*n)),
            })
            .collect(),
        responses: Responses::Check(
            ids.iter()
                .map(|n| {
                    response(if failed.contains(n) {
                        STATUS_PERFORMED | STATUS_TOO_OLD
                    } else {
                        STATUS_PERFORMED
                    })
                })
                .collect(),
        ),
    }
}

fn batches(messages: &[PackMessage]) -> Vec<(usize, Vec<usize>)> {
    messages
        .iter()
        .map(|m| (m.worker, m.batch.iter().map(|r| r.offset).collect()))
        .collect()
}

fn offsets(regions: &[TransactionRegion]) -> Vec<usize> {
    regions.iter().map(|r| r.offset).collect()
}

#[test]
fn the_signature_follows_the_length_byte() {
    let mut bytes: Vec<u8> = (0..=255).collect();
    bytes.truncate(80);
    let expected: Vec<u8> = (1..65).collect();
    assert_eq!(signature(&bytes).to_vec(), expected);
}

#[test]
fn full_storage_drops_and_counts() {
    let mut storage = Storage::new(2);
    assert!(storage.is_empty());
    assert_eq!(offsets(&storage.insert(&arrivals(0..4))), vec![2, 3]);
    assert!(!storage.is_empty());
    assert_eq!(storage.dropped(), 2);
    assert_eq!(storage.dropped(), 0);
}

#[test]
fn known_transactions_are_given_back() {
    let mut storage = Storage::new(10);
    storage.insert(&arrivals(0..2));
    let again = Arrival {
        region: region(77),
        data: data(1),
    };
    assert_eq!(offsets(&storage.insert(&[again])), vec![77]);
    assert_eq!(storage.dropped(), 0);
    assert_eq!(offsets(&storage.drain(10)), vec![0, 1]);
}

#[test]
fn a_pass_checks_each_transaction_once() {
    let mut storage = Storage::new(1000);
    storage.insert(&arrivals(0..150));
    assert!(storage.needs_check());
    let messages = storage.check(9, &[true, false, true, true, true]);
    assert_eq!(
        batches(&messages),
        vec![
            (0, (0..64).collect()),
            (2, (64..128).collect()),
            (3, (128..150).collect())
        ]
    );
    assert!(messages
        .iter()
        .all(|m| m.flags == CHECK | STATUS_CHECKS && m.max_working_slot == 9));
    assert_eq!(storage.inflight(), 3);
    assert!(!storage.needs_check());
    assert!(storage.check(9, &[true, true]).is_empty());
    storage.reset_cursor();
    assert_eq!(
        batches(&storage.check(10, &[true])),
        vec![(0, (0..64).collect())]
    );
    assert!(storage.check(10, &[]).is_empty());
    assert!(storage.check(10, &[false, false]).is_empty());
    assert_eq!(
        batches(&storage.check(10, &[true])),
        vec![(0, (64..128).collect())]
    );
}

#[test]
fn failed_checks_leave_the_storage() {
    let mut storage = Storage::new(1000);
    storage.insert(&arrivals(0..3));
    storage.check(1, &[true]);
    storage.insert(&arrivals(3..5));
    let message = reply(&[0, 1, 2], &[1]);
    assert!(storage.accepts(&message));
    let (freed, keys) = storage.resolve(&message);
    assert_eq!(offsets(&freed), vec![1]);
    assert!(keys.is_empty());
    assert_eq!(storage.inflight(), 0);
    // What came since is checked next, and the order stays.
    assert_eq!(
        batches(&storage.check(1, &[true])),
        vec![(0, vec![3, 4])]
    );
    assert_eq!(offsets(&storage.drain(10)), vec![0, 2, 3, 4]);
}

#[test]
fn the_oldest_come_out_first_after_a_failed_check() {
    let mut storage = Storage::new(8);
    storage.insert(&arrivals(0..3));
    storage.check(1, &[true]);
    storage.resolve(&reply(&[0, 1, 2], &[0]));
    assert_eq!(offsets(&storage.drain(2)), vec![1, 2]);
    assert!(storage.is_empty());
}

#[test]
fn removal_before_any_check_keeps_the_rest() {
    let mut storage = Storage::new(1000);
    storage.insert(&arrivals(0..3));
    storage.check(1, &[true]);
    storage.reset_cursor();
    let (freed, _) = storage.resolve(&reply(&[0, 1, 2], &[2]));
    assert_eq!(offsets(&freed), vec![2]);
    assert_eq!(
        batches(&storage.check(1, &[true])),
        vec![(0, vec![0, 1])]
    );
}

#[test]
fn late_checks_change_nothing() {
    let mut storage = Storage::new(1000);
    storage.insert(&arrivals(0..3));
    storage.check(1, &[true]);
    let mut late = reply(&[0, 1, 2], &[0, 1, 2]);
    late.processed_code = MAX_WORKING_SLOT_EXCEEDED;
    assert!(storage.accepts(&late));
    let (freed, keys) = storage.resolve(&late);
    assert!(freed.is_empty() && keys.is_empty());
    assert_eq!(storage.inflight(), 0);
    assert_eq!(offsets(&storage.drain(10)), vec![0, 1, 2]);
}

#[test]
fn looked_up_keys_are_freed() {
    let mut storage = Storage::new(1000);
    storage.insert(&arrivals(0..1));
    storage.check(1, &[true]);
    let mut message = reply(&[0], &[]);
    let keys = PubkeysRegion {
        offset: 40,
        num_pubkeys: 2,
    };
    let mut performed = response(STATUS_PERFORMED);
    performed.resolve_flags = RESOLVE_PERFORMED;
    performed.resolved_pubkeys = keys;
    message.responses = Responses::Check(vec![performed]);
    assert_eq!(storage.resolve(&message), (vec![], vec![keys]));
}

#[test]
fn draining_is_first_in_first_out_and_rewinds() {
    let mut storage = Storage::new(1000);
    storage.insert(&arrivals(0..5));
    storage.check(1, &[true]);
    storage.insert(&arrivals(5..7));
    assert_eq!(offsets(&storage.drain(3)), vec![0, 1, 2]);
    // Two of the checked ones are left before the cursor.
    assert_eq!(
        batches(&storage.check(1, &[true])),
        vec![(0, vec![5, 6])]
    );
    assert_eq!(offsets(&storage.drain(0)), Vec::<usize>::new());
    assert_eq!(offsets(&storage.drain(usize::MAX)), vec![3, 4, 5, 6]);
    assert!(storage.is_empty());
    assert!(!storage.needs_check());
}

#[test]
fn unexpected_check_replies_are_not_accepted() {
    let mut storage = Storage::new(1000);
    storage.insert(&arrivals(0..2));
    storage.check(1, &[true]);
    assert!(!storage.accepts(&reply(&[5], &[5])));
    assert!(storage.accepts(&reply(&[5], &[])));
    assert!(!storage.accepts(&reply(&[0, 0], &[0])));
    let mut other = reply(&[0], &[]);
    other.processed_code = 1;
    assert!(!storage.accepts(&other));
    other.processed_code = PROCESSED;
    other.responses = Responses::Other(3);
    assert!(!storage.accepts(&other));
}

#[test]
fn only_a_clean_status_passes() {
    assert!(!check_failed(&response(STATUS_PERFORMED)));
    assert!(!check_failed(&response(STATUS_PERFORMED | 1)));
    assert!(check_failed(&response(0)));
    assert!(check_failed(&response(1)));
    for flag in [
        STATUS_TOO_OLD,
        STATUS_ALREADY_PROCESSED,
        STATUS_INVALID_NONCE,
    ] {
        assert!(check_failed(&response(STATUS_PERFORMED | flag)));
        assert!(check_failed(&response(flag)));
    }
}
