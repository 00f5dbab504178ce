//! Shared memory transaction storage.

use crate::arrays::same_key;
use crate::bindings::{
    message_views, CheckResponse, PackMessage, PackMessageSpec, PubkeysRegion, Reply, Responses,
    Returned, TransactionRegion, CHECK, MAX_WORKING_SLOT_EXCEEDED, PROCESSED, RESOLVE_PERFORMED,
    STATUS_ALREADY_PROCESSED, STATUS_CHECKS, STATUS_INVALID_NONCE, STATUS_PERFORMED,
    STATUS_TOO_OLD,
};
use crate::consts::BATCH_SIZE;
use crate::ipc::shmem::{first_signature, signature, Arrival};
use crate::tx_map::{
    has_key, tx_entries, tx_map_drain, tx_map_get, tx_map_index_of, tx_map_insert,
    tx_map_len, tx_map_shift_remove, tx_map_with_capacity, TxMap,
};
use vstd::prelude::*;

verus! {

/// What a storage holds.
pub struct StorageSpec {
    /// Signature and region of each transaction.
    pub entries: Seq<([u8; 64], TransactionRegion)>,
    /// The transactions before it are checked or being checked.
    pub cursor: int,
    /// How many CHECKs are being processed.
    pub inflight: usize,
    pub capacity: usize,
    /// How many transactions found no room since this was last asked.
    pub dropped: usize,
}

/// `n + 1`, or `n` where that is too large.
pub open spec fn saturating_next(n: usize) -> usize {
    if n == usize::MAX {
        n
    } else {
        (n + 1) as usize
    }
}

impl CheckResponse {
    /// Whether the worker found the transaction too old, known or with a used nonce, or did not
    /// look.
    pub open spec fn failed(self) -> bool {
        self.status_check_flags & (STATUS_PERFORMED | STATUS_TOO_OLD | STATUS_ALREADY_PROCESSED
            | STATUS_INVALID_NONCE) != STATUS_PERFORMED
    }
}

impl StorageSpec {
    /// A storage without transactions.
    pub open spec fn fresh(capacity: usize) -> Self {
        StorageSpec { entries: Seq::empty(), cursor: 0, inflight: 0, capacity, dropped: 0 }
    }

    /// No two transactions have the same signature, there is room for all, and the cursor is among
    /// them.
    pub open spec fn wf(self) -> bool {
        &&& forall|i: int, j: int|
            0 <= i < j < self.entries.len() ==> (#[trigger] self.entries[i]).0 != (
            #[trigger] self.entries[j]).0
        &&& self.entries.len() <= self.capacity
        &&& 0 <= self.cursor <= self.entries.len()
    }

    /// There is no room for another transaction.
    pub open spec fn full(self) -> bool {
        self.entries.len() >= self.capacity
    }

    /// Some transaction is not checked.
    pub open spec fn needs_check(self) -> bool {
        self.cursor < self.entries.len()
    }

    /// Inserts one transaction. Where there is no room it is counted as dropped; where its
    /// signature is known nothing changes, since the old one may be on a worker.
    pub open spec fn insert(self, tx: Arrival) -> Self {
        let key = first_signature(tx.data@);
        if self.full() {
            StorageSpec { dropped: saturating_next(self.dropped), ..self }
        } else if has_key(self.entries, key) {
            self
        } else {
            StorageSpec { entries: self.entries.push((key, tx.region)), ..self }
        }
    }

    /// Whether inserting `tx` gives its region back.
    pub open spec fn rejects(self, tx: Arrival) -> bool {
        self.full() || has_key(self.entries, first_signature(tx.data@))
    }

    /// Inserts the first `n` of `txs`, in turn.
    pub open spec fn insert_all(self, txs: Seq<Arrival>, n: nat) -> Self
        decreases n,
    {
        if n == 0 {
            self
        } else {
            self.insert_all(txs, (n - 1) as nat).insert(txs[n - 1])
        }
    }

    /// The regions that inserting the first `n` of `txs` gives back.
    pub open spec fn rejected(self, txs: Seq<Arrival>, n: nat) -> Seq<TransactionRegion>
        decreases n,
    {
        if n == 0 {
            Seq::empty()
        } else if self.insert_all(txs, (n - 1) as nat).rejects(txs[n - 1]) {
            self.rejected(txs, (n - 1) as nat).push(txs[n - 1].region)
        } else {
            self.rejected(txs, (n - 1) as nat)
        }
    }

    /// Each of `txs` that finds room is long enough to hold a signature.
    pub open spec fn insertable(self, txs: Seq<Arrival>) -> bool {
        forall|i: int|
            0 <= i < txs.len() ==> (#[trigger] txs[i]).data@.len() >= 65 || self.insert_all(
                txs,
                i as nat,
            ).full()
    }

    /// The end of the next batch to check.
    pub open spec fn batch_end(self) -> int {
        if self.cursor + BATCH_SIZE <= self.entries.len() {
            self.cursor + BATCH_SIZE
        } else {
            self.entries.len() as int
        }
    }

    /// The regions of the next batch to check.
    pub open spec fn batch(self) -> Seq<TransactionRegion> {
        Seq::new(
            (self.batch_end() - self.cursor) as nat,
            |k: int| self.entries[self.cursor + k].1,
        )
    }

    /// The storage after the first `n` workers were offered a batch; a worker gets one where it is
    /// open and something is left to check.
    pub open spec fn check(self, open: Seq<bool>, n: nat) -> Self
        decreases n,
    {
        if n == 0 {
            self
        } else {
            let v = self.check(open, (n - 1) as nat);
            if open[n - 1] && v.needs_check() {
                StorageSpec {
                    cursor: v.batch_end(),
                    inflight: saturating_next(v.inflight),
                    ..v
                }
            } else {
                v
            }
        }
    }

    /// The messages that offering a batch to the first `n` workers sends.
    pub open spec fn check_messages(self, slot: u64, open: Seq<bool>, n: nat) -> Seq<
        PackMessageSpec,
    >
        decreases n,
    {
        if n == 0 {
            Seq::empty()
        } else {
            let v = self.check(open, (n - 1) as nat);
            let earlier = self.check_messages(slot, open, (n - 1) as nat);
            if open[n - 1] && v.needs_check() {
                earlier.push(
                    PackMessageSpec {
                        worker: n - 1,
                        flags: CHECK | STATUS_CHECKS,
                        max_working_slot: slot,
                        batch: v.batch(),
                    },
                )
            } else {
                earlier
            }
        }
    }

    /// The position of the transaction with signature `key`.
    pub open spec fn position(self, key: [u8; 64]) -> int {
        choose|i: int| 0 <= i < self.entries.len() && (#[trigger] self.entries[i]).0 == key
    }

    /// Removes the transaction with signature `key`: those behind it move up, in their order, and the
    /// cursor stays before the transaction that it stood before.
    pub open spec fn remove(self, key: [u8; 64]) -> Self {
        StorageSpec {
            entries: self.entries.remove(self.position(key)),
            cursor: if self.position(key) < self.cursor {
                self.cursor - 1
            } else {
                self.cursor
            },
            ..self
        }
    }

    /// Takes the first `n` CHECK responses, in turn: what failed is removed.
    pub open spec fn resolve_all(
        self,
        batch: Seq<Returned>,
        responses: Seq<CheckResponse>,
        n: nat,
    ) -> Self
        decreases n,
    {
        if n == 0 {
            self
        } else {
            let v = self.resolve_all(batch, responses, (n - 1) as nat);
            if responses[n - 1].failed() {
                v.remove(batch[n - 1].signature)
            } else {
                v
            }
        }
    }

    /// The regions that taking the first `n` CHECK responses gives back.
    pub open spec fn removed(
        self,
        batch: Seq<Returned>,
        responses: Seq<CheckResponse>,
        n: nat,
    ) -> Seq<TransactionRegion>
        decreases n,
    {
        if n == 0 {
            Seq::empty()
        } else {
            let v = self.resolve_all(batch, responses, (n - 1) as nat);
            let earlier = self.removed(batch, responses, (n - 1) as nat);
            if responses[n - 1].failed() {
                earlier.push(v.entries[v.position(batch[n - 1].signature)].1)
            } else {
                earlier
            }
        }
    }

    /// Whether a worker may send `reply`: each transaction that failed is in storage, and is
    /// answered as failed once.
    pub open spec fn accepts(self, reply: Reply) -> bool {
        ||| reply.processed_code == MAX_WORKING_SLOT_EXCEEDED
        ||| reply.processed_code == PROCESSED && match reply.responses {
            Responses::Check(list) => self.accepts_batch(reply.batch@, list@),
            _ => false,
        }
    }

    /// Whether a worker may answer `batch` with `responses`.
    pub open spec fn accepts_batch(
        self,
        batch: Seq<Returned>,
        responses: Seq<CheckResponse>,
    ) -> bool {
        &&& forall|k: int|
            0 <= k < batch.len() && k < responses.len() && responses[k].failed() ==> has_key(
                self.entries,
                (#[trigger] batch[k]).signature,
            )
        &&& forall|i: int, k: int|
            0 <= i < k < batch.len() && k < responses.len() && responses[i].failed()
                && responses[k].failed() ==> (#[trigger] batch[i]).signature != (
            #[trigger] batch[k]).signature
    }

    /// How many transactions of `reply` have a response.
    pub open spec fn num_answered(reply: Reply) -> nat {
        match reply.responses {
            Responses::Check(list) if reply.processed_code == PROCESSED => if reply.batch@.len()
                <= list@.len() {
                reply.batch@.len()
            } else {
                list@.len()
            },
            _ => 0,
        }
    }

    /// The responses of `reply`.
    pub open spec fn responses(reply: Reply) -> Seq<CheckResponse> {
        match reply.responses {
            Responses::Check(list) => list@,
            _ => Seq::empty(),
        }
    }

    /// The storage with one CHECK less in flight.
    pub open spec fn answered(self) -> Self {
        StorageSpec {
            inflight: if self.inflight > 0 {
                (self.inflight - 1) as usize
            } else {
                0
            },
            ..self
        }
    }

    /// The storage after `reply`.
    pub open spec fn after(self, reply: Reply) -> Self {
        self.answered().resolve_all(
            reply.batch@,
            Self::responses(reply),
            Self::num_answered(reply),
        )
    }

    /// How many transactions leave when up to `max` are drained.
    pub open spec fn drain_end(self, max: usize) -> int {
        if self.entries.len() <= max {
            self.entries.len() as int
        } else {
            max as int
        }
    }

    /// The storage after up to `max` transactions were drained.
    pub open spec fn drain(self, max: usize) -> Self {
        let end = self.drain_end(max);
        StorageSpec {
            entries: self.entries.skip(end),
            cursor: if self.cursor >= end {
                self.cursor - end
            } else {
                0
            },
            ..self
        }
    }
}

/// The lookup keys that the first `n` of `responses` hand over.
pub open spec fn keys_of(responses: Seq<CheckResponse>, n: nat) -> Seq<PubkeysRegion>
    decreases n,
{
    if n == 0 {
        Seq::empty()
    } else if responses[n - 1].resolve_flags & RESOLVE_PERFORMED != 0 {
        keys_of(responses, (n - 1) as nat).push(responses[n - 1].resolved_pubkeys)
    } else {
        keys_of(responses, (n - 1) as nat)
    }
}

impl StorageSpec {
    /// Inserting keeps a storage well formed.
    pub proof fn lemma_insert_wf(self, tx: Arrival)
        requires
            self.wf(),
        ensures
            self.insert(tx).wf(),
    {
        let key = first_signature(tx.data@);
        if !self.full() && !has_key(self.entries, key) {
            let v = self.insert(tx);
            assert forall|i: int, j: int| 0 <= i < j < v.entries.len() implies (
            #[trigger] v.entries[i]).0 != (#[trigger] v.entries[j]).0 by {
                if j < self.entries.len() {
                    assert(self.entries[i].0 != self.entries[j].0);
                } else {
                    assert(self.entries[i].0 != key);
                }
            }
        }
    }

    /// Inserting changes nothing about what is in flight.
    pub proof fn lemma_insert_all_inflight(self, txs: Seq<Arrival>, n: nat)
        ensures
            self.insert_all(txs, n).inflight == self.inflight,
            self.insert_all(txs, n).capacity == self.capacity,
        decreases n,
    {
        if n > 0 {
            self.lemma_insert_all_inflight(txs, (n - 1) as nat);
        }
    }

    /// A reply takes one CHECK from what is in flight.
    pub proof fn lemma_after_inflight(self, reply: Reply)
        ensures
            self.after(reply).inflight == self.answered().inflight,
    {
        self.answered().lemma_resolve_all_inflight(
            reply.batch@,
            Self::responses(reply),
            Self::num_answered(reply),
        );
    }

    proof fn lemma_resolve_all_inflight(
        self,
        batch: Seq<Returned>,
        responses: Seq<CheckResponse>,
        n: nat,
    )
        ensures
            self.resolve_all(batch, responses, n).inflight == self.inflight,
        decreases n,
    {
        if n > 0 {
            self.lemma_resolve_all_inflight(batch, responses, (n - 1) as nat);
        }
    }

    /// A signature names one position.
    pub proof fn lemma_position(self, i: int)
        requires
            self.wf(),
            0 <= i < self.entries.len(),
        ensures
            has_key(self.entries, self.entries[i].0),
            self.position(self.entries[i].0) == i,
    {
        let key = self.entries[i].0;
        let j = self.position(key);
        assert(0 <= j < self.entries.len() && self.entries[j].0 == key);
        if j < i {
            assert(self.entries[j].0 != self.entries[i].0);
        } else if i < j {
            assert(self.entries[i].0 != self.entries[j].0);
        }
    }

    /// Removing keeps a storage well formed, and takes out one signature.
    pub proof fn lemma_remove_wf(self, key: [u8; 64])
        requires
            self.wf(),
            has_key(self.entries, key),
        ensures
            self.remove(key).wf(),
            0 <= self.position(key) < self.entries.len(),
            self.entries[self.position(key)].0 == key,
            forall|k: [u8; 64]| #[trigger]
                has_key(self.remove(key).entries, k) <==> has_key(self.entries, k) && k != key,
    {
        let r = self.position(key);
        assert(0 <= r < self.entries.len() && self.entries[r].0 == key);
        let v = self.remove(key);
        // Where an entry of the result stood before.
        let from = |i: int|
            if i < r {
                i
            } else {
                i + 1
            };
        assert forall|i: int| 0 <= i < v.entries.len() implies (#[trigger] v.entries[i])
            == self.entries[from(i)] by {
        }
        assert forall|i: int, j: int| 0 <= i < j < v.entries.len() implies (
        #[trigger] v.entries[i]).0 != (#[trigger] v.entries[j]).0 by {
            assert(self.entries[from(i)].0 != self.entries[from(j)].0);
        }
        assert forall|k: [u8; 64]| #[trigger] has_key(v.entries, k) <==> has_key(
            self.entries,
            k,
        ) && k != key by {
            if has_key(v.entries, k) {
                let i = choose|i: int|
                    0 <= i < v.entries.len() && (#[trigger] v.entries[i]).0 == k;
                let a = from(i);
                assert(self.entries[a].0 == k);
                if a < r {
                    assert(self.entries[a].0 != self.entries[r].0);
                } else {
                    assert(self.entries[r].0 != self.entries[a].0);
                }
            }
            if has_key(self.entries, k) && k != key {
                let a = choose|a: int|
                    0 <= a < self.entries.len() && (#[trigger] self.entries[a]).0 == k;
                let i = if a < r {
                    a
                } else {
                    a - 1
                };
                assert(v.entries[i].0 == k);
            }
        }
    }

    /// Taking responses one after another keeps a storage well formed.
    pub proof fn lemma_resolve_all_wf(
        self,
        batch: Seq<Returned>,
        responses: Seq<CheckResponse>,
        n: nat,
    )
        requires
            self.wf(),
            n <= batch.len(),
            n <= responses.len(),
            self.accepts_batch(batch, responses),
        ensures
            self.resolve_all(batch, responses, n).wf(),
            forall|k: int|
                n <= k < batch.len() && k < responses.len() && responses[k].failed() ==> has_key(
                    self.resolve_all(batch, responses, n).entries,
                    (#[trigger] batch[k]).signature,
                ),
        decreases n,
    {
        if n > 0 {
            let m = (n - 1) as nat;
            self.lemma_resolve_all_wf(batch, responses, m);
            let v = self.resolve_all(batch, responses, m);
            if responses[n - 1].failed() {
                let key = batch[n - 1].signature;
                assert(has_key(v.entries, key));
                v.lemma_remove_wf(key);
                assert forall|k: int|
                    n <= k < batch.len() && k < responses.len()
                        && responses[k].failed() implies has_key(
                    self.resolve_all(batch, responses, n).entries,
                    (#[trigger] batch[k]).signature,
                ) by {
                    assert(batch[n - 1].signature != batch[k].signature);
                    assert(has_key(v.entries, batch[k].signature));
                }
            }
        }
    }

    /// Offering batches keeps a storage well formed.
    pub proof fn lemma_check_wf(self, open: Seq<bool>, n: nat)
        requires
            self.wf(),
        ensures
            self.check(open, n).wf(),
            self.check(open, n).entries == self.entries,
            self.check(open, n).cursor >= self.cursor,
        decreases n,
    {
        if n > 0 {
            self.lemma_check_wf(open, (n - 1) as nat);
        }
    }
}

/// Transactions that wait for the next leader slot.
pub struct Storage {
    transactions: TxMap,
    cursor: usize,
    inflight: usize,
    capacity: usize,
    dropped: usize,
}

impl View for Storage {
    type V = StorageSpec;

    closed spec fn view(&self) -> StorageSpec {
        StorageSpec {
            entries: tx_entries(self.transactions),
            cursor: self.cursor as int,
            inflight: self.inflight,
            capacity: self.capacity,
            dropped: self.dropped,
        }
    }
}

/// Whether the worker found the transaction too old, known or with a used nonce, or did not look.
pub fn check_failed(response: &CheckResponse) -> (result: bool)
    ensures
        result == response.failed(),
{
    response.status_check_flags & (STATUS_PERFORMED | STATUS_TOO_OLD | STATUS_ALREADY_PROCESSED
        | STATUS_INVALID_NONCE) != STATUS_PERFORMED
}

impl Storage {
    /// A storage without transactions.
    pub fn new(capacity: usize) -> (result: Self)
        ensures
            result@.wf(),
            result@ == StorageSpec::fresh(capacity),
    {
        let reserved: usize = if capacity <= 0x1_0000 {
            capacity
        } else {
            0x1_0000
        };
        Storage {
            transactions: tx_map_with_capacity(reserved),
            cursor: 0,
            inflight: 0,
            capacity,
            dropped: 0,
        }
    }

    /// Gets and clears the dropped counter.
    pub fn dropped(&mut self) -> (result: usize)
        ensures
            result == old(self)@.dropped,
            final(self)@ == (StorageSpec { dropped: 0, ..old(self)@ }),
    {
        let dropped: usize = self.dropped;
        self.dropped = 0;
        dropped
    }

    /// Resets the cursor for a new pass over the storage.
    pub fn reset_cursor(&mut self)
        ensures
            final(self)@ == (StorageSpec { cursor: 0, ..old(self)@ }),
    {
        self.cursor = 0;
    }

    /// How many CHECKs are being processed.
    pub fn inflight(&self) -> (result: usize)
        ensures
            result == self@.inflight,
    {
        self.inflight
    }

    /// Whether the storage is empty.
    pub fn is_empty(&self) -> (result: bool)
        ensures
            result == (self@.entries.len() == 0),
    {
        tx_map_len(&self.transactions) == 0
    }

    /// Whether there is no room for another transaction.
    pub fn is_full(&self) -> (result: bool)
        ensures
            result == self@.full(),
    {
        tx_map_len(&self.transactions) >= self.capacity
    }

    /// Whether any transaction is not checked.
    pub fn needs_check(&self) -> (result: bool)
        ensures
            result == self@.needs_check(),
    {
        self.cursor < tx_map_len(&self.transactions)
    }

    /// Inserts transactions, dropping them where there is no room so that nothing backs up.
    /// Returns the regions of those that were dropped or are known: they are the caller's to free.
    pub fn insert(&mut self, txs: &[Arrival]) -> (freed: Vec<TransactionRegion>)
        requires
            old(self)@.wf(),
            old(self)@.insertable(txs@),
        ensures
            final(self)@.wf(),
            final(self)@ == old(self)@.insert_all(txs@, txs@.len()),
            freed@ == old(self)@.rejected(txs@, txs@.len()),
    {
        let ghost was = self@;
        let mut freed: Vec<TransactionRegion> = Vec::new();
        let mut i: usize = 0;
        while i < txs.len()
            invariant
                i <= txs@.len(),
                was.insertable(txs@),
                self@.wf(),
                self@ == was.insert_all(txs@, i as nat),
                freed@ == was.rejected(txs@, i as nat),
            decreases txs.len() - i,
        {
            let tx = &txs[i];
            proof {
                self@.lemma_insert_wf(*tx);
            }
            if self.is_full() {
                freed.push(tx.region);
                self.dropped = self.dropped.saturating_add(1);
            } else {
                let key = signature(tx.data.as_slice());
                if tx_map_insert(&mut self.transactions, key, tx.region).is_none() {
                    freed.push(tx.region);
                }
            }
            i = i + 1;
        }
        freed
    }

    /// Sends a batch for CHECK to each worker whose channel has room. Between two calls of
    /// `reset_cursor` the storage is passed once.
    pub fn check(&mut self, slot: u64, open: &[bool]) -> (messages: Vec<PackMessage>)
        requires
            old(self)@.wf(),
        ensures
            final(self)@.wf(),
            final(self)@ == old(self)@.check(open@, open@.len()),
            message_views(messages@) == old(self)@.check_messages(slot, open@, open@.len()),
    {
        let ghost was = self@;
        let mut messages: Vec<PackMessage> = Vec::new();
        let mut w: usize = 0;
        while w < open.len()
            invariant
                w <= open@.len(),
                was.wf(),
                self@.wf(),
                self@ == was.check(open@, w as nat),
                message_views(messages@) =~= was.check_messages(slot, open@, w as nat),
            decreases open.len() - w,
        {
            let ghost sent = messages@;
            proof {
                was.lemma_check_wf(open@, (w + 1) as nat);
            }
            if open[w] && self.needs_check() {
                let batch = self.next_batch();
                self.inflight = self.inflight.saturating_add(1);
                let message = PackMessage {
                    worker: w,
                    flags: CHECK | STATUS_CHECKS,
                    max_working_slot: slot,
                    batch,
                };
                messages.push(message);
                assert(message_views(messages@) =~= message_views(sent).push(message@));
            }
            w = w + 1;
        }
        messages
    }

    /// Gets the next batch to check, moving the cursor over it.
    fn next_batch(&mut self) -> (batch: Vec<TransactionRegion>)
        requires
            old(self)@.wf(),
        ensures
            batch@ == old(self)@.batch(),
            final(self)@ == (StorageSpec { cursor: old(self)@.batch_end(), ..old(self)@ }),
    {
        let ghost was = self@;
        let len: usize = tx_map_len(&self.transactions);
        let reach: usize = self.cursor.saturating_add(BATCH_SIZE);
        let end: usize = if reach <= len {
            reach
        } else {
            len
        };
        let mut batch: Vec<TransactionRegion> = Vec::new();
        let mut i: usize = self.cursor;
        while i < end
            invariant
                was == self@,
                was.cursor <= i <= end == was.batch_end() <= was.entries.len(),
                batch@ =~= was.batch().take(i - was.cursor),
            decreases end - i,
        {
            batch.push(tx_map_get(&self.transactions, i).unwrap().1);
            i = i + 1;
        }
        self.cursor = end;
        assert(batch@ =~= was.batch());
        batch
    }

    /// Takes a worker's reply: transactions that failed CHECK leave the storage. Returns their
    /// regions and the lookup keys that came with the responses, to be freed.
    pub fn resolve(&mut self, reply: &Reply) -> (freed: (
        Vec<TransactionRegion>,
        Vec<PubkeysRegion>,
    ))
        requires
            old(self)@.wf(),
            old(self)@.accepts(*reply),
        ensures
            final(self)@.wf(),
            final(self)@ == old(self)@.after(*reply),
            freed.0@ == old(self)@.answered().removed(
                reply.batch@,
                StorageSpec::responses(*reply),
                StorageSpec::num_answered(*reply),
            ),
            freed.1@ == keys_of(StorageSpec::responses(*reply), StorageSpec::num_answered(*reply)),
    {
        self.inflight = self.inflight.saturating_sub(1);
        let ghost start = self@;
        assert(start == old(self)@.answered());
        let mut txs: Vec<TransactionRegion> = Vec::new();
        let mut keys: Vec<PubkeysRegion> = Vec::new();
        if reply.processed_code != PROCESSED {
            return (txs, keys);
        }
        if let Responses::Check(list) = &reply.responses {
            let ghost batch = reply.batch@;
            let ghost responses = list@;
            let n: usize = if reply.batch.len() <= list.len() {
                reply.batch.len()
            } else {
                list.len()
            };
            let mut k: usize = 0;
            while k < n
                invariant
                    k <= n <= batch.len(),
                    n <= responses.len(),
                    batch == reply.batch@,
                    responses == list@,
                    start.wf(),
                    start.accepts_batch(batch, responses),
                    self@.wf(),
                    self@ == start.resolve_all(batch, responses, k as nat),
                    txs@ == start.removed(batch, responses, k as nat),
                    keys@ == keys_of(responses, k as nat),
                decreases n - k,
            {
                proof {
                    start.lemma_resolve_all_wf(batch, responses, k as nat);
                    start.lemma_resolve_all_wf(batch, responses, (k + 1) as nat);
                }
                let response = &list[k];
                if check_failed(response) {
                    assert(has_key(self@.entries, batch[k as int].signature));
                    let region = self.remove(&reply.batch[k].signature);
                    txs.push(region);
                }
                if response.resolve_flags & RESOLVE_PERFORMED != 0 {
                    keys.push(response.resolved_pubkeys);
                }
                k = k + 1;
            }
        }
        (txs, keys)
    }

    /// Removes a transaction, so that what stands before the cursor is still checked and the others
    /// keep their order. Returns its region.
    fn remove(&mut self, key: &[u8; 64]) -> (freed: TransactionRegion)
        requires
            old(self)@.wf(),
            has_key(old(self)@.entries, *key),
        ensures
            final(self)@ == old(self)@.remove(*key),
            freed == old(self)@.entries[old(self)@.position(*key)].1,
    {
        let index: usize = tx_map_index_of(&self.transactions, key).unwrap();
        proof {
            self@.lemma_position(index as int);
        }
        let entry = tx_map_shift_remove(&mut self.transactions, index).unwrap();
        if index < self.cursor {
            self.cursor = self.cursor - 1;
        }
        entry.1
    }

    /// Drains up to `max` transactions, the oldest first.
    pub fn drain(&mut self, max: usize) -> (drained: Vec<TransactionRegion>)
        requires
            old(self)@.wf(),
        ensures
            final(self)@.wf(),
            final(self)@ == old(self)@.drain(max),
            drained@ == Seq::new(
                old(self)@.drain_end(max) as nat,
                |i: int| old(self)@.entries[i].1,
            ),
    {
        let ghost was = self@;
        let len: usize = tx_map_len(&self.transactions);
        let end: usize = if len <= max {
            len
        } else {
            max
        };
        self.cursor = self.cursor.saturating_sub(end);
        let entries = tx_map_drain(&mut self.transactions, end);
        let mut drained: Vec<TransactionRegion> = Vec::new();
        let mut i: usize = 0;
        while i < end
            invariant
                i <= end == entries@.len() <= was.entries.len(),
                entries@ == was.entries.take(end as int),
                drained@ =~= Seq::new(i as nat, |k: int| was.entries[k].1),
            decreases end - i,
        {
            drained.push(entries[i].1);
            i = i + 1;
        }
        drained
    }

    /// Whether a worker may send `reply`.
    pub fn accepts(&self, reply: &Reply) -> (result: bool)
        ensures
            result == self@.accepts(*reply),
    {
        if reply.processed_code == MAX_WORKING_SLOT_EXCEEDED {
            return true;
        }
        if reply.processed_code != PROCESSED {
            return false;
        }
        match &reply.responses {
            Responses::Check(list) => self.accepts_batch(&reply.batch, list),
            _ => false,
        }
    }

    /// Whether a worker may answer `batch` with `responses`.
    fn accepts_batch(&self, batch: &Vec<Returned>, responses: &Vec<CheckResponse>) -> (result: bool)
        ensures
            result == self@.accepts_batch(batch@, responses@),
    {
        let mut k: usize = 0;
        while k < batch.len() && k < responses.len()
            invariant
                k <= batch@.len(),
                k <= responses@.len(),
                forall|i: int|
                    0 <= i < k && responses@[i].failed() ==> has_key(
                        self@.entries,
                        (#[trigger] batch@[i]).signature,
                    ),
                forall|i: int, j: int|
                    0 <= i < j < k && responses@[i].failed() && responses@[j].failed() ==> (
                    #[trigger] batch@[i]).signature != (#[trigger] batch@[j]).signature,
            decreases batch.len() - k,
        {
            if check_failed(&responses[k]) {
                if tx_map_index_of(&self.transactions, &batch[k].signature).is_none() {
                    assert(!has_key(self@.entries, batch@[k as int].signature));
                    return false;
                }
                let mut i: usize = 0;
                while i < k
                    invariant
                        i <= k < batch@.len(),
                        k < responses@.len(),
                        responses@[k as int].failed(),
                        forall|j: int|
                            0 <= j < i && responses@[j].failed() ==> (
                            #[trigger] batch@[j]).signature != batch@[k as int].signature,
                    decreases k - i,
                {
                    if check_failed(&responses[i]) && same_key(
                        &batch[i].signature,
                        &batch[k].signature,
                    ) {
                        return false;
                    }
                    i = i + 1;
                }
            }
            k = k + 1;
        }
        true
    }
}

} // verus!
