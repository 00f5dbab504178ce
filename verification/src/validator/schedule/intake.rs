//! Inserting transactions into a schedule.

use crate::arrays::same_key;
use crate::bindings::TransactionRegion;
use crate::ipc::shmem::{first_signature, signature, Arrival};
use crate::validator::schedule::model::ScheduleSpec;
use crate::validator::schedule::Schedule;
use crate::transaction::parse_transaction;
use crate::tx_map::tx_map_index_of;
use vstd::prelude::*;

verus! {

impl ScheduleSpec {
    /// What is known after inserting the first `n` of `txs`.
    pub proof fn lemma_insert_all_knows(self, txs: Seq<Arrival>, n: nat, key: [u8; 64])
        requires
            n <= txs.len(),
        ensures
            self.insert_all(txs, n).has_task(key) <==> self.has_task(key) || exists|j: int|
                0 <= j < n && first_signature((#[trigger] txs[j]).data@) == key,
        decreases n,
    {
        if n > 0 {
            let m = (n - 1) as nat;
            self.lemma_insert_all_knows(txs, m, key);
            let v = self.insert_all(txs, m);
            let w = self.insert_all(txs, n);
            let last = first_signature(txs[n - 1].data@);
            if v.has_task(key) {
                let i = choose|i: int|
                    0 <= i < v.entries.len() && (#[trigger] v.entries[i]).0 == key;
                assert(w.entries[i].0 == key);
            }
            if last == key && !v.has_task(last) {
                assert(w.entries[v.entries.len() as int].0 == key);
            }
            if w.has_task(key) {
                let i = choose|i: int|
                    0 <= i < w.entries.len() && (#[trigger] w.entries[i]).0 == key;
                if i < v.entries.len() {
                    assert(v.entries[i].0 == key);
                } else {
                    assert(first_signature(txs[m as int].data@) == key);
                }
            }
        }
    }
}

impl Schedule {
    /// Inserts transactions in turn. Returns the regions of those whose signature is known: they
    /// are the caller's to free.
    pub fn insert(&mut self, txs: &[Arrival]) -> (freed: Vec<TransactionRegion>)
        requires
            old(self).wf(),
            old(self)@.insertable(txs@),
        ensures
            final(self).wf(),
            final(self)@ == old(self)@.insert_all(txs@, txs@.len()),
            freed@ == old(self)@.duplicates(txs@, txs@.len()),
    {
        let ghost was = self@;
        let mut freed: Vec<TransactionRegion> = Vec::new();
        let mut i: usize = 0;
        while i < txs.len()
            invariant
                i <= txs@.len(),
                was.insertable(txs@),
                self.wf(),
                self@ == was.insert_all(txs@, i as nat),
                freed@ == was.duplicates(txs@, i as nat),
            decreases txs.len() - i,
        {
            let tx = &txs[i];
            assert(was.insertable_at(txs@, i as int));
            let key = signature(tx.data.as_slice());
            proof {
                was.lemma_insert_all_knows(txs@, i as nat, key);
            }
            if tx_map_index_of(&self.map, &key).is_some() {
                freed.push(tx.region);
            } else {
                let view = parse_transaction(tx.data.as_slice()).unwrap();
                let _ = self.insert_view(tx.region, key, view);
            }
            i = i + 1;
        }
        freed
    }

    /// Inserts transactions where each of them can be read; else inserts none and returns `None`.
    pub fn try_insert(&mut self, txs: &[Arrival]) -> (result: Option<Vec<TransactionRegion>>)
        requires
            old(self).wf(),
        ensures
            final(self).wf(),
            result is Some <==> old(self)@.insertable(txs@),
            result is None ==> final(self)@ == old(self)@,
            result matches Some(freed) ==> final(self)@ == old(self)@.insert_all(
                txs@,
                txs@.len(),
            ) && freed@ == old(self)@.duplicates(txs@, txs@.len()),
    {
        let mut i: usize = 0;
        while i < txs.len()
            invariant
                i <= txs@.len(),
                self.wf(),
                self@ == old(self)@,
                forall|j: int| 0 <= j < i ==> self@.insertable_at(txs@, j),
            decreases txs.len() - i,
        {
            if !self.can_insert(txs, i) {
                return None;
            }
            i = i + 1;
        }
        Some(self.insert(txs))
    }

    /// Whether the `i`-th of `txs` can be inserted once those before it are.
    fn can_insert(&self, txs: &[Arrival], i: usize) -> (result: bool)
        requires
            i < txs@.len(),
            forall|j: int| 0 <= j < i ==> self@.insertable_at(txs@, j),
        ensures
            result == self@.insertable_at(txs@, i as int),
    {
        let data = txs[i].data.as_slice();
        if data.len() < 65 {
            return false;
        }
        if parse_transaction(data).is_some() {
            return true;
        }
        let key = signature(data);
        if tx_map_index_of(&self.map, &key).is_some() {
            return true;
        }
        let mut j: usize = 0;
        while j < i
            invariant
                j <= i < txs@.len(),
                key == first_signature(txs@[i as int].data@),
                txs@[i as int].data@.len() >= 65,
                forall|k: int| 0 <= k < i ==> self@.insertable_at(txs@, k),
                forall|k: int| 0 <= k < j ==> first_signature((#[trigger] txs@[k]).data@) != key,
            decreases i - j,
        {
            assert(self@.insertable_at(txs@, j as int));
            let earlier = signature(txs[j].data.as_slice());
            if same_key(&earlier, &key) {
                return true;
            }
            j = j + 1;
        }
        false
    }
}

} // verus!
