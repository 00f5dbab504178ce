//! What holds of a storage over any number of operations.

use crate::bindings::{CheckResponse, PackMessageSpec, Reply, Returned, TransactionRegion};
use crate::consts::BATCH_SIZE;
use crate::ipc::shmem::{first_signature, Arrival};
use crate::tx_map::has_key;
use crate::validator::schedule::laws::arrivals;
use crate::validator::storage::{keys_of, StorageSpec};
use vstd::multiset::Multiset;
use vstd::prelude::*;

verus! {

/// The regions of `entries`.
pub open spec fn regions(entries: Seq<([u8; 64], TransactionRegion)>) -> Seq<TransactionRegion> {
    Seq::new(entries.len(), |i: int| entries[i].1)
}

/// What a storage holds in shared memory.
pub open spec fn stored(v: StorageSpec) -> Multiset<TransactionRegion> {
    regions(v.entries).to_multiset()
}

/// Removing a transaction leaves nothing before the cursor that was not checked: each of them
/// stood before the cursor already, and the removed one is not among them.
pub proof fn law_remove_keeps_checked(v: StorageSpec, key: [u8; 64], i: int)
    requires
        v.wf(),
        has_key(v.entries, key),
        0 <= i < v.remove(key).cursor,
    ensures
        exists|j: int| 0 <= j < v.cursor && (#[trigger] v.entries[j]) == v.remove(key).entries[i],
        v.remove(key).entries[i].0 != key,
{
    v.lemma_remove_wf(key);
    let w = v.remove(key);
    let j = if i < v.position(key) {
        i
    } else {
        i + 1
    };
    assert(w.entries[i] == v.entries[j]);
    assert(has_key(w.entries, w.entries[i].0));
}

/// Removing a transaction takes out exactly its region.
pub proof fn law_remove_takes_one_region(v: StorageSpec, key: [u8; 64])
    requires
        v.wf(),
        has_key(v.entries, key),
    ensures
        stored(v) == stored(v.remove(key)).insert(v.entries[v.position(key)].1),
{
    broadcast use vstd::seq_lib::group_to_multiset_ensures;

    v.lemma_remove_wf(key);
    let r = v.position(key);
    let all = regions(v.entries);
    assert(regions(v.remove(key).entries) =~= all.remove(r));
    assert(all.to_multiset().count(all[r]) > 0);
    assert(stored(v) =~= stored(v.remove(key)).insert(all[r]));
}

/// `short` is `long` with some entries left out: the entry at each position of `short` stood at
/// `from` of it in `long`, and those positions rise.
pub open spec fn leaves_out(
    long: Seq<([u8; 64], TransactionRegion)>,
    short: Seq<([u8; 64], TransactionRegion)>,
    from: spec_fn(int) -> int,
) -> bool {
    &&& forall|i: int|
        0 <= i < short.len() ==> 0 <= #[trigger] from(i) < long.len() && short[i] == long[from(i)]
    &&& forall|i: int, j: int|
        0 <= i < j < short.len() ==> #[trigger] from(i) < #[trigger] from(j)
}

/// What stays keeps its order of insertion: a reply only leaves out what failed.
pub proof fn law_resolving_keeps_order(
    v: StorageSpec,
    batch: Seq<Returned>,
    responses: Seq<CheckResponse>,
    n: nat,
)
    requires
        v.wf(),
        n <= batch.len(),
        n <= responses.len(),
        v.accepts_batch(batch, responses),
    ensures
        exists|from: spec_fn(int) -> int| #[trigger]
            leaves_out(v.entries, v.resolve_all(batch, responses, n).entries, from),
    decreases n,
{
    if n == 0 {
        let same = |i: int| i;
        assert(leaves_out(v.entries, v.resolve_all(batch, responses, n).entries, same));
    } else {
        let m = (n - 1) as nat;
        law_resolving_keeps_order(v, batch, responses, m);
        v.lemma_resolve_all_wf(batch, responses, m);
        let before = v.resolve_all(batch, responses, m);
        let from = choose|from: spec_fn(int) -> int| #[trigger]
            leaves_out(v.entries, before.entries, from);
        if responses[n - 1].failed() {
            let key = batch[n - 1].signature;
            assert(has_key(before.entries, key));
            before.lemma_remove_wf(key);
            let r = before.position(key);
            let after = v.resolve_all(batch, responses, n);
            let next = |i: int|
                from(
                    if i < r {
                        i
                    } else {
                        i + 1
                    },
                );
            assert forall|i: int| 0 <= i < after.entries.len() implies 0 <= #[trigger] next(i)
                < v.entries.len() && after.entries[i] == v.entries[next(i)] by {
                let k = if i < r {
                    i
                } else {
                    i + 1
                };
                assert(next(i) == from(k));
                assert(after.entries[i] == before.entries[k]);
            }
            assert forall|i: int, j: int| 0 <= i < j < after.entries.len() implies #[trigger] next(i)
                < #[trigger] next(j) by {
                let a = if i < r {
                    i
                } else {
                    i + 1
                };
                let b = if j < r {
                    j
                } else {
                    j + 1
                };
                assert(from(a) < from(b));
            }
            assert(leaves_out(v.entries, after.entries, next));
        } else {
            assert(leaves_out(v.entries, v.resolve_all(batch, responses, n).entries, from));
        }
    }
}

/// What comes in stands behind all that is stored, which stays as it is.
pub proof fn law_storing_keeps_order(v: StorageSpec, txs: Seq<Arrival>, n: nat)
    requires
        n <= txs.len(),
    ensures
        v.entries.len() <= v.insert_all(txs, n).entries.len(),
        v.insert_all(txs, n).entries.take(v.entries.len() as int) == v.entries,
    decreases n,
{
    if n > 0 {
        law_storing_keeps_order(v, txs, (n - 1) as nat);
        let before = v.insert_all(txs, (n - 1) as nat);
        let after = v.insert_all(txs, n);
        assert(after.entries.take(v.entries.len() as int) =~= before.entries.take(
            v.entries.len() as int,
        ));
    } else {
        assert(v.entries.take(v.entries.len() as int) =~= v.entries);
    }
}

/// Inserting loses no region: each is stored, or given back.
pub proof fn law_storing_keeps_regions(v: StorageSpec, txs: Seq<Arrival>, n: nat)
    requires
        n <= txs.len(),
    ensures
        stored(v).add(arrivals(txs, n)) == stored(v.insert_all(txs, n)).add(
            v.rejected(txs, n).to_multiset(),
        ),
    decreases n,
{
    broadcast use vstd::seq_lib::group_to_multiset_ensures;

    if n == 0 {
        assert(stored(v).add(arrivals(txs, n)) =~= stored(v.insert_all(txs, n)).add(
            v.rejected(txs, n).to_multiset(),
        ));
    } else {
        let m = (n - 1) as nat;
        law_storing_keeps_regions(v, txs, m);
        let before = v.insert_all(txs, m);
        let after = v.insert_all(txs, n);
        let region = txs[n - 1].region;
        let come = arrivals(txs, m);
        let back = v.rejected(txs, m).to_multiset();
        assert(stored(v).add(come.insert(region)) =~= stored(v).add(come).insert(region));
        if before.rejects(txs[n - 1]) {
            assert(after.entries == before.entries);
            assert(stored(before).add(back.insert(region)) =~= stored(before).add(back).insert(
                region,
            ));
        } else {
            let key = first_signature(txs[n - 1].data@);
            assert(regions(after.entries) =~= regions(before.entries).push(region));
            assert(stored(before).insert(region).add(back) =~= stored(before).add(back).insert(
                region,
            ));
        }
    }
}

/// A reply loses no region: what it gives back is exactly what is no longer stored.
pub proof fn law_resolving_keeps_regions(
    v: StorageSpec,
    batch: Seq<Returned>,
    responses: Seq<CheckResponse>,
    n: nat,
)
    requires
        v.wf(),
        n <= batch.len(),
        n <= responses.len(),
        v.accepts_batch(batch, responses),
    ensures
        stored(v) == stored(v.resolve_all(batch, responses, n)).add(
            v.removed(batch, responses, n).to_multiset(),
        ),
    decreases n,
{
    broadcast use vstd::seq_lib::group_to_multiset_ensures;

    if n == 0 {
        assert(stored(v) =~= stored(v.resolve_all(batch, responses, n)).add(
            v.removed(batch, responses, n).to_multiset(),
        ));
    } else {
        let m = (n - 1) as nat;
        law_resolving_keeps_regions(v, batch, responses, m);
        v.lemma_resolve_all_wf(batch, responses, m);
        let before = v.resolve_all(batch, responses, m);
        let after = v.resolve_all(batch, responses, n);
        let back = v.removed(batch, responses, m).to_multiset();
        if responses[n - 1].failed() {
            let key = batch[n - 1].signature;
            assert(has_key(before.entries, key));
            law_remove_takes_one_region(before, key);
            let region = before.entries[before.position(key)].1;
            assert(stored(after).insert(region).add(back) =~= stored(after).add(
                back.insert(region),
            ));
        }
    }
}

/// Draining loses no region: what does not come out stays.
pub proof fn law_draining_keeps_regions(v: StorageSpec, max: usize)
    requires
        v.wf(),
    ensures
        stored(v) == stored(v.drain(max)).add(
            regions(v.entries.take(v.drain_end(max))).to_multiset(),
        ),
{
    let end = v.drain_end(max);
    let first = regions(v.entries.take(end));
    let rest = regions(v.drain(max).entries);
    assert(regions(v.entries) =~= first + rest);
    vstd::seq_lib::lemma_multiset_commutative(first, rest);
    assert(stored(v) =~= rest.to_multiset().add(first.to_multiset()));
}

/// Draining leaves nothing before the cursor that was not checked, and keeps the order.
pub proof fn law_draining_keeps_checked(v: StorageSpec, max: usize, i: int)
    requires
        v.wf(),
        0 <= i < v.drain(max).cursor,
    ensures
        v.drain(max).wf(),
        i + v.drain_end(max) < v.cursor,
        v.drain(max).entries[i] == v.entries[i + v.drain_end(max)],
{
}

/// Inserting leaves what stands before the cursor in its place.
pub proof fn law_storing_keeps_checked(v: StorageSpec, txs: Seq<Arrival>, n: nat, i: int)
    requires
        v.wf(),
        n <= txs.len(),
        0 <= i < v.cursor,
    ensures
        v.insert_all(txs, n).wf(),
        v.insert_all(txs, n).cursor == v.cursor,
        v.insert_all(txs, n).entries[i] == v.entries[i],
    decreases n,
{
    if n > 0 {
        law_storing_keeps_checked(v, txs, (n - 1) as nat, i);
        v.insert_all(txs, (n - 1) as nat).lemma_insert_wf(txs[n - 1]);
    }
}

/// The transactions of `messages`, one message after the other.
pub open spec fn transactions(messages: Seq<PackMessageSpec>) -> Seq<TransactionRegion>
    decreases messages.len(),
{
    if messages.len() == 0 {
        Seq::empty()
    } else {
        transactions(messages.drop_last()) + messages.last().batch
    }
}

/// Sending for CHECK moves the cursor over exactly what it sends: the messages hold the transactions
/// from where the cursor was to where it is, in order and each once, and none of the messages is
/// empty or too long.
pub proof fn law_check_passes_once(v: StorageSpec, slot: u64, open: Seq<bool>, n: nat)
    requires
        v.wf(),
        n <= open.len(),
    ensures
        transactions(v.check_messages(slot, open, n)) == regions(
            v.entries.subrange(v.cursor, v.check(open, n).cursor),
        ),
        forall|k: int|
            0 <= k < v.check_messages(slot, open, n).len() ==> 0 < (#[trigger] v.check_messages(
                slot,
                open,
                n,
            )[k]).batch.len() <= BATCH_SIZE,
    decreases n,
{
    if n == 0 {
        assert(transactions(v.check_messages(slot, open, n)) =~= regions(
            v.entries.subrange(v.cursor, v.check(open, n).cursor),
        ));
    } else {
        let m = (n - 1) as nat;
        law_check_passes_once(v, slot, open, m);
        v.lemma_check_wf(open, m);
        v.lemma_check_wf(open, n);
        let before = v.check(open, m);
        let after = v.check(open, n);
        let sent = v.check_messages(slot, open, m);
        let all = v.check_messages(slot, open, n);
        if open[n - 1] && before.needs_check() {
            assert(all.drop_last() =~= sent);
            assert(regions(v.entries.subrange(v.cursor, after.cursor)) =~= regions(
                v.entries.subrange(v.cursor, before.cursor),
            ) + before.batch());
        }
    }
}

/// A transaction goes by its first signature: the 64 bytes behind the leading length byte.
pub proof fn law_first_signature(data: Seq<u8>, key: [u8; 64])
    requires
        key@ == data.subrange(1, 65),
    ensures
        first_signature(data) == key,
{
    assert(first_signature(data)@ == data.subrange(1, 65));
    assert(first_signature(data) =~= key);
}

/// What becomes of one transaction that comes in, whose first signature is `key`. Where as many are
/// stored as the storage may hold, it is given back and counted as dropped. Where one with its
/// signature is stored, it is given back and nothing changes. Else it is stored behind all others, and
/// not checked.
pub proof fn law_storing_one(v: StorageSpec, tx: Arrival, key: [u8; 64])
    requires
        v.wf(),
        key@ == tx.data@.subrange(1, 65),
    ensures
        v.insert(tx).cursor == v.cursor,
        v.insert(tx).inflight == v.inflight,
        v.insert(tx).capacity == v.capacity,
        v.entries.len() == v.capacity ==> {
            &&& v.rejects(tx)
            &&& v.insert(tx).entries == v.entries
            &&& v.insert(tx).dropped == (if v.dropped < usize::MAX {
                v.dropped + 1
            } else {
                usize::MAX as int
            })
        },
        v.entries.len() < v.capacity ==> v.insert(tx).dropped == v.dropped,
        v.entries.len() < v.capacity && (exists|i: int|
            0 <= i < v.entries.len() && (#[trigger] v.entries[i]).0 == key) ==> v.rejects(tx)
            && v.insert(tx).entries == v.entries,
        v.entries.len() < v.capacity && !(exists|i: int|
            0 <= i < v.entries.len() && (#[trigger] v.entries[i]).0 == key) ==> !v.rejects(tx)
            && v.insert(tx).entries == v.entries + seq![(key, tx.region)],
{
    law_first_signature(tx.data@, key);
    assert(v.entries.push((key, tx.region)) =~= v.entries + seq![(key, tx.region)]);
}

/// Transactions come in one after the other: each meets what those before it left, and is given back
/// behind what they gave back.
pub proof fn law_storing_in_turn(v: StorageSpec, txs: Seq<Arrival>, n: nat)
    requires
        n < txs.len(),
    ensures
        v.insert_all(txs, 0) == v,
        v.rejected(txs, 0).len() == 0,
        v.insert_all(txs, n + 1) == v.insert_all(txs, n).insert(txs[n as int]),
        v.insert_all(txs, n).rejects(txs[n as int]) ==> v.rejected(txs, n + 1) == v.rejected(
            txs,
            n,
        ).push(txs[n as int].region),
        !v.insert_all(txs, n).rejects(txs[n as int]) ==> v.rejected(txs, n + 1) == v.rejected(
            txs,
            n,
        ),
{
}

/// How many of `open` are open.
pub open spec fn num_open(open: Seq<bool>) -> nat {
    open.filter(|is_open: bool| is_open).len()
}

proof fn lemma_num_open(open: Seq<bool>, n: int)
    requires
        0 < n <= open.len(),
    ensures
        num_open(open.take(n)) == num_open(open.take(n - 1)) + (if open[n - 1] {
            1nat
        } else {
            0nat
        }),
{
    reveal(Seq::filter);
    assert(open.take(n).drop_last() =~= open.take(n - 1));
}

/// `a`, or `b` where that is less.
pub open spec fn least(a: int, b: int) -> int {
    if a <= b {
        a
    } else {
        b
    }
}

/// Who is sent what for CHECK. The workers that are open are served in turn, each with the next 64
/// unchecked transactions or with what is left of them, until nothing is left; the others get nothing.
/// Each message counts as in flight, and nothing but the cursor and that count changes.
pub proof fn law_open_workers_check(v: StorageSpec, slot: u64, open: Seq<bool>, n: nat)
    requires
        v.wf(),
        n <= open.len(),
    ensures
        v.check(open, n).entries == v.entries,
        v.check(open, n).capacity == v.capacity,
        v.check(open, n).dropped == v.dropped,
        v.check(open, n).cursor == least(
            v.entries.len() as int,
            v.cursor + 64 * num_open(open.take(n as int)),
        ),
        v.check(open, n).inflight == least(
            usize::MAX as int,
            v.inflight + v.check_messages(slot, open, n).len(),
        ),
        v.check_messages(slot, open, n).len() <= num_open(open.take(n as int)),
        v.check_messages(slot, open, n).len() == num_open(open.take(n as int)) || v.check(
            open,
            n,
        ).cursor == v.entries.len(),
        forall|k: int|
            0 <= k < v.check_messages(slot, open, n).len() ==> {
                let message = #[trigger] v.check_messages(slot, open, n)[k];
                &&& message.flags == 2
                &&& message.max_working_slot == slot
                &&& 0 <= message.worker < n
                &&& open[message.worker]
                &&& num_open(open.take(message.worker)) == k
                &&& v.cursor + 64 * k < v.entries.len()
                &&& message.batch == regions(
                    v.entries.subrange(
                        v.cursor + 64 * k,
                        least(v.entries.len() as int, v.cursor + 64 * k + 64),
                    ),
                )
            },
    decreases n,
{
    let sent = v.check_messages(slot, open, n);
    if n == 0 {
        reveal(Seq::filter);
        assert(open.take(0).filter(|is_open: bool| is_open) =~= open.take(0));
    } else {
        let m = (n - 1) as nat;
        law_open_workers_check(v, slot, open, m);
        v.lemma_check_wf(open, m);
        lemma_num_open(open, n as int);
        let before = v.check(open, m);
        let earlier = v.check_messages(slot, open, m);
        if open[n - 1] && before.needs_check() {
            let k = earlier.len() as int;
            assert(0u16 | 2u16 == 2u16) by (bit_vector);
            assert(k == num_open(open.take(m as int)));
            assert(before.cursor == v.cursor + 64 * k);
            assert(before.batch() =~= regions(
                v.entries.subrange(
                    v.cursor + 64 * k,
                    least(v.entries.len() as int, v.cursor + 64 * k + 64),
                ),
            ));
            assert forall|i: int| 0 <= i < sent.len() implies {
                let message = #[trigger] sent[i];
                &&& message.flags == 2
                &&& message.max_working_slot == slot
                &&& 0 <= message.worker < n
                &&& open[message.worker]
                &&& num_open(open.take(message.worker)) == i
                &&& v.cursor + 64 * i < v.entries.len()
                &&& message.batch == regions(
                    v.entries.subrange(
                        v.cursor + 64 * i,
                        least(v.entries.len() as int, v.cursor + 64 * i + 64),
                    ),
                )
            } by {
                if i < k {
                    assert(sent[i] == earlier[i]);
                }
            }
        }
    }
}

/// Where enough workers are open for all that is not checked, all of it is sent for CHECK at once.
pub proof fn law_one_pass_checks_all(v: StorageSpec, slot: u64, open: Seq<bool>)
    requires
        v.wf(),
        64 * num_open(open) >= v.entries.len() - v.cursor,
    ensures
        transactions(v.check_messages(slot, open, open.len())) == regions(
            v.entries.skip(v.cursor),
        ),
        v.check(open, open.len()).cursor == v.entries.len(),
{
    law_open_workers_check(v, slot, open, open.len());
    law_check_passes_once(v, slot, open, open.len());
    assert(open.take(open.len() as int) =~= open);
    assert(v.entries.subrange(v.cursor, v.entries.len() as int) =~= v.entries.skip(v.cursor));
}

/// `reply` says that the transaction with signature `key` is to go: the message was processed, and the
/// status of the transaction was not looked up, or it is too old, processed before, or has a nonce that
/// cannot be used.
pub open spec fn condemns(reply: Reply, key: [u8; 64]) -> bool {
    &&& reply.processed_code == 0
    &&& reply.responses is Check
    &&& exists|k: int|
        0 <= k < reply.batch@.len() && k < reply.responses->Check_0@.len() && (
        #[trigger] reply.batch@[k]).signature == key
            && reply.responses->Check_0@[k].status_check_flags & 30 != 2
}

/// The same of the first `n` responses to `batch`.
spec fn condemned(
    batch: Seq<Returned>,
    responses: Seq<CheckResponse>,
    n: nat,
    key: [u8; 64],
) -> bool {
    exists|k: int|
        0 <= k < n && (#[trigger] batch[k]).signature == key && responses[k].status_check_flags & 30
            != 2
}

proof fn lemma_failed(response: CheckResponse)
    ensures
        response.failed() <==> response.status_check_flags & 30 != 2,
{
    assert(2u8 | 4u8 | 8u8 | 16u8 == 30u8) by (bit_vector);
}

/// Leaving out by one rule and then by another leaves out by both.
proof fn lemma_filter_twice<A>(s: Seq<A>, p: spec_fn(A) -> bool, q: spec_fn(A) -> bool)
    ensures
        s.filter(p).filter(q) == s.filter(|a: A| p(a) && q(a)),
    decreases s.len(),
{
    reveal(Seq::filter);
    if s.len() > 0 {
        lemma_filter_twice(s.drop_last(), p, q);
        if p(s.last()) {
            assert(s.drop_last().filter(p).push(s.last()).drop_last() =~= s.drop_last().filter(p));
        }
    }
}

/// What all elements obey leaves nothing out.
proof fn lemma_filter_all<A>(s: Seq<A>, p: spec_fn(A) -> bool)
    requires
        forall|i: int| 0 <= i < s.len() ==> p(#[trigger] s[i]),
    ensures
        s.filter(p) == s,
    decreases s.len(),
{
    reveal(Seq::filter);
    if s.len() > 0 {
        lemma_filter_all(s.drop_last(), p);
        assert(p(s[s.len() - 1]));
        assert(s.drop_last().push(s.last()) =~= s);
    }
}

/// Rules that agree leave the same out.
proof fn lemma_filter_same<A>(s: Seq<A>, p: spec_fn(A) -> bool, q: spec_fn(A) -> bool)
    requires
        forall|i: int| 0 <= i < s.len() ==> p(#[trigger] s[i]) == q(s[i]),
    ensures
        s.filter(p) == s.filter(q),
    decreases s.len(),
{
    reveal(Seq::filter);
    if s.len() > 0 {
        lemma_filter_same(s.drop_last(), p, q);
        assert(p(s[s.len() - 1]) == q(s[s.len() - 1]));
    }
}

/// Taking out the one entry with a signature is leaving out by signature.
proof fn lemma_remove_is_filter(
    entries: Seq<([u8; 64], TransactionRegion)>,
    r: int,
    key: [u8; 64],
)
    requires
        0 <= r < entries.len(),
        entries[r].0 == key,
        forall|i: int| 0 <= i < entries.len() && i != r ==> (#[trigger] entries[i]).0 != key,
    ensures
        entries.remove(r) == entries.filter(|e: ([u8; 64], TransactionRegion)| e.0 != key),
{
    reveal(Seq::filter);
    let other = |e: ([u8; 64], TransactionRegion)| e.0 != key;
    let head = entries.take(r);
    let tail = entries.skip(r + 1);
    assert(entries =~= head + seq![entries[r]] + tail);
    Seq::filter_distributes_over_add(head + seq![entries[r]], tail, other);
    Seq::filter_distributes_over_add(head, seq![entries[r]], other);
    assert forall|i: int| 0 <= i < head.len() implies other(#[trigger] head[i]) by {
        assert(head[i] == entries[i]);
    }
    assert forall|i: int| 0 <= i < tail.len() implies other(#[trigger] tail[i]) by {
        assert(tail[i] == entries[r + 1 + i]);
    }
    lemma_filter_all(head, other);
    lemma_filter_all(tail, other);
    let one = seq![entries[r]];
    assert(!other(one.last()));
    assert(one.drop_last().filter(other) =~= Seq::empty()) by {
        assert(one.drop_last().len() == 0);
    }
    assert(one.filter(other) =~= Seq::empty());
    assert(entries.remove(r) =~= head + tail);
    assert(head + Seq::empty() =~= head);
}

proof fn lemma_resolve_all_filters(
    v: StorageSpec,
    batch: Seq<Returned>,
    responses: Seq<CheckResponse>,
    n: nat,
)
    requires
        v.wf(),
        n <= batch.len(),
        n <= responses.len(),
        v.accepts_batch(batch, responses),
    ensures
        ({
            let w = v.resolve_all(batch, responses, n);
            let stays = |e: ([u8; 64], TransactionRegion)| !condemned(batch, responses, n, e.0);
            &&& w.entries == v.entries.filter(stays)
            &&& w.entries.take(w.cursor) == v.entries.take(v.cursor).filter(stays)
            &&& w.inflight == v.inflight
            &&& w.capacity == v.capacity
            &&& w.dropped == v.dropped
        }),
    decreases n,
{
    let stays = |e: ([u8; 64], TransactionRegion)| !condemned(batch, responses, n, e.0);
    if n == 0 {
        lemma_filter_all(v.entries, stays);
        lemma_filter_all(v.entries.take(v.cursor), stays);
    } else {
        let m = (n - 1) as nat;
        lemma_resolve_all_filters(v, batch, responses, m);
        v.lemma_resolve_all_wf(batch, responses, m);
        lemma_failed(responses[n - 1]);
        let stayed = |e: ([u8; 64], TransactionRegion)| !condemned(batch, responses, m, e.0);
        let before = v.resolve_all(batch, responses, m);
        let after = v.resolve_all(batch, responses, n);
        let key = batch[n - 1].signature;
        let other = |e: ([u8; 64], TransactionRegion)| e.0 != key;
        let both = |e: ([u8; 64], TransactionRegion)| stayed(e) && other(e);
        if responses[n - 1].failed() {
            assert(has_key(before.entries, key));
            before.lemma_remove_wf(key);
            let r = before.position(key);
            assert forall|i: int| 0 <= i < before.entries.len() && i != r implies (
            #[trigger] before.entries[i]).0 != key by {
                assert(before.entries[r].0 == key);
            }
            lemma_remove_is_filter(before.entries, r, key);
            lemma_filter_twice(v.entries, stayed, other);
            lemma_filter_twice(v.entries.take(v.cursor), stayed, other);
            assert forall|e: ([u8; 64], TransactionRegion)| #[trigger] both(e) == stays(e) by {
                if condemned(batch, responses, n, e.0) && stayed(e) {
                    let k = choose|k: int|
                        0 <= k < n && (#[trigger] batch[k]).signature == e.0
                            && responses[k].status_check_flags & 30 != 2;
                    assert(k == n - 1);
                }
                if condemned(batch, responses, m, e.0) {
                    let k = choose|k: int|
                        0 <= k < m && (#[trigger] batch[k]).signature == e.0
                            && responses[k].status_check_flags & 30 != 2;
                    assert(0 <= k < n);
                }
                if e.0 == key {
                    assert(batch[n - 1].signature == e.0);
                }
            }
            lemma_filter_same(v.entries, both, stays);
            lemma_filter_same(v.entries.take(v.cursor), both, stays);
            let checked = before.entries.take(before.cursor);
            if r < before.cursor {
                assert forall|i: int| 0 <= i < checked.len() && i != r implies (
                #[trigger] checked[i]).0 != key by {
                    assert(checked[i] == before.entries[i]);
                }
                lemma_remove_is_filter(checked, r, key);
                assert(after.entries.take(after.cursor) =~= checked.remove(r));
            } else {
                assert forall|i: int| 0 <= i < checked.len() implies other(#[trigger] checked[i]) by {
                    assert(checked[i] == before.entries[i]);
                }
                lemma_filter_all(checked, other);
                assert(after.entries.take(after.cursor) =~= checked);
            }
        } else {
            assert forall|e: ([u8; 64], TransactionRegion)| #[trigger] stayed(e) == stays(e) by {
                if condemned(batch, responses, n, e.0) {
                    let k = choose|k: int|
                        0 <= k < n && (#[trigger] batch[k]).signature == e.0
                            && responses[k].status_check_flags & 30 != 2;
                    assert(0 <= k < m);
                }
                if condemned(batch, responses, m, e.0) {
                    let k = choose|k: int|
                        0 <= k < m && (#[trigger] batch[k]).signature == e.0
                            && responses[k].status_check_flags & 30 != 2;
                    assert(0 <= k < n);
                }
            }
            lemma_filter_same(v.entries, stayed, stays);
            lemma_filter_same(v.entries.take(v.cursor), stayed, stays);
        }
    }
}

/// What a reply does: exactly the transactions that it condemns leave the storage, all others stay in
/// their order, and those that stood before the cursor still do. One CHECK less is in flight, and
/// nothing else changes.
pub proof fn law_reply_removes_what_failed(v: StorageSpec, reply: Reply)
    requires
        v.wf(),
        v.accepts(reply),
    ensures
        v.after(reply).entries == v.entries.filter(
            |e: ([u8; 64], TransactionRegion)| !condemns(reply, e.0),
        ),
        v.after(reply).entries.take(v.after(reply).cursor) == v.entries.take(v.cursor).filter(
            |e: ([u8; 64], TransactionRegion)| !condemns(reply, e.0),
        ),
        v.after(reply).inflight == (if v.inflight > 0 {
            v.inflight - 1
        } else {
            0
        }),
        v.after(reply).capacity == v.capacity,
        v.after(reply).dropped == v.dropped,
{
    let start = v.answered();
    let stays = |e: ([u8; 64], TransactionRegion)| !condemns(reply, e.0);
    let n = StorageSpec::num_answered(reply);
    if reply.processed_code == 0 {
        let list = reply.responses->Check_0@;
        assert(start.accepts_batch(reply.batch@, list));
        lemma_resolve_all_filters(start, reply.batch@, list, n);
        let stayed = |e: ([u8; 64], TransactionRegion)|
            !condemned(reply.batch@, list, n, e.0);
        assert forall|e: ([u8; 64], TransactionRegion)| #[trigger] stayed(e) == stays(e) by {
            if condemns(reply, e.0) {
                let k = choose|k: int|
                    0 <= k < reply.batch@.len() && k < list.len() && (
                    #[trigger] reply.batch@[k]).signature == e.0 && list[k].status_check_flags & 30
                        != 2;
                assert(0 <= k < n);
            }
            if condemned(reply.batch@, list, n, e.0) {
                let k = choose|k: int|
                    0 <= k < n && (#[trigger] reply.batch@[k]).signature == e.0
                        && list[k].status_check_flags & 30 != 2;
                assert(0 <= k < reply.batch@.len() && k < list.len());
            }
        }
        lemma_filter_same(v.entries, stayed, stays);
        lemma_filter_same(v.entries.take(v.cursor), stayed, stays);
    } else {
        lemma_filter_all(v.entries, stays);
        lemma_filter_all(v.entries.take(v.cursor), stays);
    }
}

/// Which replies to a CHECK a worker may send: one that says that the message came too late, or one
/// that was processed and condemns only what is stored, each at most once.
pub proof fn law_expected_check_replies(v: StorageSpec, reply: Reply)
    ensures
        reply.processed_code == 2 ==> v.accepts(reply),
        reply.processed_code != 0 && reply.processed_code != 2 ==> !v.accepts(reply),
        reply.processed_code == 0 && !(reply.responses is Check) ==> !v.accepts(reply),
        v.accepts(reply) ==> forall|key: [u8; 64]| #[trigger]
            condemns(reply, key) ==> exists|i: int|
                0 <= i < v.entries.len() && (#[trigger] v.entries[i]).0 == key,
        reply.processed_code == 0 && reply.responses is Check && (forall|k: int|
            0 <= k < reply.responses->Check_0@.len() ==> (
            #[trigger] reply.responses->Check_0@[k]).status_check_flags & 30 == 2) ==> v.accepts(
            reply,
        ),
{
    if reply.responses is Check {
        let list = reply.responses->Check_0@;
        assert forall|k: int| 0 <= k < list.len() implies ((#[trigger] list[k]).failed() <==> list[k].status_check_flags
            & 30 != 2) by {
            lemma_failed(list[k]);
        }
        if v.accepts(reply) {
            assert forall|key: [u8; 64]| #[trigger] condemns(reply, key) implies exists|i: int|
                0 <= i < v.entries.len() && (#[trigger] v.entries[i]).0 == key by {
                let k = choose|k: int|
                    0 <= k < reply.batch@.len() && k < list.len() && (
                    #[trigger] reply.batch@[k]).signature == key && list[k].status_check_flags & 30
                        != 2;
                assert(list[k].failed());
                assert(has_key(v.entries, reply.batch@[k].signature));
            }
        }
    }
}

/// Draining takes the oldest transactions out, as many as are asked for and there are; the others stay
/// in their order, and what stood before the cursor and stays is still before it.
pub proof fn law_draining_takes_the_oldest(v: StorageSpec, max: usize)
    requires
        v.wf(),
    ensures
        v.drain_end(max) == least(v.entries.len() as int, max as int),
        v.entries.take(v.drain_end(max)) + v.drain(max).entries == v.entries,
        v.drain(max).cursor == (if v.cursor >= max {
            v.cursor - max
        } else {
            0
        }),
        v.drain(max).inflight == v.inflight,
        v.drain(max).capacity == v.capacity,
        v.drain(max).dropped == v.dropped,
{
    assert(v.entries.take(v.drain_end(max)) + v.drain(max).entries =~= v.entries);
}

/// The lookup keys that responses hand over are those of the responses that say that the lookup was
/// performed, in order.
pub proof fn law_performed_lookups_hand_keys_over(responses: Seq<CheckResponse>, n: nat)
    requires
        n <= responses.len(),
    ensures
        keys_of(responses, n) == responses.take(n as int).filter(
            |r: CheckResponse| r.resolve_flags & 2 != 0,
        ).map_values(|r: CheckResponse| r.resolved_pubkeys),
    decreases n,
{
    reveal(Seq::filter);
    let performed = |r: CheckResponse| r.resolve_flags & 2 != 0;
    let region = |r: CheckResponse| r.resolved_pubkeys;
    let all = responses.take(n as int).filter(performed).map_values(region);
    if n > 0 {
        let m = (n - 1) as nat;
        law_performed_lookups_hand_keys_over(responses, m);
        let fewer = responses.take(m as int).filter(performed).map_values(region);
        assert(responses.take(n as int).drop_last() =~= responses.take(m as int));
        assert(responses.take(n as int).last() == responses[n - 1]);
        if performed(responses[n - 1]) {
            assert(all =~= fewer.push(responses[n - 1].resolved_pubkeys));
        } else {
            assert(all =~= fewer);
        }
        assert(keys_of(responses, n) =~= all);
    } else {
        assert(keys_of(responses, n) =~= all);
    }
}

/// A new storage holds nothing, has counted nothing, and takes `capacity` transactions.
pub proof fn law_storages_start_empty(capacity: usize)
    ensures
        StorageSpec::fresh(capacity).entries.len() == 0,
        StorageSpec::fresh(capacity).cursor == 0,
        StorageSpec::fresh(capacity).inflight == 0,
        StorageSpec::fresh(capacity).dropped == 0,
        StorageSpec::fresh(capacity).capacity == capacity,
{
}

/// What asks for CHECK, and what finds room.
pub proof fn law_storage_questions(v: StorageSpec)
    requires
        v.wf(),
    ensures
        v.needs_check() <==> v.cursor != v.entries.len(),
        v.full() <==> v.entries.len() == v.capacity,
{
}

/// Whatever holds a signature can be stored, however much there is of it; and what is too short to hold
/// one can be given to a storage only where it finds no room.
pub proof fn law_what_can_be_stored(v: StorageSpec, txs: Seq<Arrival>)
    ensures
        v.insertable(Seq::empty()),
        (forall|i: int| 0 <= i < txs.len() ==> (#[trigger] txs[i]).data@.len() > 64)
            ==> v.insertable(txs),
        v.insertable(txs) ==> forall|i: int|
            0 <= i < txs.len() && (#[trigger] txs[i]).data@.len() <= 64 ==> v.insert_all(
                txs,
                i as nat,
            ).entries.len() >= v.insert_all(txs, i as nat).capacity,
        !v.insertable(txs) ==> exists|i: int|
            0 <= i < txs.len() && (#[trigger] txs[i]).data@.len() <= 64 && v.insert_all(
                txs,
                i as nat,
            ).entries.len() < v.insert_all(txs, i as nat).capacity,
{
}

} // verus!
