//! Blocks from the block engine, and announcements to it.

use crate::keys::{address_from, parse_address, AddressError};
use crate::text::{number, parse_number};
use std::time::SystemTime;
use vstd::prelude::*;

verus! {

/// `std::time::SystemTime`, opaque.
#[verifier::external_type_specification]
#[verifier::external_body]
pub struct ExSystemTime(std::time::SystemTime);

/// The announcement of an own slot to the block engine.
#[derive(Clone, Copy)]
pub struct LeaderNotification {
    /// The slot.
    pub slot: u64,
    /// When it began.
    pub start_time: SystemTime,
}

/// A bundle from the block stream.
pub struct Bundle {
    /// The slot that the block is for, in decimal.
    pub uuid: String,
    /// The transactions, where there is a block.
    pub packets: Option<Vec<Vec<u8>>>,
}

/// A block for a slot.
pub struct Block {
    pub slot: u64,
    pub txs: Vec<Vec<u8>>,
}

/// Whether `block` is the one that `bundle` holds.
pub open spec fn is_block_of(block: Block, bundle: Bundle) -> bool {
    bundle.packets == Some(block.txs) && number(bundle.uuid@) == Some(block.slot)
}

/// The identifier of each bundle with a block spells a slot.
pub open spec fn readable(bundles: Seq<Bundle>) -> bool {
    forall|i: int|
        0 <= i < bundles.len() && (#[trigger] bundles[i]).packets is Some ==> number(
            bundles[i].uuid@,
        ) is Some
}

/// The positions of the first `n` bundles that hold a block.
pub open spec fn with_blocks(bundles: Seq<Bundle>, n: nat) -> Seq<int>
    decreases n,
{
    if n == 0 {
        Seq::empty()
    } else if bundles[n - 1].packets is Some {
        with_blocks(bundles, (n - 1) as nat).push(n - 1)
    } else {
        with_blocks(bundles, (n - 1) as nat)
    }
}

/// How many transactions the blocks of `bundles` at `positions` hold, from the `k`-th on.
pub open spec fn transactions_from(bundles: Seq<Bundle>, positions: Seq<int>, k: int) -> int
    decreases positions.len() - k,
{
    if k >= positions.len() || k < 0 {
        0
    } else {
        bundles[positions[k]].packets->0@.len() + transactions_from(bundles, positions, k + 1)
    }
}

/// The number of blocks that find room.
pub open spec fn num_forwarded(blocks: nat, room: usize) -> nat {
    if blocks <= room {
        blocks
    } else {
        room as nat
    }
}

/// `a + b`, or the largest count where that is too large.
pub open spec fn saturating_sum(a: usize, b: int) -> usize {
    if a + b > usize::MAX {
        usize::MAX
    } else {
        (a + b) as usize
    }
}

/// Whether the identifier of each bundle with a block spells a slot.
pub fn is_readable(bundles: &[Bundle]) -> (result: bool)
    ensures
        result == readable(bundles@),
{
    let mut i: usize = 0;
    while i < bundles.len()
        invariant
            i <= bundles@.len(),
            forall|j: int|
                0 <= j < i && (#[trigger] bundles@[j]).packets is Some ==> number(
                    bundles@[j].uuid@,
                ) is Some,
        decreases bundles.len() - i,
    {
        if bundles[i].packets.is_some() && parse_number(bundles[i].uuid.as_str()).is_none() {
            return false;
        }
        i = i + 1;
    }
    true
}

/// The blocks of a message that go to the scheduler, where its queue has `room` places left, and the
/// new count of transactions in blocks that found no room.
pub fn forward_blocks(bundles: Vec<Bundle>, room: usize, dropped: usize) -> (result: (
    Vec<Block>,
    usize,
))
    requires
        readable(bundles@),
    ensures
        ({
            let positions = with_blocks(bundles@, bundles@.len());
            let n = num_forwarded(positions.len(), room);
            &&& result.0@.len() == n
            &&& forall|k: int|
                0 <= k < n ==> is_block_of(#[trigger] result.0@[k], bundles@[positions[k]])
            &&& result.1 == saturating_sum(
                dropped,
                transactions_from(bundles@, positions, n as int),
            )
        }),
{
    let ghost all = bundles@;
    let ghost positions = with_blocks(all, all.len());
    let ghost n = num_forwarded(positions.len(), room);
    let mut bundles = bundles;
    // Taken from the back, so that each bundle is moved once.
    let mut blocks: Vec<Block> = Vec::new();
    let mut count: usize = dropped;
    let total: usize = bundles.len();
    let mut rest: Vec<Bundle> = Vec::new();
    while bundles.len() > 0
        invariant
            bundles@.len() + rest@.len() == all.len() == total,
            bundles@ =~= all.take(bundles@.len() as int),
            forall|i: int|
                0 <= i < rest@.len() ==> (#[trigger] rest@[i]) == all[all.len() - 1 - i],
        decreases bundles.len(),
    {
        let bundle = bundles.pop().unwrap();
        rest.push(bundle);
    }
    let mut i: usize = 0;
    proof {
        lemma_with_blocks(all, 0);
        lemma_transactions_from(all, positions, n as int);
    }
    while i < total
        invariant
            i <= total == all.len(),
            rest@.len() == total - i,
            forall|k: int|
                0 <= k < rest@.len() ==> (#[trigger] rest@[k]) == all[all.len() - 1 - k],
            readable(all),
            positions == with_blocks(all, all.len()),
            n == num_forwarded(positions.len(), room),
            blocks@.len() == num_forwarded(with_blocks(all, i as nat).len(), room),
            forall|k: int|
                0 <= k < blocks@.len() ==> is_block_of(
                    #[trigger] blocks@[k],
                    all[with_blocks(all, i as nat)[k]],
                ),
            count == saturating_sum(
                dropped,
                transactions_from(
                    all,
                    with_blocks(all, i as nat),
                    blocks@.len() as int,
                ),
            ),
        decreases total - i,
    {
        let ghost seen = with_blocks(all, i as nat);
        let ghost sent = blocks@;
        let bundle = rest.pop().unwrap();
        assert(bundle == all[i as int]);
        if let Some(txs) = bundle.packets {
            let slot: u64 = parse_number(bundle.uuid.as_str()).unwrap();
            let ghost longer = with_blocks(all, (i + 1) as nat);
            assert(longer == seen.push(i as int));
            if blocks.len() < room {
                blocks.push(Block { slot, txs });
                proof {
                    assert forall|k: int| 0 <= k < blocks@.len() implies is_block_of(
                        #[trigger] blocks@[k],
                        all[longer[k]],
                    ) by {
                        if k < sent.len() {
                            assert(blocks@[k] == sent[k]);
                            assert(longer[k] == seen[k]);
                        }
                    }
                    lemma_transactions_end(all, seen, sent.len() as int);
                    lemma_transactions_end(all, longer, blocks@.len() as int);
                }
            } else {
                proof {
                    lemma_transactions_push(all, seen, i as int, blocks@.len() as int);
                }
                count = count.saturating_add(txs.len());
            }
        }
        i = i + 1;
    }
    (blocks, count)
}

/// Behind the last position nothing is counted.
proof fn lemma_transactions_end(bundles: Seq<Bundle>, positions: Seq<int>, k: int)
    requires
        k >= positions.len(),
    ensures
        transactions_from(bundles, positions, k) == 0,
{
}

/// One more position adds its transactions.
proof fn lemma_transactions_push(bundles: Seq<Bundle>, positions: Seq<int>, next: int, k: int)
    requires
        0 <= k <= positions.len(),
    ensures
        transactions_from(bundles, positions.push(next), k) == transactions_from(
            bundles,
            positions,
            k,
        ) + bundles[next].packets->0@.len(),
        transactions_from(bundles, positions, k) >= 0,
    decreases positions.len() - k,
{
    if k < positions.len() {
        lemma_transactions_push(bundles, positions, next, k + 1);
        assert(positions.push(next)[k] == positions[k]);
    } else {
        assert(transactions_from(bundles, positions.push(next), k + 1) == 0);
    }
}

/// Counts are not negative.
proof fn lemma_transactions_from(bundles: Seq<Bundle>, positions: Seq<int>, k: int)
    ensures
        transactions_from(bundles, positions, k) >= 0,
    decreases positions.len() - k,
{
    if 0 <= k < positions.len() {
        lemma_transactions_from(bundles, positions, k + 1);
    }
}

proof fn lemma_with_blocks(bundles: Seq<Bundle>, n: nat)
    ensures
        with_blocks(bundles, n).len() <= n,
    decreases n,
{
    if n > 0 {
        lemma_with_blocks(bundles, (n - 1) as nat);
    }
}

/// The fee that the block builder takes.
#[derive(Clone, Copy, Debug)]
pub struct BlockBuilderFeeInfo {
    pub block_builder: [u8; 32],
    pub block_builder_commission: u64,
}

/// Reads what the block engine says of the block builder's fee.
pub fn fee_info(pubkey: &str, commission: u64) -> (result: Result<
    BlockBuilderFeeInfo,
    AddressError,
>)
    ensures
        match address_from(pubkey@) {
            Ok(key) => result == Ok::<BlockBuilderFeeInfo, AddressError>(
                BlockBuilderFeeInfo { block_builder: key, block_builder_commission: commission },
            ),
            Err(error) => result == Err::<BlockBuilderFeeInfo, AddressError>(error),
        },
{
    match parse_address(pubkey) {
        Ok(block_builder) => Ok(
            BlockBuilderFeeInfo { block_builder, block_builder_commission: commission },
        ),
        Err(error) => Err(error),
    }
}

/// The blocks of a message are those of the bundles that hold one, in order.
pub proof fn law_blocks_keep_their_order(bundles: Seq<Bundle>, n: nat)
    requires
        n <= bundles.len(),
    ensures
        with_blocks(bundles, n) == Seq::new(n, |i: int| i).filter(
            |i: int| bundles[i].packets is Some,
        ),
    decreases n,
{
    reveal(Seq::filter);
    let all = Seq::new(n, |i: int| i);
    if n > 0 {
        let m = (n - 1) as nat;
        law_blocks_keep_their_order(bundles, m);
        assert(all.drop_last() =~= Seq::new(m, |i: int| i));
        assert(all.last() == n - 1);
    }
}

/// As many blocks go on as there is room for, the first ones; what is dropped are the transactions of
/// all others, and the count stops at the largest number.
pub proof fn law_blocks_behind_the_room_are_dropped(
    bundles: Seq<Bundle>,
    positions: Seq<int>,
    k: int,
    blocks: nat,
    room: usize,
    dropped: usize,
    more: int,
)
    requires
        0 <= k <= positions.len(),
        more >= 0,
    ensures
        num_forwarded(blocks, room) <= blocks,
        num_forwarded(blocks, room) <= room,
        num_forwarded(blocks, room) == blocks || num_forwarded(blocks, room) == room,
        transactions_from(bundles, positions, k) == positions.skip(k).fold_right(
            |i: int, total: int| bundles[i].packets->0@.len() + total,
            0int,
        ),
        dropped + more <= usize::MAX ==> saturating_sum(dropped, more) == dropped + more,
        dropped + more > usize::MAX ==> saturating_sum(dropped, more) == usize::MAX,
    decreases positions.len() - k,
{
    let rest = positions.skip(k);
    let add = |i: int, total: int| bundles[i].packets->0@.len() + total;
    if k < positions.len() {
        law_blocks_behind_the_room_are_dropped(
            bundles,
            positions,
            k + 1,
            blocks,
            room,
            dropped,
            more,
        );
        lemma_fold_right_first(rest, add, 0);
        assert(rest.drop_first() =~= positions.skip(k + 1));
        assert(rest[0] == positions[k]);
    }
}

/// Folding from the right takes the first element last.
proof fn lemma_fold_right_first(s: Seq<int>, f: spec_fn(int, int) -> int, b: int)
    requires
        s.len() > 0,
    ensures
        s.fold_right(f, b) == f(s[0], s.drop_first().fold_right(f, b)),
    decreases s.len(),
{
    if s.len() == 1 {
        reveal_with_fuel(Seq::fold_right, 2);
        assert(s.drop_last() =~= Seq::empty());
        assert(s.drop_first() =~= Seq::empty());
    } else {
        lemma_fold_right_first(s.drop_last(), f, f(s.last(), b));
        assert(s.drop_last().drop_first() =~= s.drop_first().drop_last());
    }
}

/// A block is for the slot that its bundle's identifier spells and holds the bundle's transactions; a
/// message can be read where every bundle with a block has such an identifier.
pub proof fn law_blocks_are_for_the_slot_they_name(block: Block, bundle: Bundle, bundles: Seq<Bundle>)
    ensures
        is_block_of(block, bundle) <==> bundle.packets is Some && block.txs == bundle.packets->0
            && number(bundle.uuid@) is Some && block.slot == number(bundle.uuid@)->0,
        !readable(bundles) <==> exists|i: int|
            0 <= i < bundles.len() && (#[trigger] bundles[i]).packets is Some && number(
                bundles[i].uuid@,
            ) is None,
{
}

} // verus!
