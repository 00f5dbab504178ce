//! The stream of incoming transactions to a co-located strategy server.

use crate::arrays::copied;
use crate::text::{append_hex, hex, law_hex_injective, law_hex_width, pow16, same_text};
use vstd::prelude::*;

verus! {

/// How many transactions the outbound stream holds.
pub const TX_OUT_CAPACITY: usize = 8192;

/// Whether a request may pass: no token is asked for, or it provides that very one. A request without
/// a token, or with one that is no text, provides none.
pub fn authorize(expected: Option<&str>, provided: Option<&str>) -> (result: bool)
    ensures
        result == match expected {
            None => true,
            Some(token) => provided matches Some(text) && text@ == token@,
        },
{
    match expected {
        None => true,
        Some(token) => match provided {
            Some(text) => same_text(token, text),
            None => false,
        },
    }
}

/// The transactions among the first `n` of `contents`: those that are not empty.
pub open spec fn nonempty(contents: Seq<Vec<u8>>, n: nat) -> Seq<Seq<u8>>
    decreases n,
{
    if n == 0 {
        Seq::empty()
    } else if contents[n - 1]@.len() == 0 {
        nonempty(contents, (n - 1) as nat)
    } else {
        nonempty(contents, (n - 1) as nat).push(contents[n - 1]@)
    }
}

/// The bytes of each transaction.
pub open spec fn bytes_of(txs: Seq<Vec<u8>>) -> Seq<Seq<u8>> {
    txs.map_values(|tx: Vec<u8>| tx@)
}

/// The transactions of a bundle without empty ones; `None` where none is left.
pub fn bundle_transactions(contents: Vec<Vec<u8>>) -> (result: Option<Vec<Vec<u8>>>)
    ensures
        result is Some <==> nonempty(contents@, contents@.len()).len() > 0,
        result matches Some(txs) ==> bytes_of(txs@) == nonempty(contents@, contents@.len()),
{
    let mut txs: Vec<Vec<u8>> = Vec::new();
    let mut i: usize = 0;
    while i < contents.len()
        invariant
            i <= contents@.len(),
            bytes_of(txs@) =~= nonempty(contents@, i as nat),
        decreases contents.len() - i,
    {
        if contents[i].len() > 0 {
            let ghost before = txs@;
            let tx = copied(&contents[i]);
            txs.push(tx);
            assert(bytes_of(txs@) =~= bytes_of(before).push(tx@));
        }
        i = i + 1;
    }
    assert(bytes_of(txs@).len() == txs@.len());
    if txs.len() == 0 {
        None
    } else {
        Some(txs)
    }
}

/// The identifier of the `seq`-th bundle, taken at `now` nanoseconds since the epoch.
pub fn bundle_uuid(now: u64, seq: u64) -> (result: String)
    ensures
        result@ == hex(now as nat, 16) + hex(seq as nat, 8),
{
    let mut result = String::new();
    append_hex(&mut result, now, 16);
    append_hex(&mut result, seq, 8);
    assert(result@ =~= hex(now as nat, 16) + hex(seq as nat, 8));
    result
}

/// The identifiers of two bundles differ, whenever they were taken, as long as their numbers do.
pub proof fn law_bundle_uuids_differ(now1: u64, seq1: u64, now2: u64, seq2: u64)
    requires
        seq1 != seq2,
    ensures
        hex(now1 as nat, 16) + hex(seq1 as nat, 8) != hex(now2 as nat, 16) + hex(seq2 as nat, 8),
{
    let time1 = hex(now1 as nat, 16);
    let time2 = hex(now2 as nat, 16);
    let number1 = hex(seq1 as nat, 8);
    let number2 = hex(seq2 as nat, 8);
    assert(pow16(16) == 0x1_0000_0000_0000_0000) by {
        reveal_with_fuel(pow16, 17);
    }
    law_hex_width(now1 as nat, 16);
    law_hex_width(now2 as nat, 16);
    if time1 + number1 == time2 + number2 {
        assert((time1 + number1).skip(16) =~= number1);
        assert((time2 + number2).skip(16) =~= number2);
        law_hex_injective(seq1 as nat, seq2 as nat, 8);
    }
}

/// What is sent to a subscriber.
pub enum Update {
    /// A transaction.
    Transaction(Vec<u8>),
    /// A sign of life.
    Ping,
}

/// What a subscription receives from the stream.
pub enum Received {
    /// A transaction.
    Data(Vec<u8>),
    /// The subscriber was too slow: this many transactions are skipped.
    Lagged(u64),
    /// The stream is over.
    Closed,
    /// It is time for a sign of life.
    Tick,
}

/// What a subscription does.
pub enum Step {
    /// Sends an update; ends where the subscriber is gone.
    Send(Update),
    /// Reports skipped transactions, and goes on.
    Report(u64),
    /// Ends.
    End,
}

/// Decides what a subscription does about what it receives.
pub fn subscription_step(received: Received) -> (step: Step)
    ensures
        step == match received {
            Received::Data(data) => Step::Send(Update::Transaction(data)),
            Received::Lagged(skipped) => Step::Report(skipped),
            Received::Closed => Step::End,
            Received::Tick => Step::Send(Update::Ping),
        },
{
    match received {
        Received::Data(data) => Step::Send(Update::Transaction(data)),
        Received::Lagged(skipped) => Step::Report(skipped),
        Received::Closed => Step::End,
        Received::Tick => Step::Send(Update::Ping),
    }
}

/// What is left of a bundle are exactly its transactions that have bytes, in order.
pub proof fn law_bundles_lose_only_empty_transactions(contents: Seq<Vec<u8>>, n: nat)
    requires
        n <= contents.len(),
    ensures
        nonempty(contents, n) == contents.take(n as int).map_values(|tx: Vec<u8>| tx@).filter(
            |bytes: Seq<u8>| bytes.len() != 0,
        ),
        bytes_of(contents).len() == contents.len(),
        forall|k: int| 0 <= k < contents.len() ==> #[trigger] bytes_of(contents)[k] == contents[k]@,
    decreases n,
{
    reveal(Seq::filter);
    let all = contents.take(n as int).map_values(|tx: Vec<u8>| tx@);
    if n > 0 {
        let m = (n - 1) as nat;
        law_bundles_lose_only_empty_transactions(contents, m);
        assert(all.drop_last() =~= contents.take(m as int).map_values(|tx: Vec<u8>| tx@));
        assert(all.last() == contents[n - 1]@);
    }
}

} // verus!
