//! Validator-side TPU packet feed.

use crate::bindings::TransactionRegion;
use vstd::prelude::*;

verus! {

/// A packet holds a simple vote.
pub const IS_SIMPLE_VOTE: u8 = 1;

/// A packet from the validator's TPU.
#[derive(Clone, Copy, Debug, PartialEq, Eq, Structural)]
pub enum Packet {
    Vote(TransactionRegion),
    Nonvote(TransactionRegion),
}

/// Tells votes from other transactions.
pub fn classify(flags: u8, transaction: TransactionRegion) -> (packet: Packet)
    ensures
        packet == (if flags & IS_SIMPLE_VOTE != 0 {
            Packet::Vote(transaction)
        } else {
            Packet::Nonvote(transaction)
        }),
{
    if flags & IS_SIMPLE_VOTE != 0 {
        Packet::Vote(transaction)
    } else {
        Packet::Nonvote(transaction)
    }
}

} // verus!
