//! Transactions, batches and responses in shared memory.
//!
//! - Sending to a worker transfers the ownership of a batch and of all that it refers to.
//! - A reply gives it back, together with the ownership of the response memory.

use crate::bindings::{
    CheckResponse, ExecutionResponse, PubkeysRegion, TransactionRegion, MAX_TRANSACTIONS_PER_MESSAGE,
    PROCESSED, RESOLVE_PERFORMED,
};
use vstd::prelude::*;

verus! {

/// A transaction that lies in shared memory, with its serialized bytes.
pub struct Arrival {
    pub region: TransactionRegion,
    pub data: Vec<u8>,
}

/// The first signature of a serialized transaction: the 64 bytes behind the leading length byte.
pub open spec fn first_signature(data: Seq<u8>) -> [u8; 64] {
    choose|key: [u8; 64]| #[trigger] key@ == data.subrange(1, 65)
}

/// Copies the first signature out of a serialized transaction.
pub fn signature(data: &[u8]) -> (key: [u8; 64])
    requires
        data@.len() >= 65,
    ensures
        key == first_signature(data@),
        key@ == data@.subrange(1, 65),
{
    let mut key: [u8; 64] = [0u8; 64];
    let mut i: usize = 0;
    while i < 64
        invariant
            i <= 64,
            data@.len() >= 65,
            forall|j: int| 0 <= j < i ==> key@[j] == data@[j + 1],
        decreases 64 - i,
    {
        key[i] = data[i + 1];
        i = i + 1;
    }
    assert(key@ =~= data@.subrange(1, 65));
    assert(key =~= first_signature(data@));
    key
}

/// The size of the allocation for `len` bytes of data; nothing where there is no data, or more than
/// one allocation takes.
pub fn allocation_size(len: usize, max_allocation_size: u32) -> (result: Option<u32>)
    ensures
        result == (if 0 < len <= max_allocation_size {
            Some(len as u32)
        } else {
            None
        }),
{
    if len == 0 || len > max_allocation_size as usize {
        None
    } else {
        Some(len as u32)
    }
}

/// The number of transactions and the size of the allocation for a batch of `len` entries of
/// `entry_size` bytes; nothing where the batch is empty, or more than one message takes.
pub fn batch_layout(len: usize, entry_size: u32) -> (result: Option<(u8, u32)>)
    requires
        MAX_TRANSACTIONS_PER_MESSAGE * entry_size <= u32::MAX,
    ensures
        result == (if 0 < len <= MAX_TRANSACTIONS_PER_MESSAGE {
            Some((len as u8, (len * entry_size) as u32))
        } else {
            None
        }),
{
    if len == 0 || len > MAX_TRANSACTIONS_PER_MESSAGE {
        return None;
    }
    assert(len * entry_size <= MAX_TRANSACTIONS_PER_MESSAGE * entry_size) by (nonlinear_arith)
        requires
            len <= MAX_TRANSACTIONS_PER_MESSAGE,
            entry_size >= 0,
    ;
    Some((len as u8, len as u32 * entry_size))
}

/// What owns shared memory.
pub trait Free {
    /// The offset of the direct allocation, where there is one.
    spec fn allocation(&self) -> Option<usize>;

    /// The offset to free so that the direct allocation is released; nothing for a value without
    /// one.
    fn free(&self) -> (offset: Option<usize>)
        ensures
            offset == self.allocation(),
    ;
}

/// A transaction is always allocated.
impl Free for TransactionRegion {
    open spec fn allocation(&self) -> Option<usize> {
        Some(self.offset)
    }

    fn free(&self) -> (offset: Option<usize>) {
        Some(self.offset)
    }
}

/// Key lists without keys are not allocated.
impl Free for PubkeysRegion {
    open spec fn allocation(&self) -> Option<usize> {
        if self.num_pubkeys != 0 {
            Some(self.offset)
        } else {
            None
        }
    }

    fn free(&self) -> (offset: Option<usize>) {
        if self.num_pubkeys != 0 {
            Some(self.offset)
        } else {
            None
        }
    }
}

/// The data of an account in shared memory.
#[derive(Clone, Copy, Debug, PartialEq, Eq, Structural)]
pub struct AccountDataRegion {
    pub offset: usize,
    /// 0 means that nothing is allocated.
    pub length: u32,
}

impl Free for AccountDataRegion {
    open spec fn allocation(&self) -> Option<usize> {
        if self.length != 0 {
            Some(self.offset)
        } else {
            None
        }
    }

    fn free(&self) -> (offset: Option<usize>) {
        if self.length != 0 {
            Some(self.offset)
        } else {
            None
        }
    }
}

/// The transactions of a message in shared memory.
#[derive(Clone, Copy, Debug, PartialEq, Eq, Structural)]
pub struct BatchRegion {
    pub num_transactions: u8,
    pub transactions_offset: usize,
}

/// A batch is always allocated.
impl Free for BatchRegion {
    open spec fn allocation(&self) -> Option<usize> {
        Some(self.transactions_offset)
    }

    fn free(&self) -> (offset: Option<usize>) {
        Some(self.transactions_offset)
    }
}

/// The responses to a message in shared memory.
#[derive(Clone, Copy, Debug, PartialEq, Eq, Structural)]
pub struct ResponseRegion {
    pub tag: u8,
    /// 0 means that nothing is allocated.
    pub num_transaction_responses: u8,
    pub transaction_responses_offset: usize,
}

impl Free for ResponseRegion {
    open spec fn allocation(&self) -> Option<usize> {
        if self.num_transaction_responses != 0 {
            Some(self.transaction_responses_offset)
        } else {
            None
        }
    }

    fn free(&self) -> (offset: Option<usize>) {
        if self.num_transaction_responses != 0 {
            Some(self.transaction_responses_offset)
        } else {
            None
        }
    }
}

/// The looked-up keys mean something only where the lookup was performed.
impl Free for CheckResponse {
    open spec fn allocation(&self) -> Option<usize> {
        if self.resolve_flags & RESOLVE_PERFORMED != 0 {
            self.resolved_pubkeys.allocation()
        } else {
            None
        }
    }

    fn free(&self) -> (offset: Option<usize>) {
        if self.resolve_flags & RESOLVE_PERFORMED != 0 {
            self.resolved_pubkeys.free()
        } else {
            None
        }
    }
}

/// What a worker says of one account that it was to read.
pub struct ReadResponse {
    /// Whether the account was read.
    pub success: bool,
    /// Where its data lies.
    pub region: AccountDataRegion,
    /// Its data.
    pub data: Vec<u8>,
    /// The program that owns it.
    pub owner: [u8; 32],
}

/// The data is allocated only where the account was read.
impl Free for ReadResponse {
    open spec fn allocation(&self) -> Option<usize> {
        if self.success {
            self.region.allocation()
        } else {
            None
        }
    }

    fn free(&self) -> (offset: Option<usize>) {
        if self.success {
            self.region.free()
        } else {
            None
        }
    }
}

/// The result of an execution owns nothing.
impl Free for ExecutionResponse {
    open spec fn allocation(&self) -> Option<usize> {
        None
    }

    fn free(&self) -> (offset: Option<usize>) {
        None
    }
}

/// The offsets to free for the first `n` of `owners`.
pub open spec fn allocations<T: Free>(owners: Seq<T>, n: nat) -> Seq<usize>
    decreases n,
{
    if n == 0 {
        Seq::empty()
    } else {
        match owners[n - 1].allocation() {
            Some(offset) => allocations(owners, (n - 1) as nat).push(offset),
            None => allocations(owners, (n - 1) as nat),
        }
    }
}

/// The offsets to free so that every one of `owners` is released.
pub fn free_all<T: Free>(owners: &[T]) -> (offsets: Vec<usize>)
    ensures
        offsets@ == allocations(owners@, owners@.len()),
{
    let mut offsets: Vec<usize> = Vec::new();
    let mut k: usize = 0;
    while k < owners.len()
        invariant
            k <= owners@.len(),
            offsets@ == allocations(owners@, k as nat),
        decreases owners.len() - k,
    {
        if let Some(offset) = owners[k].free() {
            offsets.push(offset);
        }
        k = k + 1;
    }
    offsets
}

/// The offsets to free so that an owner with the allocation `own` is released together with its
/// `children`, the children first.
pub open spec fn deep<T: Free>(children: Seq<T>, own: Option<usize>) -> Seq<usize> {
    match own {
        Some(offset) => allocations(children, children.len()).push(offset),
        None => allocations(children, children.len()),
    }
}

/// A worker's reply in shared memory. Its responses are allocated only where it was processed.
#[derive(Clone, Copy, Debug, PartialEq, Eq, Structural)]
pub struct WorkerMessage {
    pub batch: BatchRegion,
    pub processed_code: u8,
    pub responses: ResponseRegion,
}

impl WorkerMessage {
    /// The offsets that a shallow free of the message releases.
    pub open spec fn shallow(self) -> Seq<usize> {
        match self.responses.allocation() {
            Some(offset) if self.processed_code == PROCESSED => seq![
                self.batch.transactions_offset,
                offset,
            ],
            _ => seq![self.batch.transactions_offset],
        }
    }

    /// The offsets to free so that the message itself is released, without what its entries own.
    pub fn free(&self) -> (offsets: Vec<usize>)
        ensures
            offsets@ == self.shallow(),
    {
        let mut offsets: Vec<usize> = Vec::new();
        offsets.push(self.batch.transactions_offset);
        if self.processed_code == PROCESSED {
            if let Some(offset) = self.responses.free() {
                offsets.push(offset);
            }
        }
        assert(offsets@ =~= self.shallow());
        offsets
    }

    /// The offsets to free so that the message is released with all that its entries own: the
    /// transactions and the batch, and, where it was processed, what the responses own and the
    /// responses themselves.
    pub fn free_full<T: Free>(&self, transactions: &[TransactionRegion], responses: &[T]) -> (
        offsets: Vec<usize>)
        ensures
            offsets@ == deep(transactions@, self.batch.allocation()) + (if self.processed_code
                == PROCESSED {
                deep(responses@, self.responses.allocation())
            } else {
                Seq::empty()
            }),
    {
        let mut offsets = free_all(transactions);
        offsets.push(self.batch.transactions_offset);
        let ghost batch = offsets@;
        assert(batch == deep(transactions@, self.batch.allocation()));
        if self.processed_code == PROCESSED {
            let mut rest = free_all(responses);
            if let Some(offset) = self.responses.free() {
                rest.push(offset);
            }
            offsets.append(&mut rest);
        }
        assert(offsets@ =~= batch + (if self.processed_code == PROCESSED {
            deep(responses@, self.responses.allocation())
        } else {
            Seq::empty()
        }));
        offsets
    }
}

/// What is allocated: a transaction and a batch always; a list of keys, the data of an account and a
/// list of responses where they are not empty; what a response to CHECK or to a read refers to where
/// the lookup or the read was performed; and nothing by an execution.
pub proof fn law_what_is_allocated(
    tx: TransactionRegion,
    keys: PubkeysRegion,
    data: AccountDataRegion,
    batch: BatchRegion,
    responses: ResponseRegion,
    check: CheckResponse,
    read: ReadResponse,
    execution: ExecutionResponse,
)
    ensures
        tx.allocation() == Some(tx.offset),
        batch.allocation() == Some(batch.transactions_offset),
        keys.allocation() == (if keys.num_pubkeys == 0 {
            None
        } else {
            Some(keys.offset)
        }),
        data.allocation() == (if data.length == 0 {
            None
        } else {
            Some(data.offset)
        }),
        responses.allocation() == (if responses.num_transaction_responses == 0 {
            None
        } else {
            Some(responses.transaction_responses_offset)
        }),
        check.resolve_flags & 2 == 0 ==> check.allocation() is None,
        check.resolve_flags & 2 != 0 ==> check.allocation() == check.resolved_pubkeys.allocation(),
        !read.success ==> read.allocation() is None,
        read.success ==> read.allocation() == read.region.allocation(),
        execution.allocation() is None,
{
}

/// Freeing a list frees each allocation of its members once, in order, and nothing else.
pub proof fn law_lists_are_freed_in_order<T: Free>(owners: Seq<T>, n: nat)
    requires
        n <= owners.len(),
    ensures
        allocations(owners, n) == owners.take(n as int).map_values(|owner: T| owner.allocation())
            .filter(|offset: Option<usize>| offset is Some).map_values(
            |offset: Option<usize>| offset->0,
        ),
    decreases n,
{
    reveal(Seq::filter);
    let all = owners.take(n as int).map_values(|owner: T| owner.allocation());
    let there = |offset: Option<usize>| offset is Some;
    let value = |offset: Option<usize>| offset->0;
    if n > 0 {
        let m = (n - 1) as nat;
        law_lists_are_freed_in_order(owners, m);
        let fewer = owners.take(m as int).map_values(|owner: T| owner.allocation());
        assert(all.drop_last() =~= fewer);
        assert(all.last() == owners[n - 1].allocation());
        if there(all.last()) {
            assert(all.filter(there).map_values(value) =~= fewer.filter(there).map_values(
                value,
            ).push(owners[n - 1].allocation()->0));
        }
    }
    assert(allocations(owners, n) =~= all.filter(there).map_values(value));
}

/// Freeing an owner with all that it holds frees what it holds first and itself last; a message that was
/// not processed has no responses to free.
pub proof fn law_owners_are_freed_last<T: Free>(
    children: Seq<T>,
    own: Option<usize>,
    message: WorkerMessage,
)
    ensures
        own is Some ==> deep(children, own) == allocations(children, children.len()) + seq![own->0],
        own is None ==> deep(children, own) == allocations(children, children.len()),
        message.shallow()[0] == message.batch.transactions_offset,
        message.processed_code == 0 && message.responses.num_transaction_responses != 0
            ==> message.shallow() == seq![
            message.batch.transactions_offset,
            message.responses.transaction_responses_offset,
        ],
        message.processed_code != 0 || message.responses.num_transaction_responses == 0
            ==> message.shallow().len() == 1,
{
    if own is Some {
        assert(deep(children, own) =~= allocations(children, children.len()) + seq![own->0]);
    }
}

} // verus!
