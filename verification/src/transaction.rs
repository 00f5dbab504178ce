//! Parsed transactions and what they do to accounts.

use agave_transaction_view::transaction_version::TransactionVersion;
use agave_transaction_view::transaction_view::UnsanitizedTransactionView;
use solana_transaction::simple_vote_transaction_checker::is_simple_vote_transaction_impl;
use solana_transaction::{Address, Signature};
use vstd::prelude::*;

verus! {

/// The parts of a serialized transaction that scheduling reads.
pub struct TransactionView {
    /// The signatures, first one first.
    pub signatures: Vec<[u8; 64]>,
    /// Whether the message has the legacy format.
    pub legacy: bool,
    /// How many of the static keys sign.
    pub num_required_signatures: u8,
    /// How many of the signing keys are read-only.
    pub num_readonly_signed: u8,
    /// How many of the other static keys are read-only.
    pub num_readonly_unsigned: u8,
    /// The account keys that the message spells out.
    pub static_keys: Vec<[u8; 32]>,
    /// For each instruction, the position of its program among the static keys.
    pub program_indices: Vec<u8>,
    /// How many address lookup tables the message refers to.
    pub num_lookups: u8,
    /// How many accounts it looks up for writing.
    pub writable_lookups: u16,
}

/// The value of a [`TransactionView`].
pub struct TransactionSpec {
    pub signatures: Seq<[u8; 64]>,
    pub legacy: bool,
    pub num_required_signatures: u8,
    pub num_readonly_signed: u8,
    pub num_readonly_unsigned: u8,
    pub static_keys: Seq<[u8; 32]>,
    pub program_indices: Seq<u8>,
    pub num_lookups: u8,
    pub writable_lookups: u16,
}

impl View for TransactionView {
    type V = TransactionSpec;

    open spec fn view(&self) -> TransactionSpec {
        TransactionSpec {
            signatures: self.signatures@,
            legacy: self.legacy,
            num_required_signatures: self.num_required_signatures,
            num_readonly_signed: self.num_readonly_signed,
            num_readonly_unsigned: self.num_readonly_unsigned,
            static_keys: self.static_keys@,
            program_indices: self.program_indices@,
            num_lookups: self.num_lookups,
            writable_lookups: self.writable_lookups,
        }
    }
}

/// The value inside an optional [`TransactionView`].
pub open spec fn option_view(view: Option<TransactionView>) -> Option<TransactionSpec> {
    match view {
        Some(view) => Some(view@),
        None => None,
    }
}

/// What `UnsanitizedTransactionView::try_new_unsanitized` reads from `data`; nothing where it
/// reports an error.
pub uninterp spec fn parsed_transaction(data: Seq<u8>) -> Option<TransactionSpec>;

/// `UnsanitizedTransactionView::try_new_unsanitized`, with the view it returns copied into plain
/// values. The layout of a serialized transaction is that crate's; here it only has a name.
#[verifier::external_body]
pub(crate) fn parse_transaction(data: &[u8]) -> (result: Option<TransactionView>)
    ensures
        option_view(result) == parsed_transaction(data@),
{
    let view = UnsanitizedTransactionView::try_new_unsanitized(data).ok()?;
    Some(TransactionView {
        signatures: view.signatures().iter().map(|s| <[u8; 64]>::from(*s)).collect(),
        legacy: matches!(view.version(), TransactionVersion::Legacy),
        num_required_signatures: view.num_required_signatures(),
        num_readonly_signed: view.num_readonly_signed_static_accounts(),
        num_readonly_unsigned: view.num_readonly_unsigned_static_accounts(),
        static_keys: view.static_account_keys().iter().map(|k| k.to_bytes()).collect(),
        program_indices: view.instructions_iter().map(|i| i.program_id_index).collect(),
        num_lookups: view.num_address_table_lookups(),
        writable_lookups: view.total_writable_lookup_accounts(),
    })
}

/// The address of the vote program.
pub const VOTE_PROGRAM: [u8; 32] = [
    0x07, 0x61, 0x48, 0x1d, 0x35, 0x74, 0x74, 0xbb, 0x7c, 0x4d, 0x76, 0x24, 0xeb, 0xd3, 0xbd, 0xb3,
    0xd8, 0x35, 0x5e, 0x73, 0xd1, 0x10, 0x43, 0xfc, 0x0d, 0xa3, 0x53, 0x80, 0x00, 0x00, 0x00, 0x00,
];

/// `is_simple_vote_transaction_impl`, with each program given by its position in `keys`: true for
/// a legacy message with at most two signatures and one instruction, whose program is the vote
/// program. It looks at the first two programs at most, and only where the signatures and the
/// format already fit.
#[verifier::external_body]
pub(crate) fn simple_vote(
    signatures: &[[u8; 64]],
    legacy: bool,
    keys: &[[u8; 32]],
    programs: &[u8],
) -> (result: bool)
    requires
        signatures@.len() < 3 && legacy ==> forall|i: int|
            0 <= i < 2 && i < programs@.len() ==> (#[trigger] programs@[i]) < keys@.len(),
    ensures
        result == (signatures@.len() < 3 && legacy && programs@.len() == 1
            && keys@[programs@[0] as int] == VOTE_PROGRAM),
{
    let signatures: Vec<Signature> = signatures.iter().map(|s| Signature::from(*s)).collect();
    let keys: Vec<Address> = keys.iter().map(|k| Address::from(*k)).collect();
    let programs = programs.iter().map(|i| &keys[usize::from(*i)]);
    is_simple_vote_transaction_impl(&signatures, legacy, programs)
}

/// One account that a transaction uses.
#[derive(Clone, Copy)]
pub struct Access {
    /// The account.
    pub key: [u8; 32],
    /// Whether the transaction may change it.
    pub write: bool,
}

/// `a - b`, or 0 where that is negative.
pub open spec fn monus(a: int, b: int) -> int {
    if a >= b {
        a - b
    } else {
        0
    }
}

impl TransactionSpec {
    /// The number of leading signing keys that are writable.
    pub open spec fn writable_signed(self) -> int {
        monus(self.num_required_signatures as int, self.num_readonly_signed as int)
    }

    /// The number of leading keys behind the signing ones that are writable.
    pub open spec fn writable_unsigned(self) -> int {
        monus(
            monus(self.static_keys.len() as int, self.num_required_signatures as int),
            self.num_readonly_unsigned as int,
        )
    }

    /// Whether the static key at position `i` is writable.
    pub open spec fn static_writable(self, i: int) -> bool {
        if i < self.num_required_signatures {
            i < self.writable_signed()
        } else {
            i - self.num_required_signatures < self.writable_unsigned()
        }
    }

    /// The accounts that the transaction uses: the static keys, then `lookups`, the keys that its
    /// lookup tables stand for.
    pub open spec fn accesses(self, lookups: Seq<[u8; 32]>) -> Seq<Access> {
        Seq::new(
            self.static_keys.len(),
            |i: int| Access { key: self.static_keys[i], write: self.static_writable(i) },
        ) + Seq::new(
            lookups.len(),
            |i: int| Access { key: lookups[i], write: i < self.writable_lookups },
        )
    }

    /// Whether the program of each instruction that decides about a vote is among the keys.
    pub open spec fn vote_readable(self) -> bool {
        self.signatures.len() < 3 && self.legacy ==> forall|i: int|
            0 <= i < 2 && i < self.program_indices.len() ==> (#[trigger] self.program_indices[i])
                < self.static_keys.len()
    }

    /// Whether this is a simple vote: a legacy message with at most two signatures whose only
    /// instruction calls the vote program.
    pub open spec fn is_vote(self) -> bool {
        &&& self.signatures.len() < 3
        &&& self.legacy
        &&& self.program_indices.len() == 1
        &&& self.static_keys[self.program_indices[0] as int] == VOTE_PROGRAM
    }
}

/// Whether no account occurs twice with one of the two uses a write.
pub open spec fn self_consistent(accesses: Seq<Access>) -> bool {
    forall|a: int, b: int|
        0 <= a < b < accesses.len() && (#[trigger] accesses[a]).key == (
        #[trigger] accesses[b]).key ==> !accesses[a].write && !accesses[b].write
}

impl TransactionView {
    /// Whether the transaction is a simple vote.
    pub fn is_vote(&self) -> (result: bool)
        requires
            self@.vote_readable(),
        ensures
            result == self@.is_vote(),
    {
        assert(self@.program_indices == self.program_indices@);
        simple_vote(
            self.signatures.as_slice(),
            self.legacy,
            self.static_keys.as_slice(),
            self.program_indices.as_slice(),
        )
    }

    /// Whether the program of each instruction that decides about a vote is among the keys.
    pub fn vote_readable(&self) -> (result: bool)
        ensures
            result == self@.vote_readable(),
    {
        if self.signatures.len() >= 3 || !self.legacy {
            return true;
        }
        let num_keys: usize = self.static_keys.len();
        let num_programs: usize = self.program_indices.len();
        let ghost programs = self.program_indices@;
        assert(self@.program_indices == programs);
        if num_programs > 0 && self.program_indices[0] as usize >= num_keys {
            return false;
        }
        if num_programs > 1 && self.program_indices[1] as usize >= num_keys {
            return false;
        }
        true
    }

    /// Lists the accounts that the transaction uses, in order.
    pub fn accesses(&self, lookups: &[[u8; 32]]) -> (result: Vec<Access>)
        ensures
            result@ == self@.accesses(lookups@),
    {
        let num_signed: usize = self.num_required_signatures as usize;
        let num_ros: usize = self.num_readonly_signed as usize;
        let num_rou: usize = self.num_readonly_unsigned as usize;
        let num_keys: usize = self.static_keys.len();
        let num_ws: usize = num_signed.saturating_sub(num_ros);
        let num_unsigned: usize = num_keys.saturating_sub(num_signed);
        let num_wu: usize = num_unsigned.saturating_sub(num_rou);
        let num_wl: usize = self.writable_lookups as usize;
        let mut result: Vec<Access> = Vec::new();
        let mut i: usize = 0;
        while i < num_keys
            invariant
                i <= num_keys,
                num_keys == self.static_keys@.len(),
                num_signed == self.num_required_signatures,
                num_ws == self@.writable_signed(),
                num_wu == self@.writable_unsigned(),
                result@ =~= self@.accesses(lookups@).take(i as int),
            decreases num_keys - i,
        {
            let write = if i < num_signed {
                i < num_ws
            } else {
                i - num_signed < num_wu
            };
            result.push(Access { key: self.static_keys[i], write });
            i = i + 1;
        }
        let mut j: usize = 0;
        while j < lookups.len()
            invariant
                j <= lookups@.len(),
                num_keys == self.static_keys@.len(),
                num_wl == self.writable_lookups,
                result@ =~= self@.accesses(lookups@).take(num_keys + j),
            decreases lookups.len() - j,
        {
            result.push(Access { key: lookups[j], write: j < num_wl });
            j = j + 1;
        }
        assert(self@.accesses(lookups@).take(num_keys + lookups@.len()) =~= self@.accesses(
            lookups@,
        ));
        result
    }
}

/// The header says which accounts a transaction may change. The static keys come first: of those that
/// sign, the last `num_readonly_signed` are only read, of the others the last `num_readonly_unsigned`,
/// and all the rest may be changed. Behind them come the looked-up keys, of which the first
/// `writable_lookups` may be changed.
pub proof fn law_header_decides_writes(tx: TransactionSpec, lookups: Seq<[u8; 32]>)
    ensures
        tx.accesses(lookups).len() == tx.static_keys.len() + lookups.len(),
        forall|i: int|
            0 <= i < tx.static_keys.len() ==> (#[trigger] tx.accesses(lookups)[i]).key
                == tx.static_keys[i],
        forall|i: int|
            0 <= i < tx.static_keys.len() ==> ((#[trigger] tx.accesses(lookups)[i]).write <==> (if i
                < tx.num_required_signatures {
                i + tx.num_readonly_signed < tx.num_required_signatures
            } else {
                i + tx.num_readonly_unsigned < tx.static_keys.len()
            })),
        tx.num_readonly_signed <= tx.num_required_signatures && tx.num_required_signatures
            + tx.num_readonly_unsigned <= tx.static_keys.len() ==> forall|i: int|
            0 <= i < tx.static_keys.len() ==> (!(#[trigger] tx.accesses(lookups)[i]).write <==> (
            tx.num_required_signatures - tx.num_readonly_signed <= i < tx.num_required_signatures
                || i >= tx.static_keys.len() - tx.num_readonly_unsigned)),
        forall|i: int|
            0 <= i < lookups.len() ==> (#[trigger] tx.accesses(lookups)[tx.static_keys.len()
                + i]).key == lookups[i],
        forall|i: int|
            0 <= i < lookups.len() ==> ((#[trigger] tx.accesses(lookups)[tx.static_keys.len()
                + i]).write <==> i < tx.writable_lookups),
{
}

/// A transaction is a simple vote exactly where its message has the legacy format, it carries one or
/// two signatures or none, and its single instruction calls the vote program.
pub proof fn law_simple_votes(tx: TransactionSpec)
    ensures
        tx.is_vote() <==> tx.legacy && tx.signatures.len() <= 2 && tx.program_indices.len() == 1
            && tx.static_keys[tx.program_indices[0] as int] == VOTE_PROGRAM,
        tx.is_vote() && tx.vote_readable() ==> tx.program_indices[0] < tx.static_keys.len(),
        !tx.vote_readable() <==> tx.legacy && tx.signatures.len() <= 2 && ((
        tx.program_indices.len() >= 1 && tx.program_indices[0] >= tx.static_keys.len()) || (
        tx.program_indices.len() >= 2 && tx.program_indices[1] >= tx.static_keys.len())),
{
    if tx.program_indices.len() >= 1 && tx.program_indices[0] >= tx.static_keys.len() {
        assert(!(tx.program_indices[0] < tx.static_keys.len()));
    }
    if tx.program_indices.len() >= 2 && tx.program_indices[1] >= tx.static_keys.len() {
        assert(!(tx.program_indices[1] < tx.static_keys.len()));
    }
}

/// A transaction is inconsistent exactly where it names an account twice and may change it by one of
/// the two.
pub proof fn law_self_consistent(accesses: Seq<Access>)
    ensures
        !self_consistent(accesses) <==> exists|a: int, b: int|
            0 <= a < accesses.len() && 0 <= b < accesses.len() && a != b && (
            #[trigger] accesses[a]).key == (#[trigger] accesses[b]).key && accesses[a].write,
{
    if exists|a: int, b: int|
        0 <= a < accesses.len() && 0 <= b < accesses.len() && a != b && (
        #[trigger] accesses[a]).key == (#[trigger] accesses[b]).key && accesses[a].write {
        let (a, b) = choose|a: int, b: int|
            0 <= a < accesses.len() && 0 <= b < accesses.len() && a != b && (
            #[trigger] accesses[a]).key == (#[trigger] accesses[b]).key && accesses[a].write;
        if a < b {
            assert(accesses[a].key == accesses[b].key);
        } else {
            assert(accesses[b].key == accesses[a].key);
        }
    }
    if !self_consistent(accesses) {
        let (a, b) = choose|a: int, b: int|
            0 <= a < b < accesses.len() && (#[trigger] accesses[a]).key == (
            #[trigger] accesses[b]).key && !(!accesses[a].write && !accesses[b].write);
        if accesses[a].write {
            assert(accesses[a].key == accesses[b].key);
        } else {
            assert(accesses[b].key == accesses[a].key);
        }
    }
}

} // verus!
