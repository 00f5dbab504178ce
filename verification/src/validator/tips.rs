//! The transactions that set up and serve the tip accounts at the start of a block.

use crate::arrays::copied;
use crate::bindings::{PackMessage, PackMessageSpec, TransactionRegion, PROCESSED};
use crate::ipc::shmem::ReadResponse;
use vstd::prelude::*;

verus! {

/// How many accounts are read: the tip-payment configuration, the tip-distribution configuration
/// and this validator's tip-distribution account.
pub const NUM_TIP_ACCOUNTS: usize = 3;

/// An account that was read.
pub struct TipAccount {
    pub data: Vec<u8>,
    pub owner: [u8; 32],
}

/// The tip accounts, as far as they could be read.
pub struct TipAccountData {
    pub epoch: u64,
    pub tip_payment_config: Option<TipAccount>,
    pub tip_distribution_config: Option<TipAccount>,
    pub tip_distribution_pda: Option<TipAccount>,
}

/// `account` holds what `response` read, and nothing where that failed.
pub open spec fn holds(account: Option<TipAccount>, response: ReadResponse) -> bool {
    match account {
        Some(account) => response.success && account.data@ == response.data@ && account.owner
            == response.owner,
        None => !response.success,
    }
}

/// Copies the account that `response` read.
fn tip_account(response: &ReadResponse) -> (result: Option<TipAccount>)
    ensures
        holds(result, *response),
{
    if !response.success {
        return None;
    }
    Some(TipAccount { data: copied(&response.data), owner: response.owner })
}

/// The request for the tip accounts: one message to the first worker, which is idle at the start of a
/// block. `addresses` are where the addresses of the three accounts lie. `read` is the flag that asks a
/// worker to read accounts, and `load_data` the one that asks for what they hold.
pub fn tip_read_request(
    slot: u64,
    read: u16,
    load_data: u16,
    addresses: [TransactionRegion; 3],
) -> (message: PackMessage)
    ensures
        message@ == (PackMessageSpec {
            worker: 0,
            flags: read | load_data,
            max_working_slot: slot,
            batch: addresses@,
        }),
{
    let mut batch: Vec<TransactionRegion> = Vec::new();
    batch.push(addresses[0]);
    batch.push(addresses[1]);
    batch.push(addresses[2]);
    assert(batch@ =~= addresses@);
    PackMessage { worker: 0, flags: read | load_data, max_working_slot: slot, batch }
}

/// Whether a reply answers the request for the tip accounts: it was processed, it holds the results
/// of reads, and there is one for each account.
pub fn answers_tip_read(processed_code: u8, is_read: bool, num_responses: usize) -> (result: bool)
    ensures
        result == (processed_code == PROCESSED && is_read && num_responses == NUM_TIP_ACCOUNTS),
{
    processed_code == PROCESSED && is_read && num_responses == NUM_TIP_ACCOUNTS
}

/// Takes the tip accounts out of the responses, which come in the order of the request.
pub fn tip_account_data(epoch: u64, responses: &[ReadResponse]) -> (result: TipAccountData)
    requires
        responses@.len() == NUM_TIP_ACCOUNTS,
    ensures
        result.epoch == epoch,
        holds(result.tip_payment_config, responses@[0]),
        holds(result.tip_distribution_config, responses@[1]),
        holds(result.tip_distribution_pda, responses@[2]),
{
    TipAccountData {
        epoch,
        tip_payment_config: tip_account(&responses[0]),
        tip_distribution_config: tip_account(&responses[1]),
        tip_distribution_pda: tip_account(&responses[2]),
    }
}

/// The transactions of an optional list.
pub open spec fn given(txs: Option<Vec<Vec<u8>>>) -> Seq<Vec<u8>> {
    match txs {
        Some(txs) => txs@,
        None => Seq::empty(),
    }
}

/// The tip bundle of a slot: what sets the tip programs up, then what serves them. A part that could
/// not be built is left out.
pub fn tip_bundle(init: Option<Vec<Vec<u8>>>, crank: Option<Vec<Vec<u8>>>) -> (result: Vec<Vec<u8>>)
    ensures
        result@ == given(init) + given(crank),
{
    let mut result: Vec<Vec<u8>> = Vec::new();
    if let Some(txs) = init {
        let mut txs = txs;
        result.append(&mut txs);
    }
    if let Some(txs) = crank {
        let mut txs = txs;
        result.append(&mut txs);
    }
    assert(result@ =~= given(init) + given(crank));
    result
}

/// An account is there exactly where it was read, and then it is what was read.
pub proof fn law_accounts_are_what_was_read(
    account: Option<TipAccount>,
    response: ReadResponse,
    txs: Option<Vec<Vec<u8>>>,
)
    ensures
        holds(account, response) <==> (account is Some <==> response.success) && (account is Some
            ==> account->0.data@ == response.data@ && account->0.owner == response.owner),
        txs is Some ==> given(txs) == txs->0@,
        txs is None ==> given(txs).len() == 0,
{
}

} // verus!
