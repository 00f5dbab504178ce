//! Settings of the scheduler.

use crate::bindings::MAX_WORKERS;
use crate::keys::{address_from, parse_address, AddressError};
use crate::net::SocketAddress;
use crate::text::{is_word, lowercase};
use vstd::prelude::*;

verus! {

/// How the block builder schedules.
#[derive(Clone, Copy, Debug, PartialEq, Eq, Structural)]
pub enum SchedulingStrategy {
    Fifo,
    Fba,
    Mrev,
}

/// The strategy that `text` names, in any case of letters.
pub open spec fn strategy(text: Seq<char>) -> Option<SchedulingStrategy> {
    if lowercase(text) == "fifo"@ {
        Some(SchedulingStrategy::Fifo)
    } else if lowercase(text) == "fba"@ {
        Some(SchedulingStrategy::Fba)
    } else if lowercase(text) == "mrev"@ {
        Some(SchedulingStrategy::Mrev)
    } else {
        None
    }
}

/// Reads the name of a strategy; an error says what was expected and what was given.
pub fn parse_strategy(text: &str) -> (result: Result<SchedulingStrategy, String>)
    ensures
        result is Ok <==> strategy(text@) is Some,
        result matches Ok(found) ==> strategy(text@) == Some(found),
        result matches Err(message) ==> message@ == "expected one of: fifo, fba, mrev, got '"@
            + text@ + "'"@,
{
    if is_word(text, "fifo") {
        Ok(SchedulingStrategy::Fifo)
    } else if is_word(text, "fba") {
        Ok(SchedulingStrategy::Fba)
    } else if is_word(text, "mrev") {
        Ok(SchedulingStrategy::Mrev)
    } else {
        let mut message = String::new();
        message.append("expected one of: fifo, fba, mrev, got '");
        message.append(text);
        message.append("'");
        assert(message@ =~= "expected one of: fifo, fba, mrev, got '"@ + text@ + "'"@);
        Err(message)
    }
}

/// What is said of a text that is no address.
pub open spec fn address_error_text(error: AddressError) -> Seq<char> {
    match error {
        AddressError::WrongSize => "String is the wrong size"@,
        AddressError::Invalid => "Invalid Base58 string"@,
    }
}

/// The message for `text`, which is no address because of `error`.
pub fn address_error(text: &str, error: AddressError) -> (message: String)
    ensures
        message@ == "invalid pubkey '"@ + text@ + "': "@ + address_error_text(error),
{
    let mut message = String::new();
    message.append("invalid pubkey '");
    message.append(text);
    message.append("': ");
    match error {
        AddressError::WrongSize => message.append("String is the wrong size"),
        AddressError::Invalid => message.append("Invalid Base58 string"),
    }
    assert(message@ =~= "invalid pubkey '"@ + text@ + "': "@ + address_error_text(error));
    message
}

/// Reads an address; an error says what was given and what is wrong with it.
pub fn parse_pubkey(text: &str) -> (result: Result<[u8; 32], String>)
    ensures
        match address_from(text@) {
            Ok(key) => result == Ok::<[u8; 32], String>(key),
            Err(error) => result matches Err(message) && message@ == "invalid pubkey '"@ + text@
                + "': "@ + address_error_text(error),
        },
{
    match parse_address(text) {
        Ok(key) => Ok(key),
        Err(error) => Err(address_error(text, error)),
    }
}

/// The remote TPU.
pub struct RemoteTpuConfig {
    /// Its endpoint.
    pub remote_tpu_url: String,
}

/// The block engine.
pub struct BlockEngineConfig {
    /// Its endpoint.
    pub block_engine_url: String,
    /// How its block builder schedules.
    pub strategy: SchedulingStrategy,
}

/// The validator.
#[derive(Clone, Copy, Debug, PartialEq, Eq, Structural)]
pub struct ValidatorConfig {
    /// How many workers are asked for.
    pub num_workers: usize,
}

impl ValidatorConfig {
    /// Whether the number of workers is one that a validator gives.
    pub fn valid(&self) -> (result: bool)
        ensures
            result == (1 <= self.num_workers <= MAX_WORKERS),
    {
        1 <= self.num_workers && self.num_workers <= MAX_WORKERS
    }
}

/// The largest commission, in basis points.
pub const MAX_COMMISSION_BPS: u16 = 10000;

/// The tip programs.
#[derive(Clone, Copy, Debug)]
pub struct TipConfig {
    pub tip_payment_program: [u8; 32],
    pub tip_distribution_program: [u8; 32],
    pub merkle_root_upload_authority: [u8; 32],
    /// The commission that the validator takes from tips, in basis points.
    pub commission_bps: u16,
}

impl TipConfig {
    /// Whether the commission is no more than everything.
    pub fn valid(&self) -> (result: bool)
        ensures
            result == (self.commission_bps <= MAX_COMMISSION_BPS),
    {
        self.commission_bps <= MAX_COMMISSION_BPS
    }
}

/// The stream of incoming transactions; off where no address is given.
pub struct BackrunConfig {
    pub backrun_listen_addr: Option<SocketAddress>,
    /// What clients must present, where anything is asked of them.
    pub backrun_x_token: Option<String>,
}

/// The names of the strategies, in any case of letters.
pub proof fn law_strategy_names(text: Seq<char>)
    ensures
        strategy(text) == Some(SchedulingStrategy::Fifo) <==> lowercase(text) == seq![
            'f',
            'i',
            'f',
            'o',
        ],
        strategy(text) == Some(SchedulingStrategy::Fba) <==> lowercase(text) == seq!['f', 'b', 'a'],
        strategy(text) == Some(SchedulingStrategy::Mrev) <==> lowercase(text) == seq![
            'm',
            'r',
            'e',
            'v',
        ],
{
    reveal_strlit("fifo");
    reveal_strlit("fba");
    reveal_strlit("mrev");
    assert("fifo"@ =~= seq!['f', 'i', 'f', 'o']);
    assert("fba"@ =~= seq!['f', 'b', 'a']);
    assert("mrev"@ =~= seq!['m', 'r', 'e', 'v']);
    assert(seq!['f', 'i', 'f', 'o'][0] != seq!['m', 'r', 'e', 'v'][0]);
    assert(seq!['f', 'i', 'f', 'o'].len() != seq!['f', 'b', 'a'].len());
    assert(seq!['m', 'r', 'e', 'v'].len() != seq!['f', 'b', 'a'].len());
}

} // verus!
