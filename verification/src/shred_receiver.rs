//! The command that sets the receivers of shreds.

use vstd::prelude::*;

verus! {

/// The name of the command.
pub const COMMAND: &'static str = "set-shred-receiver-address";

/// The name of its argument.
pub const ARGUMENT: &'static str = "shred_receiver_address";

/// The argument of the command.
#[derive(Debug, PartialEq, Eq)]
pub struct SetShredReceiverArgs {
    /// Addresses, separated by commas; empty to switch the feature off.
    pub addr: String,
}

impl SetShredReceiverArgs {
    /// Takes the value of the argument, which is required.
    pub fn from_clap_arg_match(value: Option<&str>) -> (result: Option<Self>)
        ensures
            result is Some <==> value is Some,
            result matches Some(args) ==> value matches Some(text) && args.addr@ == text@,
    {
        match value {
            Some(text) => Some(SetShredReceiverArgs { addr: text.to_owned() }),
            None => None,
        }
    }
}

} // verus!
