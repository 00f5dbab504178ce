//! The validator's side of an override of its TPU addresses.

use crate::net::SocketAddress;
use vstd::prelude::*;

verus! {

/// The addresses that a validator advertises for its TPU.
#[derive(Clone, Copy, Debug, PartialEq, Eq)]
pub struct Contact {
    pub tpu: SocketAddress,
    pub tpu_forwards: SocketAddress,
}

/// Remembers what a validator advertised before the first override.
pub struct TpuOverride {
    pub original: Option<Contact>,
}

/// Whether sessions may be accepted: both addresses are published.
pub fn published(tpu: Option<SocketAddress>, tpu_forwards: Option<SocketAddress>) -> (result:
    Option<Contact>)
    ensures
        result == match (tpu, tpu_forwards) {
            (Some(tpu), Some(tpu_forwards)) => Some(Contact { tpu, tpu_forwards }),
            _ => None,
        },
{
    match (tpu, tpu_forwards) {
        (Some(tpu), Some(tpu_forwards)) => Some(Contact { tpu, tpu_forwards }),
        _ => None,
    }
}

impl TpuOverride {
    /// No override.
    pub fn new() -> (result: Self)
        ensures
            result.original is None,
    {
        TpuOverride { original: None }
    }

    /// Applies an override while `contact` is advertised, and remembers that on the first one.
    /// Returns what is to be advertised: both addresses are the override.
    pub fn apply(&mut self, contact: Contact, tpu_override: SocketAddress) -> (result: Contact)
        ensures
            final(self).original == remembered(old(self).original, contact),
            result == (Contact { tpu: tpu_override, tpu_forwards: tpu_override }),
    {
        if self.original.is_none() {
            self.original = Some(contact);
        }
        Contact { tpu: tpu_override, tpu_forwards: tpu_override }
    }

    /// Reverts the override. Returns what is to be advertised again; nothing where there is none.
    pub fn restore(&mut self) -> (result: Option<Contact>)
        ensures
            result == old(self).original,
            final(self).original is None,
    {
        let original = self.original;
        self.original = None;
        original
    }
}

/// What is remembered after an override while `contact` is advertised.
pub open spec fn remembered(original: Option<Contact>, contact: Contact) -> Option<Contact> {
    match original {
        Some(original) => Some(original),
        None => Some(contact),
    }
}

/// What is remembered after one override for each of `contacts`, in turn.
pub open spec fn remembered_all(original: Option<Contact>, contacts: Seq<Contact>) -> Option<
    Contact,
>
    decreases contacts.len(),
{
    if contacts.len() == 0 {
        original
    } else {
        remembered(remembered_all(original, contacts.drop_last()), contacts.last())
    }
}

/// However many overrides are applied, restoring brings back what was advertised before the first.
pub proof fn law_restoring_undoes_all_overrides(contacts: Seq<Contact>)
    requires
        contacts.len() > 0,
    ensures
        remembered_all(None, contacts) == Some(contacts[0]),
    decreases contacts.len(),
{
    if contacts.len() > 1 {
        law_restoring_undoes_all_overrides(contacts.drop_last());
    } else {
        assert(contacts.drop_last().len() == 0);
        assert(remembered_all(None, contacts.drop_last()) is None);
    }
}

} // verus!
