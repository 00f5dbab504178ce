//! Subsystem session-liveness flags.

use vstd::prelude::*;

verus! {

/// The admin RPC client is connected.
pub const ADMIN_RPC_ACTIVE: u64 = 1;

/// The remote TPU client is connected.
pub const REMOTE_TPU_ACTIVE: u64 = 2;

/// The block engine client is connected.
pub const BLOCK_ENGINE_ACTIVE: u64 = 4;

/// The TPU thread runs.
pub const TPU_ACTIVE: u64 = 8;

/// The scheduler thread runs.
pub const SCHEDULER_ACTIVE: u64 = 16;

/// What a validator session needs.
pub const VALIDATOR_DEPS: u64 = 7;

/// What the TPU thread needs.
pub const TPU_DEPS: u64 = 16;

/// What the scheduler thread needs.
pub const SCHEDULER_DEPS: u64 = 15;

/// What the override of the TPU address needs.
pub const TPU_OVERRIDE_DEPS: u64 = 30;

/// An active bit, to be cleared when its holder ends.
#[derive(Debug, PartialEq, Eq, Structural)]
pub struct ActiveGuard(pub u64);

impl ActiveGuard {
    /// The flags without the active bit.
    pub fn cleared(&self, flags: u64) -> (result: u64)
        ensures
            result == flags & !self.0,
    {
        flags & !self.0
    }
}

/// Sets an active bit.
pub fn activate(flags: u64, bit: u64) -> (result: (u64, ActiveGuard))
    ensures
        result.0 == flags | bit,
        result.1 == ActiveGuard(bit),
{
    (flags | bit, ActiveGuard(bit))
}

/// Whether any of `required` is not active.
pub fn missing(flags: u64, required: u64) -> (result: bool)
    ensures
        result == (flags & required != required),
{
    flags & required != required
}

/// Whether the validator session must end.
pub fn validator_exit(flags: u64) -> (result: bool)
    ensures
        result == (flags & ADMIN_RPC_ACTIVE == 0 || flags & REMOTE_TPU_ACTIVE == 0 || flags
            & BLOCK_ENGINE_ACTIVE == 0),
{
    assert((flags & 7u64 != 7u64) == (flags & 1u64 == 0 || flags & 2u64 == 0 || flags & 4u64 == 0))
        by (bit_vector);
    missing(flags, VALIDATOR_DEPS)
}

/// Whether the TPU thread must end.
pub fn tpu_exit(flags: u64) -> (result: bool)
    ensures
        result == (flags & SCHEDULER_ACTIVE == 0),
{
    assert((flags & 16u64 != 16u64) == (flags & 16u64 == 0)) by (bit_vector);
    missing(flags, TPU_DEPS)
}

/// Whether the scheduler thread must end.
pub fn scheduler_exit(flags: u64) -> (result: bool)
    ensures
        result == (flags & ADMIN_RPC_ACTIVE == 0 || flags & REMOTE_TPU_ACTIVE == 0 || flags
            & BLOCK_ENGINE_ACTIVE == 0 || flags & TPU_ACTIVE == 0),
{
    assert((flags & 15u64 != 15u64) == (flags & 1u64 == 0 || flags & 2u64 == 0 || flags & 4u64 == 0
        || flags & 8u64 == 0)) by (bit_vector);
    missing(flags, SCHEDULER_DEPS)
}

/// Whether the override of the TPU address must end.
pub fn tpu_override_exit(flags: u64) -> (result: bool)
    ensures
        result == (flags & REMOTE_TPU_ACTIVE == 0 || flags & BLOCK_ENGINE_ACTIVE == 0 || flags
            & TPU_ACTIVE == 0 || flags & SCHEDULER_ACTIVE == 0),
{
    assert((flags & 30u64 != 30u64) == (flags & 2u64 == 0 || flags & 4u64 == 0 || flags & 8u64 == 0
        || flags & 16u64 == 0)) by (bit_vector);
    missing(flags, TPU_OVERRIDE_DEPS)
}

/// Setting bits and clearing them again touches no other bit.
pub proof fn law_guard_clears_its_bits(flags: u64, bits: u64)
    ensures
        (flags | bits) & bits == bits,
        (flags | bits) & !bits == flags & !bits,
        ((flags | bits) & !bits) & bits == 0,
        flags & bits == 0 ==> (flags | bits) & !bits == flags,
{
    assert((flags | bits) & bits == bits) by (bit_vector);
    assert((flags | bits) & !bits == flags & !bits) by (bit_vector);
    assert(((flags | bits) & !bits) & bits == 0) by (bit_vector);
    assert(flags & bits == 0 ==> (flags | bits) & !bits == flags) by (bit_vector);
}

/// A thread that ends takes the other one with it: the scheduler needs the TPU thread, and the TPU
/// thread needs the scheduler.
pub proof fn law_threads_end_together(flags: u64)
    ensures
        flags & TPU_ACTIVE == 0 ==> flags & SCHEDULER_DEPS != SCHEDULER_DEPS,
        flags & SCHEDULER_ACTIVE == 0 ==> flags & TPU_DEPS != TPU_DEPS,
        flags & VALIDATOR_DEPS != VALIDATOR_DEPS ==> flags & SCHEDULER_DEPS != SCHEDULER_DEPS,
{
    assert(flags & 8u64 == 0 ==> flags & 15u64 != 15u64) by (bit_vector);
    assert(flags & 16u64 == 0 ==> flags & 16u64 != 16u64) by (bit_vector);
    assert(flags & 7u64 != 7u64 ==> flags & 15u64 != 15u64) by (bit_vector);
}

} // verus!
