//! A session with the validator.

use vstd::prelude::*;

verus! {

/// How many items to take from a queue, `max` at most. `cached` of them are known to be there
/// without asking the other side, `slots` when it is asked.
pub fn drain_count(cached: usize, slots: usize, max: usize) -> (result: usize)
    ensures
        result == (if cached >= max || slots >= max {
            max
        } else {
            slots
        }),
{
    if cached >= max {
        max
    } else if slots >= max {
        max
    } else {
        slots
    }
}

} // verus!
