//! Low-overhead timestamps.
//!
//! [`tsc`] counts processor cycles; [`instant`] is for machines without such a counter.

pub mod instant;
pub mod tsc;
