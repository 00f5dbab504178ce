//! The validator's side: storage, schedule and stages of a leader slot.

pub mod fallback_laws;
pub mod fallback_stage;
pub mod production;
pub mod schedule;
pub mod scheduler;
pub mod scheduler_laws;
pub mod session;
pub mod storage;
pub mod storage_laws;
pub mod tips;
pub mod tpu;
