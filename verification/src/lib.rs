//! A transaction scheduler for the Agave validator.

pub mod admin_rpc;
mod arrays;
pub mod auth;
pub mod backrun;
pub mod bindings;
pub mod block_engine;
pub mod config;
pub mod consts;
pub mod ipc;
pub mod keys;
pub mod multicast;
pub mod net;
pub mod rdtsc;
pub mod remote_tpu;
pub mod shred_receiver;
pub mod state;
pub mod task_list;
pub mod text;
pub mod tpu_override;
pub mod transaction;
pub mod tx_map;
pub mod validator;
