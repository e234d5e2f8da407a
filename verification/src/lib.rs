//! Core data types and decision logic of a Starcoin node: storage access paths,
//! block-chain bookkeeping, the chain watcher behind the RPC client and a
//! performance timer.

pub mod primitives;
pub mod text;
pub mod language_storage;
pub mod access_path;
pub mod u256;
pub mod chain;
pub mod chain_watcher;
pub mod perf_timer;
