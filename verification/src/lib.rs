//! A mirroring pipeline core: a commit-ordering coordinator that hands out
//! strictly increasing work indices to concurrent workers, tracks which
//! indices are still in flight, and decides when a completion may advance
//! the durable resume point (the watermark); plus the bounded retry policy,
//! checkpoint encoding, and the pure decision logic around the downloads.

pub mod checkpoint;
pub mod config;
pub mod coordinator;
pub mod mirror;
pub mod model;
pub mod naming;
pub mod rest;
pub mod retry;
