//! A multi-threaded, range-based HTTP download engine: sessions of download
//! tasks are split into byte-range chunks fetched concurrently, with progress
//! events delivered through pluggable sinks.
//!
//! This crate holds the verified core: chunk partitioning, content-length
//! probing, event sequencing, the session state machine, the handle registry,
//! the JSON wire encoding, and progress accounting. The asynchronous I/O that
//! drives it lives outside the library.

pub mod chunks;
pub mod config;
pub mod engine;
pub mod errors;
pub mod session;
pub mod status;
pub mod event;
pub mod framing;
pub mod json;
pub mod manager;
pub mod monitor;
