//! Library for driving a continuous-integration server's build queue:
//! enqueue a named job, resolve the queue entry into a concrete build,
//! and follow the build's console log as it grows.
//!
//! Everything here is pure protocol logic over plain values; the
//! surrounding binary performs the HTTP requests, file reads and
//! process spawns and hands their results to these functions.

pub mod cli;
pub mod config;
pub mod error;
pub mod jenkins;
pub mod strutil;
