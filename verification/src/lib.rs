//! Verified core of a DNS-server benchmark: per-request measurements, an
//! adaptive-timeout probe state machine, a bounded-concurrency admission gate,
//! per-server statistics, and the final ranking of results.

pub mod cli;
pub mod config;
pub mod dns;
pub mod engine;
pub mod error;
pub mod gate;
pub mod output;
pub mod platform;
pub mod probe;
pub mod result;
pub mod text;

use vstd::prelude::*;

verus! {

/// Default domain queried when none is configured.
pub const DEFAULT_DOMAIN: &'static str = "google.com";

/// Default number of concurrently probing workers.
pub const DEFAULT_WORKERS: u16 = 16;

/// Default number of requests issued per server.
pub const DEFAULT_REQUESTS: u16 = 50;

/// Default per-request timeout in seconds.
pub const DEFAULT_TIMEOUT_SECS: u64 = 2;

} // verus!
