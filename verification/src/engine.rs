//! The benchmark engine's decision core.
//!
//! The engine owns the run's configuration and server list. Spawning probe
//! tasks, awaiting lookups and measuring wall-clock time are the driver's
//! business; the engine decides what a run means: one probe per server,
//! results collected as probes complete, and the final ranking.

use vstd::prelude::*;

use crate::config::Config;
use crate::dns::DnsServer;
use crate::result::{rank_results, rank_spec, BenchmarkResult, ServerResult};

verus! {

/// A benchmark run: its configuration and the servers to probe.
#[derive(Debug)]
pub struct BenchmarkEngine {
    pub config: Config,
    pub servers: Vec<DnsServer>,
}

impl BenchmarkEngine {
    /// Create a new benchmark engine.
    pub fn new(config: Config, servers: Vec<DnsServer>) -> (r: Self)
        ensures
            r.config == config,
            r.servers@ == servers@,
    {
        BenchmarkEngine { config, servers }
    }

    /// Assemble the final result from the collected per-server results, in
    /// their completion order, and the run's total duration in nanoseconds:
    /// the results are ranked and paired with the run's parameters.
    pub fn assemble(&self, results: Vec<ServerResult>, duration: u64) -> (r: BenchmarkResult)
        ensures
            r.servers@ == rank_spec(results@),
            r.duration == duration,
            r.domain == self.config.domain,
            r.requests_per_server == self.config.requests as u32,
    {
        BenchmarkResult {
            servers: rank_results(results),
            duration,
            domain: self.config.domain.clone(),
            requests_per_server: self.config.requests as u32,
        }
    }
}

} // verus!
