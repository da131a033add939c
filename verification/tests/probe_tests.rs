//! Tests for the adaptive-timeout probe, the admission gate and the engine.

use dns_benchmark::config::Config;
use dns_benchmark::dns::{DnsServer, IpAddress, ServerSource};
use dns_benchmark::engine::BenchmarkEngine;
use dns_benchmark::gate::AdmissionGate;
use dns_benchmark::probe::Probe;
use dns_benchmark::result::{ServerResult, TimingResult};

fn timeout_failure() -> TimingResult {
    TimingResult::Failure {
        error: String::from("request timed out"),
    }
}

fn other_failure() -> TimingResult {
    TimingResult::Failure {
        error: String::from("connection refused"),
    }
}

fn success() -> TimingResult {
    TimingResult::Success {
        duration: 5_000_000,
        ip: IpAddress::V4(0x01020304),
    }
}

#[test]
fn test_adaptive_timeout_reduces_after_eight() {
    // eight consecutive timeout failures from a 2000 ms base bring the
    // next timeout to at most 500 ms
    let mut probe = Probe::new(2000, true);
    for _ in 0..8 {
        probe.record(timeout_failure());
    }
    assert!(probe.current_timeout() <= 500);
    assert_eq!(probe.current_timeout(), 500);
}

#[test]
fn test_adaptive_timeout_minimizes_after_sixteen() {
    let mut probe = Probe::new(2000, true);
    for _ in 0..16 {
        probe.record(timeout_failure());
    }
    assert_eq!(probe.current_timeout(), 100);
}

#[test]
fn test_adaptive_timeout_resets_on_success() {
    let mut probe = Probe::new(2000, true);
    for _ in 0..12 {
        probe.record(timeout_failure());
    }
    assert!(probe.current_timeout() <= 500);
    probe.record(success());
    assert_eq!(probe.current_timeout(), 2000);
    assert_eq!(probe.consecutive_timeout_failures, 0);
}

#[test]
fn test_non_timeout_failures_leave_timeout_alone() {
    let mut probe = Probe::new(2000, true);
    for _ in 0..20 {
        probe.record(other_failure());
    }
    assert_eq!(probe.current_timeout(), 2000);
    assert_eq!(probe.consecutive_timeout_failures, 0);
}

#[test]
fn test_adaptive_disabled_keeps_timeout() {
    let mut probe = Probe::new(2000, false);
    for _ in 0..20 {
        probe.record(timeout_failure());
    }
    assert_eq!(probe.current_timeout(), 2000);
}

#[test]
fn test_probe_collects_measurements() {
    let mut probe = Probe::new(1000, true);
    probe.record(success());
    probe.record(timeout_failure());
    probe.record(success());
    let measurements = probe.into_measurements();
    assert_eq!(measurements.len(), 3);
}

#[test]
fn test_admission_gate_bound() {
    // at capacity 2 only two of the five acquisitions are granted
    let mut gate = AdmissionGate::new(2);
    let mut admitted = 0;
    for _ in 0..5 {
        if gate.try_acquire() {
            admitted += 1;
        }
    }
    assert_eq!(admitted, 2);
    assert_eq!(gate.active(), 2);

    // a release frees exactly one slot
    gate.release();
    assert!(gate.try_acquire());
    assert!(!gate.try_acquire());
    assert_eq!(gate.active(), 2);
}

fn make_test_config() -> Config {
    Config::builder().workers(2).requests(3).timeout(1).build()
}

fn make_test_server(ip: IpAddress) -> DnsServer {
    DnsServer::from_ip(String::from("Test"), ip, ServerSource::Builtin)
}

#[test]
fn test_benchmark_engine_creation() {
    let config = make_test_config();
    let servers = vec![make_test_server(IpAddress::V4(0x08080808))];
    let engine = BenchmarkEngine::new(config, servers);
    assert_eq!(engine.servers.len(), 1);
}

#[test]
fn test_engine_assemble_ranks_results() {
    let config = Config::builder()
        .domain(String::from("example.com"))
        .requests(1)
        .build();
    let engine = BenchmarkEngine::new(config, vec![]);

    let dead = ServerResult::from_measurements(
        &make_test_server(IpAddress::V4(1)),
        vec![TimingResult::Failure {
            error: String::from("timeout"),
        }],
    );
    let alive = ServerResult::from_measurements(
        &make_test_server(IpAddress::V4(2)),
        vec![TimingResult::Success {
            duration: 15_000_000,
            ip: IpAddress::V4(9),
        }],
    );

    let result = engine.assemble(vec![dead, alive], 42);

    assert_eq!(result.domain, "example.com");
    assert_eq!(result.requests_per_server, 1);
    assert_eq!(result.duration, 42);
    assert_eq!(result.servers.len(), 2);
    assert_eq!(result.servers[0].ip, IpAddress::V4(2));
    assert_eq!(result.servers[1].ip, IpAddress::V4(1));
}
