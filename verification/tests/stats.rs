//! Tests for measurements, aggregation and ranking.

use dns_benchmark::dns::{DnsServer, IpAddress, ServerSource};
use dns_benchmark::result::{BenchmarkResult, ServerResult, TimingResult};

const MS: u64 = 1_000_000;

fn make_server() -> DnsServer {
    DnsServer::from_ip(
        String::from("Test"),
        IpAddress::V4(0x08080808),
        ServerSource::Builtin,
    )
}

fn success(ms: u64) -> TimingResult {
    TimingResult::Success {
        duration: ms * MS,
        ip: IpAddress::V4(0x01020304),
    }
}

fn failure(text: &str) -> TimingResult {
    TimingResult::Failure {
        error: String::from(text),
    }
}

#[test]
fn test_server_result_all_success() {
    let server = make_server();
    let measurements = vec![success(10), success(20)];

    let result = ServerResult::from_measurements(&server, measurements);

    assert_eq!(result.total_requests, 2);
    assert_eq!(result.successful_requests, 2);
    assert_eq!(result.success_rate_ratio(), (200, 2));
    assert_eq!(result.min_time, Some(10 * MS));
    assert_eq!(result.max_time, Some(20 * MS));
    assert_eq!(result.avg_time, Some(15 * MS));
    assert!(result.resolved_ip.is_some());
    assert!(!result.all_failed());
}

#[test]
fn test_server_result_all_failed() {
    let server = make_server();
    let measurements = vec![failure("timeout"), failure("timeout")];

    let result = ServerResult::from_measurements(&server, measurements);

    assert_eq!(result.total_requests, 2);
    assert_eq!(result.successful_requests, 0);
    assert_eq!(result.success_rate_ratio(), (0, 2));
    assert!(result.min_time.is_none());
    assert!(result.avg_time.is_none());
    assert!(result.all_failed());
}

#[test]
fn test_timing_result_is_timeout() {
    let timeout = failure("request timed out");
    let other = failure("network error");
    let ok = success(10);

    assert!(timeout.is_timeout());
    assert!(!other.is_timeout());
    assert!(!ok.is_timeout());
}

#[test]
fn test_timeout_classification_cases() {
    assert!(failure("Connection timed out").is_timeout());
    assert!(!failure("server refused").is_timeout());
    assert!(failure("TIMEOUT while waiting").is_timeout());
    assert!(failure("request Timed Out").is_timeout());
    assert!(!failure("no route to host").is_timeout());
}

#[test]
fn test_mixed_measurements() {
    let server = make_server();
    let measurements = vec![
        success(30),
        failure("timeout"),
        success(10),
        failure("refused"),
    ];

    let result = ServerResult::from_measurements(&server, measurements);

    assert_eq!(result.total_requests, 4);
    assert_eq!(result.successful_requests, 2);
    assert_eq!(result.success_rate_ratio(), (200, 4));
    assert_eq!(result.min_time, Some(10 * MS));
    assert_eq!(result.max_time, Some(30 * MS));
    assert_eq!(result.avg_time, Some(20 * MS));
    // the most recent failure text wins
    assert_eq!(result.last_error.as_deref(), Some("refused"));
    assert!(!result.all_failed());
}

#[test]
fn test_empty_measurements() {
    let server = make_server();
    let result = ServerResult::from_measurements(&server, vec![]);

    assert_eq!(result.total_requests, 0);
    assert_eq!(result.successful_requests, 0);
    assert_eq!(result.success_rate_ratio(), (0, 1));
    assert!(result.min_time.is_none());
    assert!(result.max_time.is_none());
    assert!(result.avg_time.is_none());
    assert!(result.last_error.is_none());
    assert!(result.all_failed());
}

#[test]
fn test_sort_key() {
    let server = make_server();
    let ok = ServerResult::from_measurements(&server, vec![success(15)]);
    let bad = ServerResult::from_measurements(&server, vec![failure("timeout")]);

    assert_eq!(ok.sort_key(), 15 * MS);
    assert_eq!(bad.sort_key(), u64::MAX);
}

fn named_result(name: &str, measurements: Vec<TimingResult>) -> ServerResult {
    let server = DnsServer::from_ip(
        String::from(name),
        IpAddress::V4(0x08080808),
        ServerSource::Builtin,
    );
    ServerResult::from_measurements(&server, measurements)
}

#[test]
fn test_ranking_failed_servers_last() {
    // Scenario: an all-failed server and a 15 ms server; the 15 ms server
    // ranks first.
    let failed = named_result("Dead", vec![failure("timeout")]);
    let fast = named_result("Fast", vec![success(15)]);

    let ranked = dns_benchmark::result::rank_results(vec![failed, fast]);

    assert_eq!(ranked.len(), 2);
    assert_eq!(ranked[0].name, "Fast");
    assert_eq!(ranked[1].name, "Dead");
}

#[test]
fn test_ranking_ascending_and_stable() {
    let a = named_result("A", vec![success(30)]);
    let b = named_result("B", vec![success(10)]);
    let dead1 = named_result("Dead1", vec![failure("timeout")]);
    let dead2 = named_result("Dead2", vec![failure("timeout")]);
    let c = named_result("C", vec![success(20)]);

    let ranked = dns_benchmark::result::rank_results(vec![a, b, dead1, dead2, c]);

    let names: Vec<&str> = ranked.iter().map(|r| r.name.as_str()).collect();
    // ascending by average, ties (the two dead servers) keep their order
    assert_eq!(names, vec!["B", "C", "A", "Dead1", "Dead2"]);
}

#[test]
fn test_benchmark_result_queries() {
    let good = named_result("Good", vec![success(10), success(20)]);
    let part = named_result("Part", vec![success(10), failure("timeout")]);
    let dead = named_result("Dead", vec![failure("timeout")]);

    let result = BenchmarkResult {
        servers: dns_benchmark::result::rank_results(vec![good, part, dead]),
        duration: 1_000 * MS,
        domain: String::from("google.com"),
        requests_per_server: 2,
    };

    // "Part" averages 10 ms over its one success, ahead of "Good" at 15 ms
    let fastest = result.fastest().expect("nonempty");
    assert_eq!(fastest.name, "Part");

    let fully = result.fully_successful();
    assert_eq!(fully.len(), 1);
    assert_eq!(fully[0].name, "Good");

    let failed = result.completely_failed();
    assert_eq!(failed.len(), 1);
    assert_eq!(failed[0].name, "Dead");
}

#[test]
fn test_fastest_empty() {
    let result = BenchmarkResult {
        servers: vec![],
        duration: 0,
        domain: String::from("google.com"),
        requests_per_server: 0,
    };
    assert!(result.fastest().is_none());
}
