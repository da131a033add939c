//! Tests for configuration values, the builder, merging and parsing.

use dns_benchmark::cli::{BenchOptions, CliProtocol};
use dns_benchmark::config::{Config, ConfigOverrides, TableStyle};
use dns_benchmark::dns::{IpVersion, Protocol};
use dns_benchmark::output::OutputFormat;
use dns_benchmark::{DEFAULT_DOMAIN, DEFAULT_REQUESTS, DEFAULT_TIMEOUT_SECS, DEFAULT_WORKERS};

#[test]
fn test_default_config() {
    let config = Config::default();
    assert_eq!(config.domain, DEFAULT_DOMAIN);
    assert_eq!(config.workers, DEFAULT_WORKERS);
    assert_eq!(config.requests, DEFAULT_REQUESTS);
    assert_eq!(config.timeout, DEFAULT_TIMEOUT_SECS);
}

#[test]
fn test_config_builder() {
    let config = Config::builder()
        .domain(String::from("example.com"))
        .workers(8)
        .requests(100)
        .timeout(5)
        .protocol(Protocol::Tcp)
        .build();

    assert_eq!(config.domain, "example.com");
    assert_eq!(config.workers, 8);
    assert_eq!(config.requests, 100);
    assert_eq!(config.timeout, 5);
    assert_eq!(config.protocol, Protocol::Tcp);
}

#[test]
fn test_config_merge() {
    let mut config = Config::default();
    let overrides = ConfigOverrides {
        domain: Some(String::from("test.com")),
        workers: Some(4),
        ..Default::default()
    };

    config.merge(&overrides);

    assert_eq!(config.domain, "test.com");
    assert_eq!(config.workers, 4);
    assert_eq!(config.requests, DEFAULT_REQUESTS); // Unchanged
}

#[test]
fn test_config_merge_switches_only_turn_on() {
    let mut config = Config::default();
    config.skip_system = true;
    let overrides = ConfigOverrides::default();
    config.merge(&overrides);
    assert!(config.skip_system);
    assert!(!config.skip_gateway);
}

#[test]
fn test_table_style_parsing() {
    assert_eq!(TableStyle::from_str("rounded").unwrap(), TableStyle::Rounded);
    assert_eq!(TableStyle::from_str("MARKDOWN").unwrap(), TableStyle::Markdown);
    assert!(TableStyle::from_str("invalid").is_err());
}

#[test]
fn test_table_style_aliases() {
    assert_eq!(TableStyle::from_str("md").unwrap(), TableStyle::Markdown);
    assert_eq!(
        TableStyle::from_str("restructuredtext").unwrap(),
        TableStyle::ReStructuredText
    );
    assert_eq!(
        TableStyle::from_str("ascii-rounded").unwrap(),
        TableStyle::AsciiRounded
    );
}

#[test]
fn test_output_format_parsing() {
    assert_eq!(OutputFormat::from_str("table").unwrap(), OutputFormat::Table);
    assert_eq!(OutputFormat::from_str("human").unwrap(), OutputFormat::Table);
    assert_eq!(OutputFormat::from_str("JSON").unwrap(), OutputFormat::Json);
    assert_eq!(OutputFormat::from_str("xml").unwrap(), OutputFormat::Xml);
    assert_eq!(OutputFormat::from_str("csv").unwrap(), OutputFormat::Csv);
    assert!(OutputFormat::from_str("yaml").is_err());
}

#[test]
fn test_timeout_ms() {
    let config = Config::builder().timeout(2).build();
    assert_eq!(config.timeout_ms(), 2000);
}

#[test]
fn test_to_overrides() {
    let options = BenchOptions {
        domain: Some(String::from("example.org")),
        workers: Some(3),
        requests: None,
        timeout: None,
        protocol: Some(CliProtocol::Tcp),
        name_server_ip: None,
        lookup_ip: None,
        format: None,
        style: None,
        custom_servers: None,
        skip_system: true,
        skip_gateway: false,
        no_adaptive_timeout: true,
        save_config: false,
    };

    let overrides = options.to_overrides();

    assert_eq!(overrides.domain.as_deref(), Some("example.org"));
    assert_eq!(overrides.workers, Some(3));
    assert_eq!(overrides.requests, None);
    assert_eq!(overrides.protocol, Some(Protocol::Tcp));
    assert!(overrides.skip_system);
    assert!(!overrides.skip_gateway);
    assert!(overrides.disable_adaptive_timeout);
    assert_eq!(overrides.name_server_ip, None::<IpVersion>);
}
