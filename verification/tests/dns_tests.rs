//! Tests for server descriptors, address parsing and the server lists.

use dns_benchmark::dns::{
    collect_servers, get_builtin_servers, ipv4, parse_custom_servers, parse_ip, parse_sockaddr,
    DnsServer, IpAddress, IpVersion, Protocol, ServerSource, SockAddr,
};
use dns_benchmark::dns::{builtin_servers_v4, builtin_servers_v6};
use dns_benchmark::error::{DnsError, Error};

fn chars(s: &str) -> Vec<char> {
    s.chars().collect()
}

#[test]
fn test_dns_server_creation() {
    let server = DnsServer::from_ip(
        String::from("Test"),
        ipv4(8, 8, 8, 8),
        ServerSource::Builtin,
    );
    assert_eq!(server.name, "Test");
    assert!(server.is_ipv4());
    assert!(!server.is_ipv6());
    assert!(server.matches_ip_version(IpVersion::V4));
    assert!(!server.matches_ip_version(IpVersion::V6));
}

#[test]
fn test_protocol_parsing() {
    assert_eq!(Protocol::from_str("udp").unwrap(), Protocol::Udp);
    assert_eq!(Protocol::from_str("TCP").unwrap(), Protocol::Tcp);
    assert!(Protocol::from_str("invalid").is_err());
}

#[test]
fn test_ip_version_parsing() {
    assert_eq!(IpVersion::from_str("v4").unwrap(), IpVersion::V4);
    assert_eq!(IpVersion::from_str("ipv6").unwrap(), IpVersion::V6);
    assert_eq!(IpVersion::from_str("4").unwrap(), IpVersion::V4);
    assert!(IpVersion::from_str("invalid").is_err());
}

#[test]
fn test_parse_ipv4_addresses() {
    assert_eq!(parse_ip(&chars("8.8.8.8")), Some(IpAddress::V4(0x08080808)));
    assert_eq!(
        parse_ip(&chars("192.168.0.1")),
        Some(IpAddress::V4(0xC0A80001))
    );
    assert_eq!(parse_ip(&chars("255.255.255.255")), Some(IpAddress::V4(u32::MAX)));
    assert_eq!(parse_ip(&chars("0.0.0.0")), Some(IpAddress::V4(0)));
    // out-of-range octet, leading zero, wrong shape
    assert_eq!(parse_ip(&chars("256.1.1.1")), None);
    assert_eq!(parse_ip(&chars("01.2.3.4")), None);
    assert_eq!(parse_ip(&chars("1.2.3")), None);
    assert_eq!(parse_ip(&chars("1.2.3.4.5")), None);
    assert_eq!(parse_ip(&chars("")), None);
}

#[test]
fn test_parse_ipv6_addresses() {
    assert_eq!(
        parse_ip(&chars("2001:4860:4860::8888")),
        Some(IpAddress::V6(0x20014860486000000000000000008888))
    );
    assert_eq!(parse_ip(&chars("::1")), Some(IpAddress::V6(1)));
    assert_eq!(parse_ip(&chars("::")), Some(IpAddress::V6(0)));
    assert_eq!(parse_ip(&chars("1::")), Some(IpAddress::V6(0x1u128 << 112)));
    assert_eq!(
        parse_ip(&chars("1:2:3:4:5:6:7:8")),
        Some(IpAddress::V6(0x00010002000300040005000600070008))
    );
    // two "::", too many groups, bad digits
    assert_eq!(parse_ip(&chars("1::2::3")), None);
    assert_eq!(parse_ip(&chars("1:2:3:4:5:6:7:8:9")), None);
    assert_eq!(parse_ip(&chars("1:2:3:4:5:6:7:8::")), None);
    assert_eq!(parse_ip(&chars("g::1")), None);
}

#[test]
fn test_parse_sockaddr() {
    assert_eq!(
        parse_sockaddr(&chars("8.8.8.8:53")),
        Some(SockAddr {
            ip: IpAddress::V4(0x08080808),
            port: 53
        })
    );
    assert_eq!(
        parse_sockaddr(&chars("[2001:4860:4860::8888]:53")),
        Some(SockAddr {
            ip: IpAddress::V6(0x20014860486000000000000000008888),
            port: 53
        })
    );
    assert_eq!(parse_sockaddr(&chars("8.8.8.8")), None);
    assert_eq!(parse_sockaddr(&chars("8.8.8.8:99999")), None);
    assert_eq!(parse_sockaddr(&chars("[::1]")), None);
}

#[test]
fn test_parse_custom_servers() {
    let content = "\n# Comment line\nGoogle;8.8.8.8:53\nCloudflare;1.1.1.1:53\n";
    let servers = parse_custom_servers(content, IpVersion::V4, "test.txt").unwrap();
    assert_eq!(servers.len(), 2);
    assert_eq!(servers[0].name, "Google");
    assert_eq!(servers[1].name, "Cloudflare");
}

#[test]
fn test_parse_custom_servers_filters_version() {
    let content = "Google;8.8.8.8:53\nGoogle6;[2001:4860:4860::8888]:53\n";
    let v4 = parse_custom_servers(content, IpVersion::V4, "f").unwrap();
    assert_eq!(v4.len(), 1);
    assert_eq!(v4[0].name, "Google");
    let v6 = parse_custom_servers(content, IpVersion::V6, "f").unwrap();
    assert_eq!(v6.len(), 1);
    assert_eq!(v6[0].name, "Google6");
}

#[test]
fn test_parse_custom_servers_bad_format() {
    let content = "Google;8.8.8.8:53\njust-a-name\n";
    let err = parse_custom_servers(content, IpVersion::V4, "f").unwrap_err();
    match err {
        Error::Dns(DnsError::InvalidLineFormat { line }) => assert_eq!(line, 2),
        other => panic!("unexpected error: {:?}", other),
    }
}

#[test]
fn test_parse_custom_servers_bad_address() {
    let content = "Google;8.8.8.8:53\nBad;not-an-address\n";
    let err = parse_custom_servers(content, IpVersion::V4, "servers.txt").unwrap_err();
    match err {
        Error::Dns(DnsError::CustomFileError { path, message }) => {
            assert_eq!(path, "servers.txt");
            assert_eq!(message, "Invalid address at line 2");
        }
        other => panic!("unexpected error: {:?}", other),
    }
}

#[test]
fn test_v4_servers_not_empty() {
    let servers = builtin_servers_v4();
    assert!(!servers.is_empty());
    assert_eq!(servers.len(), 10);
}

#[test]
fn test_v6_servers_not_empty() {
    let servers = builtin_servers_v6();
    assert!(!servers.is_empty());
    assert_eq!(servers.len(), 10);
}

#[test]
fn test_v4_servers_valid() {
    for (name, ip) in builtin_servers_v4() {
        assert!(!name.is_empty());
        assert!(!ip.is_unspecified());
    }
}

#[test]
fn test_v6_servers_valid() {
    for (name, ip) in builtin_servers_v6() {
        assert!(!name.is_empty());
        assert!(!ip.is_unspecified());
    }
}

#[test]
fn test_builtin_servers() {
    let v4_servers = get_builtin_servers(IpVersion::V4);
    let v6_servers = get_builtin_servers(IpVersion::V6);

    assert!(!v4_servers.is_empty());
    assert!(!v6_servers.is_empty());

    for server in &v4_servers {
        assert!(server.is_ipv4());
    }
    for server in &v6_servers {
        assert!(server.is_ipv6());
    }
}

fn named(name: &str, ip: IpAddress, source: ServerSource) -> DnsServer {
    DnsServer::from_ip(String::from(name), ip, source)
}

#[test]
fn test_collect_servers_dedup() {
    let base = vec![
        named("A", IpAddress::V4(1), ServerSource::Builtin),
        named("B", IpAddress::V4(2), ServerSource::Builtin),
    ];
    let system = vec![
        named("Sys", IpAddress::V4(1), ServerSource::System),
        named("Sys2", IpAddress::V4(3), ServerSource::System),
    ];
    let gateway = Some(named("Gw", IpAddress::V4(2), ServerSource::Gateway));

    let servers = collect_servers(base, system, gateway);

    // duplicates by IP keep only the first occurrence
    let names: Vec<&str> = servers.iter().map(|s| s.name.as_str()).collect();
    assert_eq!(names, vec!["A", "B", "Sys2"]);
}

#[test]
fn test_collect_servers_keeps_gateway() {
    let base = vec![named("A", IpAddress::V4(1), ServerSource::Builtin)];
    let servers = collect_servers(
        base,
        vec![],
        Some(named("Gw", IpAddress::V4(9), ServerSource::Gateway)),
    );
    assert_eq!(servers.len(), 2);
    assert_eq!(servers[1].name, "Gw");
    assert_eq!(servers[1].source, ServerSource::Gateway);
}
