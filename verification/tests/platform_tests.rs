//! Tests for the platform detection parsers.

use dns_benchmark::dns::{IpAddress, IpVersion, ServerSource};
use dns_benchmark::platform::{
    get_gateway_dns_server, get_system_dns_servers, parse_ip_route, parse_ipconfig,
    parse_netstat_rn, parse_proc_net_route, parse_resolv_conf, parse_route_get_default,
    parse_route_print, parse_scutil_dns, select_servers,
};

const GW: IpAddress = IpAddress::V4(0xC0A80001); // 192.168.0.1
const GOOGLE: IpAddress = IpAddress::V4(0x08080808); // 8.8.8.8
const CLOUDFLARE: IpAddress = IpAddress::V4(0x01010101); // 1.1.1.1

#[test]
fn test_parse_resolv_conf() {
    let content = "# Generated by NetworkManager\nsearch localdomain\nnameserver 8.8.8.8\nnameserver 1.1.1.1\n";
    let servers = parse_resolv_conf(content);
    assert_eq!(servers.len(), 2);
    assert_eq!(servers[0], GOOGLE);
    assert_eq!(servers[1], CLOUDFLARE);
}

#[test]
fn test_parse_scutil_dns() {
    let content = "DNS configuration\n\nresolver #1\n  nameserver[0] : 8.8.8.8\n  nameserver[1] : 1.1.1.1\n  nameserver[2] : 192.168.1.1\n";
    let servers = parse_scutil_dns(content);
    assert_eq!(servers.len(), 3);
    assert_eq!(servers[0], GOOGLE);
    assert_eq!(servers[1], CLOUDFLARE);
    assert_eq!(servers[2], IpAddress::V4(0xC0A80101));
}

#[test]
fn test_parse_ipconfig() {
    let content = "Windows IP Configuration\n\n   DNS Servers . . . . . . . . . . . : 8.8.8.8\n                                       1.1.1.1\n\n   NetBIOS over Tcpip. . . . . . . . : Enabled\n";
    let servers = parse_ipconfig(content);
    assert_eq!(servers.len(), 2);
    assert_eq!(servers[0], GOOGLE);
    assert_eq!(servers[1], CLOUDFLARE);
}

#[test]
fn test_parse_proc_net_route() {
    let content = "Iface\tDestination\tGateway \tFlags\tRefCnt\tUse\tMetric\tMask\neth0\t00000000\t0100A8C0\t0003\t0\t0\t100\t00000000\neth0\t0000A8C0\t00000000\t0001\t0\t0\t100\t00FFFFFF\n";
    let ip = parse_proc_net_route(content).unwrap();
    assert_eq!(ip, GW);
}

#[test]
fn test_parse_proc_net_route_no_default() {
    let content = "Iface\tDestination\tGateway\neth0\t0000A8C0\t00000000\n";
    assert!(parse_proc_net_route(content).is_err());
}

#[test]
fn test_parse_ip_route() {
    let content = "default via 192.168.0.1 dev eth0 proto dhcp metric 100\n";
    let ip = parse_ip_route(content).unwrap();
    assert_eq!(ip, GW);
}

#[test]
fn test_parse_route_get_default() {
    let content = "   route to: default\ndestination: default\n       mask: default\n    gateway: 192.168.0.1\n  interface: en0\n";
    let ip = parse_route_get_default(content).unwrap();
    assert_eq!(ip, GW);
}

#[test]
fn test_parse_netstat_rn() {
    let content = "Routing tables\n\nInternet:\nDestination        Gateway            Flags\ndefault            192.168.0.1        UGS\n";
    let ip = parse_netstat_rn(content).unwrap();
    assert_eq!(ip, GW);
}

#[test]
fn test_parse_route_print() {
    let content = "===========================================================================\nIPv4 Route Table\n===========================================================================\nActive Routes:\nNetwork Destination        Netmask          Gateway       Interface  Metric\n          0.0.0.0          0.0.0.0      192.168.0.1      192.168.0.10     25\n";
    let ip = parse_route_print(content).unwrap();
    assert_eq!(ip, GW);
}

#[test]
fn test_select_servers() {
    let servers = vec![GOOGLE, CLOUDFLARE];
    let (primary, secondary) = select_servers(servers).unwrap();
    assert_eq!(primary, GOOGLE);
    assert_eq!(secondary.unwrap(), CLOUDFLARE);
}

#[test]
fn test_select_servers_single() {
    let servers = vec![GOOGLE];
    let (primary, secondary) = select_servers(servers).unwrap();
    assert_eq!(primary, GOOGLE);
    assert!(secondary.is_none());
}

#[test]
fn test_select_servers_empty() {
    let servers = vec![];
    assert!(select_servers(servers).is_err());
}

#[test]
fn test_get_system_dns_servers() {
    let servers = get_system_dns_servers(GOOGLE, Some(CLOUDFLARE), IpVersion::V4);
    assert_eq!(servers.len(), 2);
    assert_eq!(servers[0].name, "System DNS (Primary)");
    assert_eq!(servers[0].addr.ip, GOOGLE);
    assert_eq!(servers[0].source, ServerSource::System);
    assert_eq!(servers[1].name, "System DNS (Secondary)");

    // a duplicate secondary is dropped
    let dup = get_system_dns_servers(GOOGLE, Some(GOOGLE), IpVersion::V4);
    assert_eq!(dup.len(), 1);

    // version filtering
    let none = get_system_dns_servers(GOOGLE, Some(CLOUDFLARE), IpVersion::V6);
    assert!(none.is_empty());
}

#[test]
fn test_get_gateway_dns_server() {
    let server = get_gateway_dns_server(Some(GW), IpVersion::V4).unwrap();
    assert_eq!(server.name, "Gateway (Router)");
    assert_eq!(server.addr.ip, GW);
    assert_eq!(server.addr.port, 53);
    assert_eq!(server.source, ServerSource::Gateway);

    assert!(get_gateway_dns_server(Some(GW), IpVersion::V6).is_none());
    assert!(get_gateway_dns_server(None, IpVersion::V4).is_none());
}
