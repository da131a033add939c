//! Pure parsers for platform DNS and gateway detection.
//!
//! Reading `/etc/resolv.conf` or running `ip route`, `scutil`, `netstat`,
//! `route` or `ipconfig` is the surrounding application's business; the
//! library parses what those sources yield and selects the servers.

use vstd::prelude::*;

use crate::dns::{
    ip_of_text, matches_version, parse_ip, DnsServer, IpAddress, IpVersion, ServerSource,
    SockAddr,
};
use crate::error::PlatformError;
use crate::text::{
    all_hex, all_hex_digits, chars_eq, chars_has_prefix, contains_seq, contains_sub, has_prefix,
    hex_val, lower_seq, parse_hex, split_char, split_char_vec, split_ws,
    split_ws_vec, str_chars, subrange_to_vec, to_lower, trim_spec, trim_vec, views,
};

verus! {

broadcast use vstd::string::group_string_axioms;

/// The nameserver address on one resolv.conf line, if any: the trimmed line
/// is `nameserver <address>`.
pub open spec fn resolv_entry(l: Seq<char>) -> Option<IpAddress> {
    let t = trim_spec(l);
    if has_prefix(t, "nameserver "@) {
        ip_of_text(trim_spec(t.subrange("nameserver "@.len() as int, t.len() as int)))
    } else {
        None
    }
}

/// The nameserver addresses of the lines from index `i` on, appended to
/// `acc`.
pub open spec fn resolv_scan(ls: Seq<Seq<char>>, i: int, acc: Seq<IpAddress>) -> Seq<IpAddress>
    decreases ls.len() - i,
{
    if i < 0 || i >= ls.len() {
        acc
    } else {
        match resolv_entry(ls[i]) {
            Some(ip) => resolv_scan(ls, i + 1, acc.push(ip)),
            None => resolv_scan(ls, i + 1, acc),
        }
    }
}

/// Parse the nameserver addresses out of resolv.conf text.
pub fn parse_resolv_conf(content: &str) -> (r: Vec<IpAddress>)
    ensures
        r@ == resolv_scan(split_char(content@, '\n'), 0, Seq::empty()),
{
    let chars = str_chars(content);
    let lines = split_char_vec(&chars, '\n');
    let ghost ls = split_char(content@, '\n');
    let prefix = str_chars("nameserver ");
    let mut out: Vec<IpAddress> = Vec::new();
    let mut i: usize = 0;
    while i < lines.len()
        invariant
            i <= lines@.len(),
            views(lines@) == ls,
            ls == split_char(content@, '\n'),
            prefix@ == "nameserver "@,
            resolv_scan(ls, 0, Seq::empty()) == resolv_scan(ls, i as int, out@),
        decreases lines@.len() - i,
    {
        proof {
            assert(views(lines@)[i as int] == lines@[i as int]@);
        }
        let t = trim_vec(&lines[i]);
        if chars_has_prefix(&t, &prefix) {
            let sub = subrange_to_vec(&t, prefix.len(), t.len());
            let u = trim_vec(&sub);
            match parse_ip(&u) {
                Some(ip) => {
                    proof {
                        assert(resolv_entry(ls[i as int]) == Some(ip));
                    }
                    out.push(ip);
                },
                None => {
                    proof {
                        assert(resolv_entry(ls[i as int]) is None);
                    }
                },
            }
        } else {
            proof {
                assert(resolv_entry(ls[i as int]) is None);
            }
        }
        i += 1;
    }
    out
}

/// Select the primary and optional secondary server from a detected list.
pub fn select_servers(servers: Vec<IpAddress>) -> (r: Result<
    (IpAddress, Option<IpAddress>),
    PlatformError,
>)
    ensures
        servers@.len() == 0 ==> (r matches Err(PlatformError::SystemDnsDetection(m)) && m@
            == "No DNS servers found"@),
        servers@.len() == 1 ==> r == Ok::<(IpAddress, Option<IpAddress>), PlatformError>(
            (servers@[0], None),
        ),
        servers@.len() >= 2 ==> r == Ok::<(IpAddress, Option<IpAddress>), PlatformError>(
            (servers@[0], Some(servers@[1])),
        ),
{
    if servers.len() == 0 {
        Err(PlatformError::SystemDnsDetection(String::from_str("No DNS servers found")))
    } else if servers.len() == 1 {
        Ok((servers[0], None))
    } else {
        Ok((servers[0], Some(servers[1])))
    }
}

/// What one /proc/net/route line says: `None` when it is not a default
/// route, `Some(None)` when its gateway field is not eight hex digits'
/// worth of bytes, `Some(Some(ip))` for the little-endian gateway address.
pub open spec fn route_line(l: Seq<char>) -> Option<Option<IpAddress>> {
    let cols = split_ws(l);
    if cols.len() >= 3 && cols[1] == "00000000"@ && cols[2].len() == 8 {
        if all_hex_digits(cols[2]) {
            Some(
                Some(
                    IpAddress::V4(
                        (hex_val(cols[2].subrange(6, 8)) * 0x1000000 + hex_val(
                            cols[2].subrange(4, 6),
                        ) * 0x10000 + hex_val(cols[2].subrange(2, 4)) * 0x100 + hex_val(
                            cols[2].subrange(0, 2),
                        )) as u32,
                    ),
                ),
            )
        } else {
            Some(None)
        }
    } else {
        None
    }
}

/// The first decisive /proc/net/route line from index `i` on.
pub open spec fn route_scan(ls: Seq<Seq<char>>, i: int) -> Option<Option<IpAddress>>
    decreases ls.len() - i,
{
    if i < 0 || i >= ls.len() {
        None
    } else {
        match route_line(ls[i]) {
            Some(x) => Some(x),
            None => route_scan(ls, i + 1),
        }
    }
}

/// Parse the default gateway out of /proc/net/route text: the first
/// data line (the header is skipped) whose destination is 00000000.
pub fn parse_proc_net_route(content: &str) -> (r: Result<IpAddress, PlatformError>)
    ensures
        ({
            let ls = split_char(content@, '\n');
            match route_scan(ls, 1) {
                Some(Some(ip)) => r == Ok::<IpAddress, PlatformError>(ip),
                Some(None) => r matches Err(PlatformError::ParseError(m)) && m@
                    == "Invalid hex in route"@,
                None => r matches Err(PlatformError::GatewayDetection(m)) && m@
                    == "No default route in /proc/net/route"@,
            }
        }),
{
    let chars = str_chars(content);
    let lines = split_char_vec(&chars, '\n');
    let ghost ls = split_char(content@, '\n');
    let zeros = str_chars("00000000");
    let mut i: usize = 1;
    while i < lines.len()
        invariant
            1 <= i,
            i <= lines@.len() || i == 1,
            views(lines@) == ls,
            ls == split_char(content@, '\n'),
            zeros@ == "00000000"@,
            route_scan(ls, 1) == route_scan(ls, i as int),
        decreases lines@.len() - i,
    {
        proof {
            assert(views(lines@)[i as int] == lines@[i as int]@);
        }
        let cols = split_ws_vec(&lines[i]);
        proof {
            assert(forall|k: int| 0 <= k < cols@.len() ==> views(cols@)[k]
                == #[trigger] cols@[k]@);
        }
        if cols.len() >= 3 && chars_eq(&cols[1], &zeros) && cols[2].len() == 8 {
            if all_hex(&cols[2]) {
                let p0 = subrange_to_vec(&cols[2], 0, 2);
                let p1 = subrange_to_vec(&cols[2], 2, 4);
                let p2 = subrange_to_vec(&cols[2], 4, 6);
                let p3 = subrange_to_vec(&cols[2], 6, 8);
                proof {
                    assert(crate::text::all_hex_digits(p0@));
                    assert(crate::text::all_hex_digits(p1@));
                    assert(crate::text::all_hex_digits(p2@));
                    assert(crate::text::all_hex_digits(p3@));
                }
                let b0 = match parse_hex(&p0, 2) {
                    Some(x) => x,
                    None => {
                        return Err(PlatformError::ParseError(String::from_str("")));
                    },
                };
                let b1 = match parse_hex(&p1, 2) {
                    Some(x) => x,
                    None => {
                        return Err(PlatformError::ParseError(String::from_str("")));
                    },
                };
                let b2 = match parse_hex(&p2, 2) {
                    Some(x) => x,
                    None => {
                        return Err(PlatformError::ParseError(String::from_str("")));
                    },
                };
                let b3 = match parse_hex(&p3, 2) {
                    Some(x) => x,
                    None => {
                        return Err(PlatformError::ParseError(String::from_str("")));
                    },
                };
                proof {
                    crate::text::lemma_hex_val_tight(p0@);
                    crate::text::lemma_hex_val_tight(p1@);
                    crate::text::lemma_hex_val_tight(p2@);
                    crate::text::lemma_hex_val_tight(p3@);
                }
                let value: u32 = (b3 as u32) * 0x1000000 + (b2 as u32) * 0x10000 + (b1 as u32)
                    * 0x100 + (b0 as u32);
                return Ok(IpAddress::V4(value));
            } else {
                return Err(PlatformError::ParseError(String::from_str("Invalid hex in route")));
            }
        }
        proof {
            assert(route_line(ls[i as int]) is None);
        }
        i += 1;
    }
    proof {
        if 1 <= lines@.len() {
            assert(route_scan(ls, ls.len() as int) is None);
        } else {
            assert(route_scan(ls, 1) is None);
        }
    }
    Err(PlatformError::GatewayDetection(String::from_str("No default route in /proc/net/route")))
}

/// The first token index from `i` on that is "via" with a token after it.
pub open spec fn find_via(ps: Seq<Seq<char>>, i: int) -> int
    decreases ps.len() - i,
{
    if i < 0 || i >= ps.len() {
        -1
    } else if ps[i] == "via"@ && i + 1 < ps.len() {
        i
    } else {
        find_via(ps, i + 1)
    }
}

/// What one `ip route` line says: `None` when it is not a default route
/// with a via token, `Some(x)` with the parse of the token after "via".
pub open spec fn ip_route_line(l: Seq<char>) -> Option<Option<IpAddress>> {
    let ps = split_ws(l);
    if ps.len() >= 3 && ps[0] == "default"@ {
        let i = find_via(ps, 0);
        if i >= 0 {
            Some(ip_of_text(ps[i + 1]))
        } else {
            None
        }
    } else {
        None
    }
}

/// The first decisive `ip route` line from index `i` on.
pub open spec fn ip_route_scan(ls: Seq<Seq<char>>, i: int) -> Option<Option<IpAddress>>
    decreases ls.len() - i,
{
    if i < 0 || i >= ls.len() {
        None
    } else {
        match ip_route_line(ls[i]) {
            Some(x) => Some(x),
            None => ip_route_scan(ls, i + 1),
        }
    }
}

/// Parse the default gateway out of `ip route show default` output.
pub fn parse_ip_route(text: &str) -> (r: Result<IpAddress, PlatformError>)
    ensures
        ({
            let ls = split_char(text@, '\n');
            match ip_route_scan(ls, 0) {
                Some(Some(ip)) => r == Ok::<IpAddress, PlatformError>(ip),
                Some(None) => r matches Err(PlatformError::ParseError(m)) && m@
                    == "Invalid gateway IP"@,
                None => r matches Err(PlatformError::GatewayDetection(m)) && m@
                    == "No default gateway in ip route output"@,
            }
        }),
{
    let chars = str_chars(text);
    let lines = split_char_vec(&chars, '\n');
    let ghost ls = split_char(text@, '\n');
    let via_word = str_chars("via");
    let default_word = str_chars("default");
    let mut i: usize = 0;
    while i < lines.len()
        invariant
            i <= lines@.len(),
            views(lines@) == ls,
            ls == split_char(text@, '\n'),
            via_word@ == "via"@,
            default_word@ == "default"@,
            ip_route_scan(ls, 0) == ip_route_scan(ls, i as int),
        decreases lines@.len() - i,
    {
        proof {
            assert(views(lines@)[i as int] == lines@[i as int]@);
        }
        let cols = split_ws_vec(&lines[i]);
        proof {
            assert(forall|k: int| 0 <= k < cols@.len() ==> views(cols@)[k]
                == #[trigger] cols@[k]@);
        }
        if cols.len() >= 3 && chars_eq(&cols[0], &default_word) {
            let ghost ps = views(cols@);
            proof {
                assert(ps == split_ws(ls[i as int]));
                assert(ps[0] == cols@[0]@);
            }
            let mut j: usize = 0;
            while j < cols.len()
                invariant
                    j <= cols@.len(),
                    ps == views(cols@),
                    via_word@ == "via"@,
                    find_via(ps, 0) == find_via(ps, j as int),
                    forall|k: int| 0 <= k < cols@.len() ==> ps[k] == (#[trigger] cols@[k])@,
                    i < ls.len(),
                    ps == split_ws(ls[i as int]),
                    ps.len() >= 3,
                    ps[0] == "default"@,
                    ip_route_scan(ls, 0) == ip_route_scan(ls, i as int),
                    ls == split_char(text@, '\n'),
                decreases cols@.len() - j,
            {
                if chars_eq(&cols[j], &via_word) && j + 1 < cols.len() {
                    proof {
                        assert(find_via(ps, j as int) == j as int);
                        assert(cols@[j + 1 as int]@ == ps[j + 1 as int]);
                        assert(ip_route_line(ls[i as int]) == Some(ip_of_text(ps[j + 1])));
                        assert(ip_route_scan(ls, i as int) == Some(ip_of_text(ps[j + 1])));
                    }
                    match parse_ip(&cols[j + 1]) {
                        Some(ip) => {
                            return Ok(ip);
                        },
                        None => {
                            return Err(
                                PlatformError::ParseError(String::from_str("Invalid gateway IP")),
                            );
                        },
                    }
                }
                j += 1;
            }
            proof {
                assert(find_via(ps, cols@.len() as int) == -1);
                assert(ip_route_line(ls[i as int]) is None);
            }
        } else {
            proof {
                assert(ip_route_line(ls[i as int]) is None);
            }
        }
        i += 1;
    }
    proof {
        assert(ip_route_scan(ls, ls.len() as int) is None);
    }
    Err(PlatformError::GatewayDetection(String::from_str("No default gateway in ip route output")))
}

} // verus!

verus! {

/// What one `route -n get default` line says: the parse of the second
/// token of a trimmed line starting with "gateway:".
pub open spec fn route_get_line(l: Seq<char>) -> Option<Option<IpAddress>> {
    let t = trim_spec(l);
    if has_prefix(t, "gateway:"@) {
        let ws = split_ws(t);
        if ws.len() >= 2 {
            Some(ip_of_text(ws[1]))
        } else {
            None
        }
    } else {
        None
    }
}

/// The first decisive `route get` line from index `i` on.
pub open spec fn route_get_scan(ls: Seq<Seq<char>>, i: int) -> Option<Option<IpAddress>>
    decreases ls.len() - i,
{
    if i < 0 || i >= ls.len() {
        None
    } else {
        match route_get_line(ls[i]) {
            Some(x) => Some(x),
            None => route_get_scan(ls, i + 1),
        }
    }
}

/// Parse the gateway out of `route -n get default` output.
pub fn parse_route_get_default(text: &str) -> (r: Result<IpAddress, PlatformError>)
    ensures
        ({
            let ls = split_char(text@, '\n');
            match route_get_scan(ls, 0) {
                Some(Some(ip)) => r == Ok::<IpAddress, PlatformError>(ip),
                Some(None) => r matches Err(PlatformError::ParseError(m)) && m@
                    == "Invalid gateway IP"@,
                None => r matches Err(PlatformError::GatewayDetection(m)) && m@
                    == "No gateway in route output"@,
            }
        }),
{
    let chars = str_chars(text);
    let lines = split_char_vec(&chars, '\n');
    let ghost ls = split_char(text@, '\n');
    let prefix = str_chars("gateway:");
    let mut i: usize = 0;
    while i < lines.len()
        invariant
            i <= lines@.len(),
            views(lines@) == ls,
            ls == split_char(text@, '\n'),
            prefix@ == "gateway:"@,
            route_get_scan(ls, 0) == route_get_scan(ls, i as int),
        decreases lines@.len() - i,
    {
        proof {
            assert(views(lines@)[i as int] == lines@[i as int]@);
        }
        let t = trim_vec(&lines[i]);
        if chars_has_prefix(&t, &prefix) {
            let ws = split_ws_vec(&t);
            proof {
                assert(forall|k: int| 0 <= k < ws@.len() ==> views(ws@)[k]
                    == #[trigger] ws@[k]@);
            }
            if ws.len() >= 2 {
                proof {
                    assert(route_get_line(ls[i as int]) == Some(ip_of_text(ws@[1]@)));
                }
                match parse_ip(&ws[1]) {
                    Some(ip) => {
                        return Ok(ip);
                    },
                    None => {
                        return Err(
                            PlatformError::ParseError(String::from_str("Invalid gateway IP")),
                        );
                    },
                }
            }
            proof {
                assert(route_get_line(ls[i as int]) is None);
            }
        } else {
            proof {
                assert(route_get_line(ls[i as int]) is None);
            }
        }
        i += 1;
    }
    proof {
        assert(route_get_scan(ls, ls.len() as int) is None);
    }
    Err(PlatformError::GatewayDetection(String::from_str("No gateway in route output")))
}

/// What one `netstat -rn` line says: the parse of the second column of a
/// trimmed line starting with "default", kept only when it is an address.
pub open spec fn netstat_line(l: Seq<char>) -> Option<IpAddress> {
    let t = trim_spec(l);
    if has_prefix(t, "default"@) {
        let cols = split_ws(t);
        if cols.len() >= 2 {
            ip_of_text(cols[1])
        } else {
            None
        }
    } else {
        None
    }
}

/// The first netstat line with a parsable default gateway from index `i` on.
pub open spec fn netstat_scan(ls: Seq<Seq<char>>, i: int) -> Option<IpAddress>
    decreases ls.len() - i,
{
    if i < 0 || i >= ls.len() {
        None
    } else {
        match netstat_line(ls[i]) {
            Some(ip) => Some(ip),
            None => netstat_scan(ls, i + 1),
        }
    }
}

/// Parse the default gateway out of `netstat -rn` output.
pub fn parse_netstat_rn(text: &str) -> (r: Result<IpAddress, PlatformError>)
    ensures
        ({
            let ls = split_char(text@, '\n');
            match netstat_scan(ls, 0) {
                Some(ip) => r == Ok::<IpAddress, PlatformError>(ip),
                None => r matches Err(PlatformError::GatewayDetection(m)) && m@
                    == "No default route in netstat output"@,
            }
        }),
{
    let chars = str_chars(text);
    let lines = split_char_vec(&chars, '\n');
    let ghost ls = split_char(text@, '\n');
    let prefix = str_chars("default");
    let mut i: usize = 0;
    while i < lines.len()
        invariant
            i <= lines@.len(),
            views(lines@) == ls,
            ls == split_char(text@, '\n'),
            prefix@ == "default"@,
            netstat_scan(ls, 0) == netstat_scan(ls, i as int),
        decreases lines@.len() - i,
    {
        proof {
            assert(views(lines@)[i as int] == lines@[i as int]@);
        }
        let t = trim_vec(&lines[i]);
        if chars_has_prefix(&t, &prefix) {
            let cols = split_ws_vec(&t);
            proof {
                assert(forall|k: int| 0 <= k < cols@.len() ==> views(cols@)[k]
                    == #[trigger] cols@[k]@);
            }
            if cols.len() >= 2 {
                match parse_ip(&cols[1]) {
                    Some(ip) => {
                        proof {
                            assert(netstat_line(ls[i as int]) == Some(ip));
                        }
                        return Ok(ip);
                    },
                    None => {
                        proof {
                            assert(netstat_line(ls[i as int]) is None);
                        }
                    },
                }
            } else {
                proof {
                    assert(netstat_line(ls[i as int]) is None);
                }
            }
        } else {
            proof {
                assert(netstat_line(ls[i as int]) is None);
            }
        }
        i += 1;
    }
    proof {
        assert(netstat_scan(ls, ls.len() as int) is None);
    }
    Err(PlatformError::GatewayDetection(String::from_str("No default route in netstat output")))
}

/// Scan `route PRINT` output: a line naming "ipv4" (case-insensitively)
/// opens the IPv4 section; inside it, the first line whose first two
/// columns are 0.0.0.0 and whose third column parses is the gateway.
pub open spec fn route_print_scan(ls: Seq<Seq<char>>, i: int, in4: bool) -> Option<IpAddress>
    decreases ls.len() - i,
{
    if i < 0 || i >= ls.len() {
        None
    } else {
        let t = trim_spec(ls[i]);
        if t.len() == 0 {
            route_print_scan(ls, i + 1, in4)
        } else if contains_seq(lower_seq(t), "ipv4"@) {
            route_print_scan(ls, i + 1, true)
        } else if !in4 {
            route_print_scan(ls, i + 1, in4)
        } else {
            let cols = split_ws(t);
            if cols.len() >= 3 && cols[0] == "0.0.0.0"@ && cols[1] == "0.0.0.0"@ && ip_of_text(
                cols[2],
            ) is Some {
                ip_of_text(cols[2])
            } else {
                route_print_scan(ls, i + 1, in4)
            }
        }
    }
}

/// Parse the default gateway out of `route PRINT` output.
pub fn parse_route_print(text: &str) -> (r: Result<IpAddress, PlatformError>)
    ensures
        ({
            let ls = split_char(text@, '\n');
            match route_print_scan(ls, 0, false) {
                Some(ip) => r == Ok::<IpAddress, PlatformError>(ip),
                None => r matches Err(PlatformError::GatewayDetection(m)) && m@
                    == "No default gateway in route output"@,
            }
        }),
{
    let chars = str_chars(text);
    let lines = split_char_vec(&chars, '\n');
    let ghost ls = split_char(text@, '\n');
    let ipv4_word = str_chars("ipv4");
    let zeros = str_chars("0.0.0.0");
    let mut in4 = false;
    let mut i: usize = 0;
    while i < lines.len()
        invariant
            i <= lines@.len(),
            views(lines@) == ls,
            ls == split_char(text@, '\n'),
            ipv4_word@ == "ipv4"@,
            zeros@ == "0.0.0.0"@,
            route_print_scan(ls, 0, false) == route_print_scan(ls, i as int, in4),
        decreases lines@.len() - i,
    {
        proof {
            assert(views(lines@)[i as int] == lines@[i as int]@);
        }
        let t = trim_vec(&lines[i]);
        if t.len() == 0 {
        } else {
            let lower = to_lower(&t);
            if contains_sub(&lower, &ipv4_word) {
                in4 = true;
            } else if !in4 {
            } else {
                let cols = split_ws_vec(&t);
                proof {
                    assert(forall|k: int| 0 <= k < cols@.len() ==> views(cols@)[k]
                        == #[trigger] cols@[k]@);
                }
                if cols.len() >= 3 && chars_eq(&cols[0], &zeros) && chars_eq(&cols[1], &zeros) {
                    match parse_ip(&cols[2]) {
                        Some(ip) => {
                            proof {
                                assert(route_print_scan(ls, i as int, in4) == Some(ip));
                            }
                            return Ok(ip);
                        },
                        None => {},
                    }
                }
            }
        }
        i += 1;
    }
    proof {
        assert(route_print_scan(ls, ls.len() as int, in4) is None);
    }
    Err(PlatformError::GatewayDetection(String::from_str("No default gateway in route output")))
}

/// Scan `ipconfig /all` output collecting DNS server addresses: a line
/// naming "DNS" with a colon starts a DNS section with the text between
/// its first two colons; later nonblank lines that parse as addresses
/// continue it, and a blank or unparsable line ends it.
pub open spec fn ipconfig_scan(
    ls: Seq<Seq<char>>,
    i: int,
    in_dns: bool,
    acc: Seq<IpAddress>,
) -> Seq<IpAddress>
    decreases ls.len() - i,
{
    if i < 0 || i >= ls.len() {
        acc
    } else {
        let t = trim_spec(ls[i]);
        if contains_seq(t, "DNS"@) && contains_seq(t, ":"@) {
            let parts = split_char(t, ':');
            if parts.len() >= 2 {
                match ip_of_text(trim_spec(parts[1])) {
                    Some(ip) => ipconfig_scan(ls, i + 1, true, acc.push(ip)),
                    None => ipconfig_scan(ls, i + 1, in_dns, acc),
                }
            } else {
                ipconfig_scan(ls, i + 1, in_dns, acc)
            }
        } else if in_dns && t.len() > 0 {
            match ip_of_text(t) {
                Some(ip) => ipconfig_scan(ls, i + 1, true, acc.push(ip)),
                None => ipconfig_scan(ls, i + 1, false, acc),
            }
        } else if t.len() == 0 {
            ipconfig_scan(ls, i + 1, false, acc)
        } else {
            ipconfig_scan(ls, i + 1, in_dns, acc)
        }
    }
}

/// Parse the DNS servers out of `ipconfig /all` output.
pub fn parse_ipconfig(text: &str) -> (r: Vec<IpAddress>)
    ensures
        r@ == ipconfig_scan(split_char(text@, '\n'), 0, false, Seq::empty()),
{
    let chars = str_chars(text);
    let lines = split_char_vec(&chars, '\n');
    let ghost ls = split_char(text@, '\n');
    let dns_word = str_chars("DNS");
    let colon = str_chars(":");
    let mut servers: Vec<IpAddress> = Vec::new();
    let mut in_dns = false;
    let mut i: usize = 0;
    while i < lines.len()
        invariant
            i <= lines@.len(),
            views(lines@) == ls,
            ls == split_char(text@, '\n'),
            dns_word@ == "DNS"@,
            colon@ == ":"@,
            ipconfig_scan(ls, 0, false, Seq::empty()) == ipconfig_scan(
                ls,
                i as int,
                in_dns,
                servers@,
            ),
        decreases lines@.len() - i,
    {
        proof {
            assert(views(lines@)[i as int] == lines@[i as int]@);
        }
        let t = trim_vec(&lines[i]);
        if contains_sub(&t, &dns_word) && contains_sub(&t, &colon) {
            let parts = split_char_vec(&t, ':');
            proof {
                assert(forall|k: int| 0 <= k < parts@.len() ==> views(parts@)[k]
                    == #[trigger] parts@[k]@);
            }
            if parts.len() >= 2 {
                let u = trim_vec(&parts[1]);
                match parse_ip(&u) {
                    Some(ip) => {
                        servers.push(ip);
                        in_dns = true;
                    },
                    None => {},
                }
            }
        } else if in_dns && t.len() > 0 {
            match parse_ip(&t) {
                Some(ip) => {
                    servers.push(ip);
                },
                None => {
                    in_dns = false;
                },
            }
        } else if t.len() == 0 {
            in_dns = false;
        }
        i += 1;
    }
    servers
}

/// Turn the detected system DNS addresses into server entries for the
/// requested IP version: the primary if it matches, then the secondary if
/// it is present, matches, and differs from the primary.
pub fn get_system_dns_servers(
    primary: IpAddress,
    secondary: Option<IpAddress>,
    ip_version: IpVersion,
) -> (r: Vec<DnsServer>)
    ensures
        ({
            let mp = matches_version(primary, ip_version);
            let sec = match secondary {
                Some(s) => s,
                None => primary,
            };
            let ms = match secondary {
                Some(s) => matches_version(s, ip_version) && s != primary,
                None => false,
            };
            &&& r@.len() == (if mp {
                1int
            } else {
                0int
            }) + (if ms {
                1int
            } else {
                0int
            })
            &&& mp ==> r@[0].name@ == "System DNS (Primary)"@ && r@[0].addr == (SockAddr {
                ip: primary,
                port: 53,
            }) && r@[0].source == ServerSource::System
            &&& ms ==> {
                let idx = if mp {
                    1int
                } else {
                    0int
                };
                r@[idx].name@ == "System DNS (Secondary)"@ && r@[idx].addr == (SockAddr {
                    ip: sec,
                    port: 53,
                }) && r@[idx].source == ServerSource::System
            }
        }),
{
    let mut servers: Vec<DnsServer> = Vec::new();
    let mp = match ip_version {
        IpVersion::V4 => primary.is_ipv4(),
        IpVersion::V6 => primary.is_ipv6(),
    };
    if mp {
        servers.push(
            DnsServer::from_ip(
                String::from_str("System DNS (Primary)"),
                primary,
                ServerSource::System,
            ),
        );
    }
    match secondary {
        Some(sec) => {
            let msec = match ip_version {
                IpVersion::V4 => sec.is_ipv4(),
                IpVersion::V6 => sec.is_ipv6(),
            };
            if msec && !(sec == primary) {
                servers.push(
                    DnsServer::from_ip(
                        String::from_str("System DNS (Secondary)"),
                        sec,
                        ServerSource::System,
                    ),
                );
            }
        },
        None => {},
    }
    servers
}

/// Turn a detected gateway address into a server entry if it matches the
/// requested IP version.
pub fn get_gateway_dns_server(gateway: Option<IpAddress>, ip_version: IpVersion) -> (r: Option<
    DnsServer,
>)
    ensures
        ({
            let keep = match gateway {
                Some(ip) => matches_version(ip, ip_version),
                None => false,
            };
            let gip = match gateway {
                Some(ip) => ip,
                None => IpAddress::V4(0),
            };
            &&& (r is Some <==> keep)
            &&& keep ==> (r matches Some(d) && d.name@ == "Gateway (Router)"@ && d.addr == (
            SockAddr { ip: gip, port: 53 }) && d.source == ServerSource::Gateway)
        }),
{
    match gateway {
        Some(ip) => {
            let m = match ip_version {
                IpVersion::V4 => ip.is_ipv4(),
                IpVersion::V6 => ip.is_ipv6(),
            };
            if m {
                Some(
                    DnsServer::from_ip(
                        String::from_str("Gateway (Router)"),
                        ip,
                        ServerSource::Gateway,
                    ),
                )
            } else {
                None
            }
        },
        None => None,
    }
}

} // verus!

verus! {

/// The nameserver address on one `scutil --dns` line, if any: the third
/// token of a trimmed line starting with "nameserver[".
pub open spec fn scutil_entry(l: Seq<char>) -> Option<IpAddress> {
    let t = trim_spec(l);
    if has_prefix(t, "nameserver["@) {
        let ws = split_ws(t);
        if ws.len() >= 3 {
            ip_of_text(ws[2])
        } else {
            None
        }
    } else {
        None
    }
}

/// The nameserver addresses of the scutil lines from index `i` on,
/// appended to `acc`.
pub open spec fn scutil_scan(ls: Seq<Seq<char>>, i: int, acc: Seq<IpAddress>) -> Seq<IpAddress>
    decreases ls.len() - i,
{
    if i < 0 || i >= ls.len() {
        acc
    } else {
        match scutil_entry(ls[i]) {
            Some(ip) => scutil_scan(ls, i + 1, acc.push(ip)),
            None => scutil_scan(ls, i + 1, acc),
        }
    }
}

/// Parse the nameserver addresses out of `scutil --dns` output.
pub fn parse_scutil_dns(text: &str) -> (r: Vec<IpAddress>)
    ensures
        r@ == scutil_scan(split_char(text@, '\n'), 0, Seq::empty()),
{
    let chars = str_chars(text);
    let lines = split_char_vec(&chars, '\n');
    let ghost ls = split_char(text@, '\n');
    let prefix = str_chars("nameserver[");
    let mut out: Vec<IpAddress> = Vec::new();
    let mut i: usize = 0;
    while i < lines.len()
        invariant
            i <= lines@.len(),
            views(lines@) == ls,
            ls == split_char(text@, '\n'),
            prefix@ == "nameserver["@,
            scutil_scan(ls, 0, Seq::empty()) == scutil_scan(ls, i as int, out@),
        decreases lines@.len() - i,
    {
        proof {
            assert(views(lines@)[i as int] == lines@[i as int]@);
        }
        let t = trim_vec(&lines[i]);
        if chars_has_prefix(&t, &prefix) {
            let ws = split_ws_vec(&t);
            proof {
                assert(forall|k: int| 0 <= k < ws@.len() ==> views(ws@)[k]
                    == #[trigger] ws@[k]@);
            }
            if ws.len() >= 3 {
                match parse_ip(&ws[2]) {
                    Some(ip) => {
                        proof {
                            assert(scutil_entry(ls[i as int]) == Some(ip));
                        }
                        out.push(ip);
                    },
                    None => {
                        proof {
                            assert(scutil_entry(ls[i as int]) is None);
                        }
                    },
                }
            } else {
                proof {
                    assert(scutil_entry(ls[i as int]) is None);
                }
            }
        } else {
            proof {
                assert(scutil_entry(ls[i as int]) is None);
            }
        }
        i += 1;
    }
    out
}

} // verus!
