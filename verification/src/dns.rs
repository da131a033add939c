//! DNS server descriptors: addresses, protocols and the built-in server list.

use vstd::prelude::*;
use vstd::string::*;

use crate::error::{DnsError, Error};
use crate::text::{chars_eq, lower_seq, str_chars, to_lower};

verus! {

broadcast use vstd::string::group_string_axioms;

/// An IP address, IPv4 as its 32-bit value, IPv6 as its 128-bit value.
#[derive(Debug, Clone, Copy, PartialEq, Eq, Hash, Structural)]
pub enum IpAddress {
    V4(u32),
    V6(u128),
}

impl IpAddress {
    /// Is this an IPv4 address?
    pub fn is_ipv4(&self) -> (r: bool)
        ensures
            r == (*self is V4),
    {
        matches!(self, IpAddress::V4(_))
    }

    /// Is this an IPv6 address?
    pub fn is_ipv6(&self) -> (r: bool)
        ensures
            r == (*self is V6),
    {
        matches!(self, IpAddress::V6(_))
    }

    /// Is this the all-zero (unspecified) address?
    pub fn is_unspecified(&self) -> (r: bool)
        ensures
            r == (match *self {
                IpAddress::V4(v) => v == 0,
                IpAddress::V6(v) => v == 0,
            }),
    {
        match self {
            IpAddress::V4(v) => *v == 0,
            IpAddress::V6(v) => *v == 0,
        }
    }
}

/// The 32-bit value of the IPv4 address `a.b.c.d`.
pub open spec fn ipv4_value(a: u8, b: u8, c: u8, d: u8) -> int {
    a * 0x1000000 + b * 0x10000 + c * 0x100 + d
}

/// Build an IPv4 address from its four octets.
pub fn ipv4(a: u8, b: u8, c: u8, d: u8) -> (r: IpAddress)
    ensures
        r == IpAddress::V4(ipv4_value(a, b, c, d) as u32),
{
    IpAddress::V4(
        (a as u32) * 0x1000000 + (b as u32) * 0x10000 + (c as u32) * 0x100 + (d as u32),
    )
}

/// The 128-bit value of an IPv6 address from its eight 16-bit segments,
/// most significant first.
pub open spec fn ipv6_value(s: Seq<u16>) -> int {
    s[0] * 0x10000000000000000000000000000
        + s[1] * 0x1000000000000000000000000
        + s[2] * 0x100000000000000000000
        + s[3] * 0x10000000000000000
        + s[4] * 0x1000000000000
        + s[5] * 0x100000000
        + s[6] * 0x10000
        + s[7]
}

/// Where a server entry came from.
#[derive(Debug, Clone, Copy, PartialEq, Eq, Hash, Structural)]
pub enum ServerSource {
    /// Built-in server list.
    Builtin,
    /// Custom server file.
    Custom,
    /// System DNS configuration.
    System,
    /// Network gateway/router.
    Gateway,
}

impl Default for ServerSource {
    fn default() -> (r: Self)
        ensures
            r == ServerSource::Builtin,
    {
        ServerSource::Builtin
    }
}

/// DNS protocol to use.
#[derive(Debug, Clone, Copy, PartialEq, Eq, Hash, Structural)]
pub enum Protocol {
    /// UDP (faster, less reliable).
    Udp,
    /// TCP (more reliable, slightly slower).
    Tcp,
}

impl Default for Protocol {
    fn default() -> (r: Self)
        ensures
            r == Protocol::Udp,
    {
        Protocol::Udp
    }
}

impl Protocol {
    /// Parse a protocol name, case-insensitively: "udp" or "tcp".
    pub fn from_str(s: &str) -> (r: Result<Protocol, Error>)
        ensures
            lower_seq(s@) == "udp"@ ==> r == Ok::<Protocol, Error>(Protocol::Udp),
            lower_seq(s@) == "tcp"@ ==> r == Ok::<Protocol, Error>(Protocol::Tcp),
            r is Ok <==> (lower_seq(s@) == "udp"@ || lower_seq(s@) == "tcp"@),
            r is Err ==> (r matches Err(Error::InvalidArgument(m)) &&
                m@ == "Invalid protocol: "@ + s@),
    {
        proof {
            reveal_strlit("udp");
            reveal_strlit("tcp");
            assert("udp"@[0] == 'u');
            assert("tcp"@[0] == 't');
        }
        let lc = to_lower(&str_chars(s));
        if chars_eq(&lc, &str_chars("udp")) {
            Ok(Protocol::Udp)
        } else if chars_eq(&lc, &str_chars("tcp")) {
            Ok(Protocol::Tcp)
        } else {
            Err(Error::InvalidArgument(String::from_str("Invalid protocol: ").concat(s)))
        }
    }
}

/// IP version preference.
#[derive(Debug, Clone, Copy, PartialEq, Eq, Hash, Structural)]
pub enum IpVersion {
    /// IPv4 only.
    V4,
    /// IPv6 only.
    V6,
}

impl Default for IpVersion {
    fn default() -> (r: Self)
        ensures
            r == IpVersion::V4,
    {
        IpVersion::V4
    }
}

impl IpVersion {
    /// Parse an IP version, case-insensitively: "v4"/"ipv4"/"4" or "v6"/"ipv6"/"6".
    pub fn from_str(s: &str) -> (r: Result<IpVersion, Error>)
        ensures
            (lower_seq(s@) == "v4"@ || lower_seq(s@) == "ipv4"@ || lower_seq(s@) == "4"@)
                ==> r == Ok::<IpVersion, Error>(IpVersion::V4),
            (lower_seq(s@) == "v6"@ || lower_seq(s@) == "ipv6"@ || lower_seq(s@) == "6"@)
                ==> r == Ok::<IpVersion, Error>(IpVersion::V6),
            r is Ok <==> (lower_seq(s@) == "v4"@ || lower_seq(s@) == "ipv4"@
                || lower_seq(s@) == "4"@ || lower_seq(s@) == "v6"@
                || lower_seq(s@) == "ipv6"@ || lower_seq(s@) == "6"@),
            r is Err ==> (r matches Err(Error::InvalidArgument(m)) &&
                m@ == "Invalid IP version: "@ + s@),
    {
        proof {
            reveal_strlit("v4");
            reveal_strlit("ipv4");
            reveal_strlit("4");
            reveal_strlit("v6");
            reveal_strlit("ipv6");
            reveal_strlit("6");
            assert("v4"@.len() == 2 && "v4"@[1] == '4');
            assert("v6"@.len() == 2 && "v6"@[1] == '6');
            assert("ipv4"@.len() == 4 && "ipv4"@[3] == '4');
            assert("ipv6"@.len() == 4 && "ipv6"@[3] == '6');
            assert("4"@.len() == 1 && "4"@[0] == '4');
            assert("6"@.len() == 1 && "6"@[0] == '6');
        }
        let lc = to_lower(&str_chars(s));
        if chars_eq(&lc, &str_chars("v4")) || chars_eq(&lc, &str_chars("ipv4"))
            || chars_eq(&lc, &str_chars("4")) {
            Ok(IpVersion::V4)
        } else if chars_eq(&lc, &str_chars("v6")) || chars_eq(&lc, &str_chars("ipv6"))
            || chars_eq(&lc, &str_chars("6")) {
            Ok(IpVersion::V6)
        } else {
            Err(Error::InvalidArgument(String::from_str("Invalid IP version: ").concat(s)))
        }
    }
}

/// A socket address: IP address and port.
#[derive(Debug, Clone, Copy, PartialEq, Eq, Hash, Structural)]
pub struct SockAddr {
    pub ip: IpAddress,
    pub port: u16,
}

/// A DNS server under benchmark.
#[derive(Debug, Clone)]
pub struct DnsServer {
    /// Human-readable name.
    pub name: String,
    /// Socket address (IP + port).
    pub addr: SockAddr,
    /// Source of this server entry.
    pub source: ServerSource,
}

impl DnsServer {
    /// Create a new DNS server entry.
    pub fn new(name: String, addr: SockAddr, source: ServerSource) -> (r: Self)
        ensures
            r.name == name,
            r.addr == addr,
            r.source == source,
    {
        DnsServer { name, addr, source }
    }

    /// Create from an IP address with the default DNS port (53).
    pub fn from_ip(name: String, ip: IpAddress, source: ServerSource) -> (r: Self)
        ensures
            r.name == name,
            r.addr == (SockAddr { ip, port: 53 }),
            r.source == source,
    {
        DnsServer { name, addr: SockAddr { ip, port: 53 }, source }
    }

    /// The server's IP address.
    pub fn ip(&self) -> (r: IpAddress)
        ensures
            r == self.addr.ip,
    {
        self.addr.ip
    }

    /// Is this an IPv4 server?
    pub fn is_ipv4(&self) -> (r: bool)
        ensures
            r == (self.addr.ip is V4),
    {
        self.addr.ip.is_ipv4()
    }

    /// Is this an IPv6 server?
    pub fn is_ipv6(&self) -> (r: bool)
        ensures
            r == (self.addr.ip is V6),
    {
        self.addr.ip.is_ipv6()
    }

    /// Does this server match the given IP version?
    pub fn matches_ip_version(&self, version: IpVersion) -> (r: bool)
        ensures
            r == (match version {
                IpVersion::V4 => self.addr.ip is V4,
                IpVersion::V6 => self.addr.ip is V6,
            }),
    {
        match version {
            IpVersion::V4 => self.is_ipv4(),
            IpVersion::V6 => self.is_ipv6(),
        }
    }
}

} // verus!

verus! {

/// A valid dotted-quad octet: one to three digits, value at most 255, no
/// leading zero.
pub open spec fn valid_octet(s: Seq<char>) -> bool {
    &&& 1 <= s.len() <= 3
    &&& crate::text::all_digits(s)
    &&& crate::text::dec_val(s) <= 255
    &&& (s.len() > 1 ==> s[0] != '0')
}

/// A valid IPv4 address text: four valid octets separated by dots.
pub open spec fn valid_ipv4_text(s: Seq<char>) -> bool {
    let parts = crate::text::split_char(s, '.');
    &&& parts.len() == 4
    &&& valid_octet(parts[0])
    &&& valid_octet(parts[1])
    &&& valid_octet(parts[2])
    &&& valid_octet(parts[3])
}

/// The 32-bit value of a valid IPv4 address text.
pub open spec fn ipv4_text_value(s: Seq<char>) -> int {
    let parts = crate::text::split_char(s, '.');
    crate::text::dec_val(parts[0]) * 0x1000000 + crate::text::dec_val(parts[1]) * 0x10000
        + crate::text::dec_val(parts[2]) * 0x100 + crate::text::dec_val(parts[3])
}

/// Parse one dotted-quad octet.
fn parse_octet(v: &Vec<char>) -> (r: Option<u8>)
    ensures
        match r {
            Some(x) => valid_octet(v@) && x == crate::text::dec_val(v@),
            None => !valid_octet(v@),
        },
{
    if v.len() == 0 || v.len() > 3 {
        return None;
    }
    if v.len() > 1 && v[0] == '0' {
        return None;
    }
    match crate::text::parse_dec(v, 255) {
        Some(x) => Some(x as u8),
        None => None,
    }
}

/// Parse an IPv4 address in dotted-quad form.
pub fn parse_ipv4(v: &Vec<char>) -> (r: Option<IpAddress>)
    ensures
        match r {
            Some(ip) => valid_ipv4_text(v@) && ip == IpAddress::V4(ipv4_text_value(v@) as u32),
            None => !valid_ipv4_text(v@),
        },
{
    let parts = crate::text::split_char_vec(v, '.');
    proof {
        assert(forall|k: int| 0 <= k < parts@.len() ==> crate::text::views(parts@)[k]
            == #[trigger] parts@[k]@);
    }
    if parts.len() != 4 {
        return None;
    }
    let a = match parse_octet(&parts[0]) {
        Some(x) => x,
        None => {
            return None;
        },
    };
    let b = match parse_octet(&parts[1]) {
        Some(x) => x,
        None => {
            return None;
        },
    };
    let c = match parse_octet(&parts[2]) {
        Some(x) => x,
        None => {
            return None;
        },
    };
    let d = match parse_octet(&parts[3]) {
        Some(x) => x,
        None => {
            return None;
        },
    };
    Some(ipv4(a, b, c, d))
}

/// Index of the first occurrence of "::", or -1 when there is none.
pub open spec fn find_dcolon(s: Seq<char>) -> int
    decreases s.len(),
{
    if s.len() < 2 {
        -1
    } else if s[0] == ':' && s[1] == ':' {
        0
    } else {
        let r = find_dcolon(s.drop_first());
        if r < 0 {
            -1
        } else {
            r + 1
        }
    }
}

/// `find_dcolon` returns the first occurrence of "::", or -1 when there is
/// none.
proof fn lemma_find_dcolon(s: Seq<char>)
    ensures
        find_dcolon(s) < 0 ==> forall|k: int|
            0 <= k < s.len() - 1 ==> !((#[trigger] s[k]) == ':' && s[k + 1] == ':'),
        find_dcolon(s) >= 0 ==> {
            &&& find_dcolon(s) < s.len() - 1
            &&& s[find_dcolon(s)] == ':'
            &&& s[find_dcolon(s) + 1] == ':'
            &&& forall|k: int|
                0 <= k < find_dcolon(s) ==> !((#[trigger] s[k]) == ':' && s[k + 1] == ':')
        },
    decreases s.len(),
{
    if s.len() >= 2 && !(s[0] == ':' && s[1] == ':') {
        lemma_find_dcolon(s.drop_first());
        let r = find_dcolon(s.drop_first());
        if r >= 0 {
            assert forall|k: int| 0 <= k < r + 1 implies !((#[trigger] s[k]) == ':' && s[k + 1]
                == ':') by {
                if k > 0 {
                    assert(!(s.drop_first()[k - 1] == ':' && s.drop_first()[k] == ':'));
                }
            }
        } else {
            assert forall|k: int| 0 <= k < s.len() - 1 implies !((#[trigger] s[k]) == ':' && s[k
                + 1] == ':') by {
                if k > 0 {
                    assert(!(s.drop_first()[k - 1] == ':' && s.drop_first()[k] == ':'));
                }
            }
        }
    }
}

/// A valid IPv6 group: one to four hexadecimal digits.
pub open spec fn valid_group(s: Seq<char>) -> bool {
    1 <= s.len() <= 4 && crate::text::all_hex_digits(s)
}

/// Every part is a valid IPv6 group.
pub open spec fn groups_valid(ps: Seq<Seq<char>>) -> bool {
    forall|k: int| 0 <= k < ps.len() ==> valid_group(#[trigger] ps[k])
}

/// The eight 16-bit groups denoted by an IPv6 address text, if it is valid:
/// either eight colon-separated hex groups, or two shorter runs joined by
/// one "::" that stands for the missing zero groups. (The embedded dotted-
/// quad form is not part of this grammar.)
pub open spec fn ipv6_groups(s: Seq<char>) -> Option<Seq<u16>> {
    let i = find_dcolon(s);
    if i < 0 {
        let parts = crate::text::split_char(s, ':');
        if parts.len() == 8 && groups_valid(parts) {
            Some(Seq::new(8, |k: int| crate::text::hex_val(parts[k]) as u16))
        } else {
            None
        }
    } else {
        let l = s.subrange(0, i);
        let rp = s.subrange(i + 2, s.len() as int);
        if find_dcolon(rp) >= 0 {
            None
        } else {
            let lparts = if l.len() == 0 {
                Seq::<Seq<char>>::empty()
            } else {
                crate::text::split_char(l, ':')
            };
            let rparts = if rp.len() == 0 {
                Seq::<Seq<char>>::empty()
            } else {
                crate::text::split_char(rp, ':')
            };
            if groups_valid(lparts) && groups_valid(rparts) && lparts.len() + rparts.len() <= 7 {
                Some(
                    Seq::new(
                        8,
                        |k: int|
                            if k < lparts.len() {
                                crate::text::hex_val(lparts[k]) as u16
                            } else if k >= 8 - rparts.len() {
                                crate::text::hex_val(rparts[k - (8 - rparts.len())]) as u16
                            } else {
                                0u16
                            },
                    ),
                )
            } else {
                None
            }
        }
    }
}

/// A valid IPv6 address text.
pub open spec fn valid_ipv6_text(s: Seq<char>) -> bool {
    ipv6_groups(s) is Some
}

/// Build an IPv6 address from eight 16-bit groups held in a vector.
fn ipv6_from_groups(groups: &Vec<u16>) -> (r: IpAddress)
    requires
        groups@.len() == 8,
    ensures
        r == IpAddress::V6(ipv6_value(groups@) as u128),
{
    let v: u128 = (groups[0] as u128) * 0x10000000000000000000000000000
        + (groups[1] as u128) * 0x1000000000000000000000000
        + (groups[2] as u128) * 0x100000000000000000000
        + (groups[3] as u128) * 0x10000000000000000
        + (groups[4] as u128) * 0x1000000000000
        + (groups[5] as u128) * 0x100000000
        + (groups[6] as u128) * 0x10000
        + (groups[7] as u128);
    IpAddress::V6(v)
}

/// Find the first occurrence of "::" in a character vector.
fn find_dcolon_vec(v: &Vec<char>) -> (r: Option<usize>)
    ensures
        match r {
            Some(i) => i as int == find_dcolon(v@),
            None => find_dcolon(v@) < 0,
        },
{
    proof {
        lemma_find_dcolon(v@);
    }
    if v.len() < 2 {
        return None;
    }
    let mut i: usize = 0;
    while i < v.len() - 1
        invariant
            v@.len() >= 2,
            i <= v@.len() - 1,
            forall|k: int| 0 <= k < i ==> !((#[trigger] v@[k]) == ':' && v@[k + 1] == ':'),
        decreases v@.len() - i,
    {
        if v[i] == ':' && v[i + 1] == ':' {
            proof {
                lemma_find_dcolon(v@);
                let f = find_dcolon(v@);
                if f < 0 {
                    assert(!((v@[i as int]) == ':' && v@[i as int + 1] == ':'));
                    assert(false);
                }
                if f < i as int {
                    assert(!((v@[f]) == ':' && v@[f + 1] == ':'));
                    assert(v@[f] == ':' && v@[f + 1] == ':');
                    assert(false);
                }
                if f > i as int {
                    assert(!((v@[i as int]) == ':' && v@[i as int + 1] == ':'));
                    assert(false);
                }
            }
            return Some(i);
        }
        i += 1;
    }
    proof {
        lemma_find_dcolon(v@);
        if find_dcolon(v@) >= 0 {
            assert(v@[find_dcolon(v@)] == ':' && v@[find_dcolon(v@) + 1] == ':');
            assert(false);
        }
    }
    None
}

/// Parse the colon-separated groups of one side of an IPv6 address into
/// 16-bit values; `None` when some part is not a valid group.
fn parse_groups(parts: &Vec<Vec<char>>) -> (r: Option<Vec<u16>>)
    ensures
        match r {
            Some(gs) => groups_valid(crate::text::views(parts@)) && gs@.len() == parts@.len()
                && forall|k: int| 0 <= k < gs@.len() ==> gs@[k] as int == crate::text::hex_val(
                #[trigger] parts@[k]@,
            ),
            None => !groups_valid(crate::text::views(parts@)),
        },
{
    proof {
        assert(forall|k: int| 0 <= k < parts@.len() ==> crate::text::views(parts@)[k]
            == #[trigger] parts@[k]@);
    }
    let mut gs: Vec<u16> = Vec::new();
    let mut i: usize = 0;
    while i < parts.len()
        invariant
            i <= parts@.len(),
            gs@.len() == i,
            forall|k: int| 0 <= k < i ==> valid_group(#[trigger] parts@[k]@),
            forall|k: int| 0 <= k < i ==> gs@[k] as int == crate::text::hex_val(
                #[trigger] parts@[k]@,
            ),
        decreases parts@.len() - i,
    {
        match crate::text::parse_hex(&parts[i], 4) {
            Some(x) => {
                gs.push(x);
            },
            None => {
                proof {
                    assert(!valid_group(crate::text::views(parts@)[i as int]));
                }
                return None;
            },
        }
        i += 1;
    }
    Some(gs)
}

/// Parse an IPv6 address in colon-hex form, with at most one "::".
pub fn parse_ipv6(v: &Vec<char>) -> (r: Option<IpAddress>)
    ensures
        match r {
            Some(ip) => valid_ipv6_text(v@) && ip == IpAddress::V6(
                ipv6_value(ipv6_groups(v@).unwrap()) as u128,
            ),
            None => !valid_ipv6_text(v@),
        },
{
    let n = v.len();
    match find_dcolon_vec(v) {
        None => {
            let parts = crate::text::split_char_vec(v, ':');
            proof {
                assert(forall|k: int| 0 <= k < parts@.len() ==> crate::text::views(parts@)[k]
                    == #[trigger] parts@[k]@);
            }
            if parts.len() != 8 {
                return None;
            }
            match parse_groups(&parts) {
                Some(gs) => {
                    proof {
                        assert(gs@ =~= ipv6_groups(v@).unwrap());
                    }
                    Some(ipv6_from_groups(&gs))
                },
                None => None,
            }
        },
        Some(i) => {
            proof {
                lemma_find_dcolon(v@);
            }
            let ghost l = v@.subrange(0, i as int);
            let ghost rp = v@.subrange(i + 2 as int, n as int);
            let lsub = crate::text::subrange_to_vec(v, 0, i);
            let rsub = crate::text::subrange_to_vec(v, i + 2, n);
            match find_dcolon_vec(&rsub) {
                Some(_) => {
                    return None;
                },
                None => {},
            }
            let lparts: Vec<Vec<char>> = if lsub.len() == 0 {
                Vec::new()
            } else {
                crate::text::split_char_vec(&lsub, ':')
            };
            let rparts: Vec<Vec<char>> = if rsub.len() == 0 {
                Vec::new()
            } else {
                crate::text::split_char_vec(&rsub, ':')
            };
            let ghost lps = if l.len() == 0 {
                Seq::<Seq<char>>::empty()
            } else {
                crate::text::split_char(l, ':')
            };
            let ghost rps = if rp.len() == 0 {
                Seq::<Seq<char>>::empty()
            } else {
                crate::text::split_char(rp, ':')
            };
            proof {
                if l.len() == 0 {
                    assert(crate::text::views(lparts@) =~= lps);
                }
                if rp.len() == 0 {
                    assert(crate::text::views(rparts@) =~= rps);
                }
                assert(crate::text::views(lparts@) == lps);
                assert(crate::text::views(rparts@) == rps);
            }
            let lgs = match parse_groups(&lparts) {
                Some(gs) => gs,
                None => {
                    return None;
                },
            };
            let rgs = match parse_groups(&rparts) {
                Some(gs) => gs,
                None => {
                    return None;
                },
            };
            if lgs.len() > 7 || rgs.len() > 7 - lgs.len() {
                return None;
            }
            let mut groups: Vec<u16> = Vec::new();
            let mut j: usize = 0;
            while j < lgs.len()
                invariant
                    j <= lgs@.len(),
                    groups@ =~= lgs@.subrange(0, j as int),
                decreases lgs@.len() - j,
            {
                groups.push(lgs[j]);
                assert(groups@ =~= lgs@.subrange(0, j + 1 as int));
                j += 1;
            }
            proof {
                assert(groups@ =~= lgs@);
            }
            let zeros = 8 - lgs.len() - rgs.len();
            let mut z: usize = 0;
            while z < zeros
                invariant
                    z <= zeros,
                    zeros == 8 - lgs@.len() - rgs@.len(),
                    lgs@.len() + rgs@.len() <= 7,
                    groups@.len() == lgs@.len() + z,
                    groups@.subrange(0, lgs@.len() as int) =~= lgs@,
                    forall|k: int| lgs@.len() <= k < groups@.len() ==> groups@[k] == 0u16,
                decreases zeros - z,
            {
                groups.push(0);
                proof {
                    assert(groups@.subrange(0, lgs@.len() as int) =~= groups@.drop_last().subrange(
                        0,
                        lgs@.len() as int,
                    ));
                }
                z += 1;
            }
            let mut j2: usize = 0;
            while j2 < rgs.len()
                invariant
                    j2 <= rgs@.len(),
                    zeros == 8 - lgs@.len() - rgs@.len(),
                    lgs@.len() + rgs@.len() <= 7,
                    groups@.len() == lgs@.len() + zeros + j2,
                    groups@.subrange(0, lgs@.len() as int) =~= lgs@,
                    forall|k: int| lgs@.len() <= k < lgs@.len() + zeros ==> groups@[k] == 0u16,
                    groups@.subrange((lgs@.len() + zeros) as int, groups@.len() as int)
                        =~= rgs@.subrange(0, j2 as int),
                decreases rgs@.len() - j2,
            {
                groups.push(rgs[j2]);
                proof {
                    assert(groups@.subrange(0, lgs@.len() as int) =~= groups@.drop_last().subrange(
                        0,
                        lgs@.len() as int,
                    ));
                    assert(groups@.subrange((lgs@.len() + zeros) as int, groups@.len() as int)
                        =~= rgs@.subrange(0, j2 + 1 as int));
                }
                j2 += 1;
            }
            proof {
                let spec_groups = ipv6_groups(v@).unwrap();
                assert forall|k: int| 0 <= k < 8 implies groups@[k] == spec_groups[k] by {
                    if k < lgs@.len() {
                        assert(groups@.subrange(0, lgs@.len() as int)[k] == groups@[k]);
                    } else if k >= 8 - rgs@.len() {
                        assert(groups@.subrange((lgs@.len() + zeros) as int, 8)[k - lgs@.len()
                            - zeros] == groups@[k]);
                        assert(rgs@.subrange(0, rgs@.len() as int)[k - lgs@.len() - zeros]
                            == rgs@[k - lgs@.len() - zeros]);
                    }
                }
                assert(groups@ =~= spec_groups);
            }
            Some(ipv6_from_groups(&groups))
        },
    }
}

/// Parse an IP address: dotted-quad IPv4 or colon-hex IPv6.
pub fn parse_ip(v: &Vec<char>) -> (r: Option<IpAddress>)
    ensures
        r == ip_of_text(v@),
{
    match parse_ipv4(v) {
        Some(ip) => Some(ip),
        None => parse_ipv6(v),
    }
}

} // verus!

verus! {

/// A valid port text: digits whose value fits in 16 bits.
pub open spec fn valid_port_text(s: Seq<char>) -> bool {
    s.len() >= 1 && crate::text::all_digits(s) && crate::text::dec_val(s) <= 65535
}

/// A valid socket address text: `ip:port` for IPv4, `[ip]:port` for IPv6.
pub open spec fn valid_sockaddr_text(s: Seq<char>) -> bool {
    if s.len() > 0 && s[0] == '[' {
        let j = crate::text::find_char(s, ']');
        &&& 0 <= j
        &&& j + 2 <= s.len()
        &&& s[j + 1] == ':'
        &&& valid_ipv6_text(s.subrange(1, j))
        &&& valid_port_text(s.subrange(j + 2, s.len() as int))
    } else {
        let j = crate::text::find_char(s, ':');
        &&& 0 <= j
        &&& valid_ipv4_text(s.subrange(0, j))
        &&& valid_port_text(s.subrange(j + 1, s.len() as int))
    }
}

/// The socket address a valid socket address text denotes.
pub open spec fn sockaddr_text_value(s: Seq<char>) -> SockAddr {
    if s.len() > 0 && s[0] == '[' {
        let j = crate::text::find_char(s, ']');
        SockAddr {
            ip: IpAddress::V6(ipv6_value(ipv6_groups(s.subrange(1, j)).unwrap()) as u128),
            port: crate::text::dec_val(s.subrange(j + 2, s.len() as int)) as u16,
        }
    } else {
        let j = crate::text::find_char(s, ':');
        SockAddr {
            ip: IpAddress::V4(ipv4_text_value(s.subrange(0, j)) as u32),
            port: crate::text::dec_val(s.subrange(j + 1, s.len() as int)) as u16,
        }
    }
}

/// Parse a socket address: `ip:port` for IPv4, `[ip]:port` for IPv6.
pub fn parse_sockaddr(v: &Vec<char>) -> (r: Option<SockAddr>)
    ensures
        match r {
            Some(sa) => valid_sockaddr_text(v@) && sa == sockaddr_text_value(v@),
            None => !valid_sockaddr_text(v@),
        },
{
    let n = v.len();
    if n > 0 && v[0] == '[' {
        let j = match crate::text::find_char_in(v, 0, n, ']') {
            Some(j) => j,
            None => {
                proof {
                    crate::text::lemma_find_char(v@, ']');
                    if crate::text::find_char(v@, ']') >= 0 {
                        assert(v@[crate::text::find_char(v@, ']')] == ']');
                        assert(false);
                    }
                }
                return None;
            },
        };
        proof {
            crate::text::lemma_find_char(v@, ']');
            let f = crate::text::find_char(v@, ']');
            if f < 0 {
                assert(v@[j as int] != ']');
                assert(false);
            }
            if f < j as int {
                assert(v@[f] != ']');
                assert(false);
            }
            if f > j as int {
                assert(v@[j as int] != ']');
                assert(false);
            }
            assert(f == j as int);
        }
        if n - j < 2 {
            return None;
        }
        if !(v[j + 1] == ':') {
            return None;
        }
        let ip_part = crate::text::subrange_to_vec(v, 1, j);
        let port_part = crate::text::subrange_to_vec(v, j + 2, n);
        let ip = match parse_ipv6(&ip_part) {
            Some(ip) => ip,
            None => {
                return None;
            },
        };
        match crate::text::parse_dec(&port_part, 65535) {
            Some(p) => Some(SockAddr { ip, port: p as u16 }),
            None => None,
        }
    } else {
        let j = match crate::text::find_char_in(v, 0, n, ':') {
            Some(j) => j,
            None => {
                proof {
                    crate::text::lemma_find_char(v@, ':');
                    if crate::text::find_char(v@, ':') >= 0 {
                        assert(v@[crate::text::find_char(v@, ':')] == ':');
                        assert(false);
                    }
                }
                return None;
            },
        };
        proof {
            crate::text::lemma_find_char(v@, ':');
            let f = crate::text::find_char(v@, ':');
            if f < 0 {
                assert(v@[j as int] != ':');
                assert(false);
            }
            if f < j as int {
                assert(v@[f] != ':');
                assert(false);
            }
            if f > j as int {
                assert(v@[j as int] != ':');
                assert(false);
            }
            assert(f == j as int);
        }
        let ip_part = crate::text::subrange_to_vec(v, 0, j);
        let port_part = crate::text::subrange_to_vec(v, j + 1, n);
        let ip = match parse_ipv4(&ip_part) {
            Some(ip) => ip,
            None => {
                return None;
            },
        };
        match crate::text::parse_dec(&port_part, 65535) {
            Some(p) => Some(SockAddr { ip, port: p as u16 }),
            None => None,
        }
    }
}

} // verus!

verus! {

/// A line of the custom servers file that is skipped: blank, or a comment.
pub open spec fn line_skippable(l: Seq<char>) -> bool {
    let t = crate::text::trim_spec(l);
    t.len() == 0 || t[0] == '#'
}

/// The server entry a custom-servers line denotes, if any: the trimmed line
/// is `name;address`, the address a valid socket address.
pub open spec fn line_server(l: Seq<char>) -> Option<(Seq<char>, SockAddr)> {
    let t = crate::text::trim_spec(l);
    let parts = crate::text::split_char(t, ';');
    if parts.len() == 2 {
        let name = crate::text::trim_spec(parts[0]);
        let a = crate::text::trim_spec(parts[1]);
        if valid_sockaddr_text(a) {
            Some((name, sockaddr_text_value(a)))
        } else {
            None
        }
    } else {
        None
    }
}

/// Every line is either skippable or a valid server entry.
pub open spec fn line_well_formed(l: Seq<char>) -> bool {
    line_skippable(l) || line_server(l) is Some
}

/// The first `n` lines are well formed.
pub open spec fn lines_well_formed_to(ls: Seq<Seq<char>>, n: int) -> bool {
    forall|k: int| 0 <= k < n ==> line_well_formed(#[trigger] ls[k])
}

/// Does the address match the requested IP version?
pub open spec fn matches_version(ip: IpAddress, ver: IpVersion) -> bool {
    match ver {
        IpVersion::V4 => ip is V4,
        IpVersion::V6 => ip is V6,
    }
}

/// The (name, address) entries collected from the well-formed lines that
/// match the requested IP version, in file order.
pub open spec fn collect_custom(ls: Seq<Seq<char>>, ver: IpVersion) -> Seq<(Seq<char>, SockAddr)>
    decreases ls.len(),
{
    if ls.len() == 0 {
        Seq::empty()
    } else {
        let pre = collect_custom(ls.drop_last(), ver);
        if line_skippable(ls.last()) {
            pre
        } else {
            match line_server(ls.last()) {
                Some(e) => if matches_version(e.1.ip, ver) {
                    pre.push(e)
                } else {
                    pre
                },
                None => pre,
            }
        }
    }
}

/// A split always has at least one part.
proof fn lemma_split_len(s: Seq<char>, sep: char)
    ensures
        crate::text::split_char(s, sep).len() >= 1,
{
}

/// Parse custom servers from the text of a custom servers file.
///
/// Each nonblank, noncomment line must read `name;address:port`; entries
/// are filtered by the requested IP version. The first malformed line is
/// reported: a line without exactly one `;` by its number, an unparsable
/// address by the file path and a message naming its line number.
#[verifier::rlimit(100)]
pub fn parse_custom_servers(content: &str, ip_version: IpVersion, path: &str) -> (r: Result<
    Vec<DnsServer>,
    Error,
>)
    ensures
        ({
            let ls = crate::text::split_char(content@, '\n');
            &&& (r is Ok <==> lines_well_formed_to(ls, ls.len() as int))
            &&& (match r {
                Ok(servers) => {
                    let es = collect_custom(ls, ip_version);
                    &&& servers@.len() == es.len()
                    &&& forall|i: int| 0 <= i < es.len() ==> {
                        &&& (#[trigger] servers@[i]).name@ == es[i].0
                        &&& servers@[i].addr == es[i].1
                        &&& servers@[i].source == ServerSource::Custom
                    }
                },
                Err(e) => match e {
                    Error::Dns(DnsError::InvalidLineFormat { line }) => {
                        &&& 1 <= line <= ls.len()
                        &&& lines_well_formed_to(ls, line - 1)
                        &&& !line_skippable(ls[line - 1])
                        &&& crate::text::split_char(
                            crate::text::trim_spec(ls[line - 1]),
                            ';',
                        ).len() != 2
                    },
                    Error::Dns(DnsError::CustomFileError { path: p, message: m }) => {
                        &&& p@ == path@
                        &&& exists|k: int|
                            {
                                &&& 1 <= k <= ls.len()
                                &&& lines_well_formed_to(ls, k - 1)
                                &&& !line_skippable(#[trigger] ls[k - 1])
                                &&& crate::text::split_char(
                                    crate::text::trim_spec(ls[k - 1]),
                                    ';',
                                ).len() == 2
                                &&& !valid_sockaddr_text(
                                    crate::text::trim_spec(
                                        crate::text::split_char(
                                            crate::text::trim_spec(ls[k - 1]),
                                            ';',
                                        )[1],
                                    ),
                                )
                                &&& m@ == "Invalid address at line "@ + crate::text::dec_str(k)
                            }
                    },
                    _ => false,
                },
            })
        }),
{
    let chars = crate::text::str_chars(content);
    let n = chars.len();
    let ghost ls = crate::text::split_char(content@, '\n');
    let mut servers: Vec<DnsServer> = Vec::new();
    let mut pos: usize = 0;
    let mut lineno: usize = 0;
    let ghost mut done = Seq::<Seq<char>>::empty();
    proof {
        assert(chars@.subrange(0, n as int) =~= content@);
        assert(done + crate::text::split_char(content@, '\n') =~= ls);
    }
    loop
        invariant
            pos <= n,
            n == chars@.len(),
            chars@ == content@,
            lineno == done.len(),
            lineno <= pos,
            ls == crate::text::split_char(content@, '\n'),
            ls == done + crate::text::split_char(chars@.subrange(pos as int, n as int), '\n'),
            lines_well_formed_to(ls, lineno as int),
            forall|k: int| 0 <= k < done.len() ==> ls[k] == #[trigger] done[k],
            servers@.len() == collect_custom(done, ip_version).len(),
            forall|i: int| 0 <= i < servers@.len() ==> {
                &&& (#[trigger] servers@[i]).name@ == collect_custom(done, ip_version)[i].0
                &&& servers@[i].addr == collect_custom(done, ip_version)[i].1
                &&& servers@[i].source == ServerSource::Custom
            },
        decreases n - pos + 1,
    {
        let ghost rest = chars@.subrange(pos as int, n as int);
        let (e, is_last): (usize, bool) = match crate::text::find_char_vec(&chars, pos, '\n') {
            Some(e) => (e, false),
            None => (n, true),
        };
        let ghost lv = chars@.subrange(pos as int, e as int);
        proof {
            crate::text::lemma_find_char(rest, '\n');
            let f = crate::text::find_char(rest, '\n');
            if is_last {
                if f >= 0 {
                    assert(rest[f] == '\n');
                    assert(rest[f] == chars@[pos + f]);
                    assert(false);
                }
                assert(crate::text::split_char(rest, '\n') == seq![rest]);
                assert(rest =~= lv);
                assert(ls =~= done.push(lv));
                assert(ls[lineno as int] == lv);
            } else {
                if f < 0 {
                    assert(rest[e - pos] == chars@[e as int]);
                    assert(false);
                }
                if f < e - pos {
                    assert(rest[f] == chars@[pos + f]);
                    assert(false);
                }
                if f > e - pos {
                    assert(rest[e - pos] == chars@[e as int]);
                    assert(false);
                }
                assert(f == e - pos);
                assert(crate::text::split_char(rest, '\n') == seq![rest.subrange(0, f)]
                    + crate::text::split_char(rest.subrange(f + 1, rest.len() as int), '\n'));
                assert(rest.subrange(0, f) =~= lv);
                assert(rest.subrange(f + 1, rest.len() as int) =~= chars@.subrange(
                    e + 1 as int,
                    n as int,
                ));
                assert(ls =~= (done.push(lv)) + crate::text::split_char(
                    chars@.subrange(e + 1 as int, n as int),
                    '\n',
                ));
                assert(ls[lineno as int] == lv);
            }
        }
        let (a, b) = crate::text::trim_bounds(&chars, pos, e);
        let ghost t = crate::text::trim_spec(lv);
        proof {
            assert(chars@.subrange(a as int, b as int) == t);
        }
        if a == b || chars[a] == '#' {
            proof {
                if a != b {
                    assert(t[0] == chars@.subrange(a as int, b as int)[0]);
                }
                assert(line_skippable(lv));
                assert(collect_custom(done.push(lv), ip_version) =~= collect_custom(
                    done,
                    ip_version,
                )) by {
                    assert(done.push(lv).drop_last() =~= done);
                }
            }
        } else {
            proof {
                assert(t[0] == chars@.subrange(a as int, b as int)[0]);
                assert(!line_skippable(lv));
            }
            let m = match crate::text::find_char_in(&chars, a, b, ';') {
                Some(m) => m,
                None => {
                    proof {
                        crate::text::lemma_find_char(t, ';');
                        let f = crate::text::find_char(t, ';');
                        if f >= 0 {
                            assert(t[f] == chars@.subrange(a as int, b as int)[f]);
                            assert(t[f] == chars@[a + f]);
                            assert(false);
                        }
                        assert(crate::text::split_char(t, ';') == seq![t]);
                        lemma_split_len(rest, '\n');
                        assert(ls.len() >= lineno + 1);
                        assert(!line_well_formed(lv));
                        assert(!lines_well_formed_to(ls, ls.len() as int)) by {
                            if lines_well_formed_to(ls, ls.len() as int) {
                                assert(line_well_formed(ls[lineno as int]));
                            }
                        }
                    }
                    return Err(Error::Dns(DnsError::InvalidLineFormat { line: lineno + 1 }));
                },
            };
            proof {
                crate::text::lemma_find_char(t, ';');
                let f = crate::text::find_char(t, ';');
                if f < 0 {
                    assert(t[m - a] == chars@.subrange(a as int, b as int)[m - a]);
                    assert(t[m - a] == chars@[m as int]);
                    assert(false);
                }
                if f < m - a {
                    assert(t[f] == chars@[a + f]);
                    assert(false);
                }
                if f > m - a {
                    assert(t[m - a] == chars@[m as int]);
                    assert(false);
                }
                assert(f == m - a);
            }
            let ghost t2 = t.subrange(m - a + 1, t.len() as int);
            proof {
                assert(crate::text::split_char(t, ';') == seq![t.subrange(0, m - a as int)]
                    + crate::text::split_char(t2, ';'));
                assert(t2 =~= chars@.subrange(m + 1 as int, b as int));
            }
            match crate::text::find_char_in(&chars, m + 1, b, ';') {
                Some(m2) => {
                    proof {
                        crate::text::lemma_find_char(t2, ';');
                        let f2 = crate::text::find_char(t2, ';');
                        if f2 < 0 {
                            assert(t2[m2 - (m + 1)] == chars@[m2 as int]);
                            assert(false);
                        }
                        lemma_split_len(t2.subrange(f2 + 1, t2.len() as int), ';');
                        assert(crate::text::split_char(t, ';').len() >= 3);
                        lemma_split_len(rest, '\n');
                        assert(ls.len() >= lineno + 1);
                        assert(!line_well_formed(lv));
                        assert(!lines_well_formed_to(ls, ls.len() as int)) by {
                            if lines_well_formed_to(ls, ls.len() as int) {
                                assert(line_well_formed(ls[lineno as int]));
                            }
                        }
                    }
                    return Err(Error::Dns(DnsError::InvalidLineFormat { line: lineno + 1 }));
                },
                None => {
                    proof {
                        crate::text::lemma_find_char(t2, ';');
                        let f2 = crate::text::find_char(t2, ';');
                        if f2 >= 0 {
                            assert(t2[f2] == chars@[m + 1 + f2]);
                            assert(false);
                        }
                        assert(crate::text::split_char(t2, ';') == seq![t2]);
                        assert(crate::text::split_char(t, ';').len() == 2);
                        assert(crate::text::split_char(t, ';')[0] == t.subrange(0, m - a as int));
                        assert(crate::text::split_char(t, ';')[1] == t2);
                    }
                },
            }
            let (na, nb) = crate::text::trim_bounds(&chars, a, m);
            let (aa, ab) = crate::text::trim_bounds(&chars, m + 1, b);
            proof {
                assert(t.subrange(0, m - a as int) =~= chars@.subrange(a as int, m as int));
                assert(chars@.subrange(na as int, nb as int) == crate::text::trim_spec(
                    crate::text::split_char(t, ';')[0],
                ));
                assert(chars@.subrange(aa as int, ab as int) == crate::text::trim_spec(
                    crate::text::split_char(t, ';')[1],
                ));
            }
            let addr_vec = crate::text::subrange_to_vec(&chars, aa, ab);
            match parse_sockaddr(&addr_vec) {
                None => {
                    let msg = String::from_str("Invalid address at line ").concat(
                        crate::text::u64_to_string((lineno + 1) as u64).as_str(),
                    );
                    proof {
                        lemma_split_len(rest, '\n');
                        let k = lineno + 1 as int;
                        assert(1 <= k <= ls.len());
                        assert(ls[k - 1] == lv);
                        assert(!line_skippable(lv));
                        assert(line_server(lv) is None);
                        assert(!line_well_formed(lv));
                        assert(msg@ == "Invalid address at line "@ + crate::text::dec_str(k));
                        assert(!lines_well_formed_to(ls, ls.len() as int)) by {
                            if lines_well_formed_to(ls, ls.len() as int) {
                                assert(line_well_formed(ls[lineno as int]));
                            }
                        }
                    }
                    return Err(
                        Error::Dns(
                            DnsError::CustomFileError {
                                path: String::from_str(path),
                                message: msg,
                            },
                        ),
                    );
                },
                Some(sa) => {
                    let keep = match ip_version {
                        IpVersion::V4 => sa.ip.is_ipv4(),
                        IpVersion::V6 => sa.ip.is_ipv6(),
                    };
                    let ghost entry = (
                        crate::text::trim_spec(crate::text::split_char(t, ';')[0]),
                        sa,
                    );
                    proof {
                        assert(line_server(lv) == Some(entry));
                        assert(done.push(lv).drop_last() =~= done);
                        assert(keep == matches_version(sa.ip, ip_version));
                        if keep {
                            assert(collect_custom(done.push(lv), ip_version) =~= collect_custom(
                                done,
                                ip_version,
                            ).push(entry));
                        } else {
                            assert(collect_custom(done.push(lv), ip_version) =~= collect_custom(
                                done,
                                ip_version,
                            ));
                        }
                    }
                    if keep {
                        let name = content.substring_char(na, nb).to_owned();
                        servers.push(DnsServer { name, addr: sa, source: ServerSource::Custom });
                    }
                },
            }
        }
        proof {
            done = done.push(lv);
            assert(lines_well_formed_to(ls, lineno + 1 as int)) by {
                assert(ls[lineno as int] == lv);
                assert(line_well_formed(lv));
            }
        }
        if is_last {
            proof {
                assert(done =~= ls);
                assert(collect_custom(done, ip_version) == collect_custom(ls, ip_version));
                assert(lines_well_formed_to(ls, ls.len() as int));
            }
            return Ok(servers);
        }
        pos = e + 1;
        lineno = lineno + 1;
    }
}

} // verus!

verus! {

/// The IP address a text denotes: dotted-quad IPv4, else colon-hex IPv6.
pub open spec fn ip_of_text(s: Seq<char>) -> Option<IpAddress> {
    if valid_ipv4_text(s) {
        Some(IpAddress::V4(ipv4_text_value(s) as u32))
    } else if valid_ipv6_text(s) {
        Some(IpAddress::V6(ipv6_value(ipv6_groups(s).unwrap()) as u128))
    } else {
        None
    }
}

/// The built-in IPv4 DNS servers: (name, address).
pub open spec fn builtin_v4_spec() -> Seq<(Seq<char>, IpAddress)> {
    seq![
        ("Google"@, IpAddress::V4(0x08080808)),
        ("Google"@, IpAddress::V4(0x08080404)),
        ("Cloudflare"@, IpAddress::V4(0x01010101)),
        ("Cloudflare"@, IpAddress::V4(0x01000001)),
        ("Quad9"@, IpAddress::V4(0x09090909)),
        ("Quad9"@, IpAddress::V4(0x95707070)),
        ("OpenDNS"@, IpAddress::V4(0xD043DEDE)),
        ("OpenDNS"@, IpAddress::V4(0xD043DCDC)),
        ("AdGuard"@, IpAddress::V4(0x5E8C0E0E)),
        ("AdGuard"@, IpAddress::V4(0x5E8C0F0F)),
    ]
}

/// The built-in IPv6 DNS servers: (name, address).
pub open spec fn builtin_v6_spec() -> Seq<(Seq<char>, IpAddress)> {
    seq![
        ("Google"@, IpAddress::V6(0x20014860486000000000000000008888)),
        ("Google"@, IpAddress::V6(0x20014860486000000000000000008844)),
        ("Cloudflare"@, IpAddress::V6(0x26064700470000000000000000001111)),
        ("Cloudflare"@, IpAddress::V6(0x26064700470000000000000000001001)),
        ("Quad9"@, IpAddress::V6(0x262000fe0000000000000000000000fe)),
        ("Quad9"@, IpAddress::V6(0x262000fe000000000000000000000009)),
        ("OpenDNS"@, IpAddress::V6(0x26200119003500000000000000000035)),
        ("OpenDNS"@, IpAddress::V6(0x26200119005300000000000000000053)),
        ("AdGuard"@, IpAddress::V6(0x2a1050c000000000000000000ad100ff)),
        ("AdGuard"@, IpAddress::V6(0x2a1050c000000000000000000ad200ff)),
    ]
}

/// The built-in IPv4 server list: (name, address) pairs.
pub fn builtin_servers_v4() -> (r: Vec<(String, IpAddress)>)
    ensures
        r@.len() == builtin_v4_spec().len(),
        forall|k: int| 0 <= k < r@.len() ==> (#[trigger] r@[k]).0@ == builtin_v4_spec()[k].0
            && r@[k].1 == builtin_v4_spec()[k].1,
{
    let mut r: Vec<(String, IpAddress)> = Vec::new();
    r.push((String::from_str("Google"), IpAddress::V4(0x08080808)));
    r.push((String::from_str("Google"), IpAddress::V4(0x08080404)));
    r.push((String::from_str("Cloudflare"), IpAddress::V4(0x01010101)));
    r.push((String::from_str("Cloudflare"), IpAddress::V4(0x01000001)));
    r.push((String::from_str("Quad9"), IpAddress::V4(0x09090909)));
    r.push((String::from_str("Quad9"), IpAddress::V4(0x95707070)));
    r.push((String::from_str("OpenDNS"), IpAddress::V4(0xD043DEDE)));
    r.push((String::from_str("OpenDNS"), IpAddress::V4(0xD043DCDC)));
    r.push((String::from_str("AdGuard"), IpAddress::V4(0x5E8C0E0E)));
    r.push((String::from_str("AdGuard"), IpAddress::V4(0x5E8C0F0F)));
    r
}

/// The built-in IPv6 server list: (name, address) pairs.
pub fn builtin_servers_v6() -> (r: Vec<(String, IpAddress)>)
    ensures
        r@.len() == builtin_v6_spec().len(),
        forall|k: int| 0 <= k < r@.len() ==> (#[trigger] r@[k]).0@ == builtin_v6_spec()[k].0
            && r@[k].1 == builtin_v6_spec()[k].1,
{
    let mut r: Vec<(String, IpAddress)> = Vec::new();
    r.push((String::from_str("Google"), IpAddress::V6(0x20014860486000000000000000008888)));
    r.push((String::from_str("Google"), IpAddress::V6(0x20014860486000000000000000008844)));
    r.push((String::from_str("Cloudflare"), IpAddress::V6(0x26064700470000000000000000001111)));
    r.push((String::from_str("Cloudflare"), IpAddress::V6(0x26064700470000000000000000001001)));
    r.push((String::from_str("Quad9"), IpAddress::V6(0x262000fe0000000000000000000000fe)));
    r.push((String::from_str("Quad9"), IpAddress::V6(0x262000fe000000000000000000000009)));
    r.push((String::from_str("OpenDNS"), IpAddress::V6(0x26200119003500000000000000000035)));
    r.push((String::from_str("OpenDNS"), IpAddress::V6(0x26200119005300000000000000000053)));
    r.push((String::from_str("AdGuard"), IpAddress::V6(0x2a1050c000000000000000000ad100ff)));
    r.push((String::from_str("AdGuard"), IpAddress::V6(0x2a1050c000000000000000000ad200ff)));
    r
}

/// The built-in DNS server list for the given IP version.
pub fn get_builtin_servers(ip_version: IpVersion) -> (r: Vec<DnsServer>)
    ensures
        ({
            let spec_list = match ip_version {
                IpVersion::V4 => builtin_v4_spec(),
                IpVersion::V6 => builtin_v6_spec(),
            };
            &&& r@.len() == spec_list.len()
            &&& forall|k: int| 0 <= k < r@.len() ==> {
                &&& (#[trigger] r@[k]).name@ == spec_list[k].0
                &&& r@[k].addr == (SockAddr { ip: spec_list[k].1, port: 53 })
                &&& r@[k].source == ServerSource::Builtin
            }
        }),
{
    let ghost spec_list = match ip_version {
        IpVersion::V4 => builtin_v4_spec(),
        IpVersion::V6 => builtin_v6_spec(),
    };
    let mut pairs = match ip_version {
        IpVersion::V4 => builtin_servers_v4(),
        IpVersion::V6 => builtin_servers_v6(),
    };
    let mut r: Vec<DnsServer> = Vec::new();
    while pairs.len() > 0
        invariant
            r@.len() + pairs@.len() == spec_list.len(),
            forall|k: int| 0 <= k < pairs@.len() ==> (#[trigger] pairs@[k]).0@ == spec_list[r@.len()
                + k].0 && pairs@[k].1 == spec_list[r@.len() + k].1,
            forall|k: int| 0 <= k < r@.len() ==> {
                &&& (#[trigger] r@[k]).name@ == spec_list[k].0
                &&& r@[k].addr == (SockAddr { ip: spec_list[k].1, port: 53 })
                &&& r@[k].source == ServerSource::Builtin
            },
        decreases pairs@.len(),
    {
        let (name, ip) = pairs.remove(0);
        r.push(DnsServer::from_ip(name, ip, ServerSource::Builtin));
    }
    r
}

/// Some already collected server has this IP address.
pub open spec fn seen_ip(s: Seq<DnsServer>, ip: IpAddress) -> bool {
    exists|k: int| 0 <= k < s.len() && (#[trigger] s[k]).addr.ip == ip
}

/// The servers with the first occurrence of each IP address, in order.
pub open spec fn dedup_by_ip(s: Seq<DnsServer>) -> Seq<DnsServer>
    decreases s.len(),
{
    if s.len() == 0 {
        Seq::empty()
    } else if seen_ip(s.drop_last(), s.last().addr.ip) {
        dedup_by_ip(s.drop_last())
    } else {
        dedup_by_ip(s.drop_last()).push(s.last())
    }
}

/// Deduplication keeps exactly the IP addresses of the input.
proof fn lemma_dedup_seen(s: Seq<DnsServer>, ip: IpAddress)
    ensures
        seen_ip(dedup_by_ip(s), ip) == seen_ip(s, ip),
    decreases s.len(),
{
    if s.len() > 0 {
        lemma_dedup_seen(s.drop_last(), ip);
        let pre = s.drop_last();
        let d = dedup_by_ip(s);
        if seen_ip(s, ip) {
            let k = choose|k: int| 0 <= k < s.len() && (#[trigger] s[k]).addr.ip == ip;
            if k < s.len() - 1 {
                assert(pre[k].addr.ip == ip);
                assert(seen_ip(pre, ip));
                let j = choose|j: int|
                    0 <= j < dedup_by_ip(pre).len() && (#[trigger] dedup_by_ip(pre)[j]).addr.ip
                        == ip;
                if !seen_ip(pre, s.last().addr.ip) {
                    assert(d[j] == dedup_by_ip(pre)[j]);
                }
                assert(seen_ip(d, ip));
            } else {
                if seen_ip(pre, ip) {
                    let j = choose|j: int|
                        0 <= j < dedup_by_ip(pre).len() && (#[trigger] dedup_by_ip(pre)[j]).addr.ip
                            == ip;
                    if !seen_ip(pre, s.last().addr.ip) {
                        assert(d[j] == dedup_by_ip(pre)[j]);
                    }
                    assert(seen_ip(d, ip));
                } else {
                    assert(d[d.len() - 1].addr.ip == ip);
                    assert(seen_ip(d, ip));
                }
            }
        }
        if seen_ip(d, ip) {
            let k = choose|k: int| 0 <= k < d.len() && (#[trigger] d[k]).addr.ip == ip;
            if seen_ip(pre, s.last().addr.ip) {
                assert(seen_ip(pre, ip));
                let j = choose|j: int| 0 <= j < pre.len() && (#[trigger] pre[j]).addr.ip == ip;
                assert(s[j].addr.ip == ip);
            } else {
                if k < d.len() - 1 {
                    assert(dedup_by_ip(pre)[k].addr.ip == ip);
                    assert(seen_ip(pre, ip));
                    let j = choose|j: int| 0 <= j < pre.len() && (#[trigger] pre[j]).addr.ip == ip;
                    assert(s[j].addr.ip == ip);
                } else {
                    assert(s[s.len() - 1].addr.ip == ip);
                }
            }
            assert(seen_ip(s, ip));
        }
    }
}

/// Does some server in the vector have this IP address?
fn has_ip(v: &Vec<DnsServer>, ip: IpAddress) -> (r: bool)
    ensures
        r == seen_ip(v@, ip),
{
    let mut i: usize = 0;
    while i < v.len()
        invariant
            i <= v@.len(),
            forall|k: int| 0 <= k < i ==> (#[trigger] v@[k]).addr.ip != ip,
        decreases v@.len() - i,
    {
        if v[i].addr.ip == ip {
            return true;
        }
        i += 1;
    }
    false
}

/// Collect the servers to benchmark: the base list, then the system DNS
/// servers, then the gateway, keeping only the first server seen for each
/// IP address.
pub fn collect_servers(
    base: Vec<DnsServer>,
    system: Vec<DnsServer>,
    gateway: Option<DnsServer>,
) -> (r: Vec<DnsServer>)
    ensures
        r@ == dedup_by_ip(
            base@ + system@ + (match gateway {
                Some(g) => seq![g],
                None => Seq::<DnsServer>::empty(),
            }),
        ),
{
    let ghost bs = base@;
    let ghost ss = system@;
    let mut all = base;
    let mut sys = system;
    all.append(&mut sys);
    match gateway {
        Some(g) => {
            let ghost gg = g;
            all.push(g);
            proof {
                assert(all@ =~= bs + ss + seq![gg]);
            }
        },
        None => {
            proof {
                assert(all@ =~= bs + ss + Seq::<DnsServer>::empty());
            }
        },
    }
    let ghost orig = all@;
    let mut out: Vec<DnsServer> = Vec::new();
    let ghost mut k: int = 0;
    while all.len() > 0
        invariant
            0 <= k <= orig.len(),
            all@ =~= orig.subrange(k, orig.len() as int),
            out@ == dedup_by_ip(orig.subrange(0, k)),
        decreases all@.len(),
    {
        proof {
            assert(all@[0] == orig[k]);
        }
        let x = all.remove(0);
        let dup = has_ip(&out, x.ip());
        proof {
            assert(orig.subrange(0, k + 1).drop_last() =~= orig.subrange(0, k));
            assert(orig.subrange(0, k + 1).last() == orig[k]);
            lemma_dedup_seen(orig.subrange(0, k), x.addr.ip);
            assert(orig.subrange(k, orig.len() as int).remove(0) =~= orig.subrange(
                k + 1,
                orig.len() as int,
            ));
        }
        if !dup {
            out.push(x);
        }
        proof {
            k = k + 1;
        }
    }
    proof {
        assert(orig.subrange(0, k) =~= orig);
    }
    out
}

} // verus!

verus! {

/// DEDUP LAW: no two servers in a deduplicated list share an IP address,
/// and every server in it comes from the input.
pub proof fn lemma_dedup_distinct(s: Seq<DnsServer>, i: int, j: int)
    requires
        0 <= i < j < dedup_by_ip(s).len(),
    ensures
        dedup_by_ip(s)[i].addr.ip != dedup_by_ip(s)[j].addr.ip,
    decreases s.len(),
{
    if s.len() > 0 {
        let pre = s.drop_last();
        let d = dedup_by_ip(s);
        if seen_ip(pre, s.last().addr.ip) {
            lemma_dedup_distinct(pre, i, j);
        } else {
            if j < d.len() - 1 {
                lemma_dedup_distinct(pre, i, j);
            } else {
                // the last element's IP is fresh: it differs from every
                // earlier deduplicated entry
                assert(d[j] == s.last());
                assert(d[i] == dedup_by_ip(pre)[i]);
                lemma_dedup_seen(pre, s.last().addr.ip);
                if d[i].addr.ip == s.last().addr.ip {
                    assert(seen_ip(dedup_by_ip(pre), s.last().addr.ip));
                    assert(false);
                }
            }
        }
    }
}

} // verus!
