//! IP addresses, CIDR networks and socket addresses as plain values.

use vstd::prelude::*;

verus! {

/// An IP address. An IPv4 address is held as its 32-bit value and an IPv6
/// address as its 128-bit value, the first octet being the most significant.
#[derive(Clone, Copy, Debug, PartialEq, Eq, Structural, Hash)]
pub enum IpAddress {
    V4(u32),
    V6(u128),
}

/// A socket address: an IP address and a port, and for an IPv6 address its
/// flow information and scope id (both 0 for an IPv4 address).
#[derive(Clone, Copy, Debug, PartialEq, Eq, Structural, Hash)]
pub struct SocketAddress {
    pub ip: IpAddress,
    pub port: u16,
    pub flowinfo: u32,
    pub scope_id: u32,
}

/// A CIDR network: an address and a prefix length. The address may have host
/// bits set; only its first `prefix_len` bits select the network.
#[derive(Clone, Copy, Debug, PartialEq, Eq, Structural, Hash)]
pub struct IpNetwork {
    pub addr: IpAddress,
    pub prefix_len: u8,
}

/// The largest prefix length of the family of `addr`.
pub open spec fn max_prefix_len(addr: IpAddress) -> int {
    match addr {
        IpAddress::V4(_) => 32,
        IpAddress::V6(_) => 128,
    }
}

/// The IPv4 network mask of a prefix length (all ones in the first `p` bits).
pub open spec fn v4_netmask(p: u8) -> u32 {
    if p == 0 {
        0
    } else {
        0xffff_ffffu32 << ((32 - p) as u32)
    }
}

/// The IPv4 host mask of a prefix length (all ones after the first `p` bits).
pub open spec fn v4_hostmask(p: u8) -> u32 {
    if p >= 32 {
        0
    } else {
        0xffff_ffffu32 >> (p as u32)
    }
}

/// The IPv6 network mask of a prefix length.
pub open spec fn v6_netmask(p: u8) -> u128 {
    if p == 0 {
        0
    } else {
        0xffff_ffff_ffff_ffff_ffff_ffff_ffff_ffffu128 << ((128 - p) as u128)
    }
}

/// The IPv6 host mask of a prefix length.
pub open spec fn v6_hostmask(p: u8) -> u128 {
    if p >= 128 {
        0
    } else {
        0xffff_ffff_ffff_ffff_ffff_ffff_ffff_ffffu128 >> (p as u128)
    }
}

/// An IPv4 network holds the addresses from its network address (host bits
/// cleared) to its broadcast address (host bits set).
pub open spec fn spec_v4_net_contains(addr: u32, p: u8, ip: u32) -> bool {
    (addr & v4_netmask(p)) <= ip && ip <= (addr | v4_hostmask(p))
}

/// The same for an IPv6 network.
pub open spec fn spec_v6_net_contains(addr: u128, p: u8, ip: u128) -> bool {
    (addr & v6_netmask(p)) <= ip && ip <= (addr | v6_hostmask(p))
}

impl IpNetwork {
    /// The prefix length fits the address family.
    pub open spec fn wf(&self) -> bool {
        self.prefix_len <= max_prefix_len(self.addr)
    }

    /// Whether `ip` lies in this network; an address of the other family never does.
    pub open spec fn spec_contains(&self, ip: IpAddress) -> bool {
        match (self.addr, ip) {
            (IpAddress::V4(a), IpAddress::V4(b)) => spec_v4_net_contains(a, self.prefix_len, b),
            (IpAddress::V6(a), IpAddress::V6(b)) => spec_v6_net_contains(a, self.prefix_len, b),
            _ => false,
        }
    }

    /// Builds a network, refusing a prefix longer than the family allows.
    pub fn new(addr: IpAddress, prefix_len: u8) -> (r: Option<IpNetwork>)
        ensures
            r is Some <==> prefix_len <= max_prefix_len(addr),
            r matches Some(n) ==> n.addr == addr && n.prefix_len == prefix_len && n.wf(),
    {
        let fits = match addr {
            IpAddress::V4(_) => prefix_len <= 32,
            IpAddress::V6(_) => prefix_len <= 128,
        };
        if fits {
            Some(IpNetwork { addr, prefix_len })
        } else {
            None
        }
    }

    /// Whether `ip` lies in this network.
    pub fn contains(&self, ip: &IpAddress) -> (r: bool)
        requires
            self.wf(),
        ensures
            r == self.spec_contains(*ip),
    {
        match (self.addr, *ip) {
            (IpAddress::V4(a), IpAddress::V4(b)) => ipv4_net_contains(a, self.prefix_len, b),
            (IpAddress::V6(a), IpAddress::V6(b)) => ipv6_net_contains(a, self.prefix_len, b),
            _ => false,
        }
    }
}

/// Calls `ipnet::Ipv4Net::new` and `Contains::contains` of `ipnet`: the network
/// holds `ip` when it lies between the network address (`addr` masked with the
/// netmask) and the broadcast address (`addr` or-ed with the host mask),
/// addresses being ordered by their 32-bit value.
#[verifier::external_body]
fn ipv4_net_contains(addr: u32, prefix_len: u8, ip: u32) -> (r: bool)
    requires
        prefix_len <= 32,
    ensures
        r == spec_v4_net_contains(addr, prefix_len, ip),
{
    match ipnet::Ipv4Net::new(core::net::Ipv4Addr::from(addr), prefix_len) {
        Ok(net) => net.contains(&core::net::Ipv4Addr::from(ip)),
        Err(_) => false,
    }
}

/// Calls `ipnet::Ipv6Net::new` and `Contains::contains` of `ipnet`, which
/// decide membership as for IPv4 over 128-bit values.
#[verifier::external_body]
fn ipv6_net_contains(addr: u128, prefix_len: u8, ip: u128) -> (r: bool)
    requires
        prefix_len <= 128,
    ensures
        r == spec_v6_net_contains(addr, prefix_len, ip),
{
    match ipnet::Ipv6Net::new(core::net::Ipv6Addr::from(addr), prefix_len) {
        Ok(net) => net.contains(&core::net::Ipv6Addr::from(ip)),
        Err(_) => false,
    }
}

/// An IPv4 CIDR network holds exactly the IPv4 addresses whose first
/// `prefix_len` bits equal those of its address; one of prefix length 0
/// holds every IPv4 address.
pub proof fn law_ipv4_network_is_prefix_match(addr: u32, prefix_len: u8, ip: u32)
    requires
        prefix_len <= 32,
    ensures
        spec_v4_net_contains(addr, prefix_len, ip) <==> (prefix_len == 0 || (addr >> ((32
            - prefix_len) as u32)) == (ip >> ((32 - prefix_len) as u32))),
{
    let a = addr;
    let b = ip;
    let p = prefix_len;
    if p == 0 {
        assert(a & 0u32 == 0u32 && a | (0xffff_ffffu32 >> 0u32) == 0xffff_ffffu32) by (bit_vector);
        assert(v4_hostmask(p) == 0xffff_ffffu32 >> 0u32);
    } else if p == 32 {
        assert(a >> 0u32 == a && b >> 0u32 == b && a & (0xffff_ffffu32 << 0u32) == a && a | 0u32
            == a) by (bit_vector);
        assert(v4_netmask(p) == 0xffff_ffffu32 << 0u32);
        assert(v4_hostmask(p) == 0u32);
        assert(((32 - p) as u32) == 0u32);
    } else {
        let s = (32 - p) as u32;
        assert(1 <= s < 32);
        assert(s + (p as u32) == 32);
        assert(v4_netmask(p) == 0xffff_ffffu32 << s);
        assert(v4_hostmask(p) == 0xffff_ffffu32 >> (p as u32));
        assert(((a & (0xffff_ffffu32 << s)) <= b && b <= (a | (0xffff_ffffu32 >> (p as u32))))
            <==> (a >> s) == (b >> s)) by (bit_vector)
            requires
                1 <= s < 32,
                s + (p as u32) == 32,
        ;
    }
}

proof fn lemma_u128_shr_monotone(x: u128, y: u128, s: u128)
    requires
        x <= y,
        s < 128,
    ensures
        x >> s <= y >> s,
{
    vstd::bits::lemma_u128_shr_is_div(x, s);
    vstd::bits::lemma_u128_shr_is_div(y, s);
    vstd::arithmetic::power2::lemma_pow2_pos(s as nat);
    vstd::arithmetic::div_mod::lemma_div_is_ordered(x as int, y as int, vstd::arithmetic::power2::pow2(s as nat) as int);
}

/// An IPv6 CIDR network holds exactly the IPv6 addresses whose first
/// `prefix_len` bits equal those of its address; one of prefix length 0
/// holds every IPv6 address.
pub proof fn law_ipv6_network_is_prefix_match(addr: u128, prefix_len: u8, ip: u128)
    requires
        prefix_len <= 128,
    ensures
        spec_v6_net_contains(addr, prefix_len, ip) <==> (prefix_len == 0 || (addr >> ((128
            - prefix_len) as u128)) == (ip >> ((128 - prefix_len) as u128))),
{
    let a = addr;
    let b = ip;
    let p = prefix_len;
    if p == 0 {
        assert(a & 0u128 == 0u128 && a | (0xffff_ffff_ffff_ffff_ffff_ffff_ffff_ffffu128 >> 0u128)
            == 0xffff_ffff_ffff_ffff_ffff_ffff_ffff_ffffu128) by (bit_vector);
        assert(v6_hostmask(p) == 0xffff_ffff_ffff_ffff_ffff_ffff_ffff_ffffu128 >> 0u128);
    } else if p == 128 {
        assert(a >> 0u128 == a && b >> 0u128 == b && a & (0xffff_ffff_ffff_ffff_ffff_ffff_ffff_ffffu128
            << 0u128) == a && a | 0u128 == a) by (bit_vector);
        assert(v6_netmask(p) == 0xffff_ffff_ffff_ffff_ffff_ffff_ffff_ffffu128 << 0u128);
        assert(v6_hostmask(p) == 0u128);
        assert(((128 - p) as u128) == 0u128);
    } else {
        let s = (128 - p) as u128;
        let q = p as u128;
        let m = 0xffff_ffff_ffff_ffff_ffff_ffff_ffff_ffffu128 << s;
        let h = 0xffff_ffff_ffff_ffff_ffff_ffff_ffff_ffffu128 >> q;
        assert(1 <= s < 128 && s + q == 128);
        assert(v6_netmask(p) == m);
        assert(v6_hostmask(p) == h);
        assert((a & m) >> s == a >> s) by (bit_vector)
            requires
                1 <= s < 128,
                s + q == 128,
                m == 0xffff_ffff_ffff_ffff_ffff_ffff_ffff_ffffu128 << s,
                h == 0xffff_ffff_ffff_ffff_ffff_ffff_ffff_ffffu128 >> q,
        ;
        assert((a | h) >> s == a >> s) by (bit_vector)
            requires
                1 <= s < 128,
                s + q == 128,
                m == 0xffff_ffff_ffff_ffff_ffff_ffff_ffff_ffffu128 << s,
                h == 0xffff_ffff_ffff_ffff_ffff_ffff_ffff_ffffu128 >> q,
        ;
        assert(b & m <= b) by (bit_vector)
            requires
                1 <= s < 128,
                s + q == 128,
                m == 0xffff_ffff_ffff_ffff_ffff_ffff_ffff_ffffu128 << s,
                h == 0xffff_ffff_ffff_ffff_ffff_ffff_ffff_ffffu128 >> q,
        ;
        assert(b <= b | h) by (bit_vector)
            requires
                1 <= s < 128,
                s + q == 128,
                m == 0xffff_ffff_ffff_ffff_ffff_ffff_ffff_ffffu128 << s,
                h == 0xffff_ffff_ffff_ffff_ffff_ffff_ffff_ffffu128 >> q,
        ;
        assert((a >> s) == (b >> s) ==> a & m == b & m && a | h == (b & m) | h && (b & m) | h
            == b | h) by (bit_vector)
            requires
                1 <= s < 128,
                s + q == 128,
                m == 0xffff_ffff_ffff_ffff_ffff_ffff_ffff_ffffu128 << s,
                h == 0xffff_ffff_ffff_ffff_ffff_ffff_ffff_ffffu128 >> q,
        ;
        if (a & m) <= b && b <= (a | h) {
            lemma_u128_shr_monotone(a & m, b, s);
            lemma_u128_shr_monotone(b, a | h, s);
        }
    }
}

/// What `core::net::IpAddr::from_str` reads from a text: the address, or
/// the text of its error.
pub uninterp spec fn spec_parse_ip(s: Seq<char>) -> Result<IpAddress, Seq<char>>;

/// What `core::net::SocketAddr::from_str` reads from a text: the socket
/// address, or the text of its error.
pub uninterp spec fn spec_parse_socket_addr(s: Seq<char>) -> Result<SocketAddress, Seq<char>>;

/// What `ipnet::IpNet::from_str` reads from a text: the network, or the
/// text of its error.
pub uninterp spec fn spec_parse_ip_network(s: Seq<char>) -> Result<IpNetwork, Seq<char>>;

/// The text that `Display` of `core::net::IpAddr` writes for an address.
pub uninterp spec fn spec_ip_text(ip: IpAddress) -> Seq<char>;

/// The text that `Display` of `core::net::SocketAddr` writes for a socket address.
pub uninterp spec fn spec_socket_addr_text(addr: SocketAddress) -> Seq<char>;

/// The text that `Display` of `ipnet::IpNet` writes for a network.
pub uninterp spec fn spec_ip_network_text(net: IpNetwork) -> Seq<char>;

/// Calls `core::net::IpAddr::from_str` (through `str::parse`); an error is
/// given as the text of its `Display`.
#[verifier::external_body]
pub(crate) fn parse_ip(s: &str) -> (r: Result<IpAddress, String>)
    ensures
        match r {
            Ok(ip) => spec_parse_ip(s@) == Ok::<IpAddress, Seq<char>>(ip),
            Err(e) => spec_parse_ip(s@) == Err::<IpAddress, Seq<char>>(e@),
        },
{
    match s.parse::<core::net::IpAddr>() {
        Ok(core::net::IpAddr::V4(a)) => Ok(IpAddress::V4(u32::from(a))),
        Ok(core::net::IpAddr::V6(a)) => Ok(IpAddress::V6(u128::from(a))),
        Err(e) => Err(e.to_string()),
    }
}

/// Calls `core::net::SocketAddr::from_str` (through `str::parse`); an error
/// is given as the text of its `Display`.
#[verifier::external_body]
pub(crate) fn parse_socket_addr(s: &str) -> (r: Result<SocketAddress, String>)
    ensures
        match r {
            Ok(a) => spec_parse_socket_addr(s@) == Ok::<SocketAddress, Seq<char>>(a),
            Err(e) => spec_parse_socket_addr(s@) == Err::<SocketAddress, Seq<char>>(e@),
        },
{
    match s.parse::<core::net::SocketAddr>() {
        Ok(core::net::SocketAddr::V4(a)) => Ok(
            SocketAddress { ip: IpAddress::V4(u32::from(*a.ip())), port: a.port(), flowinfo: 0, scope_id: 0 },
        ),
        Ok(core::net::SocketAddr::V6(a)) => Ok(
            SocketAddress {
                ip: IpAddress::V6(u128::from(*a.ip())),
                port: a.port(),
                flowinfo: a.flowinfo(),
                scope_id: a.scope_id(),
            },
        ),
        Err(e) => Err(e.to_string()),
    }
}

/// Calls `ipnet::IpNet::from_str` (through `str::parse`); an error is given
/// as the text of its `Display`. A network it reads has a prefix length that
/// fits its family.
#[verifier::external_body]
pub(crate) fn parse_ip_network(s: &str) -> (r: Result<IpNetwork, String>)
    ensures
        match r {
            Ok(n) => spec_parse_ip_network(s@) == Ok::<IpNetwork, Seq<char>>(n) && n.wf(),
            Err(e) => spec_parse_ip_network(s@) == Err::<IpNetwork, Seq<char>>(e@),
        },
{
    match s.parse::<ipnet::IpNet>() {
        Ok(ipnet::IpNet::V4(n)) => Ok(
            IpNetwork { addr: IpAddress::V4(u32::from(n.addr())), prefix_len: n.prefix_len() },
        ),
        Ok(ipnet::IpNet::V6(n)) => Ok(
            IpNetwork { addr: IpAddress::V6(u128::from(n.addr())), prefix_len: n.prefix_len() },
        ),
        Err(e) => Err(e.to_string()),
    }
}

/// Calls `Display` of `core::net::IpAddr` (through `ToString::to_string`).
#[verifier::external_body]
pub(crate) fn ip_text(ip: &IpAddress) -> (r: String)
    ensures
        r@ == spec_ip_text(*ip),
{
    match ip {
        IpAddress::V4(v) => core::net::IpAddr::V4(core::net::Ipv4Addr::from(*v)).to_string(),
        IpAddress::V6(v) => core::net::IpAddr::V6(core::net::Ipv6Addr::from(*v)).to_string(),
    }
}

/// Calls `Display` of `core::net::SocketAddr` (through `ToString::to_string`).
#[verifier::external_body]
pub(crate) fn socket_addr_text(addr: &SocketAddress) -> (r: String)
    ensures
        r@ == spec_socket_addr_text(*addr),
{
    match addr.ip {
        IpAddress::V4(v) => core::net::SocketAddr::new(
            core::net::IpAddr::V4(core::net::Ipv4Addr::from(v)),
            addr.port,
        ).to_string(),
        IpAddress::V6(v) => core::net::SocketAddrV6::new(
            core::net::Ipv6Addr::from(v),
            addr.port,
            addr.flowinfo,
            addr.scope_id,
        ).to_string(),
    }
}

/// Calls `Display` of `ipnet::IpNet` (through `ToString::to_string`) on the
/// network built by `ipnet::IpNet::new`.
#[verifier::external_body]
pub(crate) fn ip_network_text(net: &IpNetwork) -> (r: String)
    requires
        net.wf(),
    ensures
        r@ == spec_ip_network_text(*net),
{
    let addr = match net.addr {
        IpAddress::V4(v) => core::net::IpAddr::V4(core::net::Ipv4Addr::from(v)),
        IpAddress::V6(v) => core::net::IpAddr::V6(core::net::Ipv6Addr::from(v)),
    };
    match ipnet::IpNet::new(addr, net.prefix_len) {
        Ok(n) => n.to_string(),
        Err(e) => e.to_string(),
    }
}

} // verus!
