//! SOCKS5 addresses (RFC 1928): the target of a request and the address of a
//! reply, each an address type byte, the address and a big-endian port.

use vstd::prelude::*;

use crate::error::Error;
use crate::net::{IpAddress, SocketAddress};

verus! {

/// Address type: IPv4 address.
pub const ATYP_IPV4: u8 = 1;

/// Address type: domain name.
pub const ATYP_DOMAIN: u8 = 3;

/// Address type: IPv6 address.
pub const ATYP_IPV6: u8 = 4;

/// The host of a request's target.
pub enum Socks5Host {
    IpAddr(IpAddress),
    Domain(String),
}

/// A request's target: its host and port.
pub struct Socks5Target(pub Socks5Host, pub u16);

/// The host of a target as the contracts speak of it.
pub enum HostView {
    Ip(IpAddress),
    Domain(Seq<char>),
}

impl View for Socks5Host {
    type V = HostView;

    open spec fn view(&self) -> HostView {
        match self {
            Socks5Host::IpAddr(ip) => HostView::Ip(*ip),
            Socks5Host::Domain(name) => HostView::Domain(name@),
        }
    }
}

impl View for Socks5Target {
    type V = (HostView, u16);

    open spec fn view(&self) -> (HostView, u16) {
        (self.0@, self.1)
    }
}

/// The value of a big-endian byte string.
pub open spec fn be_value(s: Seq<u8>) -> nat
    decreases s.len(),
{
    if s.len() == 0 {
        0
    } else {
        be_value(s.drop_last()) * 256 + (s.last() as nat)
    }
}

/// The `n` low bytes of `v`, most significant first.
pub open spec fn be_bytes(v: nat, n: nat) -> Seq<u8>
    decreases n,
{
    if n == 0 {
        Seq::empty()
    } else {
        be_bytes(v / 256, (n - 1) as nat).push((v % 256) as u8)
    }
}

/// 256 to the power `n`.
pub open spec fn pow256(n: nat) -> nat
    decreases n,
{
    if n == 0 {
        1
    } else {
        256 * pow256((n - 1) as nat)
    }
}

/// The length of a target (address type, address and port) that starts with
/// address type `atyp` followed by `first`; none for an unknown address type.
pub open spec fn spec_target_len(atyp: u8, first: u8) -> Option<nat> {
    if atyp == ATYP_IPV4 {
        Some(7)
    } else if atyp == ATYP_DOMAIN {
        Some((first + 4) as nat)
    } else if atyp == ATYP_IPV6 {
        Some(19)
    } else {
        None
    }
}

/// The target that the bytes `b` encode: an address type byte, then four
/// address bytes (IPv4), a length byte and that many name bytes in UTF-8
/// (domain name) or sixteen address bytes (IPv6), then the port, big-endian.
pub open spec fn spec_parse_target(b: Seq<u8>) -> Result<(HostView, u16), Error> {
    if b.len() < 2 {
        Err(Error::InvalidTarget)
    } else {
        match spec_target_len(b[0], b[1]) {
            None => Err(Error::AddressTypeNotSupported),
            Some(n) => if b.len() != n {
                Err(Error::InvalidTarget)
            } else {
                let port = be_value(b.subrange(n - 2, n as int)) as u16;
                if b[0] == ATYP_IPV4 {
                    Ok((HostView::Ip(IpAddress::V4(be_value(b.subrange(1, 5)) as u32)), port))
                } else if b[0] == ATYP_IPV6 {
                    Ok((HostView::Ip(IpAddress::V6(be_value(b.subrange(1, 17)) as u128)), port))
                } else {
                    let name = b.subrange(2, n - 2);
                    if vstd::utf8::valid_utf8(name) {
                        Ok((HostView::Domain(vstd::utf8::decode_utf8(name)), port))
                    } else {
                        Err(Error::InvalidTarget)
                    }
                }
            },
        }
    }
}

/// The SOCKS5 encoding of a socket address: address type, address, port.
pub open spec fn spec_encode_addr(addr: SocketAddress) -> Seq<u8> {
    match addr.ip {
        IpAddress::V4(v) => seq![ATYP_IPV4] + be_bytes(v as nat, 4) + be_bytes(addr.port as nat, 2),
        IpAddress::V6(v) => seq![ATYP_IPV6] + be_bytes(v as nat, 16) + be_bytes(
            addr.port as nat,
            2,
        ),
    }
}

proof fn lemma_be_value_bound(s: Seq<u8>)
    ensures
        be_value(s) < pow256(s.len()),
    decreases s.len(),
{
    if s.len() > 0 {
        lemma_be_value_bound(s.drop_last());
        let a = be_value(s.drop_last());
        let p = pow256(s.drop_last().len());
        let l = s.last() as nat;
        assert(a * 256 + l < 256 * p) by (nonlinear_arith)
            requires
                a < p,
                l < 256,
        ;
    }
}

proof fn lemma_pow256_16()
    ensures
        pow256(4) == 0x1_0000_0000,
        pow256(2) == 0x1_0000,
        pow256(16) == 0x1_0000_0000_0000_0000_0000_0000_0000_0000,
{
    reveal_with_fuel(pow256, 17);
}

/// The value of the `len` bytes of `bytes` from `start`, big-endian.
fn be_read(bytes: &[u8], start: usize, len: usize) -> (r: u128)
    requires
        len <= 16,
        start + len <= bytes@.len(),
    ensures
        r == be_value(bytes@.subrange(start as int, start + len)),
        r < pow256(len as nat),
{
    let total = bytes.len();
    let mut v: u128 = 0;
    let mut i: usize = 0;
    proof {
        assert(bytes@.subrange(start as int, start as int) =~= Seq::<u8>::empty());
        lemma_pow256_16();
    }
    while i < len
        invariant
            i <= len <= 16,
            start + len <= bytes@.len(),
            total == bytes@.len(),
            v == be_value(bytes@.subrange(start as int, start + i)),
            v < pow256(i as nat),
            pow256(16) == 0x1_0000_0000_0000_0000_0000_0000_0000_0000,
        decreases len - i,
    {
        let b = bytes[start + i];
        proof {
            let next = bytes@.subrange(start as int, start + i + 1);
            assert(next.drop_last() =~= bytes@.subrange(start as int, start + i));
            lemma_pow256_monotone((i + 1) as nat, 16);
            assert(v * 256 + b < 256 * pow256(i as nat)) by (nonlinear_arith)
                requires
                    v < pow256(i as nat),
                    b < 256,
            ;
        }
        v = v * 256 + b as u128;
        i = i + 1;
    }
    v
}

proof fn lemma_pow256_monotone(a: nat, b: nat)
    requires
        a <= b,
    ensures
        pow256(a) <= pow256(b),
    decreases b,
{
    if a < b {
        lemma_pow256_monotone(a, (b - 1) as nat);
    }
}

/// Calls `std::str::from_utf8`, which succeeds exactly on valid UTF-8 and
/// then gives the characters that the bytes encode; the result is copied
/// into an owned `String`.
#[verifier::external_body]
pub(crate) fn utf8_to_string(bytes: &[u8]) -> (r: Option<String>)
    ensures
        r is Some <==> vstd::utf8::valid_utf8(bytes@),
        r matches Some(s) ==> s@ == vstd::utf8::decode_utf8(bytes@),
{
    match std::str::from_utf8(bytes) {
        Ok(s) => Some(s.to_owned()),
        Err(_) => None,
    }
}

impl Socks5Target {
    /// The length of the target whose first two bytes are `prefix[0]` (the
    /// address type) and `prefix[1]`.
    pub fn target_len(prefix: &[u8]) -> (r: Result<usize, Error>)
        requires
            prefix@.len() >= 2,
        ensures
            match spec_target_len(prefix@[0], prefix@[1]) {
                Some(n) => r == Ok::<usize, Error>(n as usize),
                None => r == Err::<usize, Error>(Error::AddressTypeNotSupported),
            },
    {
        let atyp = prefix[0];
        if atyp == ATYP_IPV4 {
            Ok(7)
        } else if atyp == ATYP_DOMAIN {
            Ok(prefix[1] as usize + 4)
        } else if atyp == ATYP_IPV6 {
            Ok(19)
        } else {
            Err(Error::AddressTypeNotSupported)
        }
    }

    /// Decodes a target from its bytes.
    pub fn try_from_bytes(b: &[u8]) -> (r: Result<Socks5Target, Error>)
        ensures
            match spec_parse_target(b@) {
                Ok(t) => r matches Ok(x) && x@ == t,
                Err(e) => r == Err::<Socks5Target, Error>(e),
            },
    {
        if b.len() < 2 {
            return Err(Error::InvalidTarget);
        }
        let n = match Socks5Target::target_len(b) {
            Ok(n) => n,
            Err(e) => return Err(e),
        };
        if b.len() != n {
            return Err(Error::InvalidTarget);
        }
        let port = be_read(b, n - 2, 2);
        proof {
            lemma_pow256_16();
        }
        let port = port as u16;
        if b[0] == ATYP_IPV4 {
            let v = be_read(b, 1, 4);
            Ok(Socks5Target(Socks5Host::IpAddr(IpAddress::V4(v as u32)), port))
        } else if b[0] == ATYP_IPV6 {
            let v = be_read(b, 1, 16);
            Ok(Socks5Target(Socks5Host::IpAddr(IpAddress::V6(v)), port))
        } else {
            let name_bytes = vstd::slice::slice_subrange(b, 2, n - 2);
            match utf8_to_string(name_bytes) {
                Some(name) => Ok(Socks5Target(Socks5Host::Domain(name), port)),
                None => Err(Error::InvalidTarget),
            }
        }
    }
}

/// Appends the `n` low bytes of `v`, most significant first.
fn push_be(out: &mut Vec<u8>, v: u128, n: usize)
    requires
        n <= 16,
    ensures
        final(out)@ == old(out)@ + be_bytes(v as nat, n as nat),
    decreases n,
{
    if n > 0 {
        push_be(out, v / 256, n - 1);
        out.push((v % 256) as u8);
        proof {
            assert((v / 256) as nat == (v as nat) / 256);
        }
    } else {
        assert(old(out)@ + Seq::<u8>::empty() =~= old(out)@);
    }
}

/// Appends the SOCKS5 encoding of `addr` to `out`.
pub fn put_socks5_addr(out: &mut Vec<u8>, addr: SocketAddress)
    ensures
        final(out)@ == old(out)@ + spec_encode_addr(addr),
{
    match addr.ip {
        IpAddress::V4(v) => {
            out.push(ATYP_IPV4);
            push_be(out, v as u128, 4);
        },
        IpAddress::V6(v) => {
            out.push(ATYP_IPV6);
            push_be(out, v, 16);
        },
    }
    push_be(out, addr.port as u128, 2);
    proof {
        match addr.ip {
            IpAddress::V4(v) => {
                assert(final(out)@ =~= old(out)@ + (seq![ATYP_IPV4] + be_bytes(v as nat, 4)
                    + be_bytes(addr.port as nat, 2)));
            },
            IpAddress::V6(v) => {
                assert(final(out)@ =~= old(out)@ + (seq![ATYP_IPV6] + be_bytes(v as nat, 16)
                    + be_bytes(addr.port as nat, 2)));
            },
        }
    }
}

proof fn lemma_be_roundtrip(v: nat, n: nat)
    requires
        v < pow256(n),
    ensures
        be_value(be_bytes(v, n)) == v,
        be_bytes(v, n).len() == n,
    decreases n,
{
    if n > 0 {
        let q = v / 256;
        assert(q < pow256((n - 1) as nat)) by (nonlinear_arith)
            requires
                v < 256 * pow256((n - 1) as nat),
                q == v / 256,
        ;
        lemma_be_roundtrip(q, (n - 1) as nat);
        let b = be_bytes(v, n);
        assert(b.drop_last() =~= be_bytes(q, (n - 1) as nat));
        assert(b.last() == (v % 256) as u8);
    }
}

/// Decoding the SOCKS5 encoding of a socket address gives back its IP address
/// and port.
pub proof fn law_encoded_address_decodes(addr: SocketAddress)
    ensures
        spec_parse_target(spec_encode_addr(addr)) == Ok::<(HostView, u16), Error>(
            (HostView::Ip(addr.ip), addr.port),
        ),
{
    lemma_pow256_16();
    lemma_be_roundtrip(addr.port as nat, 2);
    let e = spec_encode_addr(addr);
    match addr.ip {
        IpAddress::V4(v) => {
            lemma_be_roundtrip(v as nat, 4);
            assert(e.subrange(1, 5) =~= be_bytes(v as nat, 4));
            assert(e.subrange(5, 7) =~= be_bytes(addr.port as nat, 2));
        },
        IpAddress::V6(v) => {
            lemma_be_roundtrip(v as nat, 16);
            assert(e.subrange(1, 17) =~= be_bytes(v as nat, 16));
            assert(e.subrange(17, 19) =~= be_bytes(addr.port as nat, 2));
        },
    }
}

} // verus!
