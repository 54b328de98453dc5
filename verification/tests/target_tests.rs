use sock5s::error::Error;
use sock5s::net::{IpAddress, SocketAddress};
use sock5s::target::{put_socks5_addr, Socks5Host, Socks5Target};

#[test]
fn target_len_by_address_type() {
    assert_eq!(Socks5Target::target_len(&[1, 0]), Ok(7));
    assert_eq!(Socks5Target::target_len(&[3, 11]), Ok(15));
    assert_eq!(Socks5Target::target_len(&[4, 0]), Ok(19));
    assert_eq!(Socks5Target::target_len(&[2, 0]), Err(Error::AddressTypeNotSupported));
}

#[test]
fn parse_ipv6_target() {
    let mut b = vec![4];
    b.extend_from_slice(&[0x20, 0x01, 0x0d, 0xb8, 0, 0, 0, 0, 0, 0, 0, 0, 0, 0, 0, 1]);
    b.extend_from_slice(&[0x1f, 0x90]);
    let t = Socks5Target::try_from_bytes(&b).unwrap();
    assert_eq!(t.1, 8080);
    match t.0 {
        Socks5Host::IpAddr(ip) => assert_eq!(ip, IpAddress::V6(0x2001_0db8_0000_0000_0000_0000_0000_0001)),
        Socks5Host::Domain(_) => panic!("expected IPv6"),
    }
}

#[test]
fn parse_target_errors() {
    assert!(matches!(Socks5Target::try_from_bytes(&[1, 2, 3]), Err(Error::InvalidTarget)));
    assert!(matches!(Socks5Target::try_from_bytes(&[7, 2, 3]), Err(Error::AddressTypeNotSupported)));
    assert!(matches!(Socks5Target::try_from_bytes(&[3, 1, 0xff, 0, 1]), Err(Error::InvalidTarget)));
    assert!(matches!(Socks5Target::try_from_bytes(&[]), Err(Error::InvalidTarget)));
}

#[test]
fn encoded_address_decodes_back() {
    let addr = SocketAddress { ip: IpAddress::V4(0xc0a8_0001), port: 1080, flowinfo: 0, scope_id: 0 };
    let mut out = Vec::new();
    put_socks5_addr(&mut out, addr);
    assert_eq!(out, vec![1, 192, 168, 0, 1, 4, 56]);
    let t = Socks5Target::try_from_bytes(&out).unwrap();
    assert_eq!(t.1, 1080);
    assert!(matches!(t.0, Socks5Host::IpAddr(ip) if ip == addr.ip));
}
