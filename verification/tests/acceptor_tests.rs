use sock5s::acceptor::{Next, Phase, Socks5Acceptor, Step};
use sock5s::config::{AccessConfig, AccessMode, AuthConfig, UserEntry};
use sock5s::error::Error;
use sock5s::event::SessionEvent;
use sock5s::net::{IpAddress, SocketAddress};
use sock5s::target::Socks5Host;
use sock5s::tcp::{ConnectError, Socks5TcpConnector};

fn with_users() -> Socks5Acceptor {
    let cfg = AuthConfig { users: vec![UserEntry { username: "admin".to_string(), password: "secret".to_string() }] };
    Socks5Acceptor::new(cfg.to_state(), None)
}

fn feed(acc: &mut Socks5Acceptor, input: &[u8]) -> Step {
    assert_eq!(acc.expected_len(), Some(input.len()));
    acc.step(input)
}

fn connect_request_v4() -> (Vec<u8>, Vec<u8>) {
    (vec![5, 1, 0, 1, 93], vec![184, 216, 34, 0, 80])
}

#[test]
fn no_auth_handshake_and_connect_request() {
    let mut acc = Socks5Acceptor::new(None, None);
    assert_eq!(acc.expected_len(), Some(2));
    let s = feed(&mut acc, &[5, 2]);
    assert_eq!(s.next, Next::Read(2));
    assert!(s.reply.is_empty());
    let s = feed(&mut acc, &[2, 0]);
    assert_eq!(s.reply, vec![5, 0]);
    assert_eq!(s.next, Next::Read(5));
    let rec = s.record.expect("success is logged");
    assert_eq!(rec.event, SessionEvent::AuthSucceeded);
    assert!(rec.username.is_none());
    let (head, rest) = connect_request_v4();
    let s = feed(&mut acc, &head);
    assert_eq!(s.next, Next::Read(5));
    let s = feed(&mut acc, &rest);
    assert_eq!(s.next, Next::Done);
    assert_eq!(acc.phase, Phase::Done);
    let (cmd, target) = acc.accept().unwrap();
    assert_eq!(cmd, 1);
    assert_eq!(target.1, 80);
    match target.0 {
        Socks5Host::IpAddr(ip) => assert_eq!(ip, IpAddress::V4(u32::from_be_bytes([93, 184, 216, 34]))),
        Socks5Host::Domain(_) => panic!("expected an IP address"),
    }
}

#[test]
fn wrong_version_is_refused_without_reply() {
    let mut acc = Socks5Acceptor::new(None, None);
    let s = feed(&mut acc, &[4, 1]);
    assert_eq!(s.next, Next::Fail(Error::NotSocks5Request));
    assert!(s.reply.is_empty());
    let rec = s.record.unwrap();
    assert_eq!(rec.event, SessionEvent::AuthFailed);
    assert_eq!(rec.reason.unwrap().text(), "not_socks5_request");
    assert_eq!(acc.phase, Phase::Failed);
    assert_eq!(acc.expected_len(), None);
}

#[test]
fn no_acceptable_method_gets_ff() {
    let mut acc = with_users();
    feed(&mut acc, &[5, 1]);
    let s = feed(&mut acc, &[0]);
    assert_eq!(s.reply, vec![5, 0xff]);
    assert_eq!(s.next, Next::Fail(Error::NoSupportedAuthMethod));
    assert_eq!(s.record.unwrap().reason.unwrap().text(), "no_supported_auth_method");
}

#[test]
fn zero_methods_are_read_as_empty() {
    let mut acc = Socks5Acceptor::new(None, None);
    let s = feed(&mut acc, &[5, 0]);
    assert_eq!(s.next, Next::Read(0));
    let s = feed(&mut acc, &[]);
    assert_eq!(s.reply, vec![5, 0xff]);
    assert_eq!(s.next, Next::Fail(Error::NoSupportedAuthMethod));
}

#[test]
fn userpass_success_records_username() {
    let mut acc = with_users();
    feed(&mut acc, &[5, 2]);
    let s = feed(&mut acc, &[0, 2]);
    assert_eq!(s.reply, vec![5, 2]);
    assert_eq!(s.next, Next::Read(2));
    let s = feed(&mut acc, &[1, 5]);
    assert_eq!(s.next, Next::Read(6));
    let mut user = b"admin".to_vec();
    user.push(6);
    let s = feed(&mut acc, &user);
    assert_eq!(s.next, Next::Read(6));
    let s = feed(&mut acc, b"secret");
    assert_eq!(s.reply, vec![1, 0]);
    assert_eq!(s.next, Next::Read(5));
    assert_eq!(acc.username.as_deref(), Some("admin"));
    let rec = s.record.unwrap();
    assert_eq!(rec.event, SessionEvent::AuthSucceeded);
    assert_eq!(rec.username.as_deref(), Some("admin"));
}

#[test]
fn userpass_wrong_password_is_refused() {
    let mut acc = with_users();
    feed(&mut acc, &[5, 1]);
    feed(&mut acc, &[2]);
    feed(&mut acc, &[1, 5]);
    let mut user = b"admin".to_vec();
    user.push(5);
    feed(&mut acc, &user);
    let s = feed(&mut acc, b"wrong");
    assert_eq!(s.reply, vec![1, 1]);
    assert_eq!(s.next, Next::Fail(Error::UserPassAuthFailed));
    let rec = s.record.unwrap();
    assert_eq!(rec.event, SessionEvent::AuthFailed);
    assert_eq!(rec.username.as_deref(), Some("admin"));
    assert_eq!(rec.reason.unwrap().text(), "invalid_username_or_password");
    assert!(acc.username.is_none());
}

#[test]
fn userpass_bad_version_and_bad_utf8() {
    let mut acc = with_users();
    feed(&mut acc, &[5, 1]);
    feed(&mut acc, &[2]);
    let s = feed(&mut acc, &[5, 1]);
    assert_eq!(s.reply, vec![1, 1]);
    assert_eq!(s.next, Next::Fail(Error::InvalidUserPassVersion));

    let mut acc = with_users();
    feed(&mut acc, &[5, 1]);
    feed(&mut acc, &[2]);
    feed(&mut acc, &[1, 1]);
    feed(&mut acc, &[0xff, 1]);
    let s = feed(&mut acc, b"x");
    assert!(s.reply.is_empty());
    assert!(s.record.is_none());
    assert_eq!(s.next, Next::Fail(Error::InvalidUtf8Username));

    let mut acc = with_users();
    feed(&mut acc, &[5, 1]);
    feed(&mut acc, &[2]);
    feed(&mut acc, &[1, 1]);
    feed(&mut acc, &[b'a', 1]);
    let s = feed(&mut acc, &[0xc0]);
    assert_eq!(s.next, Next::Fail(Error::InvalidUtf8Password));
}

#[test]
fn request_errors_get_their_replies() {
    let mut acc = Socks5Acceptor::new(None, None);
    feed(&mut acc, &[5, 1]);
    feed(&mut acc, &[0]);
    let s = feed(&mut acc, &[5, 1, 1, 1, 0]);
    assert!(s.reply.is_empty());
    assert_eq!(s.next, Next::Fail(Error::InvalidRequest));

    let mut acc = Socks5Acceptor::new(None, None);
    feed(&mut acc, &[5, 1]);
    feed(&mut acc, &[0]);
    let s = feed(&mut acc, &[5, 1, 0, 9, 0]);
    assert_eq!(s.reply, vec![5, 8]);
    assert_eq!(s.next, Next::Fail(Error::AddressTypeNotSupported));

    let mut acc = Socks5Acceptor::new(None, None);
    feed(&mut acc, &[5, 1]);
    feed(&mut acc, &[0]);
    feed(&mut acc, &[5, 2, 0, 1, 1]);
    let s = feed(&mut acc, &[2, 3, 4, 0, 80]);
    assert_eq!(s.reply, vec![5, 7]);
    assert_eq!(s.next, Next::Fail(Error::UnsupportedCommand));
}

#[test]
fn domain_request_and_udp_command() {
    let mut acc = Socks5Acceptor::new(None, None);
    feed(&mut acc, &[5, 1]);
    feed(&mut acc, &[0]);
    let s = feed(&mut acc, &[5, 3, 0, 3, 11]);
    assert_eq!(s.next, Next::Read(13));
    let mut rest = b"example.com".to_vec();
    rest.extend_from_slice(&[1, 187]);
    let s = feed(&mut acc, &rest);
    assert_eq!(s.next, Next::Done);
    let (cmd, target) = acc.accept().unwrap();
    assert_eq!(cmd, 3);
    assert_eq!(target.1, 443);
    match target.0 {
        Socks5Host::Domain(name) => assert_eq!(name, "example.com"),
        Socks5Host::IpAddr(_) => panic!("expected a domain"),
    }
}

#[test]
fn closed_and_connected_replies() {
    let mut acc = Socks5Acceptor::new(None, None);
    feed(&mut acc, &[5, 1]);
    feed(&mut acc, &[0]);
    let (head, rest) = connect_request_v4();
    feed(&mut acc, &head);
    feed(&mut acc, &rest);
    assert_eq!(acc.closed(2), vec![5, 2, 0, 1, 93, 184, 216, 34, 0, 80]);
    let local = SocketAddress { ip: IpAddress::V4(u32::from_be_bytes([10, 0, 0, 1])), port: 0x1234, flowinfo: 0, scope_id: 0 };
    assert_eq!(acc.connected(local), vec![5, 0, 0, 1, 10, 0, 0, 1, 0x12, 0x34]);
    let local6 = SocketAddress { ip: IpAddress::V6(1), port: 1, flowinfo: 0, scope_id: 0 };
    let mut expected = vec![5, 0, 0, 4];
    expected.extend_from_slice(&[0; 15]);
    expected.extend_from_slice(&[1, 0, 1]);
    assert_eq!(acc.connected(local6), expected);
}

#[test]
fn connect_failure_replies_and_records() {
    let mut acc = Socks5Acceptor::new(None, None);
    feed(&mut acc, &[5, 1]);
    feed(&mut acc, &[0]);
    let (head, rest) = connect_request_v4();
    feed(&mut acc, &head);
    feed(&mut acc, &rest);
    let refusal = acc.connect_failed(&ConnectError::Blocked, "93.184.216.34:80");
    assert_eq!(refusal.reply, vec![5, 2, 0, 1, 93, 184, 216, 34, 0, 80]);
    assert_eq!(refusal.record.event, SessionEvent::AccessDenied);
    assert_eq!(refusal.record.target.as_deref(), Some("93.184.216.34:80"));
    assert_eq!(refusal.record.reason.unwrap().text(), "blocked_target_ip");
    let refusal = acc.connect_failed(&ConnectError::Io("connection refused".to_string()), "t");
    assert!(refusal.reply.is_empty());
    assert_eq!(refusal.record.event, SessionEvent::ConnectFailed);
    assert_eq!(refusal.record.reason.unwrap().text(), "connection refused");
}

#[test]
fn connector_decisions_follow_rules() {
    let cfg = AccessConfig {
        mode: AccessMode::Blacklist,
        allow_domains: true,
        ips: vec![IpAddress::V4(1)],
        cidrs: vec![],
    };
    let rules = cfg.to_state().unwrap();
    assert!(Socks5TcpConnector::is_denied(IpAddress::V4(1), Some(&rules)));
    assert!(!Socks5TcpConnector::is_denied(IpAddress::V4(1), None));
    assert_eq!(Socks5TcpConnector::ensure_allowed(IpAddress::V4(1), Some(&rules)), Err(Error::TargetBlocked));
    assert_eq!(Socks5TcpConnector::ensure_allowed(IpAddress::V4(2), Some(&rules)), Ok(()));
    let addrs = vec![
        SocketAddress { ip: IpAddress::V4(1), port: 80, flowinfo: 0, scope_id: 0 },
        SocketAddress { ip: IpAddress::V4(3), port: 80, flowinfo: 0, scope_id: 0 },
        SocketAddress { ip: IpAddress::V4(4), port: 80, flowinfo: 0, scope_id: 0 },
    ];
    assert_eq!(Socks5TcpConnector::first_allowed(&addrs, Some(&rules)), Ok(addrs[1]));
    let blocked = vec![SocketAddress { ip: IpAddress::V4(1), port: 80, flowinfo: 0, scope_id: 0 }];
    assert_eq!(Socks5TcpConnector::first_allowed(&blocked, Some(&rules)), Err(Error::TargetBlocked));
    assert_eq!(Socks5TcpConnector::first_allowed(&vec![], None), Err(Error::TargetBlocked));
    let acc = Socks5Acceptor::new(None, Some(rules));
    assert!(acc.allow_domains());
    assert!(!Socks5Acceptor::new(None, None).allow_domains());
}

#[test]
fn error_messages() {
    assert_eq!(Error::NotSocks5Request.message(), "Not socks5 request!");
    assert_eq!(Error::TargetBlocked.message(), "Target address blocked by ruleset!");
    assert_eq!(Error::UnsupportedCommand.message(), "Unsupported request command!");
}
