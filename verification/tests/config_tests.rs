use sock5s::config::{AccessConfig, AccessMode, AuthConfig, LogConfig, UserEntry};
use sock5s::config::{default_log_dir, default_max_file_size_mb, default_retention_days};
use sock5s::net::{IpAddress, IpNetwork};

fn user(name: &str, pass: &str) -> UserEntry {
    UserEntry { username: name.to_string(), password: pass.to_string() }
}

fn v4(a: u8, b: u8, c: u8, d: u8) -> IpAddress {
    IpAddress::V4(u32::from_be_bytes([a, b, c, d]))
}

#[test]
fn auth_without_users_is_none() {
    let cfg = AuthConfig { users: vec![] };
    assert!(cfg.to_state().is_none());
}

#[test]
fn auth_verifies_configured_credentials_only() {
    let cfg = AuthConfig { users: vec![user("admin", "change-me"), user("bob", "pw")] };
    let state = cfg.to_state().expect("users configured");
    assert!(state.verify("admin", "change-me"));
    assert!(state.verify("bob", "pw"));
    assert!(!state.verify("admin", "pw"));
    assert!(!state.verify("bob", "change-me"));
    assert!(!state.verify("", ""));
}

#[test]
fn auth_duplicate_users_are_kept_once() {
    let cfg = AuthConfig { users: vec![user("a", "1"), user("a", "1"), user("b", "2")] };
    let state = cfg.to_state().unwrap();
    let copy = state.clone();
    assert!(copy.verify("a", "1"));
    assert!(copy.verify("b", "2"));
}

#[test]
fn access_empty_blacklist_is_none() {
    let cfg = AccessConfig::default();
    assert!(cfg.to_state().is_none());
}

#[test]
fn access_allow_domains_alone_builds_rules() {
    let cfg = AccessConfig { mode: AccessMode::Blacklist, allow_domains: true, ips: vec![], cidrs: vec![] };
    let state = cfg.to_state().expect("domain forwarding is a rule");
    assert!(state.allow_domains());
    assert!(!state.is_denied(v4(1, 2, 3, 4)));
}

#[test]
fn access_blacklist_denies_listed_ips_and_networks() {
    let cfg = AccessConfig {
        mode: AccessMode::Blacklist,
        allow_domains: false,
        ips: vec![v4(127, 0, 0, 1), v4(10, 0, 0, 5)],
        cidrs: vec![
            IpNetwork { addr: v4(192, 168, 0, 0), prefix_len: 16 },
            IpNetwork { addr: v4(172, 16, 10, 0), prefix_len: 24 },
        ],
    };
    let state = cfg.to_state().unwrap();
    assert!(state.is_denied(v4(127, 0, 0, 1)));
    assert!(state.is_denied(v4(10, 0, 0, 5)));
    assert!(state.is_denied(v4(192, 168, 44, 9)));
    assert!(state.is_denied(v4(172, 16, 10, 200)));
    assert!(!state.is_denied(v4(172, 16, 11, 1)));
    assert!(!state.is_denied(v4(8, 8, 8, 8)));
    assert!(!state.is_denied(IpAddress::V6(1)));
    assert!(!state.allow_domains());
}

#[test]
fn access_whitelist_denies_everything_else() {
    let cfg = AccessConfig {
        mode: AccessMode::Whitelist,
        allow_domains: false,
        ips: vec![v4(8, 8, 8, 8)],
        cidrs: vec![IpNetwork { addr: IpAddress::V6(0xfd00u128 << 112), prefix_len: 8 }],
    };
    let state = cfg.to_state().unwrap();
    assert!(!state.is_denied(v4(8, 8, 8, 8)));
    assert!(state.is_denied(v4(8, 8, 4, 4)));
    assert!(!state.is_denied(IpAddress::V6((0xfd12u128 << 112) | 7)));
    assert!(state.is_denied(IpAddress::V6(1)));
}

#[test]
fn access_empty_whitelist_denies_all() {
    let cfg = AccessConfig { mode: AccessMode::Whitelist, allow_domains: false, ips: vec![], cidrs: vec![] };
    let state = cfg.to_state().unwrap();
    assert!(state.is_denied(v4(1, 1, 1, 1)));
    assert!(state.is_denied(IpAddress::V6(5)));
}

#[test]
fn network_with_host_bits_and_prefix_zero() {
    let net = IpNetwork { addr: v4(172, 16, 123, 123), prefix_len: 16 };
    assert!(net.contains(&v4(172, 16, 0, 0)));
    assert!(net.contains(&v4(172, 16, 255, 255)));
    assert!(!net.contains(&v4(172, 17, 0, 0)));
    let all = IpNetwork { addr: v4(1, 2, 3, 4), prefix_len: 0 };
    assert!(all.contains(&v4(255, 255, 255, 255)));
    assert!(!all.contains(&IpAddress::V6(0)));
    let host = IpNetwork { addr: v4(9, 9, 9, 9), prefix_len: 32 };
    assert!(host.contains(&v4(9, 9, 9, 9)));
    assert!(!host.contains(&v4(9, 9, 9, 8)));
}

#[test]
fn ipv6_network_matches_its_prefix() {
    let net = IpNetwork { addr: IpAddress::V6((0x2001_0db8u128 << 96) | 0xabcd), prefix_len: 32 };
    assert!(net.contains(&IpAddress::V6(0x2001_0db8u128 << 96)));
    assert!(net.contains(&IpAddress::V6((0x2001_0db8u128 << 96) | ((1u128 << 96) - 1))));
    assert!(!net.contains(&IpAddress::V6(0x2001_0db9u128 << 96)));
    assert!(!net.contains(&v4(32, 1, 13, 184)));
    let all = IpNetwork { addr: IpAddress::V6(7), prefix_len: 0 };
    assert!(all.contains(&IpAddress::V6(u128::MAX)));
    let host = IpNetwork { addr: IpAddress::V6(7), prefix_len: 128 };
    assert!(host.contains(&IpAddress::V6(7)));
    assert!(!host.contains(&IpAddress::V6(6)));
}

#[test]
fn network_new_refuses_long_prefix() {
    assert!(IpNetwork::new(v4(1, 2, 3, 4), 33).is_none());
    assert!(IpNetwork::new(v4(1, 2, 3, 4), 32).is_some());
    assert!(IpNetwork::new(IpAddress::V6(0), 129).is_none());
    assert!(IpNetwork::new(IpAddress::V6(0), 128).is_some());
}

#[test]
fn log_config_defaults() {
    let d = LogConfig::default();
    assert_eq!(d.dir, "logs");
    assert_eq!(d.retention_days, 7);
    assert_eq!(d.max_file_size_mb, 100);
    assert_eq!(default_log_dir(), "logs");
    assert_eq!(default_retention_days(), 7);
    assert_eq!(default_max_file_size_mb(), 100);
    assert_eq!(AccessMode::default(), AccessMode::Blacklist);
    assert!(AuthConfig::default().users.is_empty());
}
