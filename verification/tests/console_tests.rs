use sock5s::config::{AccessConfig, AccessMode, AppConfig, AuthConfig, LogConfig, UserEntry};
use sock5s::console::{
    diff_fields, error_summary, filter_logs, filtered_logs, last_entries, matches_filter,
    non_empty_line_count, parse_lines, parse_log_line, parse_users, recent_failures, wide,
    ConfigForm, LogEntry, LogFilter, Page, UiPage, log_line_readable, export_line,
};
use sock5s::net::{IpAddress, IpNetwork, SocketAddress};

fn moment(year: i32, month: u32, day: u32, hour: u32, minute: u32, second: u32) -> sock5s::logger::Moment {
    sock5s::logger::Moment {
        date: sock5s::logger::LogDate { year, month, day },
        hour,
        minute,
        second,
        nanosecond: 0,
    }
}

fn entry(ts: &str, kind: &str) -> LogEntry {
    LogEntry {
        timestamp: ts.to_string(),
        kind: kind.to_string(),
        user: "-".to_string(),
        client_ip: "-".to_string(),
        client_addr: "-".to_string(),
        target: "-".to_string(),
        reason: String::new(),
    }
}

#[test]
fn titles_and_labels() {
    assert_eq!(Page::Access.title(), "访问控制");
    assert_eq!(UiPage::Access.title(), "账号与访问控制");
    assert_eq!(UiPage::Logs.note(), "单独查看最近日志、刷新状态和运行过程中的失败原因。");
    assert_eq!(LogFilter::Policy.label(), "策略拦截");
    assert_eq!(entry("t", "").kind_label(), "日志");
    assert_eq!(entry("t", "auth_failed").kind_label(), "auth_failed");
}

#[test]
fn count_non_empty_lines() {
    assert_eq!(non_empty_line_count(""), 0);
    assert_eq!(non_empty_line_count("a\n\n  \nb\r\n"), 2);
    assert_eq!(non_empty_line_count("x"), 1);
}

#[test]
fn users_text_parsing() {
    let users = parse_users("admin=change-me\n\n bob : pw \n").unwrap();
    assert_eq!(users.len(), 2);
    assert_eq!(users[0].username, "admin");
    assert_eq!(users[0].password, "change-me");
    assert_eq!(users[1].username, "bob");
    assert_eq!(users[1].password, "pw");
    assert_eq!(parse_users("a=1\nnoseparator").err().unwrap(), "第 2 行账号格式错误，请使用 `用户名=密码`。");
    assert_eq!(parse_users("\n\n=pw").err().unwrap(), "第 3 行账号格式错误，用户名和密码都不能为空。");
    assert!(parse_users("").unwrap().is_empty());
}

#[test]
fn list_parsing() {
    let ips = parse_lines::<IpAddress>("127.0.0.1\n\n ::1 ", "目标 IP").unwrap();
    assert_eq!(ips, vec![IpAddress::V4(0x7f00_0001), IpAddress::V6(1)]);
    let err = parse_lines::<IpAddress>("1.2.3.4\nbad", "目标 IP").err().unwrap();
    assert_eq!(err, "目标 IP 第 2 行格式错误：bad（invalid IP address syntax）");
    let nets = parse_lines::<IpNetwork>("192.168.0.0/16", "目标网段").unwrap();
    assert_eq!(nets, vec![IpNetwork { addr: IpAddress::V4(0xc0a8_0000), prefix_len: 16 }]);
    assert!(parse_lines::<IpNetwork>("10.0.0.0/33", "目标网段").is_err());
}

#[test]
fn log_lines_read_back() {
    let line = "2024-03-01 12:00:00 event=access_denied user=bob client_ip=1.2.3.4 client_addr=1.2.3.4:9 target=8.8.8.8:53 reason=blocked_target_ip";
    assert!(log_line_readable(line));
    let e = parse_log_line(line).unwrap();
    assert_eq!(e.timestamp, "2024-03-01 12:00:00");
    assert_eq!(e.kind, "access_denied");
    assert_eq!(e.user, "bob");
    assert_eq!(e.client_ip, "1.2.3.4");
    assert_eq!(e.client_addr, "1.2.3.4:9");
    assert_eq!(e.target, "8.8.8.8:53");
    assert_eq!(e.reason, "blocked_target_ip");
    let e = parse_log_line("2024-03-01 12:00:00 protocol=tcp junk").unwrap();
    assert_eq!(e.kind, "访问/tcp");
    assert_eq!(e.user, "-");
    assert_eq!(e.reason, "");
    assert!(parse_log_line("short").is_none());
    assert!(!log_line_readable("2024-03-01 12:00:00"));
}

#[test]
fn filters_and_search() {
    let mut a = entry("2024-01-01 00:00:01", "访问/tcp");
    a.target = "Example.COM:443".to_string();
    let b = entry("2024-01-01 00:00:02", "auth_failed");
    let c = entry("2024-01-01 00:00:03", "server_started");
    assert!(matches_filter(&a, LogFilter::Access));
    assert!(matches_filter(&b, LogFilter::Auth));
    assert!(!matches_filter(&b, LogFilter::Failed));
    assert!(matches_filter(&c, LogFilter::System));
    let all = vec![a.clone(), b.clone(), c.clone()];
    assert_eq!(filter_logs(&all, LogFilter::All, "").len(), 3);
    let found = filter_logs(&all, LogFilter::All, "  example.com ");
    assert_eq!(found.len(), 1);
    assert_eq!(found[0].target, "Example.COM:443");
    assert_eq!(filter_logs(&all, LogFilter::Auth, "").len(), 1);
    let after = filtered_logs(&all, Some("2024-01-01 00:00:01"), LogFilter::All, "");
    assert_eq!(after.len(), 2);
    assert_eq!(after[0].timestamp, "2024-01-01 00:00:02");
}

#[test]
fn recent_failures_keeps_last_eight_in_order() {
    let mut all = Vec::new();
    for i in 0..12 {
        all.push(entry(&format!("t{i:02}"), "connect_failed"));
        all.push(entry(&format!("u{i:02}"), "server_started"));
    }
    let r = recent_failures(&all);
    assert_eq!(r.len(), 8);
    assert_eq!(r[0].timestamp, "t04");
    assert_eq!(r[7].timestamp, "t11");
    assert_eq!(last_entries(&all, 3).len(), 3);
    assert_eq!(last_entries(&all, 100).len(), 24);
}

#[test]
fn form_diff_and_validation() {
    let base = ConfigForm::default();
    assert_eq!(base.listen, "127.0.0.1:1080");
    assert!(base.validate().is_empty());
    let mut cur = base.clone();
    cur.listen = "nope".to_string();
    cur.retention_days = "x".to_string();
    cur.access_mode = AccessMode::Whitelist;
    assert_eq!(diff_fields(&base, &cur), vec!["监听地址", "访问策略", "日志保留天数"]);
    let errors = cur.validate();
    assert_eq!(errors.len(), 3);
    assert!(errors[0].starts_with("监听地址格式错误："));
    assert!(errors[1].starts_with("日志保留天数必须是整数："));
    assert_eq!(errors[2], "白名单模式至少需要填写一个 IP 或 CIDR。");
    assert_eq!(cur.to_config().err().unwrap(), "监听地址格式错误：invalid socket address syntax");
}

#[test]
fn form_to_config_and_back() {
    let form = ConfigForm {
        listen: " 0.0.0.0:1080 ".to_string(),
        users_text: "admin=change-me".to_string(),
        access_mode: AccessMode::Blacklist,
        allow_domains: true,
        ips_text: "127.0.0.1\n10.0.0.5".to_string(),
        cidrs_text: "192.168.0.0/16".to_string(),
        log_dir: " logs ".to_string(),
        retention_days: "7".to_string(),
        max_file_size_mb: "100".to_string(),
    };
    let cfg = form.to_config().unwrap();
    assert_eq!(cfg.listen, SocketAddress { ip: IpAddress::V4(0), port: 1080, flowinfo: 0, scope_id: 0 });
    assert_eq!(cfg.log.dir, "logs");
    assert_eq!(cfg.access.ips.len(), 2);
    let back = ConfigForm::from_config(cfg);
    assert_eq!(back.listen, "0.0.0.0:1080");
    assert_eq!(back.users_text, "admin=change-me");
    assert_eq!(back.ips_text, "127.0.0.1\n10.0.0.5");
    assert_eq!(back.cidrs_text, "192.168.0.0/16");
    assert_eq!(back.retention_days, "7");
    assert_eq!(back.max_file_size_mb, "100");
}

#[test]
fn config_to_form_joins_lines() {
    let cfg = AppConfig {
        listen: SocketAddress { ip: IpAddress::V6(1), port: 80, flowinfo: 0, scope_id: 0 },
        auth: AuthConfig { users: vec![UserEntry { username: "a".to_string(), password: "b".to_string() }] },
        access: AccessConfig { mode: AccessMode::Whitelist, allow_domains: false, ips: vec![], cidrs: vec![] },
        log: LogConfig { dir: "d".to_string(), retention_days: 0, max_file_size_mb: 12345 },
    };
    let f = ConfigForm::from_config(cfg);
    assert_eq!(f.listen, "[::1]:80");
    assert_eq!(f.ips_text, "");
    assert_eq!(f.max_file_size_mb, "12345");
    assert_eq!(f.retention_days, "0");
}

#[test]
fn summaries_and_exports() {
    assert_eq!(error_summary("first\nsecond"), "first");
    assert_eq!(error_summary(""), "发生错误");
    let e = entry("ts", "k");
    assert_eq!(export_line(&e), "ts\tkind=k\tuser=-\tclient_ip=-\tclient_addr=-\ttarget=-\treason=-\n");
    assert_eq!(wide("Ab"), vec![65, 98, 0]);
    assert_eq!(wide("😀"), vec![0xD83D, 0xDE00, 0]);
}

#[test]
fn newest_three_in_sort_order() {
    let keys = vec![Some(5), None, Some(9), Some(5), Some(1), Some(9)];
    assert_eq!(sock5s::console::newest(&keys, 3), vec![3, 2, 5]);
    assert_eq!(sock5s::console::newest(&keys, 10), vec![1, 4, 0, 3, 2, 5]);
    assert!(sock5s::console::newest(&vec![], 3).is_empty());
    assert_eq!(sock5s::console::newest(&vec![None, None], 1), vec![1]);
}

#[test]
fn event_line_reads_back_with_its_fields() {
    let written = sock5s::logger::log_event(&moment(2024, 3, 1, 8, 0, 1), "auth_failed", Some("bob"), "10.0.0.2:5000", "10.0.0.2", None);
    assert!(log_line_readable(&written.line));
    let e = parse_log_line(&written.line).unwrap();
    assert_eq!(e.timestamp, written.stamp.text);
    assert_eq!(e.kind, "auth_failed");
    assert_eq!(e.user, "bob");
    assert_eq!(e.client_ip, "10.0.0.2");
    assert_eq!(e.client_addr, "10.0.0.2:5000");
    assert_eq!(e.target, "-");
    assert_eq!(e.reason, "");
}

#[test]
fn access_line_reads_back_with_its_protocol() {
    let written = sock5s::logger::log_access(&moment(2024, 3, 1, 8, 0, 2), "tcp", None, "10.0.0.2:5000", "10.0.0.2", "1.1.1.1:443");
    assert!(log_line_readable(&written.line));
    let e = parse_log_line(&written.line).unwrap();
    assert_eq!(e.timestamp, written.stamp.text);
    assert_eq!(e.kind, "访问/tcp");
    assert_eq!(e.user, "-");
    assert_eq!(e.client_ip, "10.0.0.2");
    assert_eq!(e.client_addr, "10.0.0.2:5000");
    assert_eq!(e.target, "1.1.1.1:443");
    assert_eq!(e.reason, "");
}

#[test]
fn failure_line_reads_back_with_its_reason() {
    let written = sock5s::logger::log_failure(
        &moment(2024, 3, 1, 8, 0, 3),
        "connect_failed",
        Some("bob"),
        "10.0.0.2:5000",
        "10.0.0.2",
        Some("1.1.1.1:443"),
        "refused",
    );
    let e = parse_log_line(&written.line).unwrap();
    assert_eq!(e.kind, "connect_failed");
    assert_eq!(e.user, "bob");
    assert_eq!(e.target, "1.1.1.1:443");
    assert_eq!(e.reason, "refused");
    let spaced = sock5s::logger::log_failure(&moment(2024, 3, 1, 8, 0, 4), "session_error", None, "a", "b", None, "two words");
    assert_eq!(parse_log_line(&spaced.line).unwrap().reason, "two");
}

#[test]
fn scoped_listen_address_keeps_its_scope() {
    let mut form = ConfigForm::default();
    form.listen = "[fe80::1%2]:1080".to_string();
    let cfg = form.to_config().unwrap();
    assert_eq!(cfg.listen, SocketAddress { ip: IpAddress::V6(0xfe80u128 << 112 | 1), port: 1080, flowinfo: 0, scope_id: 2 });
    assert_eq!(ConfigForm::from_config(cfg).listen, "[fe80::1%2]:1080");
}

#[test]
fn lines_of_far_years_read_back_their_fields() {
    let written = sock5s::logger::log_failure(&moment(12345, 6, 7, 8, 9, 10), "connect_failed", Some("bob"), "c:1", "c", Some("t:2"), "refused");
    assert!(written.line.starts_with("+12345-06-07 08:09:10 event="));
    assert!(log_line_readable(&written.line));
    let e = parse_log_line(&written.line).unwrap();
    assert_eq!(e.timestamp, "+12345-06-07 08:09:");
    assert_eq!(e.kind, "connect_failed");
    assert_eq!(e.user, "bob");
    assert_eq!(e.client_ip, "c");
    assert_eq!(e.client_addr, "c:1");
    assert_eq!(e.target, "t:2");
    assert_eq!(e.reason, "refused");
    let written = sock5s::logger::log_event(&moment(-5, 1, 1, 0, 0, 0), "server_started", None, "a", "b", None);
    let e = parse_log_line(&written.line).unwrap();
    assert_eq!(e.timestamp, "-0005-01-01 00:00:0");
    assert_eq!(e.kind, "server_started");
    assert_eq!(e.target, "-");
}

#[test]
fn configuration_round_trips_through_the_form() {
    let sample = || AppConfig {
        listen: SocketAddress { ip: IpAddress::V6(0xfe80u128 << 112 | 7), port: 1080, flowinfo: 0, scope_id: 3 },
        auth: AuthConfig {
            users: vec![
                UserEntry { username: "admin".to_string(), password: "change-me".to_string() },
                UserEntry { username: "bob".to_string(), password: "p=q r".to_string() },
            ],
        },
        access: AccessConfig {
            mode: AccessMode::Whitelist,
            allow_domains: true,
            ips: vec![IpAddress::V4(0x0a00_0005), IpAddress::V6(1)],
            cidrs: vec![IpNetwork { addr: IpAddress::V4(0xc0a8_0000), prefix_len: 16 }],
        },
        log: LogConfig { dir: "/var/log/x".to_string(), retention_days: 30, max_file_size_mb: 5 },
    };
    let c = sample();
    let back = ConfigForm::from_config(sample()).to_config().unwrap();
    assert_eq!(back.listen, c.listen);
    assert_eq!(back.auth.users.len(), 2);
    assert_eq!(back.auth.users[1].username, "bob");
    assert_eq!(back.auth.users[1].password, "p=q r");
    assert_eq!(back.access.mode, AccessMode::Whitelist);
    assert!(back.access.allow_domains);
    assert_eq!(back.access.ips, c.access.ips);
    assert_eq!(back.access.cidrs, c.access.cidrs);
    assert_eq!(back.log.dir, c.log.dir);
    assert_eq!(back.log.retention_days, 30);
    assert_eq!(back.log.max_file_size_mb, 5);
}
