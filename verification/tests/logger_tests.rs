use sock5s::config::LogConfig;
use sock5s::logger::{init, log_access, log_event, log_failure, LogDate, Moment, ProxyLogger, Rotation, MEGABYTE};

fn date(year: i32, month: u32, day: u32) -> LogDate {
    LogDate { year, month, day }
}

fn at(year: i32, month: u32, day: u32, hour: u32, minute: u32, second: u32, nanosecond: u32) -> Moment {
    Moment { date: date(year, month, day), hour, minute, second, nanosecond }
}

fn logger(max_mb: u64, retention: u64) -> ProxyLogger {
    let cfg = LogConfig { dir: "logs".to_string(), retention_days: retention, max_file_size_mb: max_mb };
    ProxyLogger::new(&cfg, date(2024, 3, 1))
}

#[test]
fn access_line_format() {
    let l = log_access(&at(2024, 3, 1, 9, 5, 7, 0), "tcp", Some("admin"), "1.2.3.4:5555", "1.2.3.4", "9.9.9.9:80");
    assert_eq!(l.stamp.text, "2024-03-01 09:05:07");
    assert_eq!(l.stamp.day, date(2024, 3, 1));
    assert_eq!(
        l.line,
        "2024-03-01 09:05:07 protocol=tcp user=admin client_ip=1.2.3.4 client_addr=1.2.3.4:5555 target=9.9.9.9:80\n"
    );
}

#[test]
fn failure_and_event_lines_use_dashes() {
    let l = log_failure(&at(1999, 12, 31, 23, 59, 59, 999), "auth_failed", None, "a:1", "a", None, "not_socks5_request");
    assert_eq!(l.line, "1999-12-31 23:59:59 event=auth_failed user=- client_ip=a client_addr=a:1 target=- reason=not_socks5_request\n");
    let l = log_event(&at(2024, 1, 2, 0, 0, 0, 0), "server_started", None, "0.0.0.0:1080", "0.0.0.0", Some("x"));
    assert_eq!(l.line, "2024-01-02 00:00:00 event=server_started user=- client_ip=0.0.0.0 client_addr=0.0.0.0:1080 target=x\n");
}

#[test]
fn new_logger_clamps_to_minimums() {
    let l = logger(0, 0);
    assert_eq!(l.retention_days, 1);
    assert_eq!(l.max_file_size, MEGABYTE);
    let l = logger(100, 7);
    assert_eq!(l.retention_days, 7);
    assert_eq!(l.max_file_size, 100 * MEGABYTE);
    let cfg = LogConfig { dir: "d".to_string(), retention_days: 3, max_file_size_mb: 2 };
    let l = init(&cfg, &at(2024, 5, 6, 7, 8, 9, 0));
    assert_eq!(l.current_day, date(2024, 5, 6));
    assert_eq!(l.dir, "d");
    assert_eq!(l.max_file_size, 2 * MEGABYTE);
    assert_eq!(l.current_index, 0);
}

#[test]
fn rotation_plan() {
    let mut l = logger(1, 7);
    let today = date(2024, 3, 1);
    assert_eq!(l.plan(&today, 10), Rotation::Keep);
    assert_eq!(l.plan(&today, 2 * MEGABYTE), Rotation::Keep);
    l.record_written(MEGABYTE - 5);
    assert_eq!(l.plan(&today, 5), Rotation::Keep);
    assert_eq!(l.plan(&today, 6), Rotation::NextFile);
    assert_eq!(l.plan(&date(2024, 3, 2), 1), Rotation::NewDay);
    assert!(l.can_take(&today, 6));
    assert!(!l.can_take(&today, u64::MAX));
    l.advance_file();
    assert_eq!(l.current_index, 1);
    assert_eq!(l.current_size, 0);
    l.start_day(date(2024, 3, 2), 3, 40);
    assert_eq!(l.current_index, 3);
    assert_eq!(l.current_size, 40);
    assert!(l.can_append(10, true));
    assert!(!l.can_append(MEGABYTE, true));
    assert!(l.can_append(MEGABYTE, false));
}

#[test]
fn log_file_names() {
    assert_eq!(ProxyLogger::log_file_name(&date(2024, 3, 1), 0), "proxy-2024-03-01.log");
    assert_eq!(ProxyLogger::log_file_name(&date(2024, 3, 1), 12), "proxy-2024-03-01.12.log");
    let mut l = logger(1, 7);
    l.advance_file();
    assert_eq!(l.next_file_name(), "proxy-2024-03-01.2.log");
}

#[test]
fn file_name_dates_and_cleanup() {
    assert_eq!(ProxyLogger::parse_date_from_file_name("proxy-2024-01-02.log"), Some(date(2024, 1, 2)));
    assert_eq!(ProxyLogger::parse_date_from_file_name("proxy-2024-01-02.3.log"), Some(date(2024, 1, 2)));
    assert_eq!(ProxyLogger::parse_date_from_file_name("other-2024-01-02.log"), None);
    assert_eq!(ProxyLogger::parse_date_from_file_name("proxy-notadate.log"), None);
    let l = logger(1, 7);
    let cutoff = l.cutoff(&date(2024, 3, 1));
    assert_eq!(cutoff, date(2024, 2, 24));
    assert!(ProxyLogger::should_remove("proxy-2024-02-23.log", &cutoff));
    assert!(!ProxyLogger::should_remove("proxy-2024-02-24.log", &cutoff));
    assert!(!ProxyLogger::should_remove("proxy-2024-03-01.2.log", &cutoff));
    assert!(!ProxyLogger::should_remove(".logger-bootstrap", &cutoff));
    let one_day = logger(1, 1);
    assert_eq!(one_day.cutoff(&date(2024, 3, 1)), date(2024, 3, 1));
}

#[test]
fn dates_order() {
    assert!(date(2023, 12, 31).before(&date(2024, 1, 1)));
    assert!(date(2024, 1, 1).before(&date(2024, 1, 2)));
    assert!(!date(2024, 1, 2).before(&date(2024, 1, 2)));
}

#[test]
fn file_names_give_back_their_dates() {
    for (d, i) in [(date(2024, 2, 29), 0u32), (date(0, 1, 1), 3), (date(9999, 12, 31), 42)] {
        let name = ProxyLogger::log_file_name(&d, i);
        assert_eq!(ProxyLogger::parse_date_from_file_name(&name), Some(d));
    }
    assert_eq!(ProxyLogger::log_file_name(&date(7, 3, 9), 0), "proxy-0007-03-09.log");
}

#[test]
fn stamps_follow_the_date_and_time_format() {
    let t = |m: Moment| log_event(&m, "x", None, "a", "b", None).stamp.text;
    assert_eq!(t(at(2024, 2, 29, 13, 4, 5, 123)), "2024-02-29 13:04:05");
    assert_eq!(t(at(2016, 12, 31, 23, 59, 59, 1_500_000_000)), "2016-12-31 23:59:60");
    assert_eq!(t(at(7, 3, 9, 1, 2, 3, 0)), "0007-03-09 01:02:03");
    assert_eq!(t(at(12345, 1, 1, 0, 0, 0, 0)), "+12345-01-01 00:00:00");
    assert_eq!(t(at(-44, 3, 15, 12, 0, 0, 0)), "-0044-03-15 12:00:00");
    assert!(at(2024, 2, 30, 0, 0, 0, 0).is_valid() == false);
    assert!(at(2024, 1, 1, 0, 0, 10, 1_000_000_000).is_valid() == false);
    assert!(at(2023, 2, 28, 23, 59, 59, 1_999_999_999).is_valid());
}

#[test]
fn whitespace_is_the_white_space_property() {
    for v in 0u32..=0x10FFFF {
        if let Some(c) = char::from_u32(v) {
            assert_eq!(sock5s::text::is_whitespace(c), c.is_whitespace(), "{v:#x}");
        }
    }
}
