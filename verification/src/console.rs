//! The logic of the control console: page titles, the configuration form
//! and how it is checked and turned into a configuration, and the log view
//! (reading log lines back, filtering and summarising them).

use vstd::prelude::*;

use crate::config::{AccessConfig, AccessMode, AppConfig, AuthConfig, Credential, LogConfig, UserEntry};
use crate::net::{
    ip_network_text, ip_text, parse_ip, parse_ip_network, parse_socket_addr, socket_addr_text,
    spec_ip_network_text, spec_ip_text, spec_parse_ip, spec_parse_ip_network, spec_parse_socket_addr,
    spec_socket_addr_text, IpAddress, IpNetwork, SocketAddress,
};
use crate::text::{
    parse_u64, spec_parse_u64_error, spec_unsigned_text, contains_text, spec_contains_text, spec_starts_with, spec_to_ascii_lowercase, starts_with,
    to_ascii_lowercase, chars_eq, chars_of, decimal, encode_utf16, lines, spec_decimal, spec_lines, spec_split_once,
    spec_trim, spec_utf16, spec_words, split_once, split_whitespace, string_from_chars, trim, views,
};
use vstd::utf8::{decode_utf8, encode_utf8, is_char_boundary};
use crate::logger::{lemma_stamp_text_shape, or_dash, spec_access_line, spec_event_line, spec_failure_line, spec_stamp_char, spec_stamp_text, Moment};
use crate::text::{lemma_trim_drops_final, lemma_words_push_word, lemma_words_single, spec_digit, spec_digits_value, spec_find, spec_is_digit, spec_is_token, spec_is_whitespace, spec_lines_acc, spec_strip_cr, spec_trim_end, spec_trim_start};

verus! {

/// A page of the egui console.
#[derive(Clone, Copy, Debug, PartialEq, Eq, Structural)]
pub enum Page {
    Overview,
    Basic,
    Access,
    Logs,
}

impl Page {
    /// The page's title.
    pub fn title(self) -> (r: &'static str)
        ensures
            r@ == match self {
                Page::Overview => "概览"@,
                Page::Basic => "基础设置"@,
                Page::Access => "访问控制"@,
                Page::Logs => "日志"@,
            },
    {
        match self {
            Page::Overview => "概览",
            Page::Basic => "基础设置",
            Page::Access => "访问控制",
            Page::Logs => "日志",
        }
    }
}

/// A page of the desktop console.
#[derive(Clone, Copy, Debug, PartialEq, Eq, Structural)]
pub enum UiPage {
    Overview,
    Basic,
    Access,
    Logs,
}

impl UiPage {
    /// The page's title.
    pub fn title(self) -> (r: &'static str)
        ensures
            r@ == match self {
                UiPage::Overview => "概览"@,
                UiPage::Basic => "基础设置"@,
                UiPage::Access => "账号与访问控制"@,
                UiPage::Logs => "日志监控"@,
            },
    {
        match self {
            UiPage::Overview => "概览",
            UiPage::Basic => "基础设置",
            UiPage::Access => "账号与访问控制",
            UiPage::Logs => "日志监控",
        }
    }

    /// The page's note.
    pub fn note(self) -> (r: &'static str)
        ensures
            r@ == match self {
                UiPage::Overview => "集中查看服务状态、配置摘要和日志概况，不再把所有配置都堆在一个长表单里。"@,
                UiPage::Basic => "单独维护监听地址、日志目录和日志保留策略。"@,
                UiPage::Access => "单独维护代理账号、白名单或黑名单策略，以及域名转发开关。"@,
                UiPage::Logs => "单独查看最近日志、刷新状态和运行过程中的失败原因。"@,
            },
    {
        match self {
            UiPage::Overview => "集中查看服务状态、配置摘要和日志概况，不再把所有配置都堆在一个长表单里。",
            UiPage::Basic => "单独维护监听地址、日志目录和日志保留策略。",
            UiPage::Access => "单独维护代理账号、白名单或黑名单策略，以及域名转发开关。",
            UiPage::Logs => "单独查看最近日志、刷新状态和运行过程中的失败原因。",
        }
    }
}

/// A class of log events that the log view can show alone.
#[derive(Clone, Copy, Debug, PartialEq, Eq, Structural)]
pub enum LogFilter {
    All,
    Access,
    Auth,
    Failed,
    Policy,
    System,
}

impl LogFilter {
    /// The class's label.
    pub fn label(self) -> (r: &'static str)
        ensures
            r@ == match self {
                LogFilter::All => "全部事件"@,
                LogFilter::Access => "访问成功"@,
                LogFilter::Auth => "认证事件"@,
                LogFilter::Failed => "连接失败"@,
                LogFilter::Policy => "策略拦截"@,
                LogFilter::System => "系统事件"@,
            },
    {
        match self {
            LogFilter::All => "全部事件",
            LogFilter::Access => "访问成功",
            LogFilter::Auth => "认证事件",
            LogFilter::Failed => "连接失败",
            LogFilter::Policy => "策略拦截",
            LogFilter::System => "系统事件",
        }
    }
}

/// A log line read back: its moment, its kind (an event's name, or the
/// protocol of a relayed connection after `访问/`), and its fields.
pub struct LogEntry {
    pub timestamp: String,
    pub kind: String,
    pub user: String,
    pub client_ip: String,
    pub client_addr: String,
    pub target: String,
    pub reason: String,
}

/// A log entry as the contracts speak of it.
pub struct EntryView {
    pub timestamp: Seq<char>,
    pub kind: Seq<char>,
    pub user: Seq<char>,
    pub client_ip: Seq<char>,
    pub client_addr: Seq<char>,
    pub target: Seq<char>,
    pub reason: Seq<char>,
}

impl View for LogEntry {
    type V = EntryView;

    open spec fn view(&self) -> EntryView {
        EntryView {
            timestamp: self.timestamp@,
            kind: self.kind@,
            user: self.user@,
            client_ip: self.client_ip@,
            client_addr: self.client_addr@,
            target: self.target@,
            reason: self.reason@,
        }
    }
}

impl Clone for LogEntry {
    fn clone(&self) -> (r: Self)
        ensures
            r@ == self@,
    {
        LogEntry {
            timestamp: self.timestamp.clone(),
            kind: self.kind.clone(),
            user: self.user.clone(),
            client_ip: self.client_ip.clone(),
            client_addr: self.client_addr.clone(),
            target: self.target.clone(),
            reason: self.reason.clone(),
        }
    }
}

impl LogEntry {
    /// The entry's kind, or `日志` when it has none.
    pub fn kind_label(&self) -> (r: &str)
        ensures
            r@ == if self.kind@.len() == 0 {
                "日志"@
            } else {
                self.kind@
            },
    {
        if self.kind.as_str().is_empty() {
            "日志"
        } else {
            self.kind.as_str()
        }
    }
}

/// The views of a sequence of log entries.
pub open spec fn entry_views(s: Seq<LogEntry>) -> Seq<EntryView> {
    s.map_values(|e: LogEntry| e@)
}

/// How many of `ls` are not blank.
pub open spec fn spec_count_non_blank(ls: Seq<Seq<char>>) -> nat
    decreases ls.len(),
{
    if ls.len() == 0 {
        0
    } else {
        spec_count_non_blank(ls.drop_last()) + if spec_trim(ls.last()).len() > 0 {
            1nat
        } else {
            0nat
        }
    }
}

/// How many lines of `input` hold more than whitespace.
pub fn non_empty_line_count(input: &str) -> (r: usize)
    ensures
        r == spec_count_non_blank(spec_lines(input@)),
{
    let cs = chars_of(input);
    let ls = lines(cs.as_slice());
    let mut count: usize = 0;
    let n = ls.len();
    for i in 0..n
        invariant
            n == ls@.len(),
            views(ls@) == spec_lines(input@),
            count == spec_count_non_blank(views(ls@).take(i as int)),
            count <= i,
    {
        proof {
            assert(views(ls@).take(i + 1).drop_last() =~= views(ls@).take(i as int));
        }
        let t = trim(ls[i].as_slice());
        if t.len() > 0 {
            count = count + 1;
        }
    }
    proof {
        assert(views(ls@).take(n as int) =~= views(ls@));
    }
    count
}

/// The UTF-16 encoding of `value` followed by a terminating zero, as window
/// titles are handed to the Windows API.
pub fn wide(value: &str) -> (r: Vec<u16>)
    ensures
        r@ == spec_utf16(value@).push(0u16),
{
    let cs = chars_of(value);
    let mut r = encode_utf16(cs.as_slice());
    r.push(0u16);
    r
}

/// What a line of the accounts text says.
pub enum UserLine {
    /// Nothing but whitespace.
    Blank,
    /// An account: username and password.
    Entry(Credential),
    /// A malformed line, with the message that reports it.
    Bad(Seq<char>),
}

/// The message about line `number` of a text.
pub open spec fn spec_line_message(number: nat, tail: Seq<char>) -> Seq<char> {
    "第 "@ + spec_decimal(number) + tail
}

/// What line `number` of the accounts text says: `username=password`, or
/// `username:password` when there is no `=`, each part trimmed and neither empty.
pub open spec fn spec_user_line(line: Seq<char>, number: nat) -> UserLine {
    let entry = spec_trim(line);
    if entry.len() == 0 {
        UserLine::Blank
    } else {
        let pair = match spec_split_once(entry, '=') {
            Some(p) => Some(p),
            None => spec_split_once(entry, ':'),
        };
        match pair {
            None => UserLine::Bad(
                spec_line_message(number, " 行账号格式错误，请使用 `用户名=密码`。"@),
            ),
            Some((u, p)) => if spec_trim(u).len() == 0 || spec_trim(p).len() == 0 {
                UserLine::Bad(spec_line_message(number, " 行账号格式错误，用户名和密码都不能为空。"@))
            } else {
                UserLine::Entry((spec_trim(u), spec_trim(p)))
            },
        }
    }
}

/// The accounts that the first `k` lines give, or the message about the
/// first malformed one.
pub open spec fn spec_parse_users_upto(ls: Seq<Seq<char>>, k: nat) -> Result<Seq<Credential>, Seq<char>>
    decreases k,
{
    if k == 0 || k > ls.len() {
        Ok(seq![])
    } else {
        match spec_parse_users_upto(ls, (k - 1) as nat) {
            Err(e) => Err(e),
            Ok(v) => match spec_user_line(ls[k - 1], k) {
                UserLine::Blank => Ok(v),
                UserLine::Entry(c) => Ok(v.push(c)),
                UserLine::Bad(m) => Err(m),
            },
        }
    }
}

/// The accounts that a text gives, one per line, or the message about its
/// first malformed line.
pub open spec fn spec_parse_users(input: Seq<char>) -> Result<Seq<Credential>, Seq<char>> {
    spec_parse_users_upto(spec_lines(input), spec_lines(input).len())
}

/// The credentials of a list of accounts, in order.
pub open spec fn user_views(users: Seq<UserEntry>) -> Seq<Credential> {
    users.map_values(|u: UserEntry| u@)
}

proof fn lemma_users_error_persists(ls: Seq<Seq<char>>, k: nat, k2: nat)
    requires
        spec_parse_users_upto(ls, k) is Err,
        1 <= k <= k2 <= ls.len(),
    ensures
        spec_parse_users_upto(ls, k2) == spec_parse_users_upto(ls, k),
    decreases k2 - k,
{
    if k2 > k {
        lemma_users_error_persists(ls, k, (k2 - 1) as nat);
    }
}

proof fn lemma_lines_error_persists<T: LineValue>(ls: Seq<Seq<char>>, label: Seq<char>, k: nat, k2: nat)
    requires
        spec_parse_lines_upto::<T>(ls, label, k) is Err,
        1 <= k <= k2 <= ls.len(),
    ensures
        spec_parse_lines_upto::<T>(ls, label, k2) == spec_parse_lines_upto::<T>(ls, label, k),
    decreases k2 - k,
{
    if k2 > k {
        lemma_lines_error_persists::<T>(ls, label, k, (k2 - 1) as nat);
    }
}

fn line_message(number: usize, tail: &str) -> (r: String)
    ensures
        r@ == spec_line_message(number as nat, tail@),
{
    let mut m = String::from_str("第 ");
    let digits = decimal(number as u64);
    m.append(digits.as_str());
    m.append(tail);
    m
}

fn parse_user_line(line: &[char], number: usize) -> (r: Result<Option<UserEntry>, String>)
    ensures
        match spec_user_line(line@, number as nat) {
            UserLine::Blank => r matches Ok(None),
            UserLine::Entry(c) => r matches Ok(Some(u)) && u@ == c,
            UserLine::Bad(m) => r matches Err(e) && e@ == m,
        },
{
    let entry = trim(line);
    if entry.len() == 0 {
        return Ok(None);
    }
    let pair = match split_once(entry.as_slice(), '=') {
        Some(p) => Some(p),
        None => split_once(entry.as_slice(), ':'),
    };
    let (u, p) = match pair {
        Some(x) => x,
        None => {
            return Err(line_message(number, " 行账号格式错误，请使用 `用户名=密码`。"));
        },
    };
    let username = trim(u.as_slice());
    let password = trim(p.as_slice());
    if username.len() == 0 || password.len() == 0 {
        return Err(line_message(number, " 行账号格式错误，用户名和密码都不能为空。"));
    }
    Ok(
        Some(
            UserEntry {
                username: string_from_chars(username.as_slice()),
                password: string_from_chars(password.as_slice()),
            },
        ),
    )
}

/// The accounts that the text `input` gives, one `username=password` (or
/// `username:password`) per line, blank lines skipped; a malformed line is
/// reported by its number.
pub fn parse_users(input: &str) -> (r: Result<Vec<UserEntry>, String>)
    ensures
        match spec_parse_users(input@) {
            Ok(v) => r matches Ok(users) && user_views(users@) == v,
            Err(m) => r matches Err(e) && e@ == m,
        },
{
    let cs = chars_of(input);
    let ls = lines(cs.as_slice());
    let n = ls.len();
    let mut users: Vec<UserEntry> = Vec::new();
    proof {
        assert(user_views(users@) =~= seq![]);
    }
    for i in 0..n
        invariant
            n == ls@.len(),
            views(ls@) == spec_lines(input@),
            spec_parse_users_upto(views(ls@), i as nat) == Ok::<Seq<Credential>, Seq<char>>(
                user_views(users@),
            ),
    {
        let ghost prev = user_views(users@);
        proof {
            assert(views(ls@)[i as int] == ls@[i as int]@);
        }
        match parse_user_line(ls[i].as_slice(), i + 1) {
            Err(m) => {
                proof {
                    lemma_users_error_persists(views(ls@), (i + 1) as nat, n as nat);
                }
                return Err(m);
            },
            Ok(None) => {},
            Ok(Some(u)) => {
                let ghost uv = u@;
                users.push(u);
                proof {
                    assert(user_views(users@) =~= prev.push(uv));
                }
            },
        }
    }
    Ok(users)
}

/// A value that is read from a line of text.
pub trait LineValue: Sized {
    /// What a text reads as: a value, or the text of the error.
    spec fn spec_parse_line(s: Seq<char>) -> Result<Self, Seq<char>>;

    /// Whether a value is one that reading can give.
    spec fn spec_line_value_ok(&self) -> bool;

    /// Reads a value from a text.
    fn parse_line(s: &str) -> (r: Result<Self, String>)
        ensures
            match r {
                Ok(v) => Self::spec_parse_line(s@) == Ok::<Self, Seq<char>>(v) && v.spec_line_value_ok(),
                Err(e) => Self::spec_parse_line(s@) == Err::<Self, Seq<char>>(e@),
            },
    ;
}

impl LineValue for IpAddress {
    open spec fn spec_parse_line(s: Seq<char>) -> Result<Self, Seq<char>> {
        spec_parse_ip(s)
    }

    open spec fn spec_line_value_ok(&self) -> bool {
        true
    }

    fn parse_line(s: &str) -> (r: Result<Self, String>) {
        parse_ip(s)
    }
}

impl LineValue for IpNetwork {
    open spec fn spec_parse_line(s: Seq<char>) -> Result<Self, Seq<char>> {
        spec_parse_ip_network(s)
    }

    open spec fn spec_line_value_ok(&self) -> bool {
        self.wf()
    }

    fn parse_line(s: &str) -> (r: Result<Self, String>) {
        parse_ip_network(s)
    }
}

/// The message about a line `entry`, number `number`, of the list `label`
/// that does not read as a value.
pub open spec fn spec_list_message(label: Seq<char>, number: nat, entry: Seq<char>, err: Seq<char>) -> Seq<char> {
    label + " 第 "@ + spec_decimal(number) + " 行格式错误："@ + entry + "（"@ + err + "）"@
}

/// The values that the first `k` lines give, or the message about the
/// first line that does not read as a value.
pub open spec fn spec_parse_lines_upto<T: LineValue>(ls: Seq<Seq<char>>, label: Seq<char>, k: nat) -> Result<Seq<T>, Seq<char>>
    decreases k,
{
    if k == 0 || k > ls.len() {
        Ok(seq![])
    } else {
        match spec_parse_lines_upto::<T>(ls, label, (k - 1) as nat) {
            Err(e) => Err(e),
            Ok(v) => {
                let entry = spec_trim(ls[k - 1]);
                if entry.len() == 0 {
                    Ok(v)
                } else {
                    match T::spec_parse_line(entry) {
                        Ok(x) => Ok(v.push(x)),
                        Err(err) => Err(spec_list_message(label, k, entry, err)),
                    }
                }
            },
        }
    }
}

/// The values that a text gives, one per line, blank lines skipped, or the
/// message about its first line that does not read as a value.
pub open spec fn spec_parse_lines<T: LineValue>(input: Seq<char>, label: Seq<char>) -> Result<Seq<T>, Seq<char>> {
    spec_parse_lines_upto::<T>(spec_lines(input), label, spec_lines(input).len())
}

/// The values that the text `input` gives, one per line, blank lines
/// skipped; a line that does not read as a value is reported by the list's
/// label, its number, its text and the error.
pub fn parse_lines<T: LineValue>(input: &str, label: &str) -> (r: Result<Vec<T>, String>)
    ensures
        match spec_parse_lines::<T>(input@, label@) {
            Ok(v) => r matches Ok(values) && values@ == v,
            Err(m) => r matches Err(e) && e@ == m,
        },
        r matches Ok(values) ==> forall|i: int| 0 <= i < values@.len() ==> (#[trigger] values@[i]).spec_line_value_ok(),
{
    let cs = chars_of(input);
    let ls = lines(cs.as_slice());
    let n = ls.len();
    let mut values: Vec<T> = Vec::new();
    for i in 0..n
        invariant
            n == ls@.len(),
            views(ls@) == spec_lines(input@),
            spec_parse_lines_upto::<T>(views(ls@), label@, i as nat) == Ok::<Seq<T>, Seq<char>>(values@),
            forall|j: int| 0 <= j < values@.len() ==> (#[trigger] values@[j]).spec_line_value_ok(),
    {
        let entry = trim(ls[i].as_slice());
        proof {
            assert(views(ls@)[i as int] == ls@[i as int]@);
        }
        if entry.len() > 0 {
            let text = string_from_chars(entry.as_slice());
            match T::parse_line(text.as_str()) {
                Ok(v) => {
                    values.push(v);
                },
                Err(err) => {
                    let mut m = String::from_str(label);
                    m.append(" 第 ");
                    let digits = decimal((i + 1) as u64);
                    m.append(digits.as_str());
                    m.append(" 行格式错误：");
                    m.append(text.as_str());
                    m.append("（");
                    m.append(err.as_str());
                    m.append("）");
                    proof {
                        lemma_lines_error_persists::<T>(views(ls@), label@, (i + 1) as nat, n as nat);
                    }
                    return Err(m);
                },
            }
        }
    }
    Ok(values)
}

/// The bytes of a log line once trimmed.
pub open spec fn spec_log_line_bytes(line: Seq<char>) -> Seq<u8> {
    encode_utf8(spec_trim(line))
}

/// Whether a line can be read back at all: once trimmed, it is shorter than
/// the 19 bytes of a timestamp, or it has more than 19 bytes and characters
/// start at bytes 19 and 20.
pub open spec fn spec_log_line_readable(line: Seq<char>) -> bool {
    let b = spec_log_line_bytes(line);
    b.len() < 19 || (b.len() >= 20 && is_char_boundary(b, 19) && is_char_boundary(b, 20))
}

/// The entry that a line starts as: its timestamp, kind `日志`, `-` for the
/// user, the client and the target, and no reason.
pub open spec fn spec_initial_entry(timestamp: Seq<char>) -> EntryView {
    EntryView {
        timestamp,
        kind: "日志"@,
        user: "-"@,
        client_ip: "-"@,
        client_addr: "-"@,
        target: "-"@,
        reason: seq![],
    }
}

/// The entry after the word `key=value` of a line: a known key sets its field
/// (`protocol` sets the kind to `访问/` and the protocol, `event` the kind);
/// other words change nothing.
#[verifier::opaque]
pub open spec fn spec_apply_field(e: EntryView, word: Seq<char>) -> EntryView {
    match spec_split_once(word, '=') {
        None => e,
        Some((key, value)) => if key == "protocol"@ {
            EntryView { kind: "访问/"@ + value, ..e }
        } else if key == "event"@ {
            EntryView { kind: value, ..e }
        } else if key == "user"@ {
            EntryView { user: value, ..e }
        } else if key == "client_ip"@ {
            EntryView { client_ip: value, ..e }
        } else if key == "client_addr"@ {
            EntryView { client_addr: value, ..e }
        } else if key == "target"@ {
            EntryView { target: value, ..e }
        } else if key == "reason"@ {
            EntryView { reason: value, ..e }
        } else {
            e
        },
    }
}

/// The entry after the words of a line, in order.
pub open spec fn spec_apply_fields(e: EntryView, words: Seq<Seq<char>>) -> EntryView
    decreases words.len(),
{
    if words.len() == 0 {
        e
    } else {
        spec_apply_field(spec_apply_fields(e, words.drop_last()), words.last())
    }
}

/// The entry that a log line gives: none when it is shorter than a
/// timestamp; else its first 19 bytes as the timestamp, and the words after
/// the 20th byte as fields.
pub open spec fn spec_parse_log_line(line: Seq<char>) -> Option<EntryView> {
    let b = spec_log_line_bytes(line);
    if b.len() < 19 {
        None
    } else {
        Some(
            spec_apply_fields(
                spec_initial_entry(decode_utf8(b.subrange(0, 19))),
                spec_words(decode_utf8(b.subrange(20, b.len() as int))),
            ),
        )
    }
}

/// Whether `parse_log_line` can read the line.
pub fn log_line_readable(line: &str) -> (r: bool)
    ensures
        r == spec_log_line_readable(line@),
{
    let cs = chars_of(line);
    let t = trim(cs.as_slice());
    let text = string_from_chars(t.as_slice());
    let s = text.as_str();
    let n = s.as_bytes().len();
    n < 19 || (n >= 20 && s.is_char_boundary(19) && s.is_char_boundary(20))
}

fn key_is(key: &[char], name: &str) -> (r: bool)
    ensures
        r == (key@ == name@),
{
    let n = chars_of(name);
    chars_eq(key, n.as_slice())
}

/// The entry that a log line gives.
pub fn parse_log_line(line: &str) -> (r: Option<LogEntry>)
    requires
        spec_log_line_readable(line@),
    ensures
        match spec_parse_log_line(line@) {
            Some(e) => r matches Some(x) && x@ == e,
            None => r is None,
        },
{
    let cs = chars_of(line);
    let t = trim(cs.as_slice());
    let text = string_from_chars(t.as_slice());
    let s = text.as_str();
    if s.as_bytes().len() < 19 {
        return None;
    }
    let (head, _) = s.split_at(19);
    let (_, rest) = s.split_at(20);
    proof {
        vstd::utf8::encode_utf8_decode_utf8(head@);
        vstd::utf8::encode_utf8_decode_utf8(rest@);
    }
    let mut entry = LogEntry {
        timestamp: head.to_owned(),
        kind: String::from_str("日志"),
        user: String::from_str("-"),
        client_ip: String::from_str("-"),
        client_addr: String::from_str("-"),
        target: String::from_str("-"),
        reason: String::new(),
    };
    let rest_chars = chars_of(rest);
    let words = split_whitespace(rest_chars.as_slice());
    let n = words.len();
    proof {
        assert(entry@ == spec_initial_entry(head@));
    }
    for i in 0..n
        invariant
            n == words@.len(),
            views(words@) == spec_words(rest@),
            entry@ == spec_apply_fields(spec_initial_entry(head@), views(words@).take(i as int)),
    {
        proof {
            reveal(spec_apply_field);
            assert(views(words@).take(i + 1).drop_last() =~= views(words@).take(i as int));
            assert(views(words@)[i as int] == words@[i as int]@);
        }
        match split_once(words[i].as_slice(), '=') {
            Some((key, value)) => {
                let v = string_from_chars(value.as_slice());
                if key_is(key.as_slice(), "protocol") {
                    let mut kind = String::from_str("访问/");
                    kind.append(v.as_str());
                    entry.kind = kind;
                } else if key_is(key.as_slice(), "event") {
                    entry.kind = v;
                } else if key_is(key.as_slice(), "user") {
                    entry.user = v;
                } else if key_is(key.as_slice(), "client_ip") {
                    entry.client_ip = v;
                } else if key_is(key.as_slice(), "client_addr") {
                    entry.client_addr = v;
                } else if key_is(key.as_slice(), "target") {
                    entry.target = v;
                } else if key_is(key.as_slice(), "reason") {
                    entry.reason = v;
                }
            },
            None => {},
        }
    }
    proof {
        assert(views(words@).take(n as int) =~= views(words@));
    }
    Some(entry)
}

/// Whether an entry of kind `kind` belongs to the class `f`.
pub open spec fn spec_matches_filter(kind: Seq<char>, f: LogFilter) -> bool {
    match f {
        LogFilter::All => true,
        LogFilter::Access => spec_starts_with(kind, "访问/"@),
        LogFilter::Auth => kind == "auth_succeeded"@ || kind == "auth_failed"@,
        LogFilter::Failed => kind == "connect_failed"@ || kind == "session_error"@,
        LogFilter::Policy => kind == "access_denied"@,
        LogFilter::System => kind == "server_started"@ || kind == "server_stopped"@ || kind
            == "connection_closed"@,
    }
}

/// Whether `entry` belongs to the class `filter`.
pub fn matches_filter(entry: &LogEntry, filter: LogFilter) -> (r: bool)
    ensures
        r == spec_matches_filter(entry.kind@, filter),
{
    let kind = chars_of(entry.kind.as_str());
    match filter {
        LogFilter::All => true,
        LogFilter::Access => {
            let p = chars_of("访问/");
            starts_with(kind.as_slice(), p.as_slice())
        },
        LogFilter::Auth => key_is(kind.as_slice(), "auth_succeeded") || key_is(
            kind.as_slice(),
            "auth_failed",
        ),
        LogFilter::Failed => key_is(kind.as_slice(), "connect_failed") || key_is(
            kind.as_slice(),
            "session_error",
        ),
        LogFilter::Policy => key_is(kind.as_slice(), "access_denied"),
        LogFilter::System => key_is(kind.as_slice(), "server_started") || key_is(
            kind.as_slice(),
            "server_stopped",
        ) || key_is(kind.as_slice(), "connection_closed"),
    }
}

/// The text that the keyword search looks in: the entry's fields separated by spaces.
pub open spec fn spec_haystack(e: EntryView) -> Seq<char> {
    e.timestamp + " "@ + e.kind + " "@ + e.user + " "@ + e.client_ip + " "@ + e.client_addr + " "@
        + e.target + " "@ + e.reason
}

/// Whether the log view shows `e` under `filter` and the lower-case keyword `keyword`.
pub open spec fn spec_shown(e: EntryView, filter: LogFilter, keyword: Seq<char>) -> bool {
    spec_matches_filter(e.kind, filter) && (keyword.len() == 0 || spec_contains_text(
        spec_to_ascii_lowercase(spec_haystack(e)),
        keyword,
    ))
}

/// The entries of `es` that the log view shows, in order.
pub open spec fn spec_filter_entries(es: Seq<EntryView>, filter: LogFilter, keyword: Seq<char>) -> Seq<EntryView>
    decreases es.len(),
{
    if es.len() == 0 {
        seq![]
    } else {
        let rest = spec_filter_entries(es.drop_last(), filter, keyword);
        if spec_shown(es.last(), filter, keyword) {
            rest.push(es.last())
        } else {
            rest
        }
    }
}

fn haystack(e: &LogEntry) -> (r: String)
    ensures
        r@ == spec_haystack(e@),
{
    let mut h = e.timestamp.clone();
    h.append(" ");
    h.append(e.kind.as_str());
    h.append(" ");
    h.append(e.user.as_str());
    h.append(" ");
    h.append(e.client_ip.as_str());
    h.append(" ");
    h.append(e.client_addr.as_str());
    h.append(" ");
    h.append(e.target.as_str());
    h.append(" ");
    h.append(e.reason.as_str());
    h
}

/// The entries that belong to `filter` and, when the trimmed keyword is not
/// empty, hold it in some field, letters compared without ASCII case.
pub fn filter_logs(entries: &[LogEntry], filter: LogFilter, keyword: &str) -> (r: Vec<LogEntry>)
    ensures
        entry_views(r@) == spec_filter_entries(
            entry_views(entries@),
            filter,
            spec_to_ascii_lowercase(spec_trim(keyword@)),
        ),
{
    let kc = chars_of(keyword);
    let kt = trim(kc.as_slice());
    let kw = to_ascii_lowercase(kt.as_slice());
    let ghost k = spec_to_ascii_lowercase(spec_trim(keyword@));
    let mut r: Vec<LogEntry> = Vec::new();
    let n = entries.len();
    proof {
        assert(entry_views(r@) =~= seq![]);
        assert(entry_views(entries@).take(0) =~= seq![]);
    }
    for i in 0..n
        invariant
            n == entries@.len(),
            kw@ == k,
            entry_views(r@) == spec_filter_entries(entry_views(entries@).take(i as int), filter, k),
    {
        proof {
            assert(entry_views(entries@).take(i + 1).drop_last() =~= entry_views(entries@).take(
                i as int,
            ));
            assert(entry_views(entries@)[i as int] == entries@[i as int]@);
        }
        let e = &entries[i];
        let keep = if matches_filter(e, filter) {
            if kw.len() == 0 {
                true
            } else {
                let h = haystack(e);
                let hc = chars_of(h.as_str());
                let hl = to_ascii_lowercase(hc.as_slice());
                contains_text(hl.as_slice(), kw.as_slice())
            }
        } else {
            false
        };
        if keep {
            let ghost before = entry_views(r@);
            r.push(e.clone());
            proof {
                assert(entry_views(r@) =~= before.push(entries@[i as int]@));
            }
        }
    }
    proof {
        assert(entry_views(entries@).take(n as int) =~= entry_views(entries@));
    }
    r
}

/// Whether an entry of kind `kind` reports a failure.
pub open spec fn spec_is_failure(kind: Seq<char>) -> bool {
    kind == "auth_failed"@ || kind == "connect_failed"@ || kind == "access_denied"@ || kind
        == "session_error"@
}

/// The failures among `es`, in order.
pub open spec fn spec_failures(es: Seq<EntryView>) -> Seq<EntryView>
    decreases es.len(),
{
    if es.len() == 0 {
        seq![]
    } else {
        let rest = spec_failures(es.drop_last());
        if spec_is_failure(es.last().kind) {
            rest.push(es.last())
        } else {
            rest
        }
    }
}

/// The last `n` of `s`, in order (all of `s` when it is shorter).
pub open spec fn spec_last_n<A>(s: Seq<A>, n: nat) -> Seq<A> {
    if s.len() <= n {
        s
    } else {
        s.subrange(s.len() - n, s.len() as int)
    }
}

/// The last `limit` of `entries`, in order.
pub fn last_entries(entries: &[LogEntry], limit: usize) -> (r: Vec<LogEntry>)
    ensures
        entry_views(r@) == spec_last_n(entry_views(entries@), limit as nat),
{
    let n = entries.len();
    let start = if n > limit {
        n - limit
    } else {
        0
    };
    let mut r: Vec<LogEntry> = Vec::new();
    for i in start..n
        invariant
            n == entries@.len(),
            start <= n,
            entry_views(r@) == entry_views(entries@).subrange(start as int, i as int),
    {
        let ghost before = entry_views(r@);
        r.push(entries[i].clone());
        proof {
            assert(entry_views(entries@)[i as int] == entries@[i as int]@);
            assert(entry_views(r@) =~= before.push(entries@[i as int]@));
            assert(entry_views(r@) =~= entry_views(entries@).subrange(start as int, i + 1));
        }
    }
    proof {
        assert(entry_views(entries@).subrange(0, n as int) =~= entry_views(entries@));
    }
    r
}

/// The last eight failures among `entries`, in order.
pub fn recent_failures(entries: &[LogEntry]) -> (r: Vec<LogEntry>)
    ensures
        entry_views(r@) == spec_last_n(spec_failures(entry_views(entries@)), 8),
{
    let mut failures: Vec<LogEntry> = Vec::new();
    let n = entries.len();
    proof {
        assert(entry_views(failures@) =~= seq![]);
        assert(entry_views(entries@).take(0) =~= seq![]);
    }
    for i in 0..n
        invariant
            n == entries@.len(),
            entry_views(failures@) == spec_failures(entry_views(entries@).take(i as int)),
    {
        proof {
            assert(entry_views(entries@).take(i + 1).drop_last() =~= entry_views(entries@).take(
                i as int,
            ));
            assert(entry_views(entries@)[i as int] == entries@[i as int]@);
        }
        let e = &entries[i];
        let kind = chars_of(e.kind.as_str());
        if key_is(kind.as_slice(), "auth_failed") || key_is(kind.as_slice(), "connect_failed")
            || key_is(kind.as_slice(), "access_denied") || key_is(kind.as_slice(), "session_error") {
            let ghost before = entry_views(failures@);
            failures.push(e.clone());
            proof {
                assert(entry_views(failures@) =~= before.push(entries@[i as int]@));
            }
        }
    }
    proof {
        assert(entry_views(entries@).take(n as int) =~= entry_views(entries@));
    }
    last_entries(failures.as_slice(), 8)
}

/// The line that an entry is exported as: its fields separated by tabs,
/// `-` for an empty reason.
pub open spec fn spec_export_line(e: EntryView) -> Seq<char> {
    e.timestamp + "\tkind="@ + e.kind + "\tuser="@ + e.user + "\tclient_ip="@ + e.client_ip
        + "\tclient_addr="@ + e.client_addr + "\ttarget="@ + e.target + "\treason="@ + (if e.reason.len()
        == 0 {
        "-"@
    } else {
        e.reason
    }) + "\n"@
}

/// The line that an entry is exported as.
pub fn export_line(e: &LogEntry) -> (r: String)
    ensures
        r@ == spec_export_line(e@),
{
    let mut line = e.timestamp.clone();
    line.append("\tkind=");
    line.append(e.kind.as_str());
    line.append("\tuser=");
    line.append(e.user.as_str());
    line.append("\tclient_ip=");
    line.append(e.client_ip.as_str());
    line.append("\tclient_addr=");
    line.append(e.client_addr.as_str());
    line.append("\ttarget=");
    line.append(e.target.as_str());
    line.append("\treason=");
    if e.reason.as_str().is_empty() {
        line.append("-");
    } else {
        line.append(e.reason.as_str());
    }
    line.append("\n");
    line
}

/// The summary of an error's text: its first line, or `发生错误` when it has none.
pub fn error_summary(detail: &str) -> (r: String)
    ensures
        r@ == if spec_lines(detail@).len() > 0 {
            spec_lines(detail@)[0]
        } else {
            "发生错误"@
        },
{
    let cs = chars_of(detail);
    let ls = lines(cs.as_slice());
    if ls.len() > 0 {
        proof {
            assert(views(ls@)[0] == ls@[0]@);
        }
        string_from_chars(ls[0].as_slice())
    } else {
        String::from_str("发生错误")
    }
}

/// Whether `a` comes after `b` in the order of their characters (the order
/// in which strings compare).
pub open spec fn spec_text_after(a: Seq<char>, b: Seq<char>) -> bool
    decreases a.len(),
{
    if a.len() == 0 {
        false
    } else if b.len() == 0 {
        true
    } else if a[0] != b[0] {
        (a[0] as u32) > (b[0] as u32)
    } else {
        spec_text_after(a.drop_first(), b.drop_first())
    }
}

/// Whether `a` comes after `b` in the order of their characters.
pub fn text_after(a: &[char], b: &[char]) -> (r: bool)
    ensures
        r == spec_text_after(a@, b@),
{
    let mut i: usize = 0;
    let n = a.len();
    let m = b.len();
    proof {
        assert(a@.skip(0) =~= a@);
        assert(b@.skip(0) =~= b@);
    }
    while i < n && i < m && a[i] == b[i]
        invariant
            n == a@.len(),
            m == b@.len(),
            i <= n,
            i <= m,
            spec_text_after(a@, b@) == spec_text_after(a@.skip(i as int), b@.skip(i as int)),
        decreases n - i,
    {
        proof {
            assert(a@.skip(i as int).drop_first() =~= a@.skip(i + 1));
            assert(b@.skip(i as int).drop_first() =~= b@.skip(i + 1));
        }
        i = i + 1;
    }
    if i == n {
        false
    } else if i == m {
        true
    } else {
        (a[i] as u32) > (b[i] as u32)
    }
}

/// The entries that the log view shows after it was cleared at `cutoff`:
/// those with a timestamp after the cutoff; all of them when it was never cleared.
pub open spec fn spec_after_cutoff(es: Seq<EntryView>, cutoff: Option<Seq<char>>) -> Seq<EntryView>
    decreases es.len(),
{
    if es.len() == 0 {
        seq![]
    } else {
        let rest = spec_after_cutoff(es.drop_last(), cutoff);
        let keep = match cutoff {
            Some(c) => es.last().timestamp.len() > 0 && spec_text_after(es.last().timestamp, c),
            None => true,
        };
        if keep {
            rest.push(es.last())
        } else {
            rest
        }
    }
}

/// The entries that the log view shows: those after the cutoff at which it
/// was last cleared, if any, then those that `filter_logs` keeps.
pub fn filtered_logs(logs: &[LogEntry], cutoff: Option<&str>, filter: LogFilter, keyword: &str) -> (r: Vec<LogEntry>)
    ensures
        entry_views(r@) == spec_filter_entries(
            spec_after_cutoff(
                entry_views(logs@),
                match cutoff {
                    Some(c) => Some(c@),
                    None => None,
                },
            ),
            filter,
            spec_to_ascii_lowercase(spec_trim(keyword@)),
        ),
{
    let ghost co = match cutoff {
        Some(c) => Some(c@),
        None => None::<Seq<char>>,
    };
    let cut = match cutoff {
        Some(c) => Some(chars_of(c)),
        None => None,
    };
    let mut base: Vec<LogEntry> = Vec::new();
    let n = logs.len();
    proof {
        assert(entry_views(base@) =~= seq![]);
        assert(entry_views(logs@).take(0) =~= seq![]);
    }
    for i in 0..n
        invariant
            n == logs@.len(),
            match cut {
                Some(c) => co == Some(c@),
                None => co is None,
            },
            entry_views(base@) == spec_after_cutoff(entry_views(logs@).take(i as int), co),
    {
        proof {
            assert(entry_views(logs@).take(i + 1).drop_last() =~= entry_views(logs@).take(i as int));
            assert(entry_views(logs@)[i as int] == logs@[i as int]@);
        }
        let e = &logs[i];
        let keep = match &cut {
            Some(c) => {
                let ts = chars_of(e.timestamp.as_str());
                ts.len() > 0 && text_after(ts.as_slice(), c.as_slice())
            },
            None => true,
        };
        if keep {
            let ghost before = entry_views(base@);
            base.push(e.clone());
            proof {
                assert(entry_views(base@) =~= before.push(logs@[i as int]@));
            }
        }
    }
    proof {
        assert(entry_views(logs@).take(n as int) =~= entry_views(logs@));
    }
    filter_logs(base.as_slice(), filter, keyword)
}

/// The configuration form, each field as typed.
pub struct ConfigForm {
    pub listen: String,
    pub users_text: String,
    pub access_mode: AccessMode,
    pub allow_domains: bool,
    pub ips_text: String,
    pub cidrs_text: String,
    pub log_dir: String,
    pub retention_days: String,
    pub max_file_size_mb: String,
}

/// The configuration form as the contracts speak of it.
pub struct FormView {
    pub listen: Seq<char>,
    pub users_text: Seq<char>,
    pub access_mode: AccessMode,
    pub allow_domains: bool,
    pub ips_text: Seq<char>,
    pub cidrs_text: Seq<char>,
    pub log_dir: Seq<char>,
    pub retention_days: Seq<char>,
    pub max_file_size_mb: Seq<char>,
}

impl View for ConfigForm {
    type V = FormView;

    open spec fn view(&self) -> FormView {
        FormView {
            listen: self.listen@,
            users_text: self.users_text@,
            access_mode: self.access_mode,
            allow_domains: self.allow_domains,
            ips_text: self.ips_text@,
            cidrs_text: self.cidrs_text@,
            log_dir: self.log_dir@,
            retention_days: self.retention_days@,
            max_file_size_mb: self.max_file_size_mb@,
        }
    }
}

impl Clone for ConfigForm {
    fn clone(&self) -> (r: Self)
        ensures
            r@ == self@,
    {
        ConfigForm {
            listen: self.listen.clone(),
            users_text: self.users_text.clone(),
            access_mode: self.access_mode,
            allow_domains: self.allow_domains,
            ips_text: self.ips_text.clone(),
            cidrs_text: self.cidrs_text.clone(),
            log_dir: self.log_dir.clone(),
            retention_days: self.retention_days.clone(),
            max_file_size_mb: self.max_file_size_mb.clone(),
        }
    }
}

impl Default for ConfigForm {
    fn default() -> (r: Self)
        ensures
            r@ == (FormView {
                listen: "127.0.0.1:1080"@,
                users_text: seq![],
                access_mode: AccessMode::Blacklist,
                allow_domains: false,
                ips_text: seq![],
                cidrs_text: seq![],
                log_dir: "logs"@,
                retention_days: "7"@,
                max_file_size_mb: "100"@,
            }),
    {
        ConfigForm {
            listen: String::from_str("127.0.0.1:1080"),
            users_text: String::new(),
            access_mode: AccessMode::Blacklist,
            allow_domains: false,
            ips_text: String::new(),
            cidrs_text: String::new(),
            log_dir: String::from_str("logs"),
            retention_days: String::from_str("7"),
            max_file_size_mb: String::from_str("100"),
        }
    }
}

/// A singleton when `c` holds, else nothing.
pub open spec fn spec_if<A>(c: bool, x: A) -> Seq<A> {
    if c {
        seq![x]
    } else {
        seq![]
    }
}

/// The labels of the fields in which `current` differs from `baseline`, in
/// the form's order.
pub open spec fn spec_diff_fields(b: FormView, c: FormView) -> Seq<Seq<char>> {
    spec_if(b.listen != c.listen, "监听地址"@) + spec_if(b.users_text != c.users_text, "代理账号"@)
        + spec_if(b.access_mode != c.access_mode, "访问策略"@) + spec_if(
        b.allow_domains != c.allow_domains,
        "域名转发"@,
    ) + spec_if(b.ips_text != c.ips_text, "目标 IP 列表"@) + spec_if(
        b.cidrs_text != c.cidrs_text,
        "目标网段 CIDR"@,
    ) + spec_if(b.log_dir != c.log_dir, "日志目录"@) + spec_if(
        b.retention_days != c.retention_days,
        "日志保留天数"@,
    ) + spec_if(b.max_file_size_mb != c.max_file_size_mb, "单文件大小上限"@)
}

/// The views of a sequence of string slices.
pub open spec fn str_views(s: Seq<&str>) -> Seq<Seq<char>> {
    s.map_values(|x: &str| x@)
}

fn push_if(out: &mut Vec<&'static str>, c: bool, label: &'static str)
    ensures
        str_views(final(out)@) == str_views(old(out)@) + spec_if(c, label@),
{
    let ghost before = str_views(out@);
    if c {
        out.push(label);
        proof {
            assert(str_views(out@) =~= before + seq![label@]);
        }
    } else {
        proof {
            assert(str_views(out@) =~= before + Seq::<Seq<char>>::empty());
        }
    }
}

/// The labels of the fields in which `current` differs from `baseline`.
pub fn diff_fields(baseline: &ConfigForm, current: &ConfigForm) -> (r: Vec<&'static str>)
    ensures
        str_views(r@) == spec_diff_fields(baseline@, current@),
{
    let mut diffs: Vec<&'static str> = Vec::new();
    proof {
        assert(str_views(diffs@) =~= seq![]);
    }
    push_if(&mut diffs, !(baseline.listen == current.listen), "监听地址");
    push_if(&mut diffs, !(baseline.users_text == current.users_text), "代理账号");
    push_if(&mut diffs, baseline.access_mode != current.access_mode, "访问策略");
    push_if(&mut diffs, baseline.allow_domains != current.allow_domains, "域名转发");
    push_if(&mut diffs, !(baseline.ips_text == current.ips_text), "目标 IP 列表");
    push_if(&mut diffs, !(baseline.cidrs_text == current.cidrs_text), "目标网段 CIDR");
    push_if(&mut diffs, !(baseline.log_dir == current.log_dir), "日志目录");
    push_if(&mut diffs, !(baseline.retention_days == current.retention_days), "日志保留天数");
    push_if(&mut diffs, !(baseline.max_file_size_mb == current.max_file_size_mb), "单文件大小上限");
    proof {
        assert(str_views(diffs@) =~= spec_diff_fields(baseline@, current@));
    }
    diffs
}

/// Whether a text reads as a 64-bit unsigned number.
pub open spec fn spec_u64_ok(s: Seq<char>) -> bool {
    spec_unsigned_text(s) matches Some(n) && n <= u64::MAX
}

/// The messages that checking the form gives, in order: the listen address,
/// the two numbers, the log directory, the accounts, the IP list, the
/// network list, and a whitelist that lists nothing.
pub open spec fn spec_validate(f: FormView) -> Seq<Seq<char>> {
    let listen = spec_trim(f.listen);
    let days = spec_trim(f.retention_days);
    let size = spec_trim(f.max_file_size_mb);
    (match spec_parse_socket_addr(listen) {
        Err(e) => seq!["监听地址格式错误："@ + e],
        Ok(_) => seq![],
    }) + spec_if(!spec_u64_ok(days), "日志保留天数必须是整数："@ + spec_parse_u64_error(days))
        + spec_if(!spec_u64_ok(size), "日志大小上限必须是整数："@ + spec_parse_u64_error(size))
        + spec_if(spec_trim(f.log_dir).len() == 0, "日志目录不能为空。"@) + (match spec_parse_users(
        f.users_text,
    ) {
        Err(m) => seq![m],
        Ok(_) => seq![],
    }) + (match spec_parse_lines::<IpAddress>(f.ips_text, "目标 IP"@) {
        Err(m) => seq![m],
        Ok(_) => seq![],
    }) + (match spec_parse_lines::<IpNetwork>(f.cidrs_text, "目标网段"@) {
        Err(m) => seq![m],
        Ok(_) => seq![],
    }) + spec_if(
        f.access_mode == AccessMode::Whitelist && spec_trim(f.ips_text).len() == 0 && spec_trim(
            f.cidrs_text,
        ).len() == 0,
        "白名单模式至少需要填写一个 IP 或 CIDR。"@,
    )
}

/// The views of a sequence of strings.
pub open spec fn string_views(s: Seq<String>) -> Seq<Seq<char>> {
    s.map_values(|x: String| x@)
}

fn trimmed(s: &String) -> (r: String)
    ensures
        r@ == spec_trim(s@),
{
    let cs = chars_of(s.as_str());
    let t = trim(cs.as_slice());
    string_from_chars(t.as_slice())
}

fn push_message(out: &mut Vec<String>, m: String)
    ensures
        string_views(final(out)@) == string_views(old(out)@) + seq![m@],
{
    let ghost before = string_views(out@);
    let ghost mv = m@;
    out.push(m);
    proof {
        assert(string_views(out@) =~= before + seq![mv]);
    }
}

fn message(head: &str, tail: &str) -> (r: String)
    ensures
        r@ == head@ + tail@,
{
    let mut m = String::from_str(head);
    m.append(tail);
    m
}

impl ConfigForm {
    /// The problems of the form, each as a message, in the form's order.
    pub fn validate(&self) -> (r: Vec<String>)
        ensures
            string_views(r@) == spec_validate(self@),
    {
        let ghost f = self@;
        let mut errors: Vec<String> = Vec::new();
        let ghost e0 = string_views(errors@);
        proof {
            assert(e0 =~= seq![]);
        }
        let listen = trimmed(&self.listen);
        match parse_socket_addr(listen.as_str()) {
            Err(err) => push_message(&mut errors, message("监听地址格式错误：", err.as_str())),
            Ok(_) => {},
        }
        let ghost e1 = string_views(errors@);
        let days = trimmed(&self.retention_days);
        match parse_u64(days.as_str()) {
            Err(err) => push_message(&mut errors, message("日志保留天数必须是整数：", err.as_str())),
            Ok(_) => {},
        }
        let ghost e2 = string_views(errors@);
        let size = trimmed(&self.max_file_size_mb);
        match parse_u64(size.as_str()) {
            Err(err) => push_message(&mut errors, message("日志大小上限必须是整数：", err.as_str())),
            Ok(_) => {},
        }
        let ghost e3 = string_views(errors@);
        let dir = trimmed(&self.log_dir);
        if dir.as_str().is_empty() {
            push_message(&mut errors, String::from_str("日志目录不能为空。"));
        }
        let ghost e4 = string_views(errors@);
        match parse_users(self.users_text.as_str()) {
            Err(err) => push_message(&mut errors, err),
            Ok(_) => {},
        }
        let ghost e5 = string_views(errors@);
        match parse_lines::<IpAddress>(self.ips_text.as_str(), "目标 IP") {
            Err(err) => push_message(&mut errors, err),
            Ok(_) => {},
        }
        let ghost e6 = string_views(errors@);
        match parse_lines::<IpNetwork>(self.cidrs_text.as_str(), "目标网段") {
            Err(err) => push_message(&mut errors, err),
            Ok(_) => {},
        }
        let ghost e7 = string_views(errors@);
        let ips = trimmed(&self.ips_text);
        let cidrs = trimmed(&self.cidrs_text);
        if self.access_mode == AccessMode::Whitelist && ips.as_str().is_empty()
            && cidrs.as_str().is_empty() {
            push_message(&mut errors, String::from_str("白名单模式至少需要填写一个 IP 或 CIDR。"));
        }
        proof {
            let listen_part = match spec_parse_socket_addr(spec_trim(f.listen)) {
                Err(e) => seq!["监听地址格式错误："@ + e],
                Ok(_) => seq![],
            };
            assert(e1 =~= e0 + listen_part);
            assert(string_views(errors@) =~= spec_validate(f));
        }
        errors
    }
}

/// The first problem that keeps the form from becoming a configuration: the
/// listen address, the two numbers, the accounts, the IP list, then the
/// network list; none when there is none.
pub open spec fn spec_to_config_error(f: FormView) -> Option<Seq<char>> {
    let days = spec_trim(f.retention_days);
    let size = spec_trim(f.max_file_size_mb);
    match spec_parse_socket_addr(spec_trim(f.listen)) {
        Err(e) => Some("监听地址格式错误："@ + e),
        Ok(_) => if !spec_u64_ok(days) {
            Some("日志保留天数格式错误："@ + spec_parse_u64_error(days))
        } else if !spec_u64_ok(size) {
            Some("日志大小上限格式错误："@ + spec_parse_u64_error(size))
        } else {
            match spec_parse_users(f.users_text) {
                Err(m) => Some(m),
                Ok(_) => match spec_parse_lines::<IpAddress>(f.ips_text, "目标 IP"@) {
                    Err(m) => Some(m),
                    Ok(_) => match spec_parse_lines::<IpNetwork>(f.cidrs_text, "目标网段"@) {
                        Err(m) => Some(m),
                        Ok(_) => None,
                    },
                },
            }
        },
    }
}

impl ConfigForm {
    /// The configuration that the form describes, each field trimmed and
    /// read; the first problem is reported instead when there is one.
    pub fn to_config(&self) -> (r: Result<AppConfig, String>)
        ensures
            r is Err <==> spec_to_config_error(self@) is Some,
            r matches Err(e) ==> spec_to_config_error(self@) == Some(e@),
            r matches Ok(c) ==> {
                &&& spec_parse_socket_addr(spec_trim(self.listen@)) == Ok::<SocketAddress, Seq<char>>(
                    c.listen,
                )
                &&& spec_unsigned_text(spec_trim(self.retention_days@)) == Some(
                    c.log.retention_days as nat,
                )
                &&& spec_unsigned_text(spec_trim(self.max_file_size_mb@)) == Some(
                    c.log.max_file_size_mb as nat,
                )
                &&& spec_parse_users(self.users_text@) == Ok::<Seq<Credential>, Seq<char>>(
                    user_views(c.auth.users@),
                )
                &&& spec_parse_lines::<IpAddress>(self.ips_text@, "目标 IP"@) == Ok::<
                    Seq<IpAddress>,
                    Seq<char>,
                >(c.access.ips@)
                &&& spec_parse_lines::<IpNetwork>(self.cidrs_text@, "目标网段"@) == Ok::<
                    Seq<IpNetwork>,
                    Seq<char>,
                >(c.access.cidrs@)
                &&& c.access.mode == self.access_mode
                &&& c.access.allow_domains == self.allow_domains
                &&& c.access.wf()
                &&& c.log.dir@ == spec_trim(self.log_dir@)
            },
    {
        let listen_text = trimmed(&self.listen);
        let listen = match parse_socket_addr(listen_text.as_str()) {
            Ok(a) => a,
            Err(err) => return Err(message("监听地址格式错误：", err.as_str())),
        };
        let days = trimmed(&self.retention_days);
        let retention_days = match parse_u64(days.as_str()) {
            Ok(v) => v,
            Err(err) => return Err(message("日志保留天数格式错误：", err.as_str())),
        };
        let size = trimmed(&self.max_file_size_mb);
        let max_file_size_mb = match parse_u64(size.as_str()) {
            Ok(v) => v,
            Err(err) => return Err(message("日志大小上限格式错误：", err.as_str())),
        };
        let users = match parse_users(self.users_text.as_str()) {
            Ok(u) => u,
            Err(err) => return Err(err),
        };
        let ips = match parse_lines::<IpAddress>(self.ips_text.as_str(), "目标 IP") {
            Ok(v) => v,
            Err(err) => return Err(err),
        };
        let cidrs = match parse_lines::<IpNetwork>(self.cidrs_text.as_str(), "目标网段") {
            Ok(v) => v,
            Err(err) => return Err(err),
        };
        let dir = trimmed(&self.log_dir);
        Ok(
            AppConfig {
                listen,
                auth: AuthConfig { users },
                access: AccessConfig {
                    mode: self.access_mode,
                    allow_domains: self.allow_domains,
                    ips,
                    cidrs,
                },
                log: LogConfig { dir, retention_days, max_file_size_mb },
            },
        )
    }
}

/// The parts joined, `sep` between each two.
pub open spec fn spec_join(parts: Seq<Seq<char>>, sep: Seq<char>) -> Seq<char>
    decreases parts.len(),
{
    if parts.len() == 0 {
        seq![]
    } else if parts.len() == 1 {
        parts[0]
    } else {
        spec_join(parts.drop_last(), sep) + sep + parts.last()
    }
}

/// The line of an account in the accounts text.
pub open spec fn spec_user_text(c: Credential) -> Seq<char> {
    c.0 + "="@ + c.1
}

fn join_strings(parts: &Vec<String>, sep: &str) -> (r: String)
    ensures
        r@ == spec_join(string_views(parts@), sep@),
{
    let mut r = String::new();
    let n = parts.len();
    for i in 0..n
        invariant
            n == parts@.len(),
            r@ == spec_join(string_views(parts@).take(i as int), sep@),
    {
        proof {
            assert(string_views(parts@).take(i + 1).drop_last() =~= string_views(parts@).take(
                i as int,
            ));
            assert(string_views(parts@)[i as int] == parts@[i as int]@);
        }
        if i > 0 {
            r.append(sep);
        } else {
            proof {
                assert(string_views(parts@).take(1) =~= seq![parts@[0]@]);
            }
        }
        r.append(parts[i].as_str());
    }
    proof {
        assert(string_views(parts@).take(n as int) =~= string_views(parts@));
    }
    r
}

/// The form that shows a configuration: addresses written as `Display`
/// writes them, one account (`username=password`), address or network per
/// line, the numbers in decimal.
pub open spec fn spec_from_config(listen: SocketAddress, users: Seq<Credential>, mode: AccessMode, allow_domains: bool, ips: Seq<IpAddress>, cidrs: Seq<IpNetwork>, dir: Seq<char>, retention_days: u64, max_file_size_mb: u64) -> FormView {
    FormView {
        listen: spec_socket_addr_text(listen),
        users_text: spec_join(users.map_values(|c: Credential| spec_user_text(c)), "\n"@),
        access_mode: mode,
        allow_domains,
        ips_text: spec_join(ips.map_values(|ip: IpAddress| spec_ip_text(ip)), "\n"@),
        cidrs_text: spec_join(cidrs.map_values(|n: IpNetwork| spec_ip_network_text(n)), "\n"@),
        log_dir: dir,
        retention_days: spec_decimal(retention_days as nat),
        max_file_size_mb: spec_decimal(max_file_size_mb as nat),
    }
}

impl ConfigForm {
    /// The form that shows `config`.
    pub fn from_config(config: AppConfig) -> (r: ConfigForm)
        requires
            config.access.wf(),
        ensures
            r@ == spec_from_config(
                config.listen,
                user_views(config.auth.users@),
                config.access.mode,
                config.access.allow_domains,
                config.access.ips@,
                config.access.cidrs@,
                config.log.dir@,
                config.log.retention_days,
                config.log.max_file_size_mb,
            ),
    {
        let mut user_lines: Vec<String> = Vec::new();
        let n = config.auth.users.len();
        for i in 0..n
            invariant
                n == config.auth.users@.len(),
                string_views(user_lines@) == user_views(config.auth.users@).take(i as int).map_values(
                    |c: Credential| spec_user_text(c),
                ),
        {
            let u = &config.auth.users[i];
            let mut line = u.username.clone();
            line.append("=");
            line.append(u.password.as_str());
            let ghost before = string_views(user_lines@);
            let ghost lv = line@;
            user_lines.push(line);
            proof {
                assert(string_views(user_lines@) =~= before.push(lv));
                assert(user_views(config.auth.users@)[i as int] == u@);
                assert(user_views(config.auth.users@).take(i + 1).map_values(
                    |c: Credential| spec_user_text(c),
                ) =~= before.push(lv));
            }
        }
        let mut ip_lines: Vec<String> = Vec::new();
        let m = config.access.ips.len();
        for i in 0..m
            invariant
                m == config.access.ips@.len(),
                string_views(ip_lines@) == config.access.ips@.take(i as int).map_values(
                    |ip: IpAddress| spec_ip_text(ip),
                ),
        {
            let t = ip_text(&config.access.ips[i]);
            let ghost before = string_views(ip_lines@);
            let ghost tv = t@;
            ip_lines.push(t);
            proof {
                assert(string_views(ip_lines@) =~= before.push(tv));
                assert(config.access.ips@.take(i + 1).map_values(|ip: IpAddress| spec_ip_text(ip))
                    =~= before.push(tv));
            }
        }
        let mut net_lines: Vec<String> = Vec::new();
        let k = config.access.cidrs.len();
        for i in 0..k
            invariant
                k == config.access.cidrs@.len(),
                config.access.wf(),
                string_views(net_lines@) == config.access.cidrs@.take(i as int).map_values(
                    |n: IpNetwork| spec_ip_network_text(n),
                ),
        {
            let t = ip_network_text(&config.access.cidrs[i]);
            let ghost before = string_views(net_lines@);
            let ghost tv = t@;
            net_lines.push(t);
            proof {
                assert(string_views(net_lines@) =~= before.push(tv));
                assert(config.access.cidrs@.take(i + 1).map_values(
                    |n: IpNetwork| spec_ip_network_text(n),
                ) =~= before.push(tv));
            }
        }
        proof {
            assert(user_views(config.auth.users@).take(n as int) =~= user_views(config.auth.users@));
            assert(config.access.ips@.take(m as int) =~= config.access.ips@);
            assert(config.access.cidrs@.take(k as int) =~= config.access.cidrs@);
        }
        ConfigForm {
            listen: socket_addr_text(&config.listen),
            users_text: join_strings(&user_lines, "\n"),
            access_mode: config.access.mode,
            allow_domains: config.access.allow_domains,
            ips_text: join_strings(&ip_lines, "\n"),
            cidrs_text: join_strings(&net_lines, "\n"),
            log_dir: config.log.dir,
            retention_days: decimal(config.log.retention_days),
            max_file_size_mb: decimal(config.log.max_file_size_mb),
        }
    }
}

/// A form that checks without a problem always becomes a configuration.
pub proof fn law_valid_form_converts(f: FormView)
    requires
        spec_validate(f).len() == 0,
    ensures
        spec_to_config_error(f) is None,
{
    let days = spec_trim(f.retention_days);
    let size = spec_trim(f.max_file_size_mb);
    let p1 = match spec_parse_socket_addr(spec_trim(f.listen)) {
        Err(e) => seq!["监听地址格式错误："@ + e],
        Ok(_) => Seq::<Seq<char>>::empty(),
    };
    let p2 = spec_if(!spec_u64_ok(days), "日志保留天数必须是整数："@ + spec_parse_u64_error(days));
    let p3 = spec_if(!spec_u64_ok(size), "日志大小上限必须是整数："@ + spec_parse_u64_error(size));
    let p4 = spec_if(spec_trim(f.log_dir).len() == 0, "日志目录不能为空。"@);
    let p5 = match spec_parse_users(f.users_text) {
        Err(m) => seq![m],
        Ok(_) => Seq::<Seq<char>>::empty(),
    };
    let p6 = match spec_parse_lines::<IpAddress>(f.ips_text, "目标 IP"@) {
        Err(m) => seq![m],
        Ok(_) => Seq::<Seq<char>>::empty(),
    };
    let p7 = match spec_parse_lines::<IpNetwork>(f.cidrs_text, "目标网段"@) {
        Err(m) => seq![m],
        Ok(_) => Seq::<Seq<char>>::empty(),
    };
    let p8 = spec_if(
        f.access_mode == AccessMode::Whitelist && spec_trim(f.ips_text).len() == 0 && spec_trim(
            f.cidrs_text,
        ).len() == 0,
        "白名单模式至少需要填写一个 IP 或 CIDR。"@,
    );
    assert(spec_validate(f) == p1 + p2 + p3 + p4 + p5 + p6 + p7 + p8);
    assert(spec_validate(f).len() == p1.len() + p2.len() + p3.len() + p4.len() + p5.len() + p6.len()
        + p7.len() + p8.len());
    assert(p1.len() == 0 && p2.len() == 0 && p3.len() == 0);
    assert(p5.len() == 0 && p6.len() == 0 && p7.len() == 0);
    assert(spec_u64_ok(days) && spec_u64_ok(size));
}

/// A text that neither starts nor ends with whitespace.
pub open spec fn spec_trimmed_text(s: Seq<char>) -> bool {
    s.len() > 0 ==> !spec_is_whitespace(s[0]) && !spec_is_whitespace(s.last())
}

/// An account that the accounts text shows and reads back: a username
/// without `=`, both parts not empty and neither starting nor ending with
/// whitespace, no line feed in either.
pub open spec fn spec_plain_account(c: Credential) -> bool {
    &&& c.0.len() > 0
    &&& c.1.len() > 0
    &&& spec_trimmed_text(c.0)
    &&& spec_trimmed_text(c.1)
    &&& !c.0.contains('=')
    &&& !c.0.contains('\n')
    &&& !c.1.contains('\n')
}

proof fn lemma_trim_keeps(s: Seq<char>)
    requires
        spec_trimmed_text(s),
    ensures
        spec_trim(s) == s,
{
    if s.len() > 0 {
        assert(spec_trim_start(s) == s);
        assert(spec_trim_end(s) == s);
    } else {
        assert(spec_trim_start(s) == s);
    }
}

proof fn lemma_digits_value_of_decimal(n: nat)
    ensures
        spec_decimal(n).len() > 0,
        forall|i: int| 0 <= i < spec_decimal(n).len() ==> spec_is_digit(#[trigger] spec_decimal(n)[i]),
        spec_digits_value(spec_decimal(n)) == n,
    decreases n,
{
    let k = (n % 10) as nat;
    assert(((48 + k) as u8) as char as int == 48 + k);
    assert(((spec_digit(k) as u32) - 48) as nat == k);
    assert((n / 10) * 10 + k == n);
    let d = spec_decimal(n);
    if n < 10 {
        assert(d.drop_last() =~= Seq::<char>::empty());
        assert(spec_digits_value(d.drop_last()) == 0);
        assert(d.last() == spec_digit(k));
    } else {
        lemma_digits_value_of_decimal(n / 10);
        assert(d.drop_last() =~= spec_decimal(n / 10));
        assert(d.last() == spec_digit(k));
    }
    assert(spec_digits_value(d) == spec_digits_value(d.drop_last()) * 10 + ((d.last() as u32) - 48) as nat);
}

proof fn lemma_decimal_reads_back(n: nat)
    ensures
        spec_unsigned_text(spec_trim(spec_decimal(n))) == Some(n),
{
    lemma_digits_value_of_decimal(n);
    let d = spec_decimal(n);
    assert(spec_is_digit(d[0]) && spec_is_digit(d[d.len() - 1]));
    assert(d.last() == d[d.len() - 1]);
    lemma_trim_keeps(d);
    assert(d[0] != '+');
}

proof fn lemma_lines_acc_no_feed(p: Seq<char>, w: Seq<char>)
    requires
        !w.contains('\n'),
    ensures
        spec_lines_acc(p + w) == (spec_lines_acc(p).0, spec_lines_acc(p).1 + w),
    decreases w.len(),
{
    if w.len() == 0 {
        assert(p + w =~= p);
        assert(spec_lines_acc(p).1 + w =~= spec_lines_acc(p).1);
    } else {
        let w0 = w.drop_last();
        assert(!w0.contains('\n')) by {
            if w0.contains('\n') {
                let k = choose|k: int| 0 <= k < w0.len() && w0[k] == '\n';
                assert(w[k] == '\n');
            }
        }
        assert(w.contains(w.last()));
        lemma_lines_acc_no_feed(p, w0);
        assert((p + w).drop_last() =~= p + w0);
        assert((p + w).last() == w.last());
        assert(spec_lines_acc(p).1 + w0 + seq![w.last()] =~= spec_lines_acc(p).1 + w);
    }
}

/// Lines that are not empty, hold no line feed and do not end with a
/// carriage return, joined by line feeds, are read back as the same lines.
proof fn lemma_lines_of_join(parts: Seq<Seq<char>>)
    requires
        forall|i: int|
            0 <= i < parts.len() ==> (#[trigger] parts[i]).len() > 0 && !parts[i].contains('\n')
                && parts[i].last() != '\r',
    ensures
        spec_lines(spec_join(parts, "\n"@)) == parts,
        parts.len() > 0 ==> spec_lines_acc(spec_join(parts, "\n"@)) == (parts.drop_last(), parts.last()),
    decreases parts.len(),
{
    reveal_strlit("\n");
    if parts.len() == 0 {
        assert(spec_lines_acc(seq![]) == (Seq::<Seq<char>>::empty(), Seq::<char>::empty()));
    } else if parts.len() == 1 {
        lemma_lines_acc_no_feed(seq![], parts[0]);
        assert(Seq::<char>::empty() + parts[0] =~= parts[0]);
        assert(spec_lines_acc(Seq::<char>::empty()) == (Seq::<Seq<char>>::empty(), Seq::<char>::empty()));
        assert(parts.drop_last() =~= Seq::<Seq<char>>::empty());
        assert(parts.last() == parts[0]);
        assert(seq![parts[0]] =~= parts);
    } else {
        let init = parts.drop_last();
        let w = parts.last();
        assert(forall|i: int| 0 <= i < init.len() ==> init[i] == parts[i]);
        lemma_lines_of_join(init);
        let j = spec_join(init, "\n"@);
        assert(spec_join(parts, "\n"@) == j + "\n"@ + w);
        let jn = j + "\n"@;
        assert(jn.drop_last() =~= j);
        assert(jn.last() == '\n');
        assert(init.last() == parts[init.len() - 1]);
        assert(spec_strip_cr(init.last()) == init.last());
        assert(init.drop_last().push(init.last()) =~= init);
        assert(spec_lines_acc(jn) == (init, Seq::<char>::empty()));
        assert(w == parts[parts.len() - 1]);
        lemma_lines_acc_no_feed(jn, w);
        assert(Seq::<char>::empty() + w =~= w);
        assert(spec_strip_cr(w) == w);
        assert(init.push(w) =~= parts);
    }
}

proof fn lemma_account_line(c: Credential, number: nat)
    requires
        spec_plain_account(c),
    ensures
        spec_user_line(spec_user_text(c), number) == UserLine::Entry(c),
{
    reveal_strlit("=");
    let t = spec_user_text(c);
    assert(t[0] == c.0[0]);
    assert(t.last() == c.1.last());
    lemma_trim_keeps(t);
    lemma_first_equals_sign(c.0, c.1);
    lemma_trim_keeps(c.0);
    lemma_trim_keeps(c.1);
}

proof fn lemma_accounts_upto(users: Seq<Credential>, k: nat)
    requires
        forall|i: int| 0 <= i < users.len() ==> spec_plain_account(#[trigger] users[i]),
        k <= users.len(),
    ensures
        spec_parse_users_upto(users.map_values(|c: Credential| spec_user_text(c)), k) == Ok::<
            Seq<Credential>,
            Seq<char>,
        >(users.take(k as int)),
    decreases k,
{
    let ls = users.map_values(|c: Credential| spec_user_text(c));
    if k == 0 {
        assert(users.take(0) =~= Seq::<Credential>::empty());
    } else {
        lemma_accounts_upto(users, (k - 1) as nat);
        lemma_account_line(users[k - 1], k);
        assert(ls[k - 1] == spec_user_text(users[k - 1]));
        assert(users.take(k - 1).push(users[k - 1]) =~= users.take(k as int));
    }
}

/// Of a configuration shown in the form, the accounts, the numbers and the
/// log directory read back as they were: the accounts text gives back the
/// accounts when each is plain, the numbers give back their values, and a
/// directory that neither starts nor ends with whitespace is kept.
pub proof fn law_form_keeps_accounts_numbers_and_directory(
    listen: SocketAddress,
    users: Seq<Credential>,
    mode: AccessMode,
    allow_domains: bool,
    ips: Seq<IpAddress>,
    cidrs: Seq<IpNetwork>,
    dir: Seq<char>,
    retention_days: u64,
    max_file_size_mb: u64,
)
    requires
        forall|i: int| 0 <= i < users.len() ==> spec_plain_account(#[trigger] users[i]),
        spec_trimmed_text(dir),
    ensures
        ({
            let f = spec_from_config(
                listen,
                users,
                mode,
                allow_domains,
                ips,
                cidrs,
                dir,
                retention_days,
                max_file_size_mb,
            );
            &&& spec_parse_users(f.users_text) == Ok::<Seq<Credential>, Seq<char>>(users)
            &&& spec_unsigned_text(spec_trim(f.retention_days)) == Some(retention_days as nat)
            &&& spec_unsigned_text(spec_trim(f.max_file_size_mb)) == Some(max_file_size_mb as nat)
            &&& spec_trim(f.log_dir) == dir
            &&& f.access_mode == mode
            &&& f.allow_domains == allow_domains
        }),
{
    reveal_strlit("=");
    let ls = users.map_values(|c: Credential| spec_user_text(c));
    assert forall|i: int| 0 <= i < ls.len() implies (#[trigger] ls[i]).len() > 0 && !ls[i].contains(
        '\n',
    ) && ls[i].last() != '\r' by {
        let c = users[i];
        assert(spec_plain_account(c));
        let t = spec_user_text(c);
        assert(ls[i] == t);
        assert(t.last() == c.1.last());
        assert(c.1.last() == c.1[c.1.len() - 1]);
        assert(spec_is_whitespace('\r'));
        if t.contains('\n') {
            let k = choose|k: int| 0 <= k < t.len() && t[k] == '\n';
            if k < c.0.len() {
                assert(c.0[k] == '\n');
            } else if k > c.0.len() {
                assert(c.1[k - c.0.len() - 1] == '\n');
            }
        }
    }
    lemma_lines_of_join(ls);
    lemma_accounts_upto(users, users.len());
    assert(users.take(users.len() as int) =~= users);
    lemma_decimal_reads_back(retention_days as nat);
    lemma_decimal_reads_back(max_file_size_mb as nat);
    lemma_trim_keeps(dir);
}

/// A text that is a line of its own: not empty, without a line feed, and
/// neither starting nor ending with whitespace.
pub open spec fn spec_line_text(s: Seq<char>) -> bool {
    s.len() > 0 && !s.contains('\n') && spec_trimmed_text(s)
}

proof fn lemma_values_upto<T: LineValue>(vals: Seq<T>, texts: Seq<Seq<char>>, label: Seq<char>, k: nat)
    requires
        texts.len() == vals.len(),
        forall|i: int|
            0 <= i < texts.len() ==> spec_line_text(#[trigger] texts[i]) && T::spec_parse_line(texts[i])
                == Ok::<T, Seq<char>>(vals[i]),
        k <= texts.len(),
    ensures
        spec_parse_lines_upto::<T>(texts, label, k) == Ok::<Seq<T>, Seq<char>>(vals.take(k as int)),
    decreases k,
{
    if k == 0 {
        assert(vals.take(0) =~= Seq::<T>::empty());
    } else {
        lemma_values_upto::<T>(vals, texts, label, (k - 1) as nat);
        let t = texts[k - 1];
        assert(spec_line_text(t));
        lemma_trim_keeps(t);
        assert(vals.take(k - 1).push(vals[k - 1]) =~= vals.take(k as int));
    }
}

/// Values whose texts are lines of their own that read back as the values,
/// joined by line feeds, read back as the values.
proof fn lemma_joined_values_read_back<T: LineValue>(vals: Seq<T>, texts: Seq<Seq<char>>, label: Seq<char>)
    requires
        texts.len() == vals.len(),
        forall|i: int|
            0 <= i < texts.len() ==> spec_line_text(#[trigger] texts[i]) && T::spec_parse_line(texts[i])
                == Ok::<T, Seq<char>>(vals[i]),
    ensures
        spec_parse_lines::<T>(spec_join(texts, "\n"@), label) == Ok::<Seq<T>, Seq<char>>(vals),
{
    assert forall|i: int| 0 <= i < texts.len() implies (#[trigger] texts[i]).len() > 0 && !texts[i].contains(
        '\n',
    ) && texts[i].last() != '\r' by {
        assert(spec_line_text(texts[i]));
        assert(texts[i].last() == texts[i][texts[i].len() - 1]);
        assert(spec_is_whitespace('\r'));
    }
    lemma_lines_of_join(texts);
    lemma_values_upto::<T>(vals, texts, label, texts.len());
    assert(vals.take(vals.len() as int) =~= vals);
}

/// A configuration shown in the form is read back from the form as it was,
/// whenever the texts that `Display` writes for its listen address, its IP
/// addresses and its networks are lines of their own that the parsers read
/// back as the same values, its accounts are plain and its log directory
/// neither starts nor ends with whitespace: the form converts without a
/// problem, and every part reads back as the value it was made from.
pub proof fn law_form_round_trip(
    listen: SocketAddress,
    users: Seq<Credential>,
    mode: AccessMode,
    allow_domains: bool,
    ips: Seq<IpAddress>,
    cidrs: Seq<IpNetwork>,
    dir: Seq<char>,
    retention_days: u64,
    max_file_size_mb: u64,
)
    requires
        spec_trimmed_text(spec_socket_addr_text(listen)),
        spec_parse_socket_addr(spec_socket_addr_text(listen)) == Ok::<SocketAddress, Seq<char>>(listen),
        forall|i: int|
            0 <= i < ips.len() ==> spec_line_text(spec_ip_text(#[trigger] ips[i])) && spec_parse_ip(
                spec_ip_text(ips[i]),
            ) == Ok::<IpAddress, Seq<char>>(ips[i]),
        forall|i: int|
            0 <= i < cidrs.len() ==> spec_line_text(spec_ip_network_text(#[trigger] cidrs[i]))
                && spec_parse_ip_network(spec_ip_network_text(cidrs[i])) == Ok::<IpNetwork, Seq<char>>(
                cidrs[i],
            ),
        forall|i: int| 0 <= i < users.len() ==> spec_plain_account(#[trigger] users[i]),
        spec_trimmed_text(dir),
    ensures
        ({
            let f = spec_from_config(
                listen,
                users,
                mode,
                allow_domains,
                ips,
                cidrs,
                dir,
                retention_days,
                max_file_size_mb,
            );
            &&& spec_to_config_error(f) is None
            &&& spec_parse_socket_addr(spec_trim(f.listen)) == Ok::<SocketAddress, Seq<char>>(listen)
            &&& spec_parse_users(f.users_text) == Ok::<Seq<Credential>, Seq<char>>(users)
            &&& spec_parse_lines::<IpAddress>(f.ips_text, "目标 IP"@) == Ok::<Seq<IpAddress>, Seq<char>>(ips)
            &&& spec_parse_lines::<IpNetwork>(f.cidrs_text, "目标网段"@) == Ok::<
                Seq<IpNetwork>,
                Seq<char>,
            >(cidrs)
            &&& spec_unsigned_text(spec_trim(f.retention_days)) == Some(retention_days as nat)
            &&& spec_unsigned_text(spec_trim(f.max_file_size_mb)) == Some(max_file_size_mb as nat)
            &&& spec_trim(f.log_dir) == dir
            &&& f.access_mode == mode
            &&& f.allow_domains == allow_domains
        }),
{
    law_form_keeps_accounts_numbers_and_directory(
        listen,
        users,
        mode,
        allow_domains,
        ips,
        cidrs,
        dir,
        retention_days,
        max_file_size_mb,
    );
    lemma_trim_keeps(spec_socket_addr_text(listen));
    let it = ips.map_values(|ip: IpAddress| spec_ip_text(ip));
    assert forall|i: int| 0 <= i < it.len() implies spec_line_text(#[trigger] it[i])
        && IpAddress::spec_parse_line(it[i]) == Ok::<IpAddress, Seq<char>>(ips[i]) by {
        assert(it[i] == spec_ip_text(ips[i]));
    }
    lemma_joined_values_read_back::<IpAddress>(ips, it, "目标 IP"@);
    let nt = cidrs.map_values(|n: IpNetwork| spec_ip_network_text(n));
    assert forall|i: int| 0 <= i < nt.len() implies spec_line_text(#[trigger] nt[i])
        && IpNetwork::spec_parse_line(nt[i]) == Ok::<IpNetwork, Seq<char>>(cidrs[i]) by {
        assert(nt[i] == spec_ip_network_text(cidrs[i]));
    }
    lemma_joined_values_read_back::<IpNetwork>(cidrs, nt, "目标网段"@);
}

/// The form's check reports the whitelist only when it lists nothing: a
/// form that converts, has a log directory, and under a whitelist lists at
/// least one IP address or one network (either suffices) checks without a
/// problem; a whitelist that lists neither is always reported.
pub proof fn law_whitelist_needs_one_entry(f: FormView)
    ensures
        spec_to_config_error(f) is None && spec_trim(f.log_dir).len() > 0 && (f.access_mode
            == AccessMode::Whitelist ==> spec_trim(f.ips_text).len() > 0 || spec_trim(
            f.cidrs_text,
        ).len() > 0) ==> spec_validate(f).len() == 0,
        f.access_mode == AccessMode::Whitelist && spec_trim(f.ips_text).len() == 0 && spec_trim(
            f.cidrs_text,
        ).len() == 0 ==> spec_validate(f).len() > 0,
{
    let days = spec_trim(f.retention_days);
    let size = spec_trim(f.max_file_size_mb);
    let p1 = match spec_parse_socket_addr(spec_trim(f.listen)) {
        Err(e) => seq!["监听地址格式错误："@ + e],
        Ok(_) => Seq::<Seq<char>>::empty(),
    };
    let p2 = spec_if(!spec_u64_ok(days), "日志保留天数必须是整数："@ + spec_parse_u64_error(days));
    let p3 = spec_if(!spec_u64_ok(size), "日志大小上限必须是整数："@ + spec_parse_u64_error(size));
    let p4 = spec_if(spec_trim(f.log_dir).len() == 0, "日志目录不能为空。"@);
    let p5 = match spec_parse_users(f.users_text) {
        Err(m) => seq![m],
        Ok(_) => Seq::<Seq<char>>::empty(),
    };
    let p6 = match spec_parse_lines::<IpAddress>(f.ips_text, "目标 IP"@) {
        Err(m) => seq![m],
        Ok(_) => Seq::<Seq<char>>::empty(),
    };
    let p7 = match spec_parse_lines::<IpNetwork>(f.cidrs_text, "目标网段"@) {
        Err(m) => seq![m],
        Ok(_) => Seq::<Seq<char>>::empty(),
    };
    let p8 = spec_if(
        f.access_mode == AccessMode::Whitelist && spec_trim(f.ips_text).len() == 0 && spec_trim(
            f.cidrs_text,
        ).len() == 0,
        "白名单模式至少需要填写一个 IP 或 CIDR。"@,
    );
    assert(spec_validate(f) == p1 + p2 + p3 + p4 + p5 + p6 + p7 + p8);
    assert(spec_validate(f).len() == p1.len() + p2.len() + p3.len() + p4.len() + p5.len() + p6.len()
        + p7.len() + p8.len());
}

proof fn lemma_lower_concat(a: Seq<char>, b: Seq<char>)
    ensures
        spec_to_ascii_lowercase(a + b) == spec_to_ascii_lowercase(a) + spec_to_ascii_lowercase(b),
{
    assert(spec_to_ascii_lowercase(a + b) =~= spec_to_ascii_lowercase(a) + spec_to_ascii_lowercase(b));
}

/// A keyword found in the lower case of `x` is found in the lower case of
/// any text that holds `x`.
proof fn lemma_keyword_in_part(a: Seq<char>, x: Seq<char>, b: Seq<char>, k: Seq<char>)
    requires
        spec_contains_text(spec_to_ascii_lowercase(x), k),
    ensures
        spec_contains_text(spec_to_ascii_lowercase(a + x + b), k),
{
    lemma_lower_concat(a + x, b);
    lemma_lower_concat(a, x);
    let la = spec_to_ascii_lowercase(a);
    let lx = spec_to_ascii_lowercase(x);
    let lb = spec_to_ascii_lowercase(b);
    let j = choose|j: int| 0 <= j && j + k.len() <= lx.len() && #[trigger] lx.subrange(j, j + k.len()) == k;
    let h = la + lx + lb;
    assert(h.subrange(la.len() + j, la.len() + j + k.len()) =~= lx.subrange(j, j + k.len()));
}

/// The search covers every field of an entry: an entry of the chosen class
/// is shown when the lower-case keyword occurs, in any letter case, in its
/// timestamp, kind, user, client IP, client address, target or reason.
pub proof fn law_search_covers_every_field(e: EntryView, filter: LogFilter, k: Seq<char>)
    requires
        spec_matches_filter(e.kind, filter),
        k.len() > 0,
        spec_contains_text(spec_to_ascii_lowercase(e.timestamp), k) || spec_contains_text(
            spec_to_ascii_lowercase(e.kind),
            k,
        ) || spec_contains_text(spec_to_ascii_lowercase(e.user), k) || spec_contains_text(
            spec_to_ascii_lowercase(e.client_ip),
            k,
        ) || spec_contains_text(spec_to_ascii_lowercase(e.client_addr), k) || spec_contains_text(
            spec_to_ascii_lowercase(e.target),
            k,
        ) || spec_contains_text(spec_to_ascii_lowercase(e.reason), k),
    ensures
        spec_shown(e, filter, k),
{
    let sp: Seq<char> = " "@;
    let h = spec_haystack(e);
    let e0 = Seq::<char>::empty();
    if spec_contains_text(spec_to_ascii_lowercase(e.timestamp), k) {
        assert(h =~= e0 + e.timestamp + (sp + e.kind + sp + e.user + sp + e.client_ip + sp
            + e.client_addr + sp + e.target + sp + e.reason));
        lemma_keyword_in_part(e0, e.timestamp, sp + e.kind + sp + e.user + sp + e.client_ip + sp
            + e.client_addr + sp + e.target + sp + e.reason, k);
    } else if spec_contains_text(spec_to_ascii_lowercase(e.kind), k) {
        let a = e.timestamp + sp;
        let b = sp + e.user + sp + e.client_ip + sp + e.client_addr + sp + e.target + sp + e.reason;
        assert(h =~= a + e.kind + b);
        lemma_keyword_in_part(a, e.kind, b, k);
    } else if spec_contains_text(spec_to_ascii_lowercase(e.user), k) {
        let a = e.timestamp + sp + e.kind + sp;
        let b = sp + e.client_ip + sp + e.client_addr + sp + e.target + sp + e.reason;
        assert(h =~= a + e.user + b);
        lemma_keyword_in_part(a, e.user, b, k);
    } else if spec_contains_text(spec_to_ascii_lowercase(e.client_ip), k) {
        let a = e.timestamp + sp + e.kind + sp + e.user + sp;
        let b = sp + e.client_addr + sp + e.target + sp + e.reason;
        assert(h =~= a + e.client_ip + b);
        lemma_keyword_in_part(a, e.client_ip, b, k);
    } else if spec_contains_text(spec_to_ascii_lowercase(e.client_addr), k) {
        let a = e.timestamp + sp + e.kind + sp + e.user + sp + e.client_ip + sp;
        let b = sp + e.target + sp + e.reason;
        assert(h =~= a + e.client_addr + b);
        lemma_keyword_in_part(a, e.client_addr, b, k);
    } else if spec_contains_text(spec_to_ascii_lowercase(e.target), k) {
        let a = e.timestamp + sp + e.kind + sp + e.user + sp + e.client_ip + sp + e.client_addr + sp;
        let b = sp + e.reason;
        assert(h =~= a + e.target + b);
        lemma_keyword_in_part(a, e.target, b, k);
    } else {
        let a = e.timestamp + sp + e.kind + sp + e.user + sp + e.client_ip + sp + e.client_addr + sp
            + e.target + sp;
        assert(h =~= a + e.reason + e0);
        lemma_keyword_in_part(a, e.reason, e0, k);
    }
}

/// Every entry of the log that the view shows is in the filtered list.
pub proof fn law_shown_entries_are_listed(es: Seq<EntryView>, filter: LogFilter, keyword: Seq<char>, i: int)
    requires
        0 <= i < es.len(),
        spec_shown(es[i], filter, keyword),
    ensures
        spec_filter_entries(es, filter, keyword).contains(es[i]),
    decreases es.len(),
{
    let r = spec_filter_entries(es, filter, keyword);
    if i == es.len() - 1 {
        assert(r.last() == es[i]);
        assert(r[r.len() - 1] == es[i]);
    } else {
        law_shown_entries_are_listed(es.drop_last(), filter, keyword, i);
        let r0 = spec_filter_entries(es.drop_last(), filter, keyword);
        let j = choose|j: int| 0 <= j < r0.len() && r0[j] == es[i];
        assert(es.drop_last()[i] == es[i]);
        if spec_shown(es.last(), filter, keyword) {
            assert(r == r0.push(es.last()));
            assert(r[j] == es[i]);
        } else {
            assert(r == r0);
        }
    }
}

/// The log view without a class and without a keyword shows every entry.
pub proof fn law_unfiltered_view_shows_everything(es: Seq<EntryView>)
    ensures
        spec_filter_entries(es, LogFilter::All, seq![]) == es,
    decreases es.len(),
{
    if es.len() > 0 {
        law_unfiltered_view_shows_everything(es.drop_last());
        assert(es.drop_last().push(es.last()) =~= es);
    }
}

/// The log view shows only entries of the log, in the log's order: what it
/// shows is a subsequence of the entries.
pub proof fn law_filtered_view_is_subsequence(es: Seq<EntryView>, filter: LogFilter, keyword: Seq<char>)
    ensures
        spec_filter_entries(es, filter, keyword).len() <= es.len(),
        forall|i: int|
            0 <= i < spec_filter_entries(es, filter, keyword).len() ==> es.contains(
                #[trigger] spec_filter_entries(es, filter, keyword)[i],
            ) && spec_shown(spec_filter_entries(es, filter, keyword)[i], filter, keyword),
    decreases es.len(),
{
    if es.len() > 0 {
        let rest = spec_filter_entries(es.drop_last(), filter, keyword);
        law_filtered_view_is_subsequence(es.drop_last(), filter, keyword);
        assert forall|i: int|
            0 <= i < spec_filter_entries(es, filter, keyword).len() implies es.contains(
                #[trigger] spec_filter_entries(es, filter, keyword)[i],
            ) && spec_shown(spec_filter_entries(es, filter, keyword)[i], filter, keyword) by {
            if i < rest.len() {
                assert(spec_filter_entries(es, filter, keyword)[i] == rest[i]);
                assert(es.drop_last().contains(rest[i]));
                let k = choose|k: int| 0 <= k < es.drop_last().len() && es.drop_last()[k] == rest[i];
                assert(es[k] == rest[i]);
            } else {
                assert(spec_filter_entries(es, filter, keyword)[i] == es.last());
                assert(es[es.len() - 1] == es.last());
            }
        }
    }
}

/// Whether key `a` orders before key `b`: no key before any key, keys by value.
pub open spec fn spec_key_before(a: Option<u128>, b: Option<u128>) -> bool {
    match (a, b) {
        (None, Some(_)) => true,
        (Some(x), Some(y)) => x < y,
        _ => false,
    }
}

/// Whether item `i` orders before item `j` when items are sorted by key,
/// equal keys keeping their order.
pub open spec fn spec_ranks_below(keys: Seq<Option<u128>>, i: int, j: int) -> bool {
    spec_key_before(keys[i], keys[j]) || (keys[i] == keys[j] && i < j)
}

/// The last `count` items of `keys` sorted by key (equal keys in their
/// order), in that order: `r` lists distinct valid indices, ascending in that
/// order, and each item left out orders before each item listed.
pub open spec fn spec_newest(keys: Seq<Option<u128>>, count: nat, r: Seq<usize>) -> bool {
    &&& r.len() == if keys.len() < count {
        keys.len()
    } else {
        count
    }
    &&& forall|a: int| 0 <= a < r.len() ==> (#[trigger] r[a]) < keys.len()
    &&& forall|a: int, b: int| 0 <= a < b < r.len() ==> spec_ranks_below(keys, r[a] as int, r[b] as int)
    &&& forall|i: int, a: int|
        0 <= i < keys.len() && !r.contains(i as usize) && 0 <= a < r.len() ==> #[trigger] spec_ranks_below(
            keys,
            i,
            r[a] as int,
        )
}

fn ranks_below(keys: &Vec<Option<u128>>, i: usize, j: usize) -> (r: bool)
    requires
        i < keys@.len(),
        j < keys@.len(),
    ensures
        r == spec_ranks_below(keys@, i as int, j as int),
{
    let before = match (keys[i], keys[j]) {
        (None, Some(_)) => true,
        (Some(x), Some(y)) => x < y,
        _ => false,
    };
    before || (keys[i] == keys[j] && i < j)
}

fn contains_index(v: &Vec<usize>, x: usize) -> (r: bool)
    ensures
        r == v@.contains(x),
{
    let n = v.len();
    for i in 0..n
        invariant
            n == v@.len(),
            forall|k: int| 0 <= k < i ==> v@[k] != x,
    {
        if v[i] == x {
            return true;
        }
    }
    false
}

proof fn lemma_rank_total(keys: Seq<Option<u128>>, i: int, j: int)
    requires
        0 <= i < keys.len(),
        0 <= j < keys.len(),
        i != j,
    ensures
        spec_ranks_below(keys, i, j) || spec_ranks_below(keys, j, i),
        !(spec_ranks_below(keys, i, j) && spec_ranks_below(keys, j, i)),
{
}

proof fn lemma_rank_transitive(keys: Seq<Option<u128>>, i: int, j: int, k: int)
    requires
        spec_ranks_below(keys, i, j),
        spec_ranks_below(keys, j, k),
    ensures
        spec_ranks_below(keys, i, k),
{
}

/// The indices of the `count` newest items by key (no key being oldest,
/// equal keys in their order), oldest first: the files whose logs the log
/// view reads.
pub fn newest(keys: &Vec<Option<u128>>, count: usize) -> (r: Vec<usize>)
    ensures
        spec_newest(keys@, count as nat, r@),
{
    let n = keys.len();
    let mut chosen: Vec<usize> = Vec::new();
    let target = if n < count {
        n
    } else {
        count
    };
    while chosen.len() < target
        invariant
            n == keys@.len(),
            target <= n,
            chosen@.len() <= target,
            forall|a: int| 0 <= a < chosen@.len() ==> (#[trigger] chosen@[a]) < n,
            forall|a: int, b: int|
                0 <= a < b < chosen@.len() ==> spec_ranks_below(
                    keys@,
                    chosen@[b] as int,
                    chosen@[a] as int,
                ),
            forall|i: int, a: int|
                0 <= i < n && !chosen@.contains(i as usize) && 0 <= a < chosen@.len()
                    ==> #[trigger] spec_ranks_below(keys@, i, chosen@[a] as int),
        decreases target - chosen@.len(),
    {
        let mut best: usize = n;
        let mut i: usize = 0;
        while i < n
            invariant
                n == keys@.len(),
                i <= n,
                best == n || (best < i && !chosen@.contains(best)),
                forall|j: int|
                    0 <= j < i && !(#[trigger] chosen@.contains(j as usize)) ==> best < n && (j
                        == best || spec_ranks_below(keys@, j, best as int)),
            decreases n - i,
        {
            if !contains_index(&chosen, i) {
                if best == n || ranks_below(keys, best, i) {
                    proof {
                        assert forall|j: int|
                            0 <= j < i && !(#[trigger] chosen@.contains(j as usize)) implies spec_ranks_below(
                            keys@,
                            j,
                            i as int,
                        ) by {
                            assert(best < n);
                            if j != best as int {
                                lemma_rank_transitive(keys@, j, best as int, i as int);
                            }
                        }
                    }
                    best = i;
                } else {
                    proof {
                        lemma_rank_total(keys@, best as int, i as int);
                    }
                }
            }
            i = i + 1;
        }
        proof {
            if best == n {
                assert(chosen@.no_duplicates()) by {
                    assert forall|a: int, b: int|
                        0 <= a < chosen@.len() && 0 <= b < chosen@.len() && a != b implies chosen@[a]
                        != chosen@[b] by {
                        if a < b {
                            assert(spec_ranks_below(keys@, chosen@[b] as int, chosen@[a] as int));
                        } else {
                            assert(spec_ranks_below(keys@, chosen@[a] as int, chosen@[b] as int));
                        }
                    }
                }
                lemma_some_index_free(chosen@, n as nat);
                let w = choose|w: usize| w < n && !(#[trigger] chosen@.contains(w));
                assert(!chosen@.contains((w as int) as usize));
            }
        }
        let ghost before = chosen@;
        chosen.push(best);
        proof {
            assert forall|i: int, a: int|
                0 <= i < n && !chosen@.contains(i as usize) && 0 <= a < chosen@.len()
                    implies #[trigger] spec_ranks_below(keys@, i, chosen@[a] as int) by {
                assert(!before.contains(i as usize)) by {
                    if before.contains(i as usize) {
                        let k = choose|k: int| 0 <= k < before.len() && before[k] == i as usize;
                        assert(chosen@[k] == i as usize);
                    }
                }
                assert(i != best as int) by {
                    assert(chosen@[before.len() as int] == best);
                }
                if a == before.len() {
                } else {
                    assert(chosen@[a] == before[a]);
                }
            }
            assert forall|a: int, b: int|
                0 <= a < b < chosen@.len() implies spec_ranks_below(
                keys@,
                chosen@[b] as int,
                chosen@[a] as int,
            ) by {
                if b == before.len() {
                    assert(!before.contains(best));
                }
            }
        }
    }
    let mut r: Vec<usize> = Vec::new();
    let m = chosen.len();
    let mut k = m;
    while k > 0
        invariant
            m == chosen@.len(),
            k <= m,
            r@.len() == m - k,
            forall|a: int| 0 <= a < r@.len() ==> r@[a] == chosen@[m - 1 - a],
        decreases k,
    {
        k = k - 1;
        r.push(chosen[k]);
    }
    proof {
        assert forall|x: usize| r@.contains(x) <==> chosen@.contains(x) by {
            if r@.contains(x) {
                let a = choose|a: int| 0 <= a < r@.len() && r@[a] == x;
                assert(chosen@[m - 1 - a] == x);
            }
            if chosen@.contains(x) {
                let a = choose|a: int| 0 <= a < chosen@.len() && chosen@[a] == x;
                assert(r@[m - 1 - a] == x);
            }
        }
        assert forall|a: int| 0 <= a < r@.len() implies (#[trigger] r@[a]) < keys@.len() by {
            assert(r@[a] == chosen@[m - 1 - a]);
        }
        assert forall|a: int, b: int| 0 <= a < b < r@.len() implies spec_ranks_below(
            keys@,
            r@[a] as int,
            r@[b] as int,
        ) by {
            assert(r@[a] == chosen@[m - 1 - a]);
            assert(r@[b] == chosen@[m - 1 - b]);
        }
        assert forall|i: int, a: int|
            0 <= i < keys@.len() && !r@.contains(i as usize) && 0 <= a < r@.len()
                implies #[trigger] spec_ranks_below(keys@, i, r@[a] as int) by {
            assert(r@[a] == chosen@[m - 1 - a]);
        }
    }
    r
}

/// A sequence of fewer than `n` distinct indices below `n` leaves some index free.
proof fn lemma_some_index_free(v: Seq<usize>, n: nat)
    requires
        v.len() < n,
        n <= usize::MAX,
        v.no_duplicates(),
        forall|a: int| 0 <= a < v.len() ==> (#[trigger] v[a]) < n,
    ensures
        exists|i: usize| i < n && !(#[trigger] v.contains(i)),
{
    let s = v.to_set();
    let full = Set::new(|i: usize| i < n);
    assert(s.subset_of(full));
    vstd::set_lib::lemma_int_range(0, n as int);
    assert(full.finite() && full.len() == n) by {
        lemma_usize_range_len(n);
    }
    v.unique_seq_to_set();
    if forall|i: usize| i < n ==> #[trigger] v.contains(i) {
        assert(full.subset_of(s));
        assert(s =~= full);
    }
}

proof fn lemma_usize_range_len(n: nat)
    requires
        n <= usize::MAX,
    ensures
        Set::new(|i: usize| i < n).finite(),
        Set::new(|i: usize| i < n).len() == n,
    decreases n,
{
    if n == 0 {
        assert(Set::new(|i: usize| i < n) =~= Set::<usize>::empty());
    } else {
        lemma_usize_range_len((n - 1) as nat);
        let smaller = Set::new(|i: usize| i < (n - 1) as nat);
        let top = (n - 1) as usize;
        assert(!smaller.contains(top));
        assert(Set::new(|i: usize| i < n) =~= smaller.insert(top));
    }
}

proof fn lemma_encode_concat(a: Seq<char>, b: Seq<char>)
    ensures
        encode_utf8(a + b) == encode_utf8(a) + encode_utf8(b),
    decreases a.len(),
{
    if a.len() == 0 {
        assert(a + b =~= b);
        assert(encode_utf8(a) + encode_utf8(b) =~= encode_utf8(b));
    } else {
        lemma_encode_concat(a.drop_first(), b);
        assert((a + b).drop_first() =~= a.drop_first() + b);
        assert((a + b)[0] == a[0]);
        assert(encode_utf8(a + b) =~= encode_utf8(a) + encode_utf8(b));
    }
}

proof fn lemma_boundary_at_join(a: Seq<char>, b: Seq<char>)
    ensures
        is_char_boundary(encode_utf8(a) + encode_utf8(b), encode_utf8(a).len() as int),
    decreases a.len(),
{
    lemma_encode_concat(a, b);
    vstd::utf8::encode_utf8_valid_utf8(a + b);
    if a.len() > 0 {
        let bytes = encode_utf8(a + b);
        vstd::utf8::encode_utf8_first_scalar(a + b);
        assert((a + b)[0] == a[0]);
        assert((a + b).drop_first() =~= a.drop_first() + b);
        lemma_boundary_at_join(a.drop_first(), b);
        lemma_encode_concat(a.drop_first(), b);
        assert(vstd::utf8::pop_first_scalar(bytes) =~= encode_utf8(a.drop_first() + b));
    }
}

proof fn lemma_token_concat(a: Seq<char>, b: Seq<char>)
    requires
        spec_is_token(a),
        spec_is_token(b),
    ensures
        spec_is_token(a + b),
{
    assert forall|i: int| 0 <= i < (a + b).len() implies !spec_is_whitespace(#[trigger] (a + b)[i]) by {
        if i < a.len() {
            assert((a + b)[i] == a[i]);
        } else {
            assert((a + b)[i] == b[i - a.len()]);
        }
    }
}

proof fn lemma_first_equals_sign(key: Seq<char>, value: Seq<char>)
    requires
        !key.contains('='),
    ensures
        spec_split_once(key + "="@ + value, '=') == Some((key, value)),
{
    reveal_strlit("=");
    let w = key + "="@ + value;
    assert(w[key.len() as int] == '=');
    assert(w.contains('='));
    let i = spec_find(w, '=')->0;
    assert(forall|k: int| 0 <= k < key.len() ==> w[k] == key[k]);
    if i < key.len() {
        assert(key[i] == '=');
        assert(key.contains('='));
    }
    assert(i == key.len());
    assert(w.subrange(0, i) =~= key);
    assert(w.subrange(i + 1, w.len() as int) =~= value);
}

/// The bytes of a line whose first 20 characters are ASCII: characters
/// start at bytes 19 and 20, and the parts decode to the first 19
/// characters and to what follows the 20th.
proof fn lemma_prefix_bytes(a: Seq<char>, rest: Seq<char>)
    requires
        a.len() == 20,
        vstd::utf8::is_ascii_chars(a),
    ensures
        ({
            let b = encode_utf8(a + rest);
            &&& b.len() >= 20
            &&& is_char_boundary(b, 19)
            &&& is_char_boundary(b, 20)
            &&& decode_utf8(b.subrange(0, 19)) == a.subrange(0, 19)
            &&& decode_utf8(b.subrange(20, b.len() as int)) == rest
        }),
{
    let a0 = a.subrange(0, 19);
    let a1 = a.subrange(19, 20);
    assert(a =~= a0 + a1);
    assert(vstd::utf8::is_ascii_chars(a0)) by {
        assert forall|i: int| 0 <= i < a0.len() implies '\0' <= #[trigger] a0[i] <= '\u{7f}' by {
            assert(a0[i] == a[i]);
        }
    }
    assert(vstd::utf8::is_ascii_chars(a1)) by {
        assert(a1[0] == a[19]);
    }
    vstd::utf8::is_ascii_chars_encode_utf8(a);
    vstd::utf8::is_ascii_chars_encode_utf8(a0);
    vstd::utf8::is_ascii_chars_encode_utf8(a1);
    lemma_encode_concat(a0, a1);
    lemma_encode_concat(a, rest);
    lemma_encode_concat(a0, a1 + rest);
    assert(a + rest =~= a0 + (a1 + rest));
    lemma_boundary_at_join(a0, a1 + rest);
    lemma_boundary_at_join(a, rest);
    let b = encode_utf8(a + rest);
    assert(b.subrange(0, 19) =~= encode_utf8(a0));
    assert(b.subrange(20, b.len() as int) =~= encode_utf8(rest));
    vstd::utf8::encode_utf8_decode_utf8(a0);
    vstd::utf8::encode_utf8_decode_utf8(rest);
}

/// The word `key=value`, for a key of a log line.
pub open spec fn spec_field_word(key: Seq<char>, value: Seq<char>) -> Seq<char> {
    key + "="@ + value
}

/// The fields of a log line after its timestamp: the first word under `key`,
/// then the user, the client and the target.
pub open spec fn spec_line_fields(
    key: Seq<char>,
    first: Seq<char>,
    user: Seq<char>,
    client_addr: Seq<char>,
    client_ip: Seq<char>,
    target: Seq<char>,
) -> Seq<char> {
    spec_field_word(key, first) + " "@ + spec_field_word("user"@, user) + " "@
        + spec_field_word("client_ip"@, client_ip) + " "@
        + spec_field_word("client_addr"@, client_addr) + " "@
        + spec_field_word("target"@, target)
}

/// The five words of those fields.
pub open spec fn spec_line_words(
    key: Seq<char>,
    first: Seq<char>,
    user: Seq<char>,
    client_addr: Seq<char>,
    client_ip: Seq<char>,
    target: Seq<char>,
) -> Seq<Seq<char>> {
    seq![
        spec_field_word(key, first),
        spec_field_word("user"@, user),
        spec_field_word("client_ip"@, client_ip),
        spec_field_word("client_addr"@, client_addr),
        spec_field_word("target"@, target),
    ]
}

proof fn lemma_field_word_token(key: Seq<char>, value: Seq<char>)
    requires
        spec_is_token(key),
        spec_is_token(value),
    ensures
        spec_is_token(spec_field_word(key, value)),
        !spec_is_whitespace(spec_field_word(key, value).last()),
{
    reveal_strlit("=");
    assert(spec_is_token("="@)) by {
        assert("="@[0] == '=');
    }
    lemma_token_concat(key, "="@);
    lemma_token_concat(key + "="@, value);
    let w = spec_field_word(key, value);
    assert(w[w.len() - 1] == w.last());
}

/// The words of the fields of a line are its five `key=value` words.
proof fn lemma_line_field_words(
    key: Seq<char>,
    first: Seq<char>,
    user: Seq<char>,
    client_addr: Seq<char>,
    client_ip: Seq<char>,
    target: Seq<char>,
)
    requires
        spec_is_token(key),
        spec_is_token(first),
        spec_is_token(user),
        spec_is_token(client_addr),
        spec_is_token(client_ip),
        spec_is_token(target),
    ensures
        spec_words(spec_line_fields(key, first, user, client_addr, client_ip, target))
            == spec_line_words(key, first, user, client_addr, client_ip, target),
        !spec_is_whitespace(spec_line_fields(key, first, user, client_addr, client_ip, target).last()),
{
    reveal_strlit("user");
    reveal_strlit("client_ip");
    reveal_strlit("client_addr");
    reveal_strlit("target");
    assert(spec_is_token("user"@)) by {
        assert("user"@ =~= seq!['u', 's', 'e', 'r']);
    }
    assert(spec_is_token("client_ip"@)) by {
        assert("client_ip"@ =~= seq!['c', 'l', 'i', 'e', 'n', 't', '_', 'i', 'p']);
    }
    assert(spec_is_token("client_addr"@)) by {
        assert("client_addr"@ =~= seq!['c', 'l', 'i', 'e', 'n', 't', '_', 'a', 'd', 'd', 'r']);
    }
    assert(spec_is_token("target"@)) by {
        assert("target"@ =~= seq!['t', 'a', 'r', 'g', 'e', 't']);
    }
    let w1 = spec_field_word(key, first);
    let w2 = spec_field_word("user"@, user);
    let w3 = spec_field_word("client_ip"@, client_ip);
    let w4 = spec_field_word("client_addr"@, client_addr);
    let w5 = spec_field_word("target"@, target);
    lemma_field_word_token(key, first);
    lemma_field_word_token("user"@, user);
    lemma_field_word_token("client_ip"@, client_ip);
    lemma_field_word_token("client_addr"@, client_addr);
    lemma_field_word_token("target"@, target);
    let f2 = w1 + " "@ + w2;
    let f3 = f2 + " "@ + w3;
    let f4 = f3 + " "@ + w4;
    let f5 = f4 + " "@ + w5;
    reveal_strlit("=");
    assert(w1.len() > 0);
    lemma_words_single(w1);
    lemma_words_push_word(w1, w2);
    lemma_words_push_word(f2, w3);
    lemma_words_push_word(f3, w4);
    lemma_words_push_word(f4, w5);
    assert(spec_words(f5) =~= seq![w1, w2, w3, w4, w5]);
    assert(f5.last() == w5.last());
}

proof fn lemma_key_tokens()
    ensures
        spec_is_token("event"@),
        spec_is_token("protocol"@),
        spec_is_token("reason"@),
{
    reveal_strlit("event");
    reveal_strlit("protocol");
    reveal_strlit("reason");
    assert("event"@ =~= seq!['e', 'v', 'e', 'n', 't']);
    assert("protocol"@ =~= seq!['p', 'r', 'o', 't', 'o', 'c', 'o', 'l']);
    assert("reason"@ =~= seq!['r', 'e', 'a', 's', 'o', 'n']);
}

proof fn lemma_apply_protocol_word(e: EntryView, value: Seq<char>)
    ensures
        spec_apply_field(e, spec_field_word("protocol"@, value)) == (EntryView {
            kind: "访问/"@ + value,
            ..e
        }),
{
    reveal(spec_apply_field);
    reveal_strlit("protocol");
    assert(!("protocol"@).contains('='));
    lemma_first_equals_sign("protocol"@, value);
}

proof fn lemma_apply_reason_word(e: EntryView, value: Seq<char>)
    ensures
        spec_apply_field(e, spec_field_word("reason"@, value)) == (EntryView { reason: value, ..e }),
{
    reveal(spec_apply_field);
    reveal_strlit("reason");
    reveal_strlit("target");
    reveal_strlit("client_addr");
    reveal_strlit("client_ip");
    reveal_strlit("user");
    reveal_strlit("event");
    reveal_strlit("protocol");
    assert(!("reason"@).contains('='));
    lemma_first_equals_sign("reason"@, value);
    assert("reason"@ != "protocol"@ && "reason"@ != "event"@ && "reason"@ != "user"@);
    assert("reason"@[0] != "target"@[0]);
    assert("reason"@ != "client_ip"@ && "reason"@ != "client_addr"@ && "reason"@ != "target"@);
}

proof fn lemma_apply_event_word(e: EntryView, value: Seq<char>)
    ensures
        spec_apply_field(e, spec_field_word("event"@, value)) == (EntryView { kind: value, ..e }),
{
    reveal(spec_apply_field);
    reveal_strlit("event");
    reveal_strlit("protocol");
    assert(!("event"@).contains('='));
    lemma_first_equals_sign("event"@, value);
    assert("event"@ != "protocol"@);
}

proof fn lemma_apply_user_word(e: EntryView, value: Seq<char>)
    ensures
        spec_apply_field(e, spec_field_word("user"@, value)) == (EntryView { user: value, ..e }),
{
    reveal(spec_apply_field);
    reveal_strlit("user");
    reveal_strlit("event");
    reveal_strlit("protocol");
    assert(!("user"@).contains('='));
    lemma_first_equals_sign("user"@, value);
    assert("user"@ != "protocol"@ && "user"@ != "event"@);
}

proof fn lemma_apply_client_ip_word(e: EntryView, value: Seq<char>)
    ensures
        spec_apply_field(e, spec_field_word("client_ip"@, value)) == (EntryView { client_ip: value, ..e }),
{
    reveal(spec_apply_field);
    reveal_strlit("client_ip");
    reveal_strlit("user");
    reveal_strlit("event");
    reveal_strlit("protocol");
    assert(!("client_ip"@).contains('='));
    lemma_first_equals_sign("client_ip"@, value);
    assert("client_ip"@ != "protocol"@ && "client_ip"@ != "event"@ && "client_ip"@ != "user"@);
}

proof fn lemma_apply_client_addr_word(e: EntryView, value: Seq<char>)
    ensures
        spec_apply_field(e, spec_field_word("client_addr"@, value)) == (EntryView { client_addr: value, ..e }),
{
    reveal(spec_apply_field);
    reveal_strlit("client_addr");
    reveal_strlit("client_ip");
    reveal_strlit("user");
    reveal_strlit("event");
    reveal_strlit("protocol");
    assert(!("client_addr"@).contains('='));
    lemma_first_equals_sign("client_addr"@, value);
    assert("client_addr"@ != "protocol"@ && "client_addr"@ != "event"@ && "client_addr"@ != "user"@);
    assert("client_addr"@[7] != "client_ip"@[7]);
}

proof fn lemma_apply_target_word(e: EntryView, value: Seq<char>)
    ensures
        spec_apply_field(e, spec_field_word("target"@, value)) == (EntryView { target: value, ..e }),
{
    reveal(spec_apply_field);
    reveal_strlit("target");
    reveal_strlit("client_addr");
    reveal_strlit("client_ip");
    reveal_strlit("user");
    reveal_strlit("event");
    reveal_strlit("protocol");
    assert(!("target"@).contains('='));
    lemma_first_equals_sign("target"@, value);
    assert("target"@ != "protocol"@ && "target"@ != "event"@ && "target"@ != "user"@);
    assert("target"@ != "client_ip"@ && "target"@ != "client_addr"@);
}

/// After its first word, the words of a line set the user, the client and
/// the target of the entry, and nothing else.
proof fn lemma_line_fields_apply(
    e0: EntryView,
    e1: EntryView,
    key: Seq<char>,
    first: Seq<char>,
    user: Seq<char>,
    client_addr: Seq<char>,
    client_ip: Seq<char>,
    target: Seq<char>,
)
    requires
        spec_apply_field(e0, spec_field_word(key, first)) == e1,
    ensures
        spec_apply_fields(e0, spec_line_words(key, first, user, client_addr, client_ip, target))
            == (EntryView { user, client_ip, client_addr, target, ..e1 }),
{
    let w1 = spec_field_word(key, first);
    let w2 = spec_field_word("user"@, user);
    let w3 = spec_field_word("client_ip"@, client_ip);
    let w4 = spec_field_word("client_addr"@, client_addr);
    let w5 = spec_field_word("target"@, target);
    let e2 = EntryView { user, ..e1 };
    let e3 = EntryView { client_ip, ..e2 };
    let e4 = EntryView { client_addr, ..e3 };
    let s0 = Seq::<Seq<char>>::empty();
    assert(spec_apply_fields(e0, s0) == e0);
    lemma_apply_fields_push(e0, s0, w1);
    lemma_apply_fields_push(e0, s0.push(w1), w2);
    lemma_apply_user_word(e1, user);
    lemma_apply_fields_push(e0, s0.push(w1).push(w2), w3);
    lemma_apply_client_ip_word(e2, client_ip);
    lemma_apply_fields_push(e0, s0.push(w1).push(w2).push(w3), w4);
    lemma_apply_client_addr_word(e3, client_addr);
    lemma_apply_fields_push(e0, s0.push(w1).push(w2).push(w3).push(w4), w5);
    lemma_apply_target_word(e4, target);
    assert(spec_line_words(key, first, user, client_addr, client_ip, target)
        =~= s0.push(w1).push(w2).push(w3).push(w4).push(w5));
}

proof fn lemma_apply_fields_push(e: EntryView, ws: Seq<Seq<char>>, w: Seq<char>)
    ensures
        spec_apply_fields(e, ws.push(w)) == spec_apply_field(spec_apply_fields(e, ws), w),
{
    assert(ws.push(w).drop_last() =~= ws);
}

/// The characters of a moment's text after its 20th: digits, signs and
/// colons (none when the text has 20 characters or fewer).
pub open spec fn spec_stamp_tail(t: Seq<char>) -> Seq<char> {
    t.subrange(20, t.len() as int)
}

proof fn lemma_stamp_tail_word(t: Seq<char>)
    requires
        t.len() >= 20,
        forall|i: int| 20 <= i < t.len() ==> spec_stamp_char(#[trigger] t[i]),
    ensures
        spec_is_token(spec_stamp_tail(t)),
        !spec_stamp_tail(t).contains('='),
        spec_stamp_tail(t).len() == 0 ==> spec_words(spec_stamp_tail(t)) == Seq::<Seq<char>>::empty(),
        spec_stamp_tail(t).len() > 0 ==> spec_words(spec_stamp_tail(t)) == seq![spec_stamp_tail(t)],
{
    let l = spec_stamp_tail(t);
    assert forall|i: int| 0 <= i < l.len() implies !spec_is_whitespace(#[trigger] l[i]) && l[i] != '=' by {
        assert(l[i] == t[i + 20]);
        assert(spec_stamp_char(t[i + 20]));
    }
    if l.len() > 0 {
        lemma_words_single(l);
    } else {
        assert(l =~= Seq::<char>::empty());
    }
}

/// The words of a word `p`, a space and the fields of a line are the word
/// (if any) and the five words of the fields.
proof fn lemma_line_field_words_after(
    p: Seq<char>,
    key: Seq<char>,
    first: Seq<char>,
    user: Seq<char>,
    client_addr: Seq<char>,
    client_ip: Seq<char>,
    target: Seq<char>,
)
    requires
        spec_is_token(key),
        spec_is_token(first),
        spec_is_token(user),
        spec_is_token(client_addr),
        spec_is_token(client_ip),
        spec_is_token(target),
    ensures
        spec_words(p + " "@ + spec_line_fields(key, first, user, client_addr, client_ip, target))
            == spec_words(p) + spec_line_words(key, first, user, client_addr, client_ip, target),
{
    reveal_strlit("user");
    reveal_strlit("client_ip");
    reveal_strlit("client_addr");
    reveal_strlit("target");
    reveal_strlit("=");
    assert(spec_is_token("user"@)) by {
        assert("user"@ =~= seq!['u', 's', 'e', 'r']);
    }
    assert(spec_is_token("client_ip"@)) by {
        assert("client_ip"@ =~= seq!['c', 'l', 'i', 'e', 'n', 't', '_', 'i', 'p']);
    }
    assert(spec_is_token("client_addr"@)) by {
        assert("client_addr"@ =~= seq!['c', 'l', 'i', 'e', 'n', 't', '_', 'a', 'd', 'd', 'r']);
    }
    assert(spec_is_token("target"@)) by {
        assert("target"@ =~= seq!['t', 'a', 'r', 'g', 'e', 't']);
    }
    let w1 = spec_field_word(key, first);
    let w2 = spec_field_word("user"@, user);
    let w3 = spec_field_word("client_ip"@, client_ip);
    let w4 = spec_field_word("client_addr"@, client_addr);
    let w5 = spec_field_word("target"@, target);
    lemma_field_word_token(key, first);
    lemma_field_word_token("user"@, user);
    lemma_field_word_token("client_ip"@, client_ip);
    lemma_field_word_token("client_addr"@, client_addr);
    lemma_field_word_token("target"@, target);
    assert(w1.len() > 0);
    let g1 = p + " "@ + w1;
    let g2 = g1 + " "@ + w2;
    let g3 = g2 + " "@ + w3;
    let g4 = g3 + " "@ + w4;
    let g5 = g4 + " "@ + w5;
    lemma_words_push_word(p, w1);
    lemma_words_push_word(g1, w2);
    lemma_words_push_word(g2, w3);
    lemma_words_push_word(g3, w4);
    lemma_words_push_word(g4, w5);
    assert(p + " "@ + spec_line_fields(key, first, user, client_addr, client_ip, target) =~= g5);
    assert(spec_words(g5) =~= spec_words(p) + seq![w1, w2, w3, w4, w5]);
}

/// Words before the fields that hold no `=` change no field of the entry.
proof fn lemma_apply_fields_skip(e: EntryView, p: Seq<Seq<char>>, ws: Seq<Seq<char>>)
    requires
        p.len() <= 1,
        p.len() == 1 ==> !p[0].contains('='),
    ensures
        spec_apply_fields(e, p + ws) == spec_apply_fields(e, ws),
    decreases ws.len(),
{
    if ws.len() == 0 {
        assert(p + ws =~= p);
        if p.len() == 1 {
            reveal(spec_apply_field);
            assert(p.drop_last() =~= Seq::<Seq<char>>::empty());
            assert(spec_apply_fields(e, Seq::<Seq<char>>::empty()) == e);
            assert(spec_split_once(p[0], '=') is None);
        } else {
            assert(p =~= Seq::<Seq<char>>::empty());
        }
    } else {
        lemma_apply_fields_skip(e, p, ws.drop_last());
        assert((p + ws).drop_last() =~= p + ws.drop_last());
        assert((p + ws).last() == ws.last());
    }
}

/// A line of a moment's text, a space, fields and a line feed reads back as
/// the first 19 characters of the text and the words of the fields: the
/// rest of a text longer than 19 characters holds no field.
proof fn lemma_stamped_line_reads(m: Moment, fields: Seq<char>, ws: Seq<Seq<char>>)
    requires
        m.valid(),
        fields.len() > 0,
        !spec_is_whitespace(fields.last()),
        spec_words(fields) == ws,
        spec_stamp_text(m).len() >= 20 ==> spec_words(
            spec_stamp_tail(spec_stamp_text(m)) + " "@ + fields,
        ) == spec_words(spec_stamp_tail(spec_stamp_text(m))) + ws,
    ensures
        spec_log_line_readable((spec_stamp_text(m) + " "@ + fields).push('\n')),
        spec_parse_log_line((spec_stamp_text(m) + " "@ + fields).push('\n')) == Some(
            spec_apply_fields(spec_initial_entry(spec_stamp_text(m).subrange(0, 19)), ws),
        ),
{
    reveal_strlit(" ");
    let t = spec_stamp_text(m);
    lemma_stamp_text_shape(m);
    let body = t + " "@ + fields;
    assert(body[0] == t[0]);
    assert(!spec_is_whitespace(t[0]));
    assert(body.last() == fields.last());
    assert(spec_is_whitespace('\n'));
    lemma_trim_drops_final(body, '\n');
    let a = body.subrange(0, 20);
    let rest = body.subrange(20, body.len() as int);
    assert(body =~= a + rest);
    assert(vstd::utf8::is_ascii_chars(a)) by {
        assert forall|i: int| 0 <= i < a.len() implies '\0' <= #[trigger] a[i] <= '\u{7f}' by {
            if i < t.len() {
                assert(a[i] == t[i]);
            } else {
                assert(a[i] == ' ');
            }
        }
    }
    lemma_prefix_bytes(a, rest);
    assert(a.subrange(0, 19) =~= t.subrange(0, 19));
    let e0 = spec_initial_entry(t.subrange(0, 19));
    if t.len() == 19 {
        assert(rest =~= fields);
    } else {
        let l = spec_stamp_tail(t);
        assert(rest =~= l + " "@ + fields);
        lemma_stamp_tail_word(t);
        if l.len() == 0 {
            assert(spec_words(l) + ws =~= ws);
        } else {
            assert(seq![l] + ws == spec_words(l) + ws);
        }
        lemma_apply_fields_skip(e0, spec_words(l), ws);
    }
}

/// The entry that a line written by `log_event` reads back as, for the
/// first 19 characters of its stamp.
pub open spec fn spec_logged_event(
    timestamp: Seq<char>,
    event: Seq<char>,
    username: Option<Seq<char>>,
    client_addr: Seq<char>,
    client_ip: Seq<char>,
    target: Option<Seq<char>>,
) -> EntryView {
    EntryView {
        timestamp,
        kind: event,
        user: or_dash(username),
        client_ip,
        client_addr,
        target: or_dash(target),
        reason: seq![],
    }
}

/// A line that the logger writes for an event at a moment `m` is read back
/// by the log view with the first 19 characters of its stamp (the whole
/// stamp in the years 0 to 9999) and the fields it was written with, when no
/// field holds whitespace.
pub proof fn law_logged_event_reads_back(
    m: Moment,
    event: Seq<char>,
    username: Option<Seq<char>>,
    client_addr: Seq<char>,
    client_ip: Seq<char>,
    target: Option<Seq<char>>,
)
    requires
        m.valid(),
        spec_is_token(event),
        spec_is_token(or_dash(username)),
        spec_is_token(client_addr),
        spec_is_token(client_ip),
        spec_is_token(or_dash(target)),
    ensures
        spec_log_line_readable(
            spec_event_line(spec_stamp_text(m), event, username, client_addr, client_ip, target),
        ),
        spec_parse_log_line(
            spec_event_line(spec_stamp_text(m), event, username, client_addr, client_ip, target),
        ) == Some(
            spec_logged_event(
                spec_stamp_text(m).subrange(0, 19),
                event,
                username,
                client_addr,
                client_ip,
                target,
            ),
        ),
{
    reveal_strlit(" event=");
    reveal_strlit(" user=");
    reveal_strlit(" client_ip=");
    reveal_strlit(" client_addr=");
    reveal_strlit(" target=");
    reveal_strlit("event");
    reveal_strlit("user");
    reveal_strlit("client_ip");
    reveal_strlit("client_addr");
    reveal_strlit("target");
    reveal_strlit("=");
    reveal_strlit(" ");
    reveal_strlit("\n");
    let t = spec_stamp_text(m);
    let u = or_dash(username);
    let tg = or_dash(target);
    let f = spec_line_fields("event"@, event, u, client_addr, client_ip, tg);
    let lw = spec_line_words("event"@, event, u, client_addr, client_ip, tg);
    assert(spec_event_line(t, event, username, client_addr, client_ip, target) =~= (t + " "@ + f).push(
        '\n',
    ));
    lemma_key_tokens();
    lemma_line_field_words("event"@, event, u, client_addr, client_ip, tg);
    if t.len() >= 20 {
        lemma_line_field_words_after(spec_stamp_tail(t), "event"@, event, u, client_addr, client_ip, tg);
    }
    lemma_stamped_line_reads(m, f, lw);
    let e0 = spec_initial_entry(t.subrange(0, 19));
    lemma_apply_event_word(e0, event);
    lemma_line_fields_apply(e0, EntryView { kind: event, ..e0 }, "event"@, event, u, client_addr, client_ip, tg);
}

/// A line that the logger writes for a relayed connection at a moment `m`
/// is read back with the first 19 characters of its stamp, the kind `访问/`
/// and its protocol, and the user, client and target it was written with,
/// when no field holds whitespace.
pub proof fn law_logged_access_reads_back(
    m: Moment,
    protocol: Seq<char>,
    username: Option<Seq<char>>,
    client_addr: Seq<char>,
    client_ip: Seq<char>,
    target: Seq<char>,
)
    requires
        m.valid(),
        spec_is_token(protocol),
        spec_is_token(or_dash(username)),
        spec_is_token(client_addr),
        spec_is_token(client_ip),
        spec_is_token(target),
    ensures
        spec_log_line_readable(
            spec_access_line(spec_stamp_text(m), protocol, username, client_addr, client_ip, target),
        ),
        spec_parse_log_line(
            spec_access_line(spec_stamp_text(m), protocol, username, client_addr, client_ip, target),
        ) == Some(
            EntryView {
                timestamp: spec_stamp_text(m).subrange(0, 19),
                kind: "访问/"@ + protocol,
                user: or_dash(username),
                client_ip,
                client_addr,
                target,
                reason: seq![],
            },
        ),
{
    reveal_strlit(" protocol=");
    reveal_strlit(" user=");
    reveal_strlit(" client_ip=");
    reveal_strlit(" client_addr=");
    reveal_strlit(" target=");
    reveal_strlit("protocol");
    reveal_strlit("user");
    reveal_strlit("client_ip");
    reveal_strlit("client_addr");
    reveal_strlit("target");
    reveal_strlit("=");
    reveal_strlit(" ");
    reveal_strlit("\n");
    let t = spec_stamp_text(m);
    let u = or_dash(username);
    let f = spec_line_fields("protocol"@, protocol, u, client_addr, client_ip, target);
    let lw = spec_line_words("protocol"@, protocol, u, client_addr, client_ip, target);
    assert(spec_access_line(t, protocol, username, client_addr, client_ip, target) =~= (t + " "@
        + f).push('\n'));
    lemma_key_tokens();
    lemma_line_field_words("protocol"@, protocol, u, client_addr, client_ip, target);
    if t.len() >= 20 {
        lemma_line_field_words_after(
            spec_stamp_tail(t),
            "protocol"@,
            protocol,
            u,
            client_addr,
            client_ip,
            target,
        );
    }
    lemma_stamped_line_reads(m, f, lw);
    let e0 = spec_initial_entry(t.subrange(0, 19));
    lemma_apply_protocol_word(e0, protocol);
    lemma_line_fields_apply(
        e0,
        EntryView { kind: "访问/"@ + protocol, ..e0 },
        "protocol"@,
        protocol,
        u,
        client_addr,
        client_ip,
        target,
    );
}

/// A line that the logger writes for a failure at a moment `m` is read
/// back with the first 19 characters of its stamp and the event, the user,
/// the client, the target and the reason it was written with, when no field
/// holds whitespace, the reason being one word too.
pub proof fn law_logged_failure_reads_back(
    m: Moment,
    event: Seq<char>,
    username: Option<Seq<char>>,
    client_addr: Seq<char>,
    client_ip: Seq<char>,
    target: Option<Seq<char>>,
    reason: Seq<char>,
)
    requires
        m.valid(),
        spec_is_token(event),
        spec_is_token(or_dash(username)),
        spec_is_token(client_addr),
        spec_is_token(client_ip),
        spec_is_token(or_dash(target)),
        spec_is_token(reason),
    ensures
        spec_log_line_readable(
            spec_failure_line(spec_stamp_text(m), event, username, client_addr, client_ip, target, reason),
        ),
        spec_parse_log_line(
            spec_failure_line(spec_stamp_text(m), event, username, client_addr, client_ip, target, reason),
        ) == Some(
            EntryView {
                reason,
                ..spec_logged_event(
                    spec_stamp_text(m).subrange(0, 19),
                    event,
                    username,
                    client_addr,
                    client_ip,
                    target,
                )
            },
        ),
{
    let t = spec_stamp_text(m);
    let u = or_dash(username);
    let tg = or_dash(target);
    let f5 = spec_line_fields("event"@, event, u, client_addr, client_ip, tg);
    let lw = spec_line_words("event"@, event, u, client_addr, client_ip, tg);
    let w6 = spec_field_word("reason"@, reason);
    let f = f5 + " "@ + w6;
    assert(spec_failure_line(t, event, username, client_addr, client_ip, target, reason) =~= (t
        + " "@ + f).push('\n')) by {
        reveal_strlit(" event=");
        reveal_strlit(" user=");
        reveal_strlit(" client_ip=");
        reveal_strlit(" client_addr=");
        reveal_strlit(" target=");
        reveal_strlit(" reason=");
        reveal_strlit("reason");
        reveal_strlit("event");
        reveal_strlit("user");
        reveal_strlit("client_ip");
        reveal_strlit("client_addr");
        reveal_strlit("target");
        reveal_strlit("=");
        reveal_strlit(" ");
        reveal_strlit("\n");
    }
    assert(t.len() >= 20 ==> spec_is_token(spec_stamp_tail(t))) by {
        lemma_stamp_text_shape(m);
        if t.len() >= 20 {
            lemma_stamp_tail_word(t);
        }
    }
    lemma_failure_fields_words(t, event, u, client_addr, client_ip, tg, reason);
    lemma_stamped_line_reads(m, f, lw.push(w6));
    lemma_failure_fields_apply(t.subrange(0, 19), event, u, client_addr, client_ip, tg, reason);
}

/// The words of the fields of a failure line, alone and after the rest of
/// a stamp.
proof fn lemma_failure_fields_words(
    t: Seq<char>,
    event: Seq<char>,
    u: Seq<char>,
    client_addr: Seq<char>,
    client_ip: Seq<char>,
    tg: Seq<char>,
    reason: Seq<char>,
)
    requires
        t.len() >= 20 ==> spec_is_token(spec_stamp_tail(t)),
        spec_is_token(event),
        spec_is_token(u),
        spec_is_token(client_addr),
        spec_is_token(client_ip),
        spec_is_token(tg),
        spec_is_token(reason),
    ensures
        ({
            let f = spec_line_fields("event"@, event, u, client_addr, client_ip, tg) + " "@
                + spec_field_word("reason"@, reason);
            let ws = spec_line_words("event"@, event, u, client_addr, client_ip, tg).push(
                spec_field_word("reason"@, reason),
            );
            &&& f.len() > 0
            &&& !spec_is_whitespace(f.last())
            &&& spec_words(f) == ws
            &&& t.len() >= 20 ==> spec_words(spec_stamp_tail(t) + " "@ + f) == spec_words(
                spec_stamp_tail(t),
            ) + ws
        }),
{
    let f5 = spec_line_fields("event"@, event, u, client_addr, client_ip, tg);
    let lw = spec_line_words("event"@, event, u, client_addr, client_ip, tg);
    let w6 = spec_field_word("reason"@, reason);
    let f = f5 + " "@ + w6;
    reveal_strlit("=");
    reveal_strlit(" ");
    assert(w6.len() > 0);
    lemma_key_tokens();
    lemma_field_word_token("reason"@, reason);
    lemma_line_field_words("event"@, event, u, client_addr, client_ip, tg);
    lemma_words_push_word(f5, w6);
    assert(f.last() == w6.last());
    if t.len() >= 20 {
        let l = spec_stamp_tail(t);
        lemma_line_field_words_after(l, "event"@, event, u, client_addr, client_ip, tg);
        lemma_words_push_word(l + " "@ + f5, w6);
        assert(l + " "@ + f =~= (l + " "@ + f5) + " "@ + w6);
        assert((spec_words(l) + lw).push(w6) =~= spec_words(l) + lw.push(w6));
    }
}

/// The words of a failure line set the kind, the user, the client, the
/// target and the reason of the entry.
proof fn lemma_failure_fields_apply(
    timestamp: Seq<char>,
    event: Seq<char>,
    u: Seq<char>,
    client_addr: Seq<char>,
    client_ip: Seq<char>,
    tg: Seq<char>,
    reason: Seq<char>,
)
    ensures
        spec_apply_fields(
            spec_initial_entry(timestamp),
            spec_line_words("event"@, event, u, client_addr, client_ip, tg).push(
                spec_field_word("reason"@, reason),
            ),
        ) == (EntryView {
            timestamp,
            kind: event,
            user: u,
            client_ip,
            client_addr,
            target: tg,
            reason,
        }),
{
    let e0 = spec_initial_entry(timestamp);
    let lw = spec_line_words("event"@, event, u, client_addr, client_ip, tg);
    lemma_apply_event_word(e0, event);
    lemma_line_fields_apply(e0, EntryView { kind: event, ..e0 }, "event"@, event, u, client_addr, client_ip, tg);
    lemma_apply_fields_push(e0, lw, spec_field_word("reason"@, reason));
    lemma_apply_reason_word(spec_apply_fields(e0, lw), reason);
}

} // verus!
