//! The proxy's log: the lines it writes, the files they go to (one series
//! per day, a new file once one is full), and which old files are removed.
//! The files themselves are opened and written by the caller, which asks
//! this module what to do.

use chrono::Datelike;
use vstd::prelude::*;

use crate::config::LogConfig;
use crate::event::opt_view;
use crate::text::{chars_of, decimal, find, spec_decimal, spec_digit, spec_find, spec_is_digit, spec_starts_with, starts_with, string_from_chars, sub_chars};

verus! {

/// One megabyte in bytes.
pub const MEGABYTE: u64 = 1024 * 1024;

/// A calendar date.
#[derive(Clone, Copy, Debug, PartialEq, Eq, Structural)]
pub struct LogDate {
    pub year: i32,
    pub month: u32,
    pub day: u32,
}

/// Whether the year is a leap year of the proleptic Gregorian calendar.
pub open spec fn spec_leap_year(y: int) -> bool {
    y % 4 == 0 && (y % 100 != 0 || y % 400 == 0)
}

/// The number of days of month `m` of year `y`.
pub open spec fn spec_days_in_month(y: int, m: int) -> int {
    if m == 2 {
        if spec_leap_year(y) {
            29
        } else {
            28
        }
    } else if m == 4 || m == 6 || m == 9 || m == 11 {
        30
    } else {
        31
    }
}

/// Whether the three numbers form a date of the proleptic Gregorian
/// calendar within `chrono`'s range of years (-262143 to 262142), that is
/// whether `chrono::NaiveDate::from_ymd_opt(year, month, day)` gives a date.
pub open spec fn calendar_date_exists(year: i32, month: u32, day: u32) -> bool {
    &&& -262143 <= year <= 262142
    &&& 1 <= month <= 12
    &&& 1 <= day <= spec_days_in_month(year as int, month as int)
}

/// The two decimal digits of `n` (below 100), zero-padded.
pub open spec fn spec_two_digits(n: int) -> Seq<char> {
    seq![spec_digit((n / 10) as nat), spec_digit((n % 10) as nat)]
}

/// The four decimal digits of `n` (below 10000), zero-padded.
pub open spec fn spec_four_digits(n: int) -> Seq<char> {
    seq![
        spec_digit((n / 1000) as nat),
        spec_digit((n / 100 % 10) as nat),
        spec_digit((n / 10 % 10) as nat),
        spec_digit((n % 10) as nat),
    ]
}

/// A year as `%Y` writes it: four digits from 0 to 9999, otherwise a sign
/// and at least four digits.
pub open spec fn spec_year_text(y: int) -> Seq<char> {
    if 0 <= y <= 9999 {
        spec_four_digits(y)
    } else if y > 9999 {
        "+"@ + spec_decimal(y as nat)
    } else if y >= -9999 {
        "-"@ + spec_four_digits(-y)
    } else {
        "-"@ + spec_decimal((-y) as nat)
    }
}

/// A date as `%Y-%m-%d` writes it.
pub open spec fn spec_format_date(year: i32, month: u32, day: u32) -> Seq<char> {
    spec_year_text(year as int) + "-"@ + spec_two_digits(month as int) + "-"@ + spec_two_digits(
        day as int,
    )
}

/// The value of the digit `c`.
pub open spec fn spec_digit_value(c: char) -> int {
    c as int - 48
}

/// The value of the two digits of `t` from `i`.
pub open spec fn spec_two_value(t: Seq<char>, i: int) -> int {
    spec_digit_value(t[i]) * 10 + spec_digit_value(t[i + 1])
}

proof fn lemma_digit(k: nat)
    requires
        k < 10,
    ensures
        spec_is_digit(spec_digit(k)),
        spec_digit_value(spec_digit(k)) == k,
{
    assert(((48 + k) as u8) as char as int == 48 + k);
}

/// A character that a moment's text holds besides its one space: a digit,
/// a sign or a colon.
pub open spec fn spec_stamp_char(c: char) -> bool {
    spec_is_digit(c) || c == '-' || c == '+' || c == ':'
}

/// Every character of `s` is such a character.
pub open spec fn spec_stamp_chars(s: Seq<char>) -> bool {
    forall|i: int| 0 <= i < s.len() ==> spec_stamp_char(#[trigger] s[i])
}

proof fn lemma_stamp_chars_concat(a: Seq<char>, b: Seq<char>)
    requires
        spec_stamp_chars(a),
        spec_stamp_chars(b),
    ensures
        spec_stamp_chars(a + b),
{
    assert forall|i: int| 0 <= i < (a + b).len() implies spec_stamp_char(#[trigger] (a + b)[i]) by {
        if i < a.len() {
            assert((a + b)[i] == a[i]);
        } else {
            assert((a + b)[i] == b[i - a.len()]);
        }
    }
}

proof fn lemma_two_digits_chars(n: int)
    requires
        0 <= n < 100,
    ensures
        spec_stamp_chars(spec_two_digits(n)),
        spec_two_digits(n).len() == 2,
{
    lemma_digit((n / 10) as nat);
    lemma_digit((n % 10) as nat);
    let t = spec_two_digits(n);
    assert(spec_stamp_char(t[0]) && spec_stamp_char(t[1]));
}

proof fn lemma_four_digits_chars(n: int)
    requires
        0 <= n < 10000,
    ensures
        spec_stamp_chars(spec_four_digits(n)),
        spec_four_digits(n).len() == 4,
{
    lemma_digit((n / 1000) as nat);
    lemma_digit((n / 100 % 10) as nat);
    lemma_digit((n / 10 % 10) as nat);
    lemma_digit((n % 10) as nat);
    let t = spec_four_digits(n);
    assert(spec_stamp_char(t[0]) && spec_stamp_char(t[1]) && spec_stamp_char(t[2]) && spec_stamp_char(
        t[3],
    ));
}

proof fn lemma_decimal_len_5_or_6(n: nat)
    requires
        10000 <= n < 1000000,
    ensures
        5 <= spec_decimal(n).len() <= 6,
        spec_stamp_chars(spec_decimal(n)),
{
    lemma_decimal_digits(n);
    let d = spec_decimal(n);
    assert forall|i: int| 0 <= i < d.len() implies spec_stamp_char(#[trigger] d[i]) by {
        assert(spec_is_digit(d[i]));
    }
    assert(spec_decimal(n).len() == spec_decimal(n / 10).len() + 1);
    assert(spec_decimal(n / 10).len() == spec_decimal(n / 100).len() + 1);
    assert(spec_decimal(n / 100).len() == spec_decimal(n / 1000).len() + 1);
    assert(spec_decimal(n / 1000).len() == spec_decimal(n / 10000).len() + 1);
    if n / 10000 >= 10 {
        assert(spec_decimal(n / 10000).len() == spec_decimal(n / 100000).len() + 1);
        assert(n / 100000 < 10);
    }
}

/// The year's text of a date in `chrono`'s range is four to seven characters,
/// each a digit or a sign, the first not whitespace.
proof fn lemma_year_text_chars(y: int)
    requires
        -262143 <= y <= 262142,
    ensures
        4 <= spec_year_text(y).len() <= 7,
        spec_stamp_chars(spec_year_text(y)),
{
    reveal_strlit("+");
    reveal_strlit("-");
    if 0 <= y <= 9999 {
        lemma_four_digits_chars(y);
    } else if y > 9999 {
        lemma_decimal_len_5_or_6(y as nat);
        assert(spec_stamp_chars("+"@)) by {
            assert("+"@[0] == '+');
        }
        lemma_stamp_chars_concat("+"@, spec_decimal(y as nat));
    } else if y >= -9999 {
        lemma_four_digits_chars(-y);
        assert(spec_stamp_chars("-"@)) by {
            assert("-"@[0] == '-');
        }
        lemma_stamp_chars_concat("-"@, spec_four_digits(-y));
    } else {
        lemma_decimal_len_5_or_6((-y) as nat);
        assert(spec_stamp_chars("-"@)) by {
            assert("-"@[0] == '-');
        }
        lemma_stamp_chars_concat("-"@, spec_decimal((-y) as nat));
    }
}

/// The text of a moment is 19 to 22 ASCII characters, the first not
/// whitespace, and those from the 21st on are digits, signs or colons.
pub proof fn lemma_stamp_text_shape(m: Moment)
    requires
        m.valid(),
    ensures
        19 <= spec_stamp_text(m).len() <= 22,
        vstd::utf8::is_ascii_chars(spec_stamp_text(m)),
        spec_stamp_char(spec_stamp_text(m)[0]),
        forall|i: int|
            20 <= i < spec_stamp_text(m).len() ==> spec_stamp_char(#[trigger] spec_stamp_text(m)[i]),
        0 <= m.date.year <= 9999 ==> spec_stamp_text(m).len() == 19,
{
    reveal(spec_stamp_text);
    reveal_strlit("-");
    reveal_strlit(":");
    reveal_strlit(" ");
    let y = m.date.year as int;
    lemma_year_text_chars(y);
    let yt = spec_year_text(y);
    assert(spec_stamp_chars("-"@)) by {
        assert("-"@[0] == '-');
    }
    assert(spec_stamp_chars(":"@)) by {
        assert(":"@[0] == ':');
    }
    lemma_two_digits_chars(m.date.month as int);
    lemma_two_digits_chars(m.date.day as int);
    lemma_two_digits_chars(m.hour as int);
    lemma_two_digits_chars(m.minute as int);
    lemma_two_digits_chars(m.second + m.nanosecond / 1_000_000_000);
    let d = yt + "-"@ + spec_two_digits(m.date.month as int) + "-"@ + spec_two_digits(m.date.day as int);
    lemma_stamp_chars_concat(yt, "-"@);
    lemma_stamp_chars_concat(yt + "-"@, spec_two_digits(m.date.month as int));
    lemma_stamp_chars_concat(yt + "-"@ + spec_two_digits(m.date.month as int), "-"@);
    lemma_stamp_chars_concat(
        yt + "-"@ + spec_two_digits(m.date.month as int) + "-"@,
        spec_two_digits(m.date.day as int),
    );
    let c = spec_two_digits(m.hour as int) + ":"@ + spec_two_digits(m.minute as int) + ":"@
        + spec_two_digits(m.second + m.nanosecond / 1_000_000_000);
    lemma_stamp_chars_concat(spec_two_digits(m.hour as int), ":"@);
    lemma_stamp_chars_concat(spec_two_digits(m.hour as int) + ":"@, spec_two_digits(m.minute as int));
    lemma_stamp_chars_concat(spec_two_digits(m.hour as int) + ":"@ + spec_two_digits(m.minute as int), ":"@);
    lemma_stamp_chars_concat(
        spec_two_digits(m.hour as int) + ":"@ + spec_two_digits(m.minute as int) + ":"@,
        spec_two_digits(m.second + m.nanosecond / 1_000_000_000),
    );
    let t = spec_stamp_text(m);
    assert(t =~= d + " "@ + c);
    assert(d.len() == yt.len() + 6);
    assert(c.len() == 8);
    assert forall|i: int| 0 <= i < t.len() implies '\0' <= #[trigger] t[i] <= '\u{7f}' by {
        if i < d.len() {
            assert(t[i] == d[i]);
            assert(spec_stamp_char(d[i]));
        } else if i > d.len() {
            assert(t[i] == c[i - d.len() - 1]);
            assert(spec_stamp_char(c[i - d.len() - 1]));
        }
    }
    assert forall|i: int| 20 <= i < t.len() implies spec_stamp_char(#[trigger] t[i]) by {
        assert(t[i] == c[i - d.len() - 1]);
    }
    assert(t[0] == d[0]);
    if 0 <= y <= 9999 {
        lemma_four_digits_chars(y);
    }
}

/// Whether `s` is a date as four, two and two digits joined by `-`.
pub open spec fn spec_is_date_text(s: Seq<char>) -> bool {
    &&& s.len() == 10
    &&& s[4] == '-'
    &&& s[7] == '-'
    &&& forall|i: int| 0 <= i < 10 && i != 4 && i != 7 ==> spec_is_digit(#[trigger] s[i])
}

/// The date that such a text denotes, if it exists.
pub open spec fn spec_date_of_text(s: Seq<char>) -> Option<LogDate> {
    let y = spec_two_value(s, 0) * 100 + spec_two_value(s, 2);
    let m = spec_two_value(s, 5);
    let d = spec_two_value(s, 8);
    if calendar_date_exists(y as i32, m as u32, d as u32) {
        Some(LogDate { year: y as i32, month: m as u32, day: d as u32 })
    } else {
        None
    }
}

/// The date that `chrono::NaiveDate::parse_from_str(s, "%Y-%m-%d")` reads
/// from `s`, if any.
pub uninterp spec fn spec_parse_date(s: Seq<char>) -> Option<LogDate>;

/// The date read from `s` under `%Y-%m-%d`: a text of four, two and two
/// digits joined by `-` gives the date it denotes if that exists; what any
/// other text gives is named.
pub open spec fn spec_read_date(s: Seq<char>) -> Option<LogDate> {
    if spec_is_date_text(s) {
        spec_date_of_text(s)
    } else {
        spec_parse_date(s)
    }
}

/// The date that `chrono::NaiveDate::checked_sub_days` gives for the date
/// (`year`, `month`, `day`) and `n` days, if any.
pub uninterp spec fn spec_date_sub_days(year: i32, month: u32, day: u32, n: u64) -> Option<LogDate>;

/// The stem that `std::path::Path::file_stem` gives for a file name, as text.
pub uninterp spec fn spec_file_stem(name: Seq<char>) -> Option<Seq<char>>;

/// The position of the last `c` in `s`.
pub open spec fn spec_rfind(s: Seq<char>, c: char) -> Option<int>
    decreases s.len(),
{
    if s.len() == 0 {
        None
    } else if s.last() == c {
        Some(s.len() - 1)
    } else {
        spec_rfind(s.drop_last(), c)
    }
}

/// A plain file name: not empty, not starting with `.`, without a path
/// separator or a drive colon.
pub open spec fn spec_plain_file_name(name: Seq<char>) -> bool {
    &&& name.len() > 0
    &&& name[0] != '.'
    &&& !name.contains('/')
    &&& !name.contains('\\')
    &&& !name.contains(':')
}

/// The stem of a file name: for a plain name, what stands before its last
/// `.`, or all of it; what any other name gives is named.
pub open spec fn spec_stem(name: Seq<char>) -> Option<Seq<char>> {
    if spec_plain_file_name(name) {
        match spec_rfind(name, '.') {
            Some(i) => Some(name.subrange(0, i)),
            None => Some(name),
        }
    } else {
        spec_file_stem(name)
    }
}

impl LogDate {
    /// The date exists in the calendar.
    pub open spec fn valid(&self) -> bool {
        calendar_date_exists(self.year, self.month, self.day)
    }

    /// Whether this date comes before `other`.
    pub open spec fn spec_before(&self, other: LogDate) -> bool {
        self.year < other.year || (self.year == other.year && (self.month < other.month || (
        self.month == other.month && self.day < other.day)))
    }

    /// Whether this date comes before `other`.
    pub fn before(&self, other: &LogDate) -> (r: bool)
        ensures
            r == self.spec_before(*other),
    {
        self.year < other.year || (self.year == other.year && (self.month < other.month || (
        self.month == other.month && self.day < other.day)))
    }
}

/// A moment of local time as plain values: its date and its time of day,
/// the nanosecond counted as `chrono` counts it (from 1_000_000_000 on
/// during a leap second).
#[derive(Clone, Copy, Debug, PartialEq, Eq, Structural)]
pub struct Moment {
    pub date: LogDate,
    pub hour: u32,
    pub minute: u32,
    pub second: u32,
    pub nanosecond: u32,
}

impl Moment {
    /// The values form a moment that `chrono` can hold: the date exists, and
    /// the time of day is one of `NaiveTime::from_hms_nano_opt`, a leap
    /// second only after second 59.
    pub open spec fn valid(&self) -> bool {
        &&& self.date.valid()
        &&& self.hour < 24
        &&& self.minute < 60
        &&& self.second < 60
        &&& self.nanosecond < 2_000_000_000
        &&& (self.nanosecond >= 1_000_000_000 ==> self.second == 59)
    }

    /// Whether the values form a moment.
    pub fn is_valid(&self) -> (r: bool)
        ensures
            r == self.valid(),
    {
        date_exists(self.date.year, self.date.month, self.date.day) && self.hour < 24
            && self.minute < 60 && self.second < 60 && self.nanosecond < 2_000_000_000 && (
        self.nanosecond < 1_000_000_000 || self.second == 59)
    }
}

/// Whether the three numbers form a date that `chrono` can hold.
pub fn date_exists(year: i32, month: u32, day: u32) -> (r: bool)
    ensures
        r == calendar_date_exists(year, month, day),
{
    if year < -262143 || year > 262142 || month < 1 || month > 12 || day < 1 {
        return false;
    }
    let leap = year % 4 == 0 && (year % 100 != 0 || year % 400 == 0);
    let days: u32 = if month == 2 {
        if leap {
            29
        } else {
            28
        }
    } else if month == 4 || month == 6 || month == 9 || month == 11 {
        30
    } else {
        31
    };
    day <= days
}

/// A moment as `%Y-%m-%d %H:%M:%S` writes it: the date, a space, and the
/// hour, minute and second in two digits each, the second of a leap second
/// being 60.
#[verifier::opaque]
pub open spec fn spec_stamp_text(m: Moment) -> Seq<char> {
    spec_format_date(m.date.year, m.date.month, m.date.day) + " "@ + spec_two_digits(m.hour as int)
        + ":"@ + spec_two_digits(m.minute as int) + ":"@ + spec_two_digits(
        m.second + m.nanosecond / 1_000_000_000,
    )
}

/// A moment as the log writes it: its date, and its text.
pub struct LogStamp {
    pub day: LogDate,
    pub text: String,
}

/// Calls `chrono::NaiveDate::from_ymd_opt`, `chrono::NaiveTime::from_hms_nano_opt`
/// and `NaiveDate::and_time` on the moment, then `format` with
/// `%Y-%m-%d %H:%M:%S`: the date as `%Y-%m-%d` writes it, a space, and the
/// two-digit hour, minute and second (`%S` adds the leap second's extra
/// second).
#[verifier::external_body]
fn format_moment(m: &Moment) -> (r: String)
    requires
        m.valid(),
    ensures
        r@ == spec_stamp_text(*m),
{
    let d = chrono::NaiveDate::from_ymd_opt(m.date.year, m.date.month, m.date.day);
    let t = chrono::NaiveTime::from_hms_nano_opt(m.hour, m.minute, m.second, m.nanosecond);
    match (d, t) {
        (Some(d), Some(t)) => d.and_time(t).format("%Y-%m-%d %H:%M:%S").to_string(),
        _ => String::new(),
    }
}

impl LogStamp {
    /// The stamp of a moment.
    pub fn at(now: &Moment) -> (r: LogStamp)
        requires
            now.valid(),
        ensures
            r.day == now.date,
            r.text@ == spec_stamp_text(*now),
    {
        LogStamp { day: now.date, text: format_moment(now) }
    }
}

/// Calls `chrono::NaiveDate::format` with `%Y-%m-%d` on the date: the year
/// as `%Y` writes it, then the zero-padded month and day, joined by `-`.
#[verifier::external_body]
fn format_date(d: &LogDate) -> (r: String)
    requires
        d.valid(),
    ensures
        r@ == spec_format_date(d.year, d.month, d.day),
{
    match chrono::NaiveDate::from_ymd_opt(d.year, d.month, d.day) {
        Some(nd) => nd.format("%Y-%m-%d").to_string(),
        None => String::new(),
    }
}

/// Calls `chrono::NaiveDate::parse_from_str` with `%Y-%m-%d`: a text of
/// four, two and two digits joined by `-` gives the date it denotes when that
/// date exists and nothing otherwise; what other texts give is named. A
/// date it reads exists.
#[verifier::external_body]
fn parse_date(s: &str) -> (r: Option<LogDate>)
    ensures
        spec_is_date_text(s@) ==> r == spec_date_of_text(s@),
        !spec_is_date_text(s@) ==> r == spec_parse_date(s@),
        r matches Some(d) ==> d.valid(),
{
    match chrono::NaiveDate::parse_from_str(s, "%Y-%m-%d") {
        Ok(d) => Some(LogDate { year: d.year(), month: d.month(), day: d.day() }),
        Err(_) => None,
    }
}

/// Calls `chrono::NaiveDate::checked_sub_days` with `n` days; a date it
/// gives exists.
#[verifier::external_body]
fn date_sub_days(d: &LogDate, n: u64) -> (r: Option<LogDate>)
    requires
        d.valid(),
    ensures
        r == spec_date_sub_days(d.year, d.month, d.day, n),
        r matches Some(x) ==> x.valid(),
{
    match chrono::NaiveDate::from_ymd_opt(d.year, d.month, d.day) {
        Some(nd) => match nd.checked_sub_days(chrono::Days::new(n)) {
            Some(x) => Some(LogDate { year: x.year(), month: x.month(), day: x.day() }),
            None => None,
        },
        None => None,
    }
}

/// Calls `std::path::Path::file_stem` on a file name and gives the stem as
/// text: for a plain name, the name itself when it holds no `.`, otherwise
/// what stands before the final `.`.
#[verifier::external_body]
fn file_stem(name: &str) -> (r: Option<String>)
    ensures
        spec_plain_file_name(name@) ==> opt_view(r) == spec_stem(name@),
        !spec_plain_file_name(name@) ==> opt_view(r) == spec_file_stem(name@),
{
    match std::path::Path::new(name).file_stem() {
        Some(s) => match s.to_str() {
            Some(t) => Some(t.to_owned()),
            None => None,
        },
        None => None,
    }
}

/// The text of an optional value, `-` when there is none.
pub open spec fn or_dash(s: Option<Seq<char>>) -> Seq<char> {
    match s {
        Some(x) => x,
        None => "-"@,
    }
}

/// The view of an optional string slice.
pub open spec fn opt_str(s: Option<&str>) -> Option<Seq<char>> {
    match s {
        Some(x) => Some(x@),
        None => None,
    }
}

fn str_or_dash(s: Option<&str>) -> (r: &str)
    ensures
        r@ == or_dash(opt_str(s)),
{
    match s {
        Some(x) => x,
        None => "-",
    }
}

/// The line that records a relayed connection.
pub open spec fn spec_access_line(
    timestamp: Seq<char>,
    protocol: Seq<char>,
    username: Option<Seq<char>>,
    client_addr: Seq<char>,
    client_ip: Seq<char>,
    target: Seq<char>,
) -> Seq<char> {
    timestamp + " protocol="@ + protocol + " user="@ + or_dash(username) + " client_ip="@ + client_ip
        + " client_addr="@ + client_addr + " target="@ + target + "\n"@
}

/// The line that records a failure and its reason.
pub open spec fn spec_failure_line(
    timestamp: Seq<char>,
    event: Seq<char>,
    username: Option<Seq<char>>,
    client_addr: Seq<char>,
    client_ip: Seq<char>,
    target: Option<Seq<char>>,
    reason: Seq<char>,
) -> Seq<char> {
    timestamp + " event="@ + event + " user="@ + or_dash(username) + " client_ip="@ + client_ip
        + " client_addr="@ + client_addr + " target="@ + or_dash(target) + " reason="@ + reason
        + "\n"@
}

/// The line that records an event.
pub open spec fn spec_event_line(
    timestamp: Seq<char>,
    event: Seq<char>,
    username: Option<Seq<char>>,
    client_addr: Seq<char>,
    client_ip: Seq<char>,
    target: Option<Seq<char>>,
) -> Seq<char> {
    timestamp + " event="@ + event + " user="@ + or_dash(username) + " client_ip="@ + client_ip
        + " client_addr="@ + client_addr + " target="@ + or_dash(target) + "\n"@
}

/// A line to log and the moment it records.
pub struct LogLine {
    pub stamp: LogStamp,
    pub line: String,
}

/// The line that records a relayed connection, stamped with the moment `now`.
pub fn log_access(
    now: &Moment,
    protocol: &str,
    username: Option<&str>,
    client_addr: &str,
    client_ip: &str,
    target: &str,
) -> (r: LogLine)
    requires
        now.valid(),
    ensures
        r.stamp.day == now.date,
        r.stamp.text@ == spec_stamp_text(*now),
        r.line@ == spec_access_line(
            r.stamp.text@,
            protocol@,
            opt_str(username),
            client_addr@,
            client_ip@,
            target@,
        ),
{
    let stamp = LogStamp::at(now);
    let mut line = stamp.text.clone();
    line.append(" protocol=");
    line.append(protocol);
    line.append(" user=");
    line.append(str_or_dash(username));
    line.append(" client_ip=");
    line.append(client_ip);
    line.append(" client_addr=");
    line.append(client_addr);
    line.append(" target=");
    line.append(target);
    line.append("\n");
    LogLine { stamp, line }
}

/// The line that records a failure and its reason, stamped with the moment `now`.
pub fn log_failure(
    now: &Moment,
    event: &str,
    username: Option<&str>,
    client_addr: &str,
    client_ip: &str,
    target: Option<&str>,
    reason: &str,
) -> (r: LogLine)
    requires
        now.valid(),
    ensures
        r.stamp.day == now.date,
        r.stamp.text@ == spec_stamp_text(*now),
        r.line@ == spec_failure_line(
            r.stamp.text@,
            event@,
            opt_str(username),
            client_addr@,
            client_ip@,
            opt_str(target),
            reason@,
        ),
{
    let stamp = LogStamp::at(now);
    let mut line = stamp.text.clone();
    line.append(" event=");
    line.append(event);
    line.append(" user=");
    line.append(str_or_dash(username));
    line.append(" client_ip=");
    line.append(client_ip);
    line.append(" client_addr=");
    line.append(client_addr);
    line.append(" target=");
    line.append(str_or_dash(target));
    line.append(" reason=");
    line.append(reason);
    line.append("\n");
    LogLine { stamp, line }
}

/// The line that records an event, stamped with the moment `now`.
pub fn log_event(
    now: &Moment,
    event: &str,
    username: Option<&str>,
    client_addr: &str,
    client_ip: &str,
    target: Option<&str>,
) -> (r: LogLine)
    requires
        now.valid(),
    ensures
        r.stamp.day == now.date,
        r.stamp.text@ == spec_stamp_text(*now),
        r.line@ == spec_event_line(
            r.stamp.text@,
            event@,
            opt_str(username),
            client_addr@,
            client_ip@,
            opt_str(target),
        ),
{
    let stamp = LogStamp::at(now);
    let mut line = stamp.text.clone();
    line.append(" event=");
    line.append(event);
    line.append(" user=");
    line.append(str_or_dash(username));
    line.append(" client_ip=");
    line.append(client_ip);
    line.append(" client_addr=");
    line.append(client_addr);
    line.append(" target=");
    line.append(str_or_dash(target));
    line.append("\n");
    LogLine { stamp, line }
}

/// What must happen to the log's files before a line is written.
#[derive(Clone, Copy, Debug, PartialEq, Eq, Structural)]
pub enum Rotation {
    /// Append to the current file.
    Keep,
    /// The current file is full: start the next file of the day.
    NextFile,
    /// The day changed: remove expired files, then open the day's file.
    NewDay,
}

/// Where the log is written and how far the current file has grown.
pub struct ProxyLogger {
    pub dir: String,
    pub retention_days: u64,
    pub max_file_size: u64,
    pub current_day: LogDate,
    pub current_index: u32,
    pub current_size: u64,
}

/// The file name of the log of `day` with the given index: the first file
/// of a day has no index in its name.
pub open spec fn spec_log_file_name(day: LogDate, index: u32) -> Seq<char> {
    if index == 0 {
        "proxy-"@ + spec_format_date(day.year, day.month, day.day) + ".log"@
    } else {
        "proxy-"@ + spec_format_date(day.year, day.month, day.day) + "."@ + spec_decimal(
            index as nat,
        ) + ".log"@
    }
}

/// What stands before the first `.` of `s`, or all of `s`.
pub open spec fn spec_before_dot(s: Seq<char>) -> Seq<char> {
    match spec_find(s, '.') {
        Some(i) => s.subrange(0, i),
        None => s,
    }
}

/// The date in the name of a log file: the stem of the name, which starts
/// with `proxy-`, followed by the date up to the first `.`.
pub open spec fn spec_log_file_date(name: Seq<char>) -> Option<LogDate> {
    match spec_stem(name) {
        Some(stem) => if spec_starts_with(stem, "proxy-"@) {
            spec_read_date(spec_before_dot(stem.subrange(6, stem.len() as int)))
        } else {
            None
        },
        None => None,
    }
}

/// The state of the logger built from a configuration on `today`: at least
/// one day of retention, at least one megabyte per file.
pub open spec fn spec_new_logger(config: LogConfig, today: LogDate) -> (u64, u64) {
    (
        if config.retention_days >= 1 {
            config.retention_days
        } else {
            1
        },
        (if config.max_file_size_mb >= 1 {
            config.max_file_size_mb
        } else {
            1
        } * MEGABYTE) as u64,
    )
}

/// A maximum file size in megabytes whose size in bytes fits in 64 bits.
pub open spec fn max_size_fits(max_file_size_mb: u64) -> bool {
    max_file_size_mb <= u64::MAX / MEGABYTE
}

impl ProxyLogger {
    /// The current day is a date.
    pub open spec fn wf(&self) -> bool {
        self.current_day.valid()
    }

    /// A logger for the configuration on `today`, before any file is open:
    /// the caller removes the expired files and opens the day's file, then
    /// calls `start_day`.
    pub fn new(config: &LogConfig, today: LogDate) -> (r: ProxyLogger)
        requires
            max_size_fits(config.max_file_size_mb),
            today.valid(),
        ensures
            r.wf(),
            r.dir@ == config.dir@,
            (r.retention_days, r.max_file_size) == spec_new_logger(*config, today),
            r.current_day == today,
            r.current_index == 0,
            r.current_size == 0,
    {
        let retention_days = if config.retention_days >= 1 {
            config.retention_days
        } else {
            1
        };
        let mb = if config.max_file_size_mb >= 1 {
            config.max_file_size_mb
        } else {
            1
        };
        assert(mb * MEGABYTE <= u64::MAX) by (nonlinear_arith)
            requires
                mb <= u64::MAX / MEGABYTE,
                MEGABYTE == 1048576,
        ;
        ProxyLogger {
            dir: config.dir.clone(),
            retention_days,
            max_file_size: mb * MEGABYTE,
            current_day: today,
            current_index: 0,
            current_size: 0,
        }
    }

    /// What must happen before a line of `incoming` bytes is written on `today`.
    pub open spec fn spec_plan(&self, today: LogDate, incoming: nat) -> Rotation {
        if self.current_day != today {
            Rotation::NewDay
        } else if self.current_size > 0 && self.current_size + incoming > self.max_file_size {
            Rotation::NextFile
        } else {
            Rotation::Keep
        }
    }

    /// The sizes and indices that writing a line of `incoming` bytes on `today` reaches fit their types.
    pub open spec fn spec_can_take(&self, today: LogDate, incoming: nat) -> bool {
        self.current_day == today ==> (self.current_size + incoming <= u64::MAX && (
        self.spec_plan(today, incoming) == Rotation::NextFile ==> self.current_index < u32::MAX))
    }

    /// Whether a line of `incoming` bytes can be written on `today` without
    /// a size or an index overflowing.
    pub fn can_take(&self, today: &LogDate, incoming: u64) -> (r: bool)
        ensures
            r == self.spec_can_take(*today, incoming as nat),
    {
        if self.current_day != *today {
            return true;
        }
        if self.current_size > u64::MAX - incoming {
            return false;
        }
        if self.current_size > 0 && self.current_size + incoming > self.max_file_size {
            self.current_index < u32::MAX
        } else {
            true
        }
    }

    /// What must happen before a line of `incoming` bytes is written on
    /// `today`: a new day starts new files; on the same day a file that
    /// holds something and would outgrow the maximum is followed by the next.
    pub fn plan(&self, today: &LogDate, incoming: u64) -> (r: Rotation)
        requires
            self.spec_can_take(*today, incoming as nat),
        ensures
            r == self.spec_plan(*today, incoming as nat),
    {
        if self.current_day != *today {
            Rotation::NewDay
        } else if self.current_size > 0 && self.current_size + incoming > self.max_file_size {
            Rotation::NextFile
        } else {
            Rotation::Keep
        }
    }

    /// The log now goes to the file of `day` with index `index`, which holds `size` bytes.
    pub fn start_day(&mut self, day: LogDate, index: u32, size: u64)
        requires
            day.valid(),
        ensures
            final(self).wf(),
            final(self).current_day == day,
            final(self).current_index == index,
            final(self).current_size == size,
            final(self).dir == old(self).dir,
            final(self).retention_days == old(self).retention_days,
            final(self).max_file_size == old(self).max_file_size,
    {
        self.current_day = day;
        self.current_index = index;
        self.current_size = size;
    }

    /// The log now goes to the next, empty, file of the day.
    pub fn advance_file(&mut self)
        requires
            old(self).current_index < u32::MAX,
        ensures
            final(self).current_index == old(self).current_index + 1,
            final(self).current_size == 0,
            final(self).current_day == old(self).current_day,
            final(self).dir == old(self).dir,
            final(self).retention_days == old(self).retention_days,
            final(self).max_file_size == old(self).max_file_size,
    {
        self.current_index = self.current_index + 1;
        self.current_size = 0;
    }

    /// `n` more bytes were written to the current file.
    pub fn record_written(&mut self, n: u64)
        requires
            old(self).current_size + n <= u64::MAX,
        ensures
            final(self).current_size == old(self).current_size + n,
            final(self).current_index == old(self).current_index,
            final(self).current_day == old(self).current_day,
            final(self).dir == old(self).dir,
            final(self).retention_days == old(self).retention_days,
            final(self).max_file_size == old(self).max_file_size,
    {
        self.current_size = self.current_size + n;
    }

    /// Whether an existing log file of `size` bytes (or one that does not
    /// exist) can take more lines.
    pub fn can_append(&self, size: u64, exists: bool) -> (r: bool)
        ensures
            r == (size < self.max_file_size || !exists),
    {
        size < self.max_file_size || !exists
    }

    /// The name of the log file of `day` with index `index`.
    pub fn log_file_name(day: &LogDate, index: u32) -> (r: String)
        requires
            day.valid(),
        ensures
            r@ == spec_log_file_name(*day, index),
    {
        let mut name = String::from_str("proxy-");
        let date = format_date(day);
        name.append(date.as_str());
        if index != 0 {
            name.append(".");
            let digits = decimal(index as u64);
            name.append(digits.as_str());
        }
        name.append(".log");
        name
    }

    /// The name of the file that follows the current one.
    pub fn next_file_name(&self) -> (r: String)
        requires
            self.wf(),
            self.current_index < u32::MAX,
        ensures
            r@ == spec_log_file_name(self.current_day, (self.current_index + 1) as u32),
    {
        Self::log_file_name(&self.current_day, self.current_index + 1)
    }

    /// The first day whose files are kept on `today`: `retention_days - 1`
    /// days before it, or `today` when that date does not exist.
    pub fn cutoff(&self, today: &LogDate) -> (r: LogDate)
        requires
            today.valid(),
        ensures
            r.valid(),
            r == match spec_date_sub_days(
                today.year,
                today.month,
                today.day,
                if self.retention_days >= 1 {
                    (self.retention_days - 1) as u64
                } else {
                    0
                },
            ) {
                Some(d) => d,
                None => *today,
            },
    {
        let days = if self.retention_days >= 1 {
            self.retention_days - 1
        } else {
            0
        };
        match date_sub_days(today, days) {
            Some(d) => d,
            None => *today,
        }
    }

    /// The date that a log file's name carries, if it is a log file's name.
    pub fn parse_date_from_file_name(name: &str) -> (r: Option<LogDate>)
        ensures
            r == spec_log_file_date(name@),
            r matches Some(d) ==> d.valid(),
    {
        let stem = match file_stem(name) {
            Some(s) => s,
            None => return None,
        };
        let cs = chars_of(stem.as_str());
        let prefix = chars_of("proxy-");
        proof {
            reveal_strlit("proxy-");
        }
        if !starts_with(cs.as_slice(), prefix.as_slice()) {
            return None;
        }
        let n = cs.len();
        let rest = sub_chars(cs.as_slice(), 6, n);
        let date_part = match find(rest.as_slice(), '.') {
            Some(i) => sub_chars(rest.as_slice(), 0, i),
            None => rest,
        };
        let text = string_from_chars(date_part.as_slice());
        parse_date(text.as_str())
    }

    /// Whether cleaning up on a day whose cutoff is `cutoff` removes the file
    /// named `name`: exactly the log files dated before the cutoff go.
    pub fn should_remove(name: &str, cutoff: &LogDate) -> (r: bool)
        ensures
            r == (spec_log_file_date(name@) matches Some(d) && d.spec_before(*cutoff)),
    {
        match Self::parse_date_from_file_name(name) {
            Some(d) => d.before(cutoff),
            None => false,
        }
    }
}

/// The logger for a configuration, dated today.
pub fn init(config: &LogConfig, now: &Moment) -> (r: ProxyLogger)
    requires
        max_size_fits(config.max_file_size_mb),
        now.valid(),
    ensures
        r.wf(),
        r.dir@ == config.dir@,
        (r.retention_days, r.max_file_size) == spec_new_logger(*config, now.date),
        r.current_day == now.date,
        r.current_index == 0,
        r.current_size == 0,
{
    ProxyLogger::new(config, now.date)
}

/// The state after a line of `incoming` bytes is written on the same day,
/// following the plan.
pub open spec fn spec_after_write(l: ProxyLogger, today: LogDate, incoming: nat) -> (nat, nat) {
    match l.spec_plan(today, incoming) {
        Rotation::NextFile => ((l.current_index + 1) as nat, incoming),
        _ => (l.current_index as nat, (l.current_size + incoming) as nat),
    }
}

/// The index and size of the file written to after a line of `incoming`
/// bytes on `today`, when a new day opens the file `chosen_index`, which
/// held `chosen_size` bytes.
pub open spec fn spec_after_any_write(
    l: ProxyLogger,
    today: LogDate,
    incoming: nat,
    chosen_index: u32,
    chosen_size: nat,
) -> (nat, nat) {
    match l.spec_plan(today, incoming) {
        Rotation::NewDay => (chosen_index as nat, chosen_size + incoming),
        Rotation::NextFile => ((l.current_index + 1) as nat, incoming),
        Rotation::Keep => (l.current_index as nat, (l.current_size + incoming) as nat),
    }
}

/// Whatever the day, the file a line is written to ends within the maximum
/// size, or holds that line alone, or, on a new day, was a file below the
/// maximum that the line took over it (the line is not checked against the
/// limit when a day starts).
pub proof fn law_written_file_bounded(
    l: ProxyLogger,
    today: LogDate,
    incoming: nat,
    chosen_index: u32,
    chosen_size: nat,
    chosen_exists: bool,
)
    requires
        l.current_day == today ==> l.current_size <= l.max_file_size,
        l.current_day != today ==> (chosen_size < l.max_file_size || !chosen_exists),
        !chosen_exists ==> chosen_size == 0,
    ensures
        ({
            let (_, size) = spec_after_any_write(l, today, incoming, chosen_index, chosen_size);
            ||| size <= l.max_file_size
            ||| size == incoming
            ||| (l.current_day != today && chosen_size < l.max_file_size && size
                < l.max_file_size + incoming)
        }),
{
}

/// On the same day, writing a line either keeps the file within the maximum
/// size or leaves it holding that line alone: a file never outgrows the
/// maximum except by one line that is larger by itself.
pub proof fn law_file_stays_within_limit(l: ProxyLogger, today: LogDate, incoming: nat)
    requires
        l.current_day == today,
        l.current_size <= l.max_file_size,
    ensures
        ({
            let (_, size) = spec_after_write(l, today, incoming);
            size <= l.max_file_size || size == incoming
        }),
{
}

proof fn lemma_decimal_digits(n: nat)
    ensures
        spec_decimal(n).len() > 0,
        forall|i: int| 0 <= i < spec_decimal(n).len() ==> spec_is_digit(#[trigger] spec_decimal(n)[i]),
    decreases n,
{
    if n < 10 {
        lemma_digit(n);
    } else {
        lemma_decimal_digits(n / 10);
        lemma_digit(n % 10);
    }
}

proof fn lemma_rfind_before_suffix(a: Seq<char>, b: Seq<char>, c: char)
    requires
        !b.contains(c),
    ensures
        spec_rfind(a + seq![c] + b, c) == Some(a.len() as int),
    decreases b.len(),
{
    let s = a + seq![c] + b;
    if b.len() == 0 {
        assert(s.last() == c);
    } else {
        assert(s.last() == b.last());
        assert(b.contains(b.last()));
        assert(s.drop_last() =~= a + seq![c] + b.drop_last());
        assert(!b.drop_last().contains(c)) by {
            if b.drop_last().contains(c) {
                let k = choose|k: int| 0 <= k < b.drop_last().len() && b.drop_last()[k] == c;
                assert(b[k] == c);
            }
        }
        lemma_rfind_before_suffix(a, b.drop_last(), c);
    }
}

/// The text of a date of the years 0 to 9999 is four, two and two digits
/// joined by `-`, and denotes that date.
proof fn lemma_date_text_reads_back(day: LogDate)
    requires
        day.valid(),
        0 <= day.year <= 9999,
    ensures
        spec_is_date_text(spec_format_date(day.year, day.month, day.day)),
        spec_date_of_text(spec_format_date(day.year, day.month, day.day)) == Some(day),
{
    reveal_strlit("-");
    let y = day.year as int;
    let t = spec_format_date(day.year, day.month, day.day);
    lemma_digit((y / 1000) as nat);
    lemma_digit((y / 100 % 10) as nat);
    lemma_digit((y / 10 % 10) as nat);
    lemma_digit((y % 10) as nat);
    lemma_digit((day.month / 10) as nat);
    lemma_digit((day.month % 10) as nat);
    lemma_digit((day.day / 10) as nat);
    lemma_digit((day.day % 10) as nat);
    assert(t.len() == 10);
    assert(t[0] == spec_digit((y / 1000) as nat));
    assert(t[1] == spec_digit((y / 100 % 10) as nat));
    assert(t[2] == spec_digit((y / 10 % 10) as nat));
    assert(t[3] == spec_digit((y % 10) as nat));
    assert(t[5] == spec_digit((day.month / 10) as nat));
    assert(t[6] == spec_digit((day.month % 10) as nat));
    assert(t[8] == spec_digit((day.day / 10) as nat));
    assert(t[9] == spec_digit((day.day % 10) as nat));
    assert(spec_two_value(t, 0) * 100 + spec_two_value(t, 2) == y) by (nonlinear_arith)
        requires
            spec_two_value(t, 0) == (y / 1000) * 10 + y / 100 % 10,
            spec_two_value(t, 2) == (y / 10 % 10) * 10 + y % 10,
            0 <= y <= 9999,
    ;
    assert(spec_two_value(t, 5) == day.month);
    assert(spec_two_value(t, 8) == day.day);
}

/// The name of a log file of a day of the years 0 to 9999 carries that
/// day: reading the date back from the name gives the day it was made for,
/// whatever the file's index.
pub proof fn law_log_file_name_dates_back(day: LogDate, index: u32)
    requires
        day.valid(),
        0 <= day.year <= 9999,
    ensures
        spec_log_file_date(spec_log_file_name(day, index)) == Some(day),
{
    reveal_strlit("proxy-");
    reveal_strlit(".log");
    reveal_strlit(".");
    reveal_strlit("log");
    lemma_date_text_reads_back(day);
    let dt = spec_format_date(day.year, day.month, day.day);
    let tail: Seq<char> = if index == 0 {
        seq![]
    } else {
        "."@ + spec_decimal(index as nat)
    };
    lemma_decimal_digits(index as nat);
    let stem = "proxy-"@ + dt + tail;
    let name = spec_log_file_name(day, index);
    assert(".log"@ =~= seq!['.'] + "log"@);
    assert(name =~= stem + seq!['.'] + "log"@);
    assert(!("log"@).contains('.')) by {
        assert("log"@ =~= seq!['l', 'o', 'g']);
    }
    lemma_rfind_before_suffix(stem, "log"@, '.');
    // The name is plain: it starts with `p` and holds letters, digits, `-` and `.`.
    assert forall|i: int| 0 <= i < name.len() implies {
        let ch = #[trigger] name[i];
        ch != '/' && ch != '\\' && ch != ':'
    } by {
        if i < 6 {
            assert(name[i] == ("proxy-"@)[i]);
        } else if i < 16 {
            assert(name[i] == dt[i - 6]);
        } else if i < stem.len() {
            assert(name[i] == tail[i - 16]);
            if index != 0 && i > 16 {
                assert(tail[i - 16] == spec_decimal(index as nat)[i - 17]);
            }
        } else {
            assert(name[i] == ("log"@ + seq![])[i - stem.len() - 1] || i == stem.len());
        }
    }
    assert(name[0] == 'p');
    assert(spec_plain_file_name(name));
    assert(name.subrange(0, stem.len() as int) =~= stem);
    assert(spec_stem(name) == Some(stem));
    assert(stem.subrange(0, 6) =~= "proxy-"@);
    let rest = stem.subrange(6, stem.len() as int);
    assert(rest =~= dt + tail);
    assert(!dt.contains('.')) by {
        if dt.contains('.') {
            let k = choose|k: int| 0 <= k < dt.len() && dt[k] == '.';
            assert(k == 4 || k == 7 || spec_is_digit(dt[k]));
        }
    }
    if index == 0 {
        assert(rest =~= dt);
    } else {
        assert(rest[10] == '.');
        assert(rest.contains('.'));
        let j = spec_find(rest, '.')->0;
        if j < 10 {
            assert(rest[j] == dt[j]);
        }
        assert(j == 10);
        assert(rest.subrange(0, 10) =~= dt);
    }
    assert(spec_before_dot(rest) == dt);
}

/// Dates are ordered as the calendar orders them: an earlier year comes
/// first whatever the month and day, within a year an earlier month comes
/// first whatever the days, and within a month the earlier day.
pub proof fn law_dates_order_chronologically(a: LogDate, b: LogDate)
    ensures
        a.year < b.year ==> a.spec_before(b),
        a.year > b.year ==> !a.spec_before(b),
        a.year == b.year && a.month < b.month ==> a.spec_before(b),
        a.year == b.year && a.month > b.month ==> !a.spec_before(b),
        a.year == b.year && a.month == b.month ==> (a.spec_before(b) <==> a.day < b.day),
        !a.spec_before(a),
        a != b ==> (a.spec_before(b) || b.spec_before(a)),
{
}

/// Cleaning up removes the log files of every day before the cutoff, and
/// keeps those of the cutoff and later: for a day of the years 0 to 9999,
/// the file of any index is removed exactly when its day comes before the
/// cutoff, so a file of an earlier month goes whatever the days.
pub proof fn law_files_before_cutoff_are_removed(day: LogDate, index: u32, cutoff: LogDate)
    requires
        day.valid(),
        0 <= day.year <= 9999,
    ensures
        (spec_log_file_date(spec_log_file_name(day, index)) matches Some(d) && d.spec_before(cutoff))
            <==> day.spec_before(cutoff),
        day.year == cutoff.year && day.month < cutoff.month ==> (spec_log_file_date(
            spec_log_file_name(day, index),
        ) matches Some(d) && d.spec_before(cutoff)),
{
    law_log_file_name_dates_back(day, index);
}

} // verus!
