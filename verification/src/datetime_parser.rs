use vstd::prelude::*;
use chrono::{Datelike, Timelike};
use crate::decimal::{parse_unsigned, parse_unsigned_bounded};

verus! {

/// Whether the character class `\d` of the `regex` crate (Unicode decimal
/// digits) holds `c`.
pub uninterp spec fn regex_digit(c: char) -> bool;

/// Asks the `regex` crate whether `c` belongs to its class `\d`, by matching
/// the one-character text of `c` against `^\d$` with `Regex::is_match`. The
/// contract claims that the answer depends on `c` alone and that the ASCII
/// digits belong to the class; which other characters belong to it (the
/// Unicode decimal digits of the crate's tables) is left unsaid.
#[verifier::external_body]
fn is_regex_digit(c: char) -> (r: bool)
    ensures
        r == regex_digit(c),
        '0' <= c <= '9' ==> r,
{
    let mut buf = [0u8; 4];
    regex::Regex::new(r"^\d$").unwrap().is_match(c.encode_utf8(&mut buf))
}

/// The Unicode `White_Space` characters, which `\s` matches.
pub open spec fn is_space(c: char) -> bool {
    ||| '\t' <= c <= '\r'
    ||| c == ' '
    ||| c == '\u{85}'
    ||| c == '\u{a0}'
    ||| c == '\u{1680}'
    ||| '\u{2000}' <= c <= '\u{200a}'
    ||| c == '\u{2028}'
    ||| c == '\u{2029}'
    ||| c == '\u{202f}'
    ||| c == '\u{205f}'
    ||| c == '\u{3000}'
}

/// The number of white-space characters that follow in a row from index `k`.
pub open spec fn space_run(s: Seq<char>, k: int) -> nat
    decreases s.len() - k,
{
    if 0 <= k < s.len() && is_space(s[k]) {
        1 + space_run(s, k + 1)
    } else {
        0
    }
}

/// The number of `\d` digits that follow in a row from index `k`.
pub open spec fn digit_run(s: Seq<char>, k: int) -> nat
    decreases s.len() - k,
{
    if 0 <= k < s.len() && regex_digit(s[k]) {
        1 + digit_run(s, k + 1)
    } else {
        0
    }
}

/// `n` digits stand from index `k`.
pub open spec fn digits_at(s: Seq<char>, k: int, n: int) -> bool {
    0 <= k && k + n <= s.len() && forall|j: int| k <= j < k + n ==> #[trigger] regex_digit(s[j])
}

/// The fields that a datetime text sets, each as the digits written for it.
pub struct DatetimeTokensView {
    pub year: Option<Seq<char>>,
    pub month: Option<Seq<char>>,
    pub day: Option<Seq<char>>,
    pub hour: Option<Seq<char>>,
    pub minute: Option<Seq<char>>,
    pub second: Option<Seq<char>>,
    pub millisecond: Option<Seq<char>>,
}

/// A date `YYYY-mm-dd` starts at index `i`.
pub open spec fn date_at(s: Seq<char>, i: int) -> bool {
    &&& digits_at(s, i, 4)
    &&& i + 10 <= s.len()
    &&& s[i + 4] == '-'
    &&& digits_at(s, i + 5, 2)
    &&& s[i + 7] == '-'
    &&& digits_at(s, i + 8, 2)
}

/// A clock time `HH:MM:SS` starts at index `i`.
pub open spec fn clock_at(s: Seq<char>, i: int) -> bool {
    &&& digits_at(s, i, 2)
    &&& i + 8 <= s.len()
    &&& s[i + 2] == ':'
    &&& digits_at(s, i + 3, 2)
    &&& s[i + 5] == ':'
    &&& digits_at(s, i + 6, 2)
}

/// Where a key of `key_len` characters at index `i` is followed by `=`
/// (white space around it allowed) and digits: the start and end of the digits.
pub open spec fn assignment_at(s: Seq<char>, i: int, key_len: int) -> Option<(int, int)> {
    let e = i + key_len + space_run(s, i + key_len);
    if 0 <= e < s.len() && s[e] == '=' {
        let b = e + 1 + space_run(s, e + 1);
        let r = digit_run(s, b);
        if r > 0 {
            Some((b, b + r))
        } else {
            None
        }
    } else {
        None
    }
}

/// The token that starts at index `i`, tried in the order the tool lists
/// its patterns: white space, a date, a clock time with fraction, a clock
/// time, then `h=`, `m=`, `s=`, `ms=`, `Y=`, `M=`, `D=` assignments (`ms=`
/// sets the day). The end of the token and the fields after it.
pub open spec fn token_at(s: Seq<char>, i: int, tk: DatetimeTokensView) -> Option<(int, DatetimeTokensView)> {
    if is_space(s[i]) {
        Some((i + space_run(s, i), tk))
    } else if date_at(s, i) {
        Some(
            (
                i + 10,
                DatetimeTokensView {
                    year: Some(s.subrange(i, i + 4)),
                    month: Some(s.subrange(i + 5, i + 7)),
                    day: Some(s.subrange(i + 8, i + 10)),
                    ..tk
                },
            ),
        )
    } else if clock_at(s, i) && i + 8 < s.len() && s[i + 8] == '.' && digit_run(s, i + 9) > 0 {
        let end = i + 9 + digit_run(s, i + 9);
        Some(
            (
                end,
                DatetimeTokensView {
                    hour: Some(s.subrange(i, i + 2)),
                    minute: Some(s.subrange(i + 3, i + 5)),
                    second: Some(s.subrange(i + 6, i + 8)),
                    millisecond: Some(s.subrange(i + 9, end)),
                    ..tk
                },
            ),
        )
    } else if clock_at(s, i) {
        Some(
            (
                i + 8,
                DatetimeTokensView {
                    hour: Some(s.subrange(i, i + 2)),
                    minute: Some(s.subrange(i + 3, i + 5)),
                    second: Some(s.subrange(i + 6, i + 8)),
                    ..tk
                },
            ),
        )
    } else if s[i] == 'h' && assignment_at(s, i, 1) is Some {
        let (b, e) = assignment_at(s, i, 1).unwrap();
        Some((e, DatetimeTokensView { hour: Some(s.subrange(b, e)), ..tk }))
    } else if s[i] == 'm' && assignment_at(s, i, 1) is Some {
        let (b, e) = assignment_at(s, i, 1).unwrap();
        Some((e, DatetimeTokensView { minute: Some(s.subrange(b, e)), ..tk }))
    } else if s[i] == 's' && assignment_at(s, i, 1) is Some {
        let (b, e) = assignment_at(s, i, 1).unwrap();
        Some((e, DatetimeTokensView { second: Some(s.subrange(b, e)), ..tk }))
    } else if s[i] == 'm' && i + 1 < s.len() && s[i + 1] == 's' && assignment_at(s, i, 2) is Some {
        let (b, e) = assignment_at(s, i, 2).unwrap();
        Some((e, DatetimeTokensView { day: Some(s.subrange(b, e)), ..tk }))
    } else if s[i] == 'Y' && assignment_at(s, i, 1) is Some {
        let (b, e) = assignment_at(s, i, 1).unwrap();
        Some((e, DatetimeTokensView { year: Some(s.subrange(b, e)), ..tk }))
    } else if s[i] == 'M' && assignment_at(s, i, 1) is Some {
        let (b, e) = assignment_at(s, i, 1).unwrap();
        Some((e, DatetimeTokensView { month: Some(s.subrange(b, e)), ..tk }))
    } else if s[i] == 'D' && assignment_at(s, i, 1) is Some {
        let (b, e) = assignment_at(s, i, 1).unwrap();
        Some((e, DatetimeTokensView { day: Some(s.subrange(b, e)), ..tk }))
    } else {
        None
    }
}

/// Reads tokens from index `i` to the end; `None` at the first place where no token starts.
pub open spec fn scan(s: Seq<char>, i: int, tk: DatetimeTokensView) -> Option<DatetimeTokensView>
    decreases s.len() - i,
{
    if i < 0 || i >= s.len() {
        Some(tk)
    } else {
        match token_at(s, i, tk) {
            None => None,
            Some((j, next)) => if i < j && j <= s.len() {
                scan(s, j, next)
            } else {
                None
            },
        }
    }
}

/// The fields that a datetime text sets, or `None` where it holds something
/// that is no token.
pub open spec fn tokenize(s: Seq<char>) -> Option<DatetimeTokensView> {
    scan(
        s,
        0,
        DatetimeTokensView {
            year: None,
            month: None,
            day: None,
            hour: None,
            minute: None,
            second: None,
            millisecond: None,
        },
    )
}

/// The fields that a datetime text sets, each as the digits written for it.
pub struct DatetimeTokens {
    pub year: Option<String>,
    pub month: Option<String>,
    pub day: Option<String>,
    pub hour: Option<String>,
    pub minute: Option<String>,
    pub second: Option<String>,
    pub millisecond: Option<String>,
}

/// The characters of an optional text.
pub open spec fn opt_view(o: Option<String>) -> Option<Seq<char>> {
    match o {
        Some(x) => Some(x@),
        None => None,
    }
}

impl View for DatetimeTokens {
    type V = DatetimeTokensView;

    open spec fn view(&self) -> DatetimeTokensView {
        DatetimeTokensView {
            year: opt_view(self.year),
            month: opt_view(self.month),
            day: opt_view(self.day),
            hour: opt_view(self.hour),
            minute: opt_view(self.minute),
            second: opt_view(self.second),
            millisecond: opt_view(self.millisecond),
        }
    }
}

fn is_space_char(c: char) -> (r: bool)
    ensures
        r == is_space(c),
{
    ('\t' <= c && c <= '\r') || c == ' ' || c == '\u{85}' || c == '\u{a0}' || c == '\u{1680}' || (
    '\u{2000}' <= c && c <= '\u{200a}') || c == '\u{2028}' || c == '\u{2029}' || c == '\u{202f}' || c
        == '\u{205f}' || c == '\u{3000}'
}

fn space_run_from(s: &str, len: usize, k: usize) -> (r: usize)
    requires
        len == s@.len(),
        k <= len,
    ensures
        r == space_run(s@, k as int),
        k + r <= len,
{
    let mut j = k;
    while j < len && is_space_char(s.get_char(j))
        invariant
            len == s@.len(),
            k <= j <= len,
            space_run(s@, k as int) == (j - k) + space_run(s@, j as int),
        decreases len - j,
    {
        j += 1;
    }
    j - k
}

fn digit_run_from(s: &str, len: usize, k: usize) -> (r: usize)
    requires
        len == s@.len(),
        k <= len,
    ensures
        r == digit_run(s@, k as int),
        k + r <= len,
{
    let mut j = k;
    while j < len && is_regex_digit(s.get_char(j))
        invariant
            len == s@.len(),
            k <= j <= len,
            digit_run(s@, k as int) == (j - k) + digit_run(s@, j as int),
        decreases len - j,
    {
        j += 1;
    }
    j - k
}

fn digits_at_exec(s: &str, len: usize, k: usize, n: usize) -> (r: bool)
    requires
        len == s@.len(),
        k <= len,
        n <= 10,
    ensures
        r == digits_at(s@, k as int, n as int),
{
    if n > len - k {
        return false;
    }
    let mut j = k;
    while j < k + n
        invariant
            len == s@.len(),
            k + n <= len,
            k <= j <= k + n,
            forall|t: int| k <= t < j ==> #[trigger] regex_digit(s@[t]),
        decreases k + n - j,
    {
        if !is_regex_digit(s.get_char(j)) {
            return false;
        }
        j += 1;
    }
    true
}

fn char_is(s: &str, len: usize, k: usize, c: char) -> (r: bool)
    requires
        len == s@.len(),
    ensures
        r == (k < len && s@[k as int] == c),
{
    k < len && s.get_char(k) == c
}

fn assignment_at_exec(s: &str, len: usize, i: usize, key_len: usize) -> (r: Option<(usize, usize)>)
    requires
        len == s@.len(),
        i < len,
        key_len <= 2,
    ensures
        match assignment_at(s@, i as int, key_len as int) {
            None => r is None,
            Some((b, e)) => r == Some((b as usize, e as usize)) && b <= e <= len,
        },
{
    if key_len > len - i {
        return None;
    }
    let e = i + key_len + space_run_from(s, len, i + key_len);
    if char_is(s, len, e, '=') {
        let b = e + 1 + space_run_from(s, len, e + 1);
        let r = digit_run_from(s, len, b);
        if r > 0 {
            Some((b, b + r))
        } else {
            None
        }
    } else {
        None
    }
}

fn piece(s: &str, from: usize, to: usize) -> (r: Option<String>)
    requires
        from <= to <= s@.len(),
    ensures
        r == Some(r.unwrap()),
        r.unwrap()@ == s@.subrange(from as int, to as int),
{
    Some(String::from_str(s.substring_char(from, to)))
}

fn token_at_exec(s: &str, len: usize, i: usize, tk: &mut DatetimeTokens) -> (r: Option<usize>)
    requires
        len == s@.len(),
        i < len,
    ensures
        match token_at(s@, i as int, old(tk)@) {
            None => r is None,
            Some((j, next)) => r == Some(j as usize) && final(tk)@ == next && i < j <= len,
        },
{
    let c = s.get_char(i);
    if is_space_char(c) {
        let n = space_run_from(s, len, i);
        assert(space_run(s@, i as int) == 1 + space_run(s@, i + 1));
        return Some(i + n);
    }
    let date = len - i >= 10 && digits_at_exec(s, len, i, 4) && char_is(s, len, i + 4, '-')
        && digits_at_exec(s, len, i + 5, 2) && char_is(s, len, i + 7, '-') && digits_at_exec(
        s,
        len,
        i + 8,
        2,
    );
    if date {
        tk.year = piece(s, i, i + 4);
        tk.month = piece(s, i + 5, i + 7);
        tk.day = piece(s, i + 8, i + 10);
        return Some(i + 10);
    }
    let clock = len - i >= 8 && digits_at_exec(s, len, i, 2) && char_is(s, len, i + 2, ':')
        && digits_at_exec(s, len, i + 3, 2) && char_is(s, len, i + 5, ':') && digits_at_exec(
        s,
        len,
        i + 6,
        2,
    );
    if clock && char_is(s, len, i + 8, '.') {
        let r = digit_run_from(s, len, i + 9);
        if r > 0 {
            let end = i + 9 + r;
            tk.hour = piece(s, i, i + 2);
            tk.minute = piece(s, i + 3, i + 5);
            tk.second = piece(s, i + 6, i + 8);
            tk.millisecond = piece(s, i + 9, end);
            return Some(end);
        }
    }
    if clock {
        tk.hour = piece(s, i, i + 2);
        tk.minute = piece(s, i + 3, i + 5);
        tk.second = piece(s, i + 6, i + 8);
        return Some(i + 8);
    }
    if c == 'h' {
        if let Some((b, e)) = assignment_at_exec(s, len, i, 1) {
            tk.hour = piece(s, b, e);
            return Some(e);
        }
    }
    if c == 'm' {
        if let Some((b, e)) = assignment_at_exec(s, len, i, 1) {
            tk.minute = piece(s, b, e);
            return Some(e);
        }
    }
    if c == 's' {
        if let Some((b, e)) = assignment_at_exec(s, len, i, 1) {
            tk.second = piece(s, b, e);
            return Some(e);
        }
    }
    if c == 'm' && char_is(s, len, i + 1, 's') {
        if let Some((b, e)) = assignment_at_exec(s, len, i, 2) {
            tk.day = piece(s, b, e);
            return Some(e);
        }
    }
    if c == 'Y' {
        if let Some((b, e)) = assignment_at_exec(s, len, i, 1) {
            tk.year = piece(s, b, e);
            return Some(e);
        }
    }
    if c == 'M' {
        if let Some((b, e)) = assignment_at_exec(s, len, i, 1) {
            tk.month = piece(s, b, e);
            return Some(e);
        }
    }
    if c == 'D' {
        if let Some((b, e)) = assignment_at_exec(s, len, i, 1) {
            tk.day = piece(s, b, e);
            return Some(e);
        }
    }
    None
}

/// Splits a datetime text into the fields it sets; `None` where it holds
/// something that is no token.
pub fn tokenize_datetime(input: &str) -> (r: Option<DatetimeTokens>)
    ensures
        match tokenize(input@) {
            None => r is None,
            Some(v) => r matches Some(t) && t@ == v,
        },
{
    let len = input.unicode_len();
    let mut tk = DatetimeTokens {
        year: None,
        month: None,
        day: None,
        hour: None,
        minute: None,
        second: None,
        millisecond: None,
    };
    let mut i: usize = 0;
    while i < len
        invariant
            len == input@.len(),
            i <= len,
            scan(input@, i as int, tk@) == tokenize(input@),
        decreases len - i,
    {
        match token_at_exec(input, len, i, &mut tk) {
            None => {
                return None;
            },
            Some(j) => {
                i = j;
            },
        }
    }
    Some(tk)
}

/// A calendar date and time of day in UTC, field by field.
#[derive(Clone, Copy, Debug, PartialEq, Eq)]
pub struct DateFields {
    pub year: i32,
    pub month: u32,
    pub day: u32,
    pub hour: u32,
    pub minute: u32,
    pub second: u32,
    pub nanosecond: u32,
}

/// A leap year of the proleptic Gregorian calendar.
pub open spec fn is_leap(y: int) -> bool {
    (y % 4 == 0 && y % 100 != 0) || y % 400 == 0
}

/// The number of days of month `m` in year `y`.
pub open spec fn days_in_month(y: int, m: int) -> int {
    if m == 2 {
        if is_leap(y) {
            29
        } else {
            28
        }
    } else if m == 4 || m == 6 || m == 9 || m == 11 {
        30
    } else {
        31
    }
}

/// The date exists and its year lies in the range that `chrono` represents.
pub open spec fn date_valid(y: int, m: int, d: int) -> bool {
    &&& -262143 <= y <= 262142
    &&& 1 <= m <= 12
    &&& 1 <= d <= days_in_month(y, m)
}

/// A point in time that `chrono` can hold as a `DateTime<Utc>`: a valid date,
/// a time of day, and a fraction below two seconds (the second one for a
/// leap second), short of the last representable instant.
pub open spec fn fields_valid(f: DateFields) -> bool {
    &&& date_valid(f.year as int, f.month as int, f.day as int)
    &&& f.hour < 24
    &&& f.minute < 60
    &&& f.second < 60
    &&& f.nanosecond < 2_000_000_000
    &&& !(f.nanosecond >= 1_000_000_000 && f.year == 262142 && f.month == 12 && f.day == 31 && f.hour == 23
        && f.minute == 59 && f.second == 59)
}

/// A time that the system clock can read: a valid date, a time of day and
/// a fraction below one second.
pub open spec fn clock_time(now: DateFields) -> bool {
    &&& date_valid(now.year as int, now.month as int, now.day as int)
    &&& now.hour < 24
    &&& now.minute < 60
    &&& now.second < 60
    &&& now.nanosecond < 1_000_000_000
}

/// A valid point in time that the chain from the current time gives
/// whatever the current time is: its month has 31 days (so the current day
/// of the month fits it) and its year is a leap year (so the current month
/// and day fit it).
pub open spec fn clock_free(f: DateFields) -> bool {
    &&& fields_valid(f)
    &&& is_leap(f.year as int)
    &&& days_in_month(f.year as int, f.month as int) == 31
}

/// A step of `chrono`'s chain: the time `t`, where it exists and lies
/// within `chrono`'s range.
pub open spec fn kept_if_valid(t: DateFields) -> Option<DateFields> {
    if fields_valid(t) {
        Some(t)
    } else {
        None
    }
}

/// What the tool gives for the requested fields `f` when the clock reads
/// `clock`: nothing where the clock could not be read, else the chain from
/// the time it read.
pub open spec fn clock_outcome(clock: Option<DateFields>, f: DateFields) -> Option<DateFields> {
    match clock {
        Some(now) => now_chain(now, f),
        None => None,
    }
}

/// What the tool's chain `with_year`, `with_month`, `with_day`, `with_hour`,
/// `with_minute`, `with_second`, `with_nanosecond` of `chrono`, started on
/// the current time `now`, gives for the requested fields `f`: each step
/// keeps the fields it does not set, and fails where the date or time it
/// would make does not exist.
pub open spec fn now_chain(now: DateFields, f: DateFields) -> Option<DateFields> {
    if !(now.year == f.year || date_valid(f.year as int, now.month as int, now.day as int)) {
        None
    } else if !date_valid(f.year as int, f.month as int, now.day as int) {
        None
    } else if !fields_valid(f) {
        None
    } else {
        Some(f)
    }
}

/// A field, where the text sets it, reads as a number no greater than `max`.
pub open spec fn field_parses(t: Option<Seq<char>>, max: nat) -> bool {
    t matches Some(x) ==> parse_unsigned(x, max) is Some
}

/// The number that a field is set to, or `default` where the text leaves it.
pub open spec fn field_value(t: Option<Seq<char>>, max: nat, default: int) -> int {
    match t {
        Some(x) => parse_unsigned(x, max).unwrap() as int,
        None => default,
    }
}

/// Every field the text sets reads as a number of its type, and the
/// milliseconds, once turned into nanoseconds, still fit.
pub open spec fn tokens_usable(tk: DatetimeTokensView) -> bool {
    &&& field_parses(tk.year, i32::MAX as nat)
    &&& field_parses(tk.month, u32::MAX as nat)
    &&& field_parses(tk.day, u32::MAX as nat)
    &&& field_parses(tk.hour, u32::MAX as nat)
    &&& field_parses(tk.minute, u32::MAX as nat)
    &&& field_parses(tk.second, u32::MAX as nat)
    &&& field_parses(tk.millisecond, u32::MAX as nat)
    &&& field_value(tk.millisecond, u32::MAX as nat, 0) * 1_000_000 <= u32::MAX
}

/// The fields that a text asks for: those it sets, the others taken from
/// `init`, except the fraction of a second, which is zero unless set.
pub open spec fn requested_fields(tk: DatetimeTokensView, init: DateFields) -> DateFields {
    DateFields {
        year: field_value(tk.year, i32::MAX as nat, init.year as int) as i32,
        month: field_value(tk.month, u32::MAX as nat, init.month as int) as u32,
        day: field_value(tk.day, u32::MAX as nat, init.day as int) as u32,
        hour: field_value(tk.hour, u32::MAX as nat, init.hour as int) as u32,
        minute: field_value(tk.minute, u32::MAX as nat, init.minute as int) as u32,
        second: field_value(tk.second, u32::MAX as nat, init.second as int) as u32,
        nanosecond: (field_value(tk.millisecond, u32::MAX as nat, 0) * 1_000_000) as u32,
    }
}

/// The system clock's time type of `std`; opaque here.
#[verifier::external_type_specification]
#[verifier::external_body]
pub struct ExSystemTime(std::time::SystemTime);

/// `SystemTime::now`: what the system clock reads. Nothing is claimed of it.
#[verifier::external_body]
fn system_now() -> (r: std::time::SystemTime) {
    std::time::SystemTime::now()
}

/// `SystemTime::duration_since(UNIX_EPOCH)`, given as the whole seconds
/// and the nanoseconds of the elapsed `Duration` (`as_secs`,
/// `subsec_nanos`); `None` where `t` lies before the epoch. The contract
/// claims only that the nanoseconds are below one second, as
/// `subsec_nanos` documents; how many seconds `t` lies past the epoch is
/// left unsaid, `t` being opaque here.
#[verifier::external_body]
fn since_unix_epoch(t: &std::time::SystemTime) -> (r: Option<(u64, u32)>)
    ensures
        r matches Some(d) ==> d.1 < 1_000_000_000,
{
    match t.duration_since(std::time::UNIX_EPOCH) {
        Ok(d) => Some((d.as_secs(), d.subsec_nanos())),
        Err(_) => None,
    }
}

/// The fields of the UTC time `secs` seconds and `nanos` nanoseconds after
/// the UNIX epoch, as `chrono::DateTime::from_timestamp` gives it; `None`
/// where it does not give one.
pub uninterp spec fn timestamp_fields(secs: i64, nanos: u32) -> Option<DateFields>;

/// `chrono::DateTime::from_timestamp`, the time taken apart with the
/// `Datelike` and `Timelike` getters. The contract names the result; of it,
/// it claims that with a fraction below one second a time it gives is a
/// valid date and time of day (its years lie within `chrono`'s range), and
/// that it gives one for every moment from the epoch up to some 250000
/// years later (the documentation: `None` only on out-of-range seconds or
/// an invalid nanosecond).
#[verifier::external_body]
fn utc_from_timestamp(secs: i64, nanos: u32) -> (r: Option<DateFields>)
    ensures
        r == timestamp_fields(secs, nanos),
        nanos < 1_000_000_000 ==> (r matches Some(f) ==> clock_time(f)),
        0 <= secs <= 8_000_000_000_000 && nanos < 1_000_000_000 ==> r is Some,
{
    match chrono::DateTime::from_timestamp(secs, nanos) {
        Some(n) => Some(DateFields {
            year: n.year(),
            month: n.month(),
            day: n.day(),
            hour: n.hour(),
            minute: n.minute(),
            second: n.second(),
            nanosecond: n.nanosecond(),
        }),
        None => None,
    }
}

/// The current UTC time, read the way `chrono::Utc::now` reads it: the
/// system clock's time since the UNIX epoch, made into a UTC time. `None`
/// where the clock reads a time before the epoch or one that `chrono`
/// cannot hold.
fn utc_now_fields() -> (r: Option<DateFields>)
    ensures
        r matches Some(f) ==> clock_time(f),
{
    let t = system_now();
    match since_unix_epoch(&t) {
        Some((secs, nanos)) => utc_from_timestamp(secs as i64, nanos),
        None => None,
    }
}

fn read_field(t: &Option<String>, max: usize, default: usize) -> (r: usize)
    requires
        field_parses(opt_view(*t), max as nat),
    ensures
        r == field_value(opt_view(*t), max as nat, default as int),
{
    match t {
        Some(x) => parse_unsigned_bounded(x.as_str(), max).unwrap(),
        None => default,
    }
}

/// `with_year` of `chrono`'s `Datelike` on the `DateTime<Utc>` of `t`, taken apart
/// again with the getters: the time with its year set to `year`, where that
/// time exists and lies within `chrono`'s range, else `None`.
#[verifier::external_body]
fn chrono_with_year(t: DateFields, year: i32) -> (r: Option<DateFields>)
    requires
        clock_time(t),
    ensures
        r == kept_if_valid(DateFields { year, ..t }),
{
    let n = chrono::NaiveDate::from_ymd_opt(t.year, t.month, t.day).unwrap().and_hms_nano_opt(
        t.hour, t.minute, t.second, t.nanosecond).unwrap().and_utc();
    match n.with_year(year) {
        Some(d) => Some(DateFields { year: d.year(), month: d.month(), day: d.day(), hour: d.hour(),
            minute: d.minute(), second: d.second(), nanosecond: d.nanosecond() }),
        None => None,
    }
}

/// `with_month` of `chrono`'s `Datelike` on the `DateTime<Utc>` of `t`, taken apart
/// again with the getters: the time with its month set to `month`, where that
/// time exists and lies within `chrono`'s range, else `None`.
#[verifier::external_body]
fn chrono_with_month(t: DateFields, month: u32) -> (r: Option<DateFields>)
    requires
        clock_time(t),
    ensures
        r == kept_if_valid(DateFields { month, ..t }),
{
    let n = chrono::NaiveDate::from_ymd_opt(t.year, t.month, t.day).unwrap().and_hms_nano_opt(
        t.hour, t.minute, t.second, t.nanosecond).unwrap().and_utc();
    match n.with_month(month) {
        Some(d) => Some(DateFields { year: d.year(), month: d.month(), day: d.day(), hour: d.hour(),
            minute: d.minute(), second: d.second(), nanosecond: d.nanosecond() }),
        None => None,
    }
}

/// `with_day` of `chrono`'s `Datelike` on the `DateTime<Utc>` of `t`, taken apart
/// again with the getters: the time with its day set to `day`, where that
/// time exists and lies within `chrono`'s range, else `None`.
#[verifier::external_body]
fn chrono_with_day(t: DateFields, day: u32) -> (r: Option<DateFields>)
    requires
        clock_time(t),
    ensures
        r == kept_if_valid(DateFields { day, ..t }),
{
    let n = chrono::NaiveDate::from_ymd_opt(t.year, t.month, t.day).unwrap().and_hms_nano_opt(
        t.hour, t.minute, t.second, t.nanosecond).unwrap().and_utc();
    match n.with_day(day) {
        Some(d) => Some(DateFields { year: d.year(), month: d.month(), day: d.day(), hour: d.hour(),
            minute: d.minute(), second: d.second(), nanosecond: d.nanosecond() }),
        None => None,
    }
}

/// `with_hour` of `chrono`'s `Timelike` on the `DateTime<Utc>` of `t`, taken apart
/// again with the getters: the time with its hour set to `hour`, where that
/// time exists and lies within `chrono`'s range, else `None`.
#[verifier::external_body]
fn chrono_with_hour(t: DateFields, hour: u32) -> (r: Option<DateFields>)
    requires
        clock_time(t),
    ensures
        r == kept_if_valid(DateFields { hour, ..t }),
{
    let n = chrono::NaiveDate::from_ymd_opt(t.year, t.month, t.day).unwrap().and_hms_nano_opt(
        t.hour, t.minute, t.second, t.nanosecond).unwrap().and_utc();
    match n.with_hour(hour) {
        Some(d) => Some(DateFields { year: d.year(), month: d.month(), day: d.day(), hour: d.hour(),
            minute: d.minute(), second: d.second(), nanosecond: d.nanosecond() }),
        None => None,
    }
}

/// `with_minute` of `chrono`'s `Timelike` on the `DateTime<Utc>` of `t`, taken apart
/// again with the getters: the time with its minute set to `minute`, where that
/// time exists and lies within `chrono`'s range, else `None`.
#[verifier::external_body]
fn chrono_with_minute(t: DateFields, minute: u32) -> (r: Option<DateFields>)
    requires
        clock_time(t),
    ensures
        r == kept_if_valid(DateFields { minute, ..t }),
{
    let n = chrono::NaiveDate::from_ymd_opt(t.year, t.month, t.day).unwrap().and_hms_nano_opt(
        t.hour, t.minute, t.second, t.nanosecond).unwrap().and_utc();
    match n.with_minute(minute) {
        Some(d) => Some(DateFields { year: d.year(), month: d.month(), day: d.day(), hour: d.hour(),
            minute: d.minute(), second: d.second(), nanosecond: d.nanosecond() }),
        None => None,
    }
}

/// `with_second` of `chrono`'s `Timelike` on the `DateTime<Utc>` of `t`, taken apart
/// again with the getters: the time with its second set to `second`, where that
/// time exists and lies within `chrono`'s range, else `None`.
#[verifier::external_body]
fn chrono_with_second(t: DateFields, second: u32) -> (r: Option<DateFields>)
    requires
        clock_time(t),
    ensures
        r == kept_if_valid(DateFields { second, ..t }),
{
    let n = chrono::NaiveDate::from_ymd_opt(t.year, t.month, t.day).unwrap().and_hms_nano_opt(
        t.hour, t.minute, t.second, t.nanosecond).unwrap().and_utc();
    match n.with_second(second) {
        Some(d) => Some(DateFields { year: d.year(), month: d.month(), day: d.day(), hour: d.hour(),
            minute: d.minute(), second: d.second(), nanosecond: d.nanosecond() }),
        None => None,
    }
}

/// `with_nanosecond` of `chrono`'s `Timelike` on the `DateTime<Utc>` of `t`, taken apart
/// again with the getters: the time with its nanosecond set to `nanosecond`, where that
/// time exists and lies within `chrono`'s range, else `None`.
#[verifier::external_body]
fn chrono_with_nanosecond(t: DateFields, nanosecond: u32) -> (r: Option<DateFields>)
    requires
        clock_time(t),
    ensures
        r == kept_if_valid(DateFields { nanosecond, ..t }),
{
    let n = chrono::NaiveDate::from_ymd_opt(t.year, t.month, t.day).unwrap().and_hms_nano_opt(
        t.hour, t.minute, t.second, t.nanosecond).unwrap().and_utc();
    match n.with_nanosecond(nanosecond) {
        Some(d) => Some(DateFields { year: d.year(), month: d.month(), day: d.day(), hour: d.hour(),
            minute: d.minute(), second: d.second(), nanosecond: d.nanosecond() }),
        None => None,
    }
}

/// Turns the fields of a datetime text into a point in time, as the tool
/// does from the current time `now`: the fields the text sets are read,
/// the others taken from `init`, and `chrono`'s chain `with_year`,
/// `with_month`, `with_day`, `with_hour`, `with_minute`, `with_second`,
/// `with_nanosecond` is applied to `now`, stopping at the first step that fails.
pub fn resolve_datetime(tokens: &DatetimeTokens, init: DateFields, now: DateFields) -> (r: Option<DateFields>)
    requires
        tokens_usable(tokens@),
        clock_time(now),
    ensures
        r == now_chain(now, requested_fields(tokens@, init)),
{
    let year_max = i32::MAX as usize;
    let year = if let Some(x) = &tokens.year {
        parse_unsigned_bounded(x.as_str(), year_max).unwrap() as i32
    } else {
        init.year
    };
    let month = read_field(&tokens.month, u32::MAX as usize, init.month as usize) as u32;
    let day = read_field(&tokens.day, u32::MAX as usize, init.day as usize) as u32;
    let hour = read_field(&tokens.hour, u32::MAX as usize, init.hour as usize) as u32;
    let minute = read_field(&tokens.minute, u32::MAX as usize, init.minute as usize) as u32;
    let second = read_field(&tokens.second, u32::MAX as usize, init.second as usize) as u32;
    let millisecond = read_field(&tokens.millisecond, u32::MAX as usize, 0) as u32;
    let nanosecond: u32 = millisecond * 1_000_000;
    assert(DateFields { year, month, day, hour, minute, second, nanosecond } == requested_fields(tokens@, init));
    let t = match chrono_with_year(now, year) {
        Some(t) => t,
        None => return None,
    };
    let t = match chrono_with_month(t, month) {
        Some(t) => t,
        None => return None,
    };
    let t = match chrono_with_day(t, day) {
        Some(t) => t,
        None => return None,
    };
    let t = match chrono_with_hour(t, hour) {
        Some(t) => t,
        None => return None,
    };
    let t = match chrono_with_minute(t, minute) {
        Some(t) => t,
        None => return None,
    };
    let t = match chrono_with_second(t, second) {
        Some(t) => t,
        None => return None,
    };
    chrono_with_nanosecond(t, nanosecond)
}

/// Tells whether every field that a datetime text sets reads as a number
/// of its type, so that `resolve_datetime` and `parse_datetimes` may be
/// called on it.
pub fn tokens_are_usable(tokens: &DatetimeTokens) -> (r: bool)
    ensures
        r == tokens_usable(tokens@),
{
    let year_ok = match &tokens.year {
        Some(x) => parse_unsigned_bounded(x.as_str(), i32::MAX as usize).is_some(),
        None => true,
    };
    let ms_ok = match &tokens.millisecond {
        Some(x) => match parse_unsigned_bounded(x.as_str(), u32::MAX as usize) {
            Some(v) => v <= 4294,
            None => false,
        },
        None => true,
    };
    year_ok && field_ok(&tokens.month) && field_ok(&tokens.day) && field_ok(&tokens.hour) && field_ok(
        &tokens.minute,
    ) && field_ok(&tokens.second) && ms_ok
}

fn field_ok(t: &Option<String>) -> (r: bool)
    ensures
        r == field_parses(opt_view(*t), u32::MAX as nat),
{
    match t {
        Some(x) => parse_unsigned_bounded(x.as_str(), u32::MAX as usize).is_some(),
        None => true,
    }
}

/// Reads a datetime text that sets some fields of `init`, the way the
/// viewer's date entry does: `None` where the text holds something that is
/// no token or where the date or time asked for does not exist; else the
/// fields asked for. Since the steps start from the current time, a text
/// may also be refused for the day on which it is read (on the 31st, a
/// month of 30 days is refused before its day is set, say).
pub fn parse_datetimes(input: &str, init: DateFields) -> (r: Option<DateFields>)
    requires
        tokenize(input@) matches Some(tk) ==> tokens_usable(tk),
    ensures
        tokenize(input@) is None ==> r is None,
        tokenize(input@) matches Some(tk) ==> (r is None || r == Some(requested_fields(tk, init))),
        tokenize(input@) matches Some(tk) && !fields_valid(requested_fields(tk, init)) ==> r is None,
        r matches Some(f) ==> fields_valid(f),
        tokenize(input@) matches Some(tk) ==> exists|clock: Option<DateFields>|
            (clock matches Some(now) ==> clock_time(now)) && r == #[trigger] clock_outcome(
                clock,
                requested_fields(tk, init),
            ),
{
    match tokenize_datetime(input) {
        None => None,
        Some(tokens) => {
            let clock = utc_now_fields();
            let r = match clock {
                Some(now) => resolve_datetime(&tokens, init, now),
                None => None,
            };
            proof {
                let f = requested_fields(tokens@, init);
                if let Some(now) = clock {
                    lemma_now_chain_outcome(now, f);
                }
                assert(r == clock_outcome(clock, f));
            }
            r
        },
    }
}

/// The chain from the current time gives exactly the requested point in
/// time or nothing, and it gives it whenever that point exists and the
/// current day of the month is no later than the 28th, or whenever the
/// point lies in a month of 31 days of a leap year, whatever the current
/// time.
pub proof fn lemma_now_chain_outcome(now: DateFields, f: DateFields)
    requires
        date_valid(now.year as int, now.month as int, now.day as int),
    ensures
        now_chain(now, f) is None || (now_chain(now, f) == Some(f) && fields_valid(f)),
        fields_valid(f) && now.day <= 28 ==> now_chain(now, f) == Some(f),
        clock_free(f) ==> now_chain(now, f) == Some(f),
{
    if clock_free(f) {
        assert(days_in_month(now.year as int, now.month as int) <= days_in_month(f.year as int, now.month as int));
        assert(date_valid(f.year as int, now.month as int, now.day as int));
        assert(date_valid(f.year as int, f.month as int, now.day as int));
    }
}

/// A text `YYYY-mm-dd HH:MM:SS` of decimal digits sets exactly the year,
/// month, day, hour, minute and second to the digits written for them,
/// and no millisecond.
pub proof fn lemma_tokenize_date_and_time(s: Seq<char>)
    requires
        s.len() == 19,
        forall|j: int|
            (0 <= j < 4 || 5 <= j < 7 || 8 <= j < 10 || 11 <= j < 13 || 14 <= j < 16 || 17 <= j < 19) ==> '0' <= #[trigger] s[j]
                <= '9' && regex_digit(s[j]),
        s[4] == '-',
        s[7] == '-',
        s[10] == ' ',
        s[13] == ':',
        s[16] == ':',
    ensures
        tokenize(s) == Some(
            DatetimeTokensView {
                year: Some(s.subrange(0, 4)),
                month: Some(s.subrange(5, 7)),
                day: Some(s.subrange(8, 10)),
                hour: Some(s.subrange(11, 13)),
                minute: Some(s.subrange(14, 16)),
                second: Some(s.subrange(17, 19)),
                millisecond: None,
            },
        ),
{
    let tk0 = DatetimeTokensView {
        year: None,
        month: None,
        day: None,
        hour: None,
        minute: None,
        second: None,
        millisecond: None,
    };
    let tk1 = DatetimeTokensView {
        year: Some(s.subrange(0, 4)),
        month: Some(s.subrange(5, 7)),
        day: Some(s.subrange(8, 10)),
        ..tk0
    };
    let tk2 = DatetimeTokensView {
        hour: Some(s.subrange(11, 13)),
        minute: Some(s.subrange(14, 16)),
        second: Some(s.subrange(17, 19)),
        ..tk1
    };
    assert(!is_space(s[0]));
    assert(digits_at(s, 0, 4) && digits_at(s, 5, 2) && digits_at(s, 8, 2));
    assert(date_at(s, 0));
    assert(token_at(s, 0, tk0) == Some((10int, tk1)));
    assert(!is_space(s[11]));
    assert(space_run(s, 11) == 0);
    assert(space_run(s, 10) == 1);
    assert(token_at(s, 10, tk1) == Some((11int, tk1)));
    assert(s[15] != '-');
    assert(!date_at(s, 11));
    assert(digits_at(s, 11, 2) && digits_at(s, 14, 2) && digits_at(s, 17, 2));
    assert(clock_at(s, 11));
    assert(token_at(s, 11, tk1) == Some((19int, tk2)));
    assert(scan(s, 19, tk2) == Some(tk2));
    assert(scan(s, 11, tk1) == Some(tk2));
    assert(scan(s, 10, tk1) == Some(tk2));
    assert(scan(s, 0, tk0) == Some(tk2));
}

} // verus!
