use chrono::{Datelike, Timelike};
use padamo::datetime_parser::{parse_datetimes, resolve_datetime, tokenize_datetime, tokens_are_usable, DateFields};

fn fields(year: i32, month: u32, day: u32, hour: u32, minute: u32, second: u32, nanosecond: u32) -> DateFields {
    DateFields { year, month, day, hour, minute, second, nanosecond }
}

#[test]
fn tokenizer_reads_each_pattern() {
    let t = tokenize_datetime("2024-03-05 12:34:56.789").unwrap();
    assert_eq!(t.year.as_deref(), Some("2024"));
    assert_eq!(t.month.as_deref(), Some("03"));
    assert_eq!(t.day.as_deref(), Some("05"));
    assert_eq!(t.hour.as_deref(), Some("12"));
    assert_eq!(t.minute.as_deref(), Some("34"));
    assert_eq!(t.second.as_deref(), Some("56"));
    assert_eq!(t.millisecond.as_deref(), Some("789"));
    let t = tokenize_datetime("h = 7 m=8 s =9 Y= 1999 M=2 D=3").unwrap();
    assert_eq!(t.hour.as_deref(), Some("7"));
    assert_eq!(t.minute.as_deref(), Some("8"));
    assert_eq!(t.second.as_deref(), Some("9"));
    assert_eq!(t.year.as_deref(), Some("1999"));
    assert_eq!(t.month.as_deref(), Some("2"));
    assert_eq!(t.day.as_deref(), Some("3"));
    // `ms=` sets the day, and a later token overrides an earlier one
    let t = tokenize_datetime("D=1 ms=250").unwrap();
    assert_eq!(t.day.as_deref(), Some("250"));
    assert!(t.millisecond.is_none());
    assert!(tokenize_datetime("12:00").is_none());
    assert!(tokenize_datetime("x").is_none());
    assert!(tokenize_datetime("h=").is_none());
    let t = tokenize_datetime("").unwrap();
    assert!(t.year.is_none() && t.hour.is_none());
}

#[test]
fn tokenizer_uses_regex_digit_class() {
    // Arabic-Indic digits belong to `\d`, so they form a token, which then
    // does not read as a number.
    let t = tokenize_datetime("h=\u{0661}\u{0662}").unwrap();
    assert_eq!(t.hour.as_deref(), Some("\u{0661}\u{0662}"));
    assert!(!tokens_are_usable(&t));
    let t = tokenize_datetime("h=12").unwrap();
    assert!(tokens_are_usable(&t));
    let t = tokenize_datetime("12:00:00.5000").unwrap();
    assert!(!tokens_are_usable(&t));
}

#[test]
fn resolve_from_a_fixed_now() {
    let init = fields(2020, 6, 15, 10, 20, 30, 400);
    let now = fields(2021, 1, 10, 3, 4, 5, 6);
    let t = tokenize_datetime("13:14:15").unwrap();
    assert_eq!(resolve_datetime(&t, init, now), Some(fields(2020, 6, 15, 13, 14, 15, 0)));
    let t = tokenize_datetime("2024-02-29 01:02:03.5").unwrap();
    assert_eq!(resolve_datetime(&t, init, now), Some(fields(2024, 2, 29, 1, 2, 3, 5_000_000)));
    let t = tokenize_datetime("2023-02-29").unwrap();
    assert_eq!(resolve_datetime(&t, init, now), None);
    let t = tokenize_datetime("h=24").unwrap();
    assert_eq!(resolve_datetime(&t, init, now), None);
    // on the 31st, a month of 30 days is refused before its day is set
    let late = fields(2021, 1, 31, 0, 0, 0, 0);
    let t = tokenize_datetime("2021-04-10").unwrap();
    assert_eq!(resolve_datetime(&t, init, late), None);
    assert_eq!(resolve_datetime(&t, init, now), Some(fields(2021, 4, 10, 10, 20, 30, 0)));
}

#[test]
fn parse_with_the_clock() {
    let n = chrono::Utc::now();
    let init = fields(n.year(), n.month(), n.day(), n.hour(), n.minute(), n.second(), 0);
    let r = parse_datetimes("h=12 m=0 s=0", init).unwrap();
    assert_eq!(r, fields(n.year(), n.month(), n.day(), 12, 0, 0, 0));
    assert_eq!(parse_datetimes("nonsense", init), None);
    assert_eq!(parse_datetimes("M=13", init), None);
}

#[test]
fn reading_a_date_whatever_the_clock_says() {
    let init = fields(2000, 1, 1, 0, 0, 0, 0);
    let r = parse_datetimes("2024-03-05 12:34:56.789", init);
    assert_eq!(r, Some(fields(2024, 3, 5, 12, 34, 56, 789_000_000)));
}
