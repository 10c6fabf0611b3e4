use procman::text::{
    contains, find_char, nul_to_space, parse_u32, split_whitespace, starts_with, substring, trim,
    trim_quotes,
};
use procman::time::{
    day_of, nanos_between, span_from_secs, span_total_nanos, time_of_day, time_of_day_before,
    timestamp_before, weekday, TimeOfDay, Timestamp, Weekday,
};

fn ts(secs: i64, nanos: u32) -> Timestamp {
    Timestamp { secs, nanos }
}

#[test]
fn trim_removes_unicode_whitespace() {
    assert_eq!(trim("  \t hello world \n"), "hello world");
    assert_eq!(trim("\u{3000}x\u{a0}"), "x");
    assert_eq!(trim("   "), "");
}

#[test]
fn trim_quotes_removes_every_outer_quote() {
    assert_eq!(trim_quotes("\"\"/etc/x.toml\""), "/etc/x.toml");
    assert_eq!(trim_quotes("a\"b"), "a\"b");
}

#[test]
fn contains_and_starts_with() {
    assert!(contains("sleep 5555", "5555"));
    assert!(!contains("sleep", "sleepy"));
    assert!(contains("abc", ""));
    assert!(starts_with("last_update = 1", "last_update"));
    assert!(!starts_with("last", "last_update"));
}

#[test]
fn parse_u32_like_std() {
    assert_eq!(parse_u32("1234"), Some(1234));
    assert_eq!(parse_u32("+7"), Some(7));
    assert_eq!(parse_u32("4294967295"), Some(u32::MAX));
    assert_eq!(parse_u32("4294967296"), None);
    assert_eq!(parse_u32(""), None);
    assert_eq!(parse_u32("-1"), None);
    assert_eq!(parse_u32("12a"), None);
}

#[test]
fn split_whitespace_like_std() {
    assert_eq!(split_whitespace("  sleep   5 \t x "), vec!["sleep", "5", "x"]);
    assert!(split_whitespace("   ").is_empty());
}

#[test]
fn nul_to_space_and_find() {
    assert_eq!(nul_to_space("a\0b\0"), "a b ");
    assert_eq!(find_char("k=v=w", '='), Some(1));
    assert_eq!(find_char("kv", '='), None);
    assert_eq!(substring("héllo", 1, 3), "él");
}

#[test]
fn weekdays_and_days() {
    assert_eq!(weekday(ts(0, 0)), Weekday::Thu);
    assert_eq!(weekday(ts(4 * 86400, 0)), Weekday::Mon);
    assert_eq!(weekday(ts(-1, 0)), Weekday::Wed);
    assert_eq!(day_of(ts(-1, 0)), -1);
    assert_eq!(day_of(ts(86399, 0)), 0);
    assert_eq!(time_of_day(ts(-1, 5)), TimeOfDay { secs: 86399, nanos: 5 });
}

#[test]
fn comparisons_and_spans() {
    assert!(timestamp_before(ts(1, 5), ts(1, 6)));
    assert!(!timestamp_before(ts(2, 0), ts(1, 999)));
    assert!(time_of_day_before(TimeOfDay { secs: 10, nanos: 0 }, TimeOfDay { secs: 10, nanos: 1 }));
    assert_eq!(nanos_between(ts(1, 0), ts(0, 500)), -999_999_500);
    assert_eq!(span_total_nanos(span_from_secs(3)), 3_000_000_000);
}
