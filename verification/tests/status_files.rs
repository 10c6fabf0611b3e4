use procman::housekeeping::{
    get_cfg_file_from_running, is_stale, is_status_file, read_last_update, status_file_fields,
    trim_fraction, LastUpdate,
};
use procman::housekeeping::{available_files, naive_update_date, should_delete, StatusFileVerdict};
use procman::order::{sort_by_text, text_less};
use procman::sample::sample_config;
use procman::time::Timestamp;

fn lines(v: &[&str]) -> Vec<String> {
    v.iter().map(|s| s.to_string()).collect()
}

#[test]
fn status_file_names() {
    assert!(is_status_file("abc.toml"));
    assert!(is_status_file("a.b.toml"));
    assert!(!is_status_file(".toml"));
    assert!(!is_status_file("abc.toml.tmp"));
    assert!(!is_status_file("abc"));
    assert!(is_status_file("..toml"));
}

#[test]
fn fields_of_a_status_file() {
    let f = status_file_fields(&lines(&[
        "file_uid = \"u\"",
        "original_file_full_path = \"/etc/p.toml\"",
        "last_update = \"2024-01-02T03:04:05.123\"",
        "last_update = \"ignored\"",
    ]));
    assert_eq!(f.last_update, Some("2024-01-02T03:04:05.123".to_string()));
    assert_eq!(f.original_file_full_path, Some("/etc/p.toml".to_string()));
    let g = status_file_fields(&lines(&["last_update = \"a\"", "last_update = \"b\"", "last_updateX"]));
    assert_eq!(g.last_update, Some("b".to_string()));
    assert_eq!(g.original_file_full_path, None);
}

#[test]
fn fraction_cut_to_nine_digits() {
    assert_eq!(trim_fraction("2024-01-02T03:04:05.1234567891234"), "2024-01-02T03:04:05.123456789");
    assert_eq!(trim_fraction("2024-01-02T03:04:05.1234567891234Z"), "2024-01-02T03:04:05.123456789Z");
    assert_eq!(trim_fraction("2024-01-02T03:04:05.123"), "2024-01-02T03:04:05.123");
    assert_eq!(trim_fraction("no dot"), "no dot");
    let once = trim_fraction("1.12345678901");
    assert_eq!(trim_fraction(&once), once);
}

#[test]
fn last_update_dates() {
    match read_last_update("1970-01-02T00:00:01Z") {
        LastUpdate::Instant(t) => assert_eq!(t, Timestamp { secs: 86401, nanos: 0 }),
        _ => panic!("expected an instant"),
    }
    match read_last_update("1970-01-01T01:00:00+01:00") {
        LastUpdate::Instant(t) => assert_eq!(t, Timestamp { secs: 0, nanos: 0 }),
        _ => panic!("expected an instant"),
    }
    match read_last_update("1970-01-01T00:00:10.5000000001") {
        LastUpdate::Local(t) => assert_eq!(t, Timestamp { secs: 10, nanos: 500_000_000 }),
        _ => panic!("expected a local date"),
    }
    assert!(matches!(read_last_update("yesterday"), LastUpdate::Unreadable));
}

#[test]
fn staleness_after_seven_days() {
    let updated = Timestamp { secs: 0, nanos: 0 };
    assert!(!is_stale(Timestamp { secs: 7 * 86400, nanos: 0 }, updated));
    assert!(is_stale(Timestamp { secs: 7 * 86400, nanos: 1 }, updated));
}

#[test]
fn config_file_of_a_status_file() {
    assert_eq!(get_cfg_file_from_running(&lines(&["x = 1", "original_file_full_path = \"/etc/p.toml\""])), "/etc/p.toml");
    assert_eq!(get_cfg_file_from_running(&lines(&["original_file_full_path = a=b"])), "a");
    assert_eq!(get_cfg_file_from_running(&lines(&["original_file_full_path", "original_file_full_path = z"])), "unknown");
    assert_eq!(get_cfg_file_from_running(&lines(&[])), "unknown");
}

#[test]
fn sample_holds_the_uid() {
    let s = sample_config("1234-abcd");
    assert!(s.contains("uid = \"1234-abcd\""));
    assert!(s.contains("[[process]]"));
    assert!(s.starts_with("\n# This is a simple process configuration file for procman"));
}

#[test]
fn available_files_sorted() {
    let files = vec![
        ("b.toml".to_string(), lines(&["original_file_full_path = \"/z.toml\""])),
        ("notes.txt".to_string(), lines(&["original_file_full_path = \"/ignored\""])),
        ("a.toml".to_string(), lines(&["original_file_full_path = \"/a.toml\""])),
        ("c.toml".to_string(), lines(&[])),
    ];
    assert_eq!(available_files(&files), vec!["/a.toml", "/z.toml", "unknown"]);
}

#[test]
fn text_order_is_string_order() {
    assert!(text_less("a", "b"));
    assert!(text_less("ab", "abc"));
    assert!(!text_less("abc", "ab"));
    assert!(!text_less("x", "x"));
    assert!(text_less("Z", "a"));
    assert!(text_less("é", "ê"));
    let v = vec!["pear".to_string(), "apple".to_string(), "fig".to_string(), "apple".to_string()];
    let mut expected = v.clone();
    expected.sort();
    assert_eq!(sort_by_text(v), expected);
}

#[test]
fn deletion_verdicts() {
    let now = Timestamp { secs: 30 * 86400, nanos: 0 };
    let old = lines(&["original_file_full_path = \"/p.toml\"", "last_update = \"1970-01-02T00:00:00Z\""]);
    match should_delete("a.toml", &old, now, None) {
        StatusFileVerdict::Delete { config_path } => assert_eq!(config_path, "/p.toml"),
        _ => panic!("expected deletion"),
    }
    assert!(matches!(should_delete("a.txt", &old, now, None), StatusFileVerdict::Skip));
    let recent = lines(&["original_file_full_path = \"/p.toml\"", "last_update = \"1970-01-29T00:00:00Z\""]);
    assert!(matches!(should_delete("a.toml", &recent, now, None), StatusFileVerdict::Keep));
    let local = lines(&["original_file_full_path = \"/p.toml\"", "last_update = \"1970-01-02T00:00:00.5\""]);
    assert_eq!(naive_update_date(&local), Some(Timestamp { secs: 86400, nanos: 500_000_000 }));
    assert!(matches!(should_delete("a.toml", &local, now, Some(Timestamp { secs: 29 * 86400, nanos: 0 })), StatusFileVerdict::Keep));
    assert!(matches!(should_delete("a.toml", &local, now, Some(Timestamp { secs: 86400, nanos: 0 })), StatusFileVerdict::Delete { .. }));
    let bad = lines(&["original_file_full_path = \"/p.toml\"", "last_update = \"someday\""]);
    assert!(matches!(should_delete("a.toml", &bad, now, None), StatusFileVerdict::Unreadable));
    assert!(matches!(should_delete("a.toml", &lines(&["last_update = \"x\""]), now, None), StatusFileVerdict::Skip));
}
