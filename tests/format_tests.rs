use sitrep::format::{format_bytes_rate, format_number, is_replica_degraded, safe_truncate, truncate_str};

#[test]
fn truncate_str_short_string() {
    assert_eq!(truncate_str("hello", 10), "hello");
}

#[test]
fn truncate_str_long_string() {
    assert_eq!(truncate_str("hello world", 8), "hello...");
}

#[test]
fn truncate_str_utf8() {
    assert_eq!(truncate_str("café", 4), "café");
    assert_eq!(truncate_str("日本語", 3), "日本語");
    assert_eq!(truncate_str("hello世界", 6), "hel...");
}

#[test]
fn truncate_str_tiny_limit_keeps_only_marker() {
    assert_eq!(truncate_str("日本語", 2), "...");
    assert_eq!(truncate_str("abcdef", 0), "...");
}

#[test]
fn safe_truncate_short() {
    let s = "hello";
    assert_eq!(safe_truncate(s, 10), "hello");
}

#[test]
fn safe_truncate_utf8_boundary() {
    let s = "café";
    assert_eq!(safe_truncate(s, 3), "caf");
    assert_eq!(safe_truncate(s, 5), "café");
}

#[test]
fn safe_truncate_inside_multibyte_backs_off() {
    assert_eq!(safe_truncate("日本語", 4), "日");
    assert_eq!(safe_truncate("日本語", 2), "");
}

#[test]
fn format_bytes_rate_units() {
    assert_eq!(format_bytes_rate(500), "500 B/s");
    assert_eq!(format_bytes_rate(2048), "2.00 KB/s");
    assert_eq!(format_bytes_rate(2_097_152), "2.00 MB/s");
}

#[test]
fn format_bytes_rate_unit_edges() {
    assert_eq!(format_bytes_rate(0), "0 B/s");
    assert_eq!(format_bytes_rate(1024), "1024 B/s");
    assert_eq!(format_bytes_rate(1025), "1.00 KB/s");
    assert_eq!(format_bytes_rate(1536), "1.50 KB/s");
    assert_eq!(format_bytes_rate(1_048_576), "1024.00 KB/s");
    assert_eq!(format_bytes_rate(1_572_864), "1.50 MB/s");
}

#[test]
fn format_number_thousands() {
    assert_eq!(format_number(1234567), "1,234,567");
}

#[test]
fn format_number_small_and_round() {
    assert_eq!(format_number(0), "0");
    assert_eq!(format_number(999), "999");
    assert_eq!(format_number(1000), "1,000");
    assert_eq!(format_number(1_000_005), "1,000,005");
}

#[test]
fn is_replica_degraded_ok() {
    assert!(!is_replica_degraded("3/3"));
    assert!(!is_replica_degraded("1/1"));
}

#[test]
fn is_replica_degraded_degraded() {
    assert!(is_replica_degraded("2/3"));
    assert!(is_replica_degraded("0/1"));
}

#[test]
fn is_replica_degraded_invalid() {
    assert!(!is_replica_degraded(""));
    assert!(!is_replica_degraded("running"));
}

#[test]
fn replica_strings_malformed_are_not_degraded() {
    assert!(!is_replica_degraded("x/y"));
    assert!(!is_replica_degraded("x/3"));
    assert!(!is_replica_degraded("2/three"));
    assert!(!is_replica_degraded("1/2/3"));
    assert!(!is_replica_degraded("3/0"));
    assert!(is_replica_degraded(" 1 / 2 "));
}

#[test]
fn view_helpers_pure() {
    assert_eq!(truncate_str("hello", 5), "hello");
    assert_eq!(truncate_str("hello world", 8), "hello...");
    let s = "café";
    assert_eq!(safe_truncate(s, 10), "café");
}
