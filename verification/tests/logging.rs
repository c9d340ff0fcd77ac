use profile_router::logging::{
    config_parse_error_line, config_read_error_line, format_timestamp, log_entry, should_truncate,
    MAX_BYTES,
};

#[test]
fn timestamps_are_zero_padded() {
    assert_eq!(format_timestamp(2024, 3, 7, 9, 5, 0), "2024-03-07 09:05:00");
    assert_eq!(format_timestamp(2025, 12, 31, 23, 59, 59), "2025-12-31 23:59:59");
    assert_eq!(format_timestamp(7, 1, 1, 0, 0, 0), "0007-01-01 00:00:00");
    assert_eq!(format_timestamp(65535, 100, 1, 0, 0, 0), "65535-100-01 00:00:00");
    assert_eq!(format_timestamp(1999, 10, 10, 10, 10, 10).len(), 19);
}

#[test]
fn log_lines_are_timestamp_then_message() {
    assert_eq!(log_entry("2024-01-02 03:04:05", "url=x"), "2024-01-02 03:04:05 url=x");
    assert_eq!(log_entry("-", ""), "- ");
}

#[test]
fn log_is_capped_at_a_million_bytes() {
    assert_eq!(MAX_BYTES, 1_000_000);
    assert!(!should_truncate(0));
    assert!(!should_truncate(1_000_000));
    assert!(should_truncate(1_000_001));
    assert!(should_truncate(u64::MAX));
}

#[test]
fn config_error_lines() {
    assert_eq!(
        config_parse_error_line(r"C:\c.toml", "expected `=`"),
        r"config parse error (C:\c.toml): expected `=`; using built-in default"
    );
    assert_eq!(
        config_read_error_line("c.toml", "denied"),
        "config read error (c.toml): denied; using built-in default"
    );
}
