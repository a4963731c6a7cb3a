use herdr::timestamp::{
    parse_rfc3339_seconds, relative_time_label, remote_relative_time, remote_relative_time_at, unix_now,
};

#[test]
fn parses_utc_and_offset_timestamps() {
    assert_eq!(parse_rfc3339_seconds("1970-01-01T00:00:00Z"), Some(0));
    assert_eq!(parse_rfc3339_seconds("2026-09-14T00:00:00Z"), Some(1_789_344_000));
    assert_eq!(parse_rfc3339_seconds("2026-09-14T01:00:00+01:00"), Some(1_789_344_000));
    assert_eq!(parse_rfc3339_seconds("2026-09-13T23:00:00-01:00"), Some(1_789_344_000));
    assert_eq!(parse_rfc3339_seconds("2000-02-29T12:34:56Z"), Some(951_827_696));
    assert_eq!(parse_rfc3339_seconds("1969-12-31T23:59:59Z"), Some(-1));
    assert_eq!(parse_rfc3339_seconds("0000-01-01T00:00:00Z"), Some(-62_167_219_200));
    assert_eq!(parse_rfc3339_seconds("0000-03-01T00:00:00Z"), Some(-62_162_035_200));
    assert_eq!(parse_rfc3339_seconds("9999-12-31T23:59:60Z"), Some(253_402_300_800));
}

#[test]
fn fractional_seconds_are_dropped_and_bare_digits_rejected() {
    assert_eq!(parse_rfc3339_seconds("2026-09-14T00:00:00.999Z"), Some(1_789_344_000));
    assert_eq!(parse_rfc3339_seconds("2026-09-14T00:00:00.1+01:00"), Some(1_789_340_400));
    assert_eq!(parse_rfc3339_seconds("2026-09-14T00:00:00999Z"), None);
    assert_eq!(parse_rfc3339_seconds("2026-09-14T00:00:00.Z"), None);
    assert_eq!(parse_rfc3339_seconds("2026-09-14T00:00:00.12xZ"), None);
}

#[test]
fn rejects_malformed_timestamps() {
    assert_eq!(parse_rfc3339_seconds("not-a-time"), None);
    assert_eq!(parse_rfc3339_seconds("2026-13-14T00:00:00Z"), None);
    assert_eq!(parse_rfc3339_seconds("2026-09-00T00:00:00Z"), None);
    assert_eq!(parse_rfc3339_seconds("2026-09-14T24:00:00Z"), None);
    assert_eq!(parse_rfc3339_seconds("2026-09-14T00:60:00Z"), None);
    assert_eq!(parse_rfc3339_seconds("2026-09-14T00:00:61Z"), None);
    assert_eq!(parse_rfc3339_seconds("2026-09-14T00:00:00+24:00"), None);
    assert_eq!(parse_rfc3339_seconds("2026-09-14T00:00:00Zx"), None);
    assert_eq!(parse_rfc3339_seconds("2026-09-14T00:00:00+0100"), None);
    assert_eq!(parse_rfc3339_seconds("2026-x9-14T00:00:00Z"), None);
}

#[test]
fn remote_relative_time_handles_fresh_future_and_bad_timestamps() {
    assert_eq!(
        remote_relative_time_at("2026-09-14T00:00:00Z", 1_789_344_000),
        Some("0s ago".into())
    );
    assert_eq!(
        remote_relative_time_at("2026-09-14T01:00:00+01:00", 1_789_344_000),
        Some("0s ago".into())
    );
    assert_eq!(remote_relative_time_at("not-a-time", 0), None);
}

#[test]
fn relative_labels_pick_the_largest_whole_unit() {
    assert_eq!(relative_time_label(0, 59), "59s ago");
    assert_eq!(relative_time_label(0, 60), "1m ago");
    assert_eq!(relative_time_label(0, 3_599), "59m ago");
    assert_eq!(relative_time_label(0, 3_600), "1h ago");
    assert_eq!(relative_time_label(0, 86_399), "23h ago");
    assert_eq!(relative_time_label(0, 86_400), "1d ago");
    assert_eq!(relative_time_label(0, 10 * 86_400 + 5), "10d ago");
}

#[test]
fn future_heartbeats_read_zero_seconds() {
    assert_eq!(relative_time_label(100, 0), "0s ago");
    assert_eq!(relative_time_label(i64::MAX, i64::MIN), "0s ago");
    assert_eq!(relative_time_label(i64::MIN, i64::MAX), "106751991167300d ago");
}

#[test]
fn relative_time_against_the_clock() {
    assert!(unix_now().unwrap() > 1_700_000_000);
    assert_eq!(remote_relative_time("9999-12-31T23:59:59Z"), Some("0s ago".to_string()));
    assert_eq!(remote_relative_time("garbage"), None);
    let old = remote_relative_time("2020-01-01T00:00:00Z").unwrap();
    assert!(old.ends_with("d ago"), "{old}");
}

#[test]
fn calendar_dates_count_whole_days_and_offsets() {
    assert_eq!(parse_rfc3339_seconds("2000-03-01T00:00:00Z"), Some(951_868_800));
    assert_eq!(parse_rfc3339_seconds("2024-02-29T00:00:00Z"), Some(1_709_164_800));
    assert_eq!(parse_rfc3339_seconds("2024-03-01T00:00:00Z"), Some(1_709_164_800 + 86_400));
    assert_eq!(parse_rfc3339_seconds("1900-03-01T00:00:00Z"), Some(-2_203_891_200));
    assert_eq!(parse_rfc3339_seconds("1970-01-01T00:00:00-00:30"), Some(1_800));
    assert_eq!(parse_rfc3339_seconds("1970-01-01T00:00:00+23:59"), Some(-86_340));
}
