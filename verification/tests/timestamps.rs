use chat_core::utils::format_timestamp;

#[test]
fn epoch_formats_as_midnight() {
    assert_eq!(format_timestamp(0).unwrap(), "1970-01-01 00:00:00");
}

#[test]
fn known_instant_formats_exactly() {
    assert_eq!(format_timestamp(947638923004).unwrap(), "2000-01-12 01:02:03");
}

#[test]
fn subsecond_millis_are_truncated() {
    assert_eq!(format_timestamp(1999).unwrap(), "1970-01-01 00:00:01");
}

#[test]
fn far_out_of_range_timestamp_fails() {
    assert!(format_timestamp(i64::MIN).is_none());
    assert!(format_timestamp(i64::MAX).is_none());
}
