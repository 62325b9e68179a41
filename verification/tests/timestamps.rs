use chatgraph::timestamp::{format_timestamp, mac_timestamp_to_unix, unix_to_mac_timestamp};

#[test]
fn store_epoch_zero_is_2001() {
    assert_eq!(mac_timestamp_to_unix(0), 978307200);
    assert_eq!(format_timestamp(978307200), "2001-01-01 00:00:00");
}

#[test]
fn conversion_drops_to_whole_seconds() {
    assert_eq!(mac_timestamp_to_unix(1_000_000_000), 978307201);
    assert_eq!(mac_timestamp_to_unix(1_999_999_999), 978307201);
}

#[test]
fn unix_converts_back_to_store_epoch() {
    assert_eq!(unix_to_mac_timestamp(978307200), 0);
    assert_eq!(unix_to_mac_timestamp(978307201), 1_000_000_000);
    assert_eq!(unix_to_mac_timestamp(0), -978_307_200_000_000_000);
}

#[test]
fn round_trip_reconstructs_to_whole_second() {
    let samples: Vec<i64> = vec![0, 1, 999_999_999, 1_000_000_000, 600_000_000_123_456_789];
    for x in samples {
        let back = unix_to_mac_timestamp(mac_timestamp_to_unix(x));
        assert_eq!(back, (x / 1_000_000_000) * 1_000_000_000);
        assert!(back <= x && x - back < 1_000_000_000);
    }
}

#[test]
fn format_renders_utc_calendar_time() {
    assert_eq!(format_timestamp(0), "1970-01-01 00:00:00");
    assert_eq!(format_timestamp(1577836800), "2020-01-01 00:00:00");
    assert_eq!(format_timestamp(-1), "1969-12-31 23:59:59");
}

#[test]
fn format_yields_unknown_outside_calendar_range() {
    assert_eq!(format_timestamp(i64::MAX), "Unknown");
    assert_eq!(format_timestamp(i64::MIN), "Unknown");
}
