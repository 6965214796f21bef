use logic_sim::calendar::civil_from_days;
use logic_sim::timestamp::{format_iso8601, now_iso8601, parse_to_unix_seconds, relative_time_since};

#[test]
fn formats_known_unix_timestamp() {
    // 2024-01-01T00:00:00.000Z
    assert_eq!(format_iso8601(1_704_067_200, 0), "2024-01-01T00:00:00.000Z");
}

#[test]
fn formats_with_milliseconds_and_time_of_day() {
    // 2025-05-10T19:41:18.761Z
    assert_eq!(format_iso8601(1_746_906_078, 761), "2025-05-10T19:41:18.761Z");
}

#[test]
fn unix_epoch_formats_correctly() {
    assert_eq!(format_iso8601(0, 0), "1970-01-01T00:00:00.000Z");
}

#[test]
fn now_iso8601_produces_well_formed_string() {
    let s = now_iso8601();
    // yyyy-MM-ddTHH:mm:ss.fffZ -- exactly 24 characters.
    assert_eq!(s.len(), 24);
    assert_eq!(s.as_bytes()[4], b'-');
    assert_eq!(s.as_bytes()[7], b'-');
    assert_eq!(s.as_bytes()[10], b'T');
    assert_eq!(s.as_bytes()[13], b':');
    assert_eq!(s.as_bytes()[16], b':');
    assert_eq!(s.as_bytes()[19], b'.');
    assert!(s.ends_with('Z'));
}

#[test]
fn parse_respects_explicit_offsets_so_mixed_stamps_order_correctly() {
    // Same instant written as UTC and as +02:00 local must compare equal.
    assert_eq!(parse_to_unix_seconds("2024-01-01T12:00:00.000Z"), parse_to_unix_seconds("2024-01-01T14:00:00.000+02:00"));
    assert_eq!(parse_to_unix_seconds("2024-01-01T12:00:00.000Z"), parse_to_unix_seconds("2024-01-01T09:00:00.000-0300"));
    // Plain (offset-less) stamps are treated as UTC.
    assert_eq!(parse_to_unix_seconds("2024-01-01T12:00:00.000"), 1_704_110_400);
}

#[test]
fn parse_rejects_garbage_as_oldest() {
    assert_eq!(parse_to_unix_seconds("nonsense"), i64::MIN);
    assert_eq!(parse_to_unix_seconds(""), i64::MIN);
    assert_eq!(parse_to_unix_seconds("9999-99-99T99:99:99.999Z"), i64::MIN, "out-of-range fields are rejected");
}

#[test]
fn formatted_stamps_parse_back_to_their_seconds() {
    for secs in [0i64, 1_704_067_200, 1_746_906_078, -86_400, 951_782_400, 253_402_300_799] {
        assert_eq!(parse_to_unix_seconds(&format_iso8601(secs, 123)), secs);
    }
}

#[test]
fn formats_times_before_the_epoch_and_leap_days() {
    assert_eq!(format_iso8601(-1, 999), "1969-12-31T23:59:59.999Z");
    assert_eq!(format_iso8601(951_782_400, 0), "2000-02-29T00:00:00.000Z");
}

#[test]
fn civil_dates_of_day_numbers() {
    assert_eq!(civil_from_days(0), (1970, 1, 1));
    assert_eq!(civil_from_days(19_723), (2024, 1, 1));
    assert_eq!(civil_from_days(-1), (1969, 12, 31));
    assert_eq!(civil_from_days(11_016), (2000, 2, 29));
}

#[test]
fn relative_time_reads_in_the_largest_whole_unit() {
    let saved = "2024-01-01T12:00:00.000Z";
    let t = 1_704_110_400i64;
    assert_eq!(relative_time_since(saved, t + 30), "just now");
    assert_eq!(relative_time_since(saved, t - 30), "just now");
    assert_eq!(relative_time_since(saved, t + 60), "1 minute ago");
    assert_eq!(relative_time_since(saved, t + 5 * 60), "5 minutes ago");
    assert_eq!(relative_time_since(saved, t + 3 * 3600), "3 hours ago");
    assert_eq!(relative_time_since(saved, t + 2 * 86_400), "2 days ago");
    assert_eq!(relative_time_since(saved, t + 45 * 86_400), "1 month ago");
    assert_eq!(relative_time_since(saved, t + 800 * 86_400), "2 years ago");
    assert_eq!(relative_time_since("not a stamp", t), "not a stamp");
}

#[test]
fn offsets_without_colon_and_with_colon_agree() {
    assert_eq!(parse_to_unix_seconds("2024-01-01T14:00:00+0200"), parse_to_unix_seconds("2024-01-01T14:00:00+02:00"));
    assert_eq!(parse_to_unix_seconds("2024-01-01T14:00:00+02:00"), 1_704_110_400);
}
