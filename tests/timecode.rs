use quick_trim::timecode::{format_time, parse_duration, parse_time};

#[test]
fn formats_zero() {
    assert_eq!(format_time(0), "00:00:00.00");
}

#[test]
fn formats_fraction_of_second() {
    assert_eq!(format_time(550), "00:00:05.50");
}

#[test]
fn formats_every_field() {
    assert_eq!(format_time(3 * 360000 + 25 * 6000 + 7 * 100 + 9), "03:25:07.09");
}

#[test]
fn formats_hours_past_two_digits() {
    assert_eq!(format_time(123 * 360000 + 4 * 6000 + 5 * 100 + 6), "123:04:05.06");
}

#[test]
fn formats_largest_time() {
    assert_eq!(format_time(u64::MAX), "51240955760304:18:36.15");
}

#[test]
fn parses_formatted_text() {
    assert_eq!(parse_time("00:00:05.50"), Some(550));
    assert_eq!(parse_time("03:25:07.09"), Some(3 * 360000 + 25 * 6000 + 7 * 100 + 9));
}

#[test]
fn parses_loose_fields() {
    assert_eq!(parse_time("1:2:3"), Some(360000 + 2 * 6000 + 300));
    assert_eq!(parse_time("0:90:0"), Some(90 * 6000));
    assert_eq!(parse_time("0:0:7.5"), Some(750));
}

#[test]
fn parses_fractions_in_every_field() {
    assert_eq!(parse_time("1.5:0:0"), Some(540000));
    assert_eq!(parse_time("0:1.5:0"), Some(9000));
    assert_eq!(parse_time("1.5:2:3"), Some(540000 + 12000 + 300));
    assert_eq!(parse_time("0.0001:0:0"), Some(36));
    assert_eq!(parse_time("0:0.001:0"), Some(6));
}

#[test]
fn parses_point_without_digits_on_one_side() {
    assert_eq!(parse_time("0:0:5."), Some(500));
    assert_eq!(parse_time("0:0:.5"), Some(50));
    assert_eq!(parse_time("1:2:3."), Some(372300));
    assert_eq!(parse_time("1:2:.5"), Some(372050));
}

#[test]
fn parses_signed_fields() {
    assert_eq!(parse_time("-0:0:5"), Some(500));
    assert_eq!(parse_time("+1:0:0"), Some(360000));
    assert_eq!(parse_time("-1:0:0"), Some(-360000));
    assert_eq!(parse_time("0:-1:30"), Some(-6000 + 3000));
    assert_eq!(parse_time("0:0:-1.239"), Some(-123));
    assert_eq!(parse_time("0:0:-0.005"), Some(0));
}

#[test]
fn truncates_fraction_to_hundredths() {
    assert_eq!(parse_time("00:00:01.239"), Some(123));
}

#[test]
fn rejects_wrong_field_count() {
    assert_eq!(parse_time("1:2"), None);
    assert_eq!(parse_time("1:2:3:4"), None);
    assert_eq!(parse_time(""), None);
    assert_eq!(parse_time("5"), None);
}

#[test]
fn rejects_non_numeric_fields() {
    assert_eq!(parse_time("a:b:c"), None);
    assert_eq!(parse_time("1::3"), None);
    assert_eq!(parse_time("1:2:."), None);
    assert_eq!(parse_time("1:-:3"), None);
    assert_eq!(parse_time("--1:0:0"), None);
    assert_eq!(parse_time("1:2:3.4.5"), None);
    assert_eq!(parse_time(" 1:2:3"), None);
    assert_eq!(parse_time("1e3:0:0"), None);
}

#[test]
fn rejects_field_past_u64() {
    assert_eq!(parse_time("99999999999999:00:00"), None);
    assert_eq!(parse_time("99999999999999999999999:0:0"), None);
    assert_eq!(parse_time("-99999999999999:00:00"), None);
    assert_eq!(parse_time("51240955760304:18:36.15"), Some(i128::from(u64::MAX)));
    assert_eq!(parse_time("51240955760304:18:36.16"), Some(i128::from(u64::MAX) + 1));
}

#[test]
fn format_parse_format_round_trip() {
    for t in [0u64, 1, 99, 100, 5999, 6000, 359999, 360000, 987654321, u64::MAX] {
        let text = format_time(t);
        let back = parse_time(&text).expect("formatted text reads back");
        assert_eq!(back, i128::from(t));
        assert_eq!(format_time(u64::try_from(back).unwrap()), text);
    }
}

#[test]
fn parses_probe_output() {
    assert_eq!(parse_duration("12.345000\n"), Some(1234));
    assert_eq!(parse_duration("  7 \r\n"), Some(700));
    assert_eq!(parse_duration("0.5"), Some(50));
}

#[test]
fn rejects_bad_probe_output() {
    assert_eq!(parse_duration("N/A\n"), None);
    assert_eq!(parse_duration(""), None);
    assert_eq!(parse_duration("  \n"), None);
    assert_eq!(parse_duration("1 2"), None);
}
