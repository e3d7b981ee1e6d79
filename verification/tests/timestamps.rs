use asve::timestamp::{
    format_slider_time, format_time, format_time_ms, is_valid_time, parse_time_ms,
    parse_time_ms_checked, parse_timestamp_ms, parse_timestamp_ms_checked,
};

#[test]
fn clip_time_field_values() {
    assert_eq!(parse_time_ms("01:30.500"), Some(90_500));
    assert_eq!(parse_time_ms("1:05"), Some(65_000));
    assert_eq!(parse_time_ms("1:05.5"), Some(65_500));
    assert_eq!(parse_time_ms("1:05.05"), Some(65_050));
    assert_eq!(parse_time_ms("90:00.000"), Some(5_400_000));
}

#[test]
fn clip_time_field_rejections() {
    assert_eq!(parse_time_ms(""), None);
    assert_eq!(parse_time_ms("1:60.000"), None);
    assert_eq!(parse_time_ms("1:05.1234"), None);
    assert_eq!(parse_time_ms("1:2:3"), None);
    assert_eq!(parse_time_ms("x:05"), None);
    assert_eq!(parse_time_ms("1:05.5.5"), None);
    assert_eq!(parse_time_ms("105"), None);
}

#[test]
fn clip_time_field_validity() {
    assert!(is_valid_time(""));
    assert!(is_valid_time("0:00.001"));
    assert!(!is_valid_time("abc"));
}

#[test]
fn clip_time_field_overflow_is_reported() {
    assert_eq!(parse_time_ms_checked("1:05"), Some(Some(65_000)));
    assert_eq!(parse_time_ms_checked("99999999999999999:00"), None);
}

#[test]
fn clip_time_texts() {
    assert_eq!(format_time_ms(90_500), "01:30.500");
    assert_eq!(format_time_ms(0), "00:00.000");
    assert_eq!(format_time_ms(3_600_000), "60:00.000");
    assert_eq!(format_time_ms(6_000_999), "100:00.999");
}

#[test]
fn clip_time_text_reads_back() {
    for ms in [0u64, 7, 999, 1_000, 59_999, 60_000, 90_500, 3_600_000, 123_456_789] {
        assert_eq!(parse_time_ms(&format_time_ms(ms)), Some(ms));
    }
    for ms in [0u32, 90_500, 4_294_967_295] {
        assert_eq!(parse_timestamp_ms(&format_time_ms(ms as u64)), Ok(Some(ms)));
    }
}

#[test]
fn minutes_seconds_texts() {
    assert_eq!(format_time(75), "01:15");
    assert_eq!(format_time(0), "00:00");
    assert_eq!(format_time(6_000), "100:00");
}

#[test]
fn slider_time_texts() {
    assert_eq!(format_slider_time(3_725), "1:02:05");
    assert_eq!(format_slider_time(65), "1:05");
    assert_eq!(format_slider_time(5), "0:05");
    assert_eq!(format_slider_time(0), "0:00");
    assert_eq!(format_slider_time(-5), "0:-5");
    assert_eq!(format_slider_time(-60), "-1:00");
    assert_eq!(format_slider_time(-3_725), "-2:-5");
    assert_eq!(format_slider_time(i32::MIN), "-14:-8");
}

#[test]
fn command_line_timestamps() {
    assert_eq!(parse_timestamp_ms("01:30.500"), Ok(Some(90_500)));
    assert_eq!(parse_timestamp_ms("00:01:30.500"), Ok(Some(90_500)));
    assert_eq!(parse_timestamp_ms("  01:30  "), Ok(Some(90_000)));
    assert_eq!(parse_timestamp_ms("1:05.5"), Ok(Some(65_500)));
    assert_eq!(parse_timestamp_ms("1:05.12345"), Ok(Some(65_123)));
    assert_eq!(parse_timestamp_ms("90.5"), Ok(None));
    assert_eq!(parse_timestamp_ms("90500"), Ok(None));
}

#[test]
fn command_line_timestamp_errors() {
    let err = |s: &str| parse_timestamp_ms(s).unwrap_err();
    assert_eq!(err("1:2:3:4"), "Invalid timestamp format (too many colons): 1:2:3:4");
    assert_eq!(err("aa:10"), "Invalid minutes: aa");
    assert_eq!(err("1:10.5.5"), "Invalid seconds format: 10.5.5");
    assert_eq!(err("1:x.5"), "Invalid seconds: x");
    assert_eq!(err("1:x"), "Invalid seconds: x");
    assert_eq!(err("1:10.abc"), "Invalid milliseconds: abc");
    assert_eq!(err("1:75"), "Seconds must be less than 60: 75");
    assert_eq!(err("1:70:00"), "Minutes must be less than 60: 70");
    assert_eq!(err("h:00:00"), "Invalid hours: h");
    assert_eq!(err("1:x:00"), "Invalid minutes: x");
    assert_eq!(err("0:0:75.1"), "Seconds must be less than 60: 75");
    assert_eq!(err("1:00.\u{e9}"), "Invalid milliseconds: \u{e9}");
}

#[test]
fn command_line_timestamp_panics_are_reported() {
    assert_eq!(parse_timestamp_ms_checked("99999:00"), None);
    assert_eq!(parse_timestamp_ms_checked("2000:00:00"), None);
    assert_eq!(parse_timestamp_ms_checked("1:00.\u{e9}\u{e9}"), None);
    assert_eq!(parse_timestamp_ms_checked("1193:02.294"), Some(Ok(Some(71_582_294))));
}
