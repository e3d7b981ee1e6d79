use asve::srt::{
    format_timecode, parse_srt, parse_srt_checked, parse_timecode, parse_timecode_line,
    SubtitleEntry,
};

#[test]
fn test_parse_timecode() {
    assert_eq!(parse_timecode("00:00:10,500"), Some(10500));
    assert_eq!(parse_timecode("00:01:30,250"), Some(90250));
    assert_eq!(parse_timecode("01:23:45,678"), Some(5025678));
}

#[test]
fn test_format_timecode() {
    assert_eq!(format_timecode(10500), "00:00:10,500");
    assert_eq!(format_timecode(90250), "00:01:30,250");
    assert_eq!(format_timecode(5025678), "01:23:45,678");
}

#[test]
fn test_parse_timecode_line() {
    let line = "00:00:10,500 --> 00:00:13,000";
    assert_eq!(parse_timecode_line(line), Some((10500, 13000)));
}

#[test]
fn test_parse_srt() {
    let srt = r#"1
00:00:10,500 --> 00:00:13,000
First subtitle line

2
00:00:15,000 --> 00:00:18,500
Second subtitle line
with multiple lines

"#;

    let entries = parse_srt(srt);
    assert_eq!(entries.len(), 2);
    assert_eq!(entries[0].start_ms, 10500);
    assert_eq!(entries[0].end_ms, 13000);
    assert_eq!(entries[0].text, "First subtitle line");

    assert_eq!(entries[1].start_ms, 15000);
    assert_eq!(entries[1].end_ms, 18500);
    assert_eq!(entries[1].text, "Second subtitle line\nwith multiple lines");
}

#[test]
fn timecode_rejects_malformed() {
    assert_eq!(parse_timecode(""), None);
    assert_eq!(parse_timecode("00:10,500"), None);
    assert_eq!(parse_timecode("00:00:10.500"), None);
    assert_eq!(parse_timecode("00:00:10,5,0"), None);
    assert_eq!(parse_timecode("aa:00:10,500"), None);
    assert_eq!(parse_timecode("00:00:10,"), None);
    assert_eq!(parse_timecode("-1:00:10,500"), None);
}

#[test]
fn timecode_accepts_what_u64_parsing_accepts() {
    // a leading plus sign is a valid unsigned numeral; fields need no padding and may exceed clock ranges
    assert_eq!(parse_timecode("+1:2:3,4"), Some(3_723_004));
    assert_eq!(parse_timecode("0:99:0,0"), Some(5_940_000));
    assert_eq!(parse_timecode("100:00:00,000"), Some(360_000_000));
}

#[test]
fn timecode_format_of_long_durations() {
    assert_eq!(format_timecode(0), "00:00:00,000");
    assert_eq!(format_timecode(360_000_000), "100:00:00,000");
    assert_eq!(format_timecode(3_599_999), "00:59:59,999");
}

#[test]
fn timecode_roundtrip_on_samples() {
    for ms in [0u64, 1, 999, 1000, 59_999, 60_000, 3_599_999, 3_600_000, 86_399_999, 123_456_789] {
        let text = format_timecode(ms);
        assert_eq!(parse_timecode(&text), Some(ms));
    }
}

#[test]
fn entry_formats_its_times() {
    let e = SubtitleEntry { start_ms: 61_001, end_ms: 3_723_004, text: "x".to_string() };
    assert_eq!(e.format_start_time(), "00:01:01,001");
    assert_eq!(e.format_end_time(), "01:02:03,004");
}

#[test]
fn timecode_line_needs_exactly_one_arrow() {
    assert_eq!(parse_timecode_line("00:00:01,000 -> 00:00:02,000"), None);
    assert_eq!(parse_timecode_line("00:00:01,000 --> 00:00:02,000 --> 00:00:03,000"), None);
    assert_eq!(parse_timecode_line("00:00:01,000-->00:00:02,000"), Some((1000, 2000)));
    assert_eq!(parse_timecode_line("  00:00:01,000   -->   00:00:02,000  "), Some((1000, 2000)));
    assert_eq!(parse_timecode_line("00:00:01,000 --> soon"), None);
}

#[test]
fn srt_skips_what_is_no_entry() {
    let srt = "garbage\n\n1\nnot a timing line\ntext\n\n2\n00:00:01,000 --> 00:00:02,000\nhello\n";
    let entries = parse_srt(srt);
    assert_eq!(entries.len(), 1);
    assert_eq!(entries[0].start_ms, 1000);
    assert_eq!(entries[0].text, "hello");
}

#[test]
fn srt_with_crlf_and_untrimmed_text() {
    let srt = "1\r\n00:00:01,000 --> 00:00:02,000\r\n  indented line \r\nnext\r\n\r\n";
    let entries = parse_srt(srt);
    assert_eq!(entries.len(), 1);
    assert_eq!(entries[0].text, "  indented line \nnext");
}

#[test]
fn srt_entry_without_text_and_at_end() {
    let srt = "1\n00:00:01,000 --> 00:00:02,000\n\n2\n00:00:03,000 --> 00:00:04,000";
    let entries = parse_srt(srt);
    assert_eq!(entries.len(), 2);
    assert_eq!(entries[0].text, "");
    assert_eq!(entries[1].text, "");
    assert!(parse_srt("").is_empty());
    assert!(parse_srt("1").is_empty());
}

#[test]
fn srt_too_large_timecode_is_reported() {
    let srt = "1\n99999999999999999:00:00,000 --> 00:00:02,000\nx\n";
    assert!(parse_srt_checked(srt).is_none());
    // not at a timing position, the same line is only skipped
    let skipped = "99999999999999999:00:00,000 --> 00:00:02,000\n";
    assert_eq!(parse_srt_checked(skipped).map(|v| v.len()), Some(0));
}

#[test]
fn written_srt_reads_back() {
    let entries = vec![
        SubtitleEntry { start_ms: 1000, end_ms: 2500, text: "Hello".to_string() },
        SubtitleEntry { start_ms: 3000, end_ms: 4000, text: String::new() },
        SubtitleEntry { start_ms: 3_600_000, end_ms: 3_661_001, text: "Two\nlines ".to_string() },
    ];
    let mut doc = String::new();
    for (i, e) in entries.iter().enumerate() {
        doc.push_str(&format!(
            "{}\n{} --> {}\n{}\n\n",
            i + 1,
            format_timecode(e.start_ms),
            format_timecode(e.end_ms),
            e.text
        ));
    }
    let back = parse_srt(&doc);
    assert_eq!(back.len(), entries.len());
    for (a, b) in back.iter().zip(entries.iter()) {
        assert_eq!(a.start_ms, b.start_ms);
        assert_eq!(a.end_ms, b.end_ms);
        assert_eq!(a.text, b.text);
    }
}

#[test]
fn timing_line_trims_unicode_whitespace() {
    assert_eq!(
        parse_timecode_line("\u{2003}00:00:01,000 --> 00:00:02,000\u{3000}"),
        Some((1000, 2000))
    );
    assert_eq!(parse_timecode_line("\u{200B}00:00:01,000 --> 00:00:02,000"), None);
}
