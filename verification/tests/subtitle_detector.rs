use asve::probe::{
    display_title_with, format_display_title, subtitle_streams_from_probe, ProbeStream,
    SubtitleStream,
};

/// The streams of an `ffprobe` JSON report, as the application reads them.
fn streams_of(json: &str) -> Vec<ProbeStream> {
    let v: serde_json::Value = serde_json::from_str(json).unwrap();
    v["streams"]
        .as_array()
        .unwrap()
        .iter()
        .map(|s| ProbeStream {
            codec_name: s["codec_name"].as_str().unwrap().to_string(),
            tags: s
                .get("tags")
                .and_then(|t| t.as_object())
                .map(|o| {
                    o.iter()
                        .map(|(k, v)| (k.clone(), v.as_str().unwrap_or("").to_string()))
                        .collect()
                })
                .unwrap_or_default(),
        })
        .collect()
}

fn parse_ffprobe_json(json: &str) -> Vec<SubtitleStream> {
    subtitle_streams_from_probe(&streams_of(json))
}

#[test]
fn test_parse_empty_json() {
    let json = r#"{"streams": []}"#;
    let streams = parse_ffprobe_json(json);
    assert_eq!(streams.len(), 0);
}

#[test]
fn test_parse_single_subtitle() {
    let json = r#"{"streams": [{"codec_name": "subrip", "tags": {"language": "eng"}}]}"#;
    let streams = parse_ffprobe_json(json);
    assert_eq!(streams.len(), 1);
    assert!(streams[0].display_title.contains("ENG"));
}

#[test]
fn test_filter_non_text_subtitles() {
    let json =
        r#"{"streams": [{"codec_name": "subrip", "tags": {}}, {"codec_name": "dvd_subtitle", "tags": {}}]}"#;
    let streams = parse_ffprobe_json(json);
    assert_eq!(streams.len(), 1);
}

#[test]
fn test_multiple_subtitle_streams() {
    let json = r#"{"streams": [{"codec_name": "subrip", "tags": {"language": "eng"}}, {"codec_name": "subrip", "tags": {"language": "spa"}}]}"#;
    let streams = parse_ffprobe_json(json);
    assert_eq!(streams.len(), 2);
}

#[test]
fn titles_number_text_streams_only() {
    let json = r#"{"streams": [
        {"codec_name": "hdmv_pgs_subtitle", "tags": {"language": "eng"}},
        {"codec_name": "ass", "tags": {"language": "und"}},
        {"codec_name": "webvtt", "tags": {"language": ""}},
        {"codec_name": "mov_text"},
        {"codec_name": "text", "tags": {"language": "fre"}}
    ]}"#;
    let titles: Vec<String> = parse_ffprobe_json(json).iter().map(|s| s.title()).collect();
    assert_eq!(
        titles,
        vec![
            "Subtitle 1 (ASS)",
            "Subtitle 2 (WebVTT)",
            "Subtitle 3 (MOV Text)",
            "Subtitle 4 - FRE (text)",
        ]
    );
}

#[test]
fn display_titles() {
    assert_eq!(format_display_title(0, "subrip", &Some("eng".to_string())), "Subtitle 1 - ENG (SRT)");
    assert_eq!(format_display_title(2, "srt", &None), "Subtitle 3 (SRT)");
    assert_eq!(format_display_title(9, "ssa", &Some("jpn".to_string())), "Subtitle 10 - JPN (ASS)");
    assert_eq!(display_title_with(0, "webvtt", Some("DE")), "Subtitle 1 - DE (WebVTT)");
}
