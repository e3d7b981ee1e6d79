use asve::srt::{parse_srt, SubtitleEntry};
use asve::subtitles::{
    clip_range_text, custom_text_to_srt, find_subtitle_at_time, CustomSubtitleAction,
    CustomSubtitleMode, SubtitleSearch,
};

fn entry(start_ms: u64, end_ms: u64, text: &str) -> SubtitleEntry {
    SubtitleEntry { start_ms, end_ms, text: text.to_string() }
}

fn sample() -> Vec<SubtitleEntry> {
    vec![
        entry(1_000, 2_000, "Hello there"),
        entry(2_000, 3_000, "General KENOBI"),
        entry(5_000, 6_000, "hello again"),
    ]
}

#[test]
fn entry_at_time() {
    let e = sample();
    assert_eq!(find_subtitle_at_time(&e, 1_500), Some(0));
    assert_eq!(find_subtitle_at_time(&e, 2_000), Some(0));
    assert_eq!(find_subtitle_at_time(&e, 2_500), Some(1));
    assert_eq!(find_subtitle_at_time(&e, 4_000), None);
    assert_eq!(find_subtitle_at_time(&[], 0), None);
}

#[test]
fn search_finds_matches_case_insensitively() {
    let e = sample();
    let mut s = SubtitleSearch::new();
    s.update_search_results(&e, "HELLO");
    assert_eq!(s.current_search_subtitle_index(), Some(0));
    assert!(!s.sync_enabled());
    s.search_next();
    assert_eq!(s.current_search_subtitle_index(), Some(2));
    s.search_next();
    assert_eq!(s.current_search_subtitle_index(), Some(0));
}

#[test]
fn search_without_matches_keeps_sync() {
    let e = sample();
    let mut s = SubtitleSearch::new();
    s.update_search_results(&e, "nothing");
    assert_eq!(s.current_search_subtitle_index(), None);
    assert!(s.sync_enabled());
    s.update_search_results(&e, "");
    assert_eq!(s.current_search_subtitle_index(), None);
}

#[test]
fn enter_searches_then_steps() {
    let e = sample();
    let mut s = SubtitleSearch::new();
    s.on_search_enter(&e, "");
    assert!(s.sync_enabled());
    s.on_search_enter(&e, "kenobi");
    assert_eq!(s.current_search_subtitle_index(), Some(1));
    assert!(!s.sync_enabled());
    s.on_search_enter(&e, "hello");
    assert_eq!(s.current_search_subtitle_index(), Some(0));
    s.on_search_enter(&e, "hello");
    assert_eq!(s.current_search_subtitle_index(), Some(2));
    s.on_search_escape();
    assert_eq!(s.current_search_subtitle_index(), None);
    s.on_search_enter(&e, "hello");
    assert_eq!(s.current_search_subtitle_index(), Some(0));
    s.toggle_sync(true);
    assert!(s.sync_enabled());
    assert_eq!(s.current_search_subtitle_index(), None);
    assert!(s.note_scrolled_to_search(4));
    assert!(!s.note_scrolled_to_search(4));
}

#[test]
fn clip_text_lists_overlapping_entries() {
    let e = sample();
    assert_eq!(
        clip_range_text(&e, 1_500, 2_000),
        "00:00:01,000 --> 00:00:02,000\nHello there\n\n00:00:02,000 --> 00:00:03,000\nGeneral KENOBI\n\n"
    );
    assert_eq!(clip_range_text(&e, 3_500, 4_500), "");
}

#[test]
fn custom_text_is_numbered() {
    let text = "00:00:01,000 --> 00:00:02,000\nOne\n\nnot a cue\n\n  00:00:03,000 --> 00:00:04,000\nTwo  \n\n\n";
    assert_eq!(
        custom_text_to_srt(text),
        "1\n00:00:01,000 --> 00:00:02,000\nOne\n\n2\n00:00:03,000 --> 00:00:04,000\nTwo\n\n"
    );
    assert_eq!(custom_text_to_srt(""), "");
}

#[test]
fn clip_text_reads_back_as_srt() {
    let e = sample();
    let srt = custom_text_to_srt(&clip_range_text(&e, 0, 10_000));
    let back = parse_srt(&srt);
    assert_eq!(back.len(), 3);
    for (a, b) in back.iter().zip(e.iter()) {
        assert_eq!((a.start_ms, a.end_ms, a.text.as_str()), (b.start_ms, b.end_ms, b.text.as_str()));
    }
}

#[test]
fn custom_mode_loads_unloads_and_reloads() {
    let mut mode = CustomSubtitleMode::new();
    assert!(!mode.is_enabled());
    let srt = "1\n00:00:01,000 --> 00:00:02,000\nHi\n\n".to_string();
    match mode.toggle(true, srt.clone(), Some(2)) {
        CustomSubtitleAction::Load(text) => assert_eq!(text, srt),
        _ => panic!("expected a load"),
    }
    assert!(mode.is_enabled());
    assert!(mode.should_reload(true, true, &srt));
    mode.loaded(srt.clone());
    assert!(!mode.should_reload(true, true, &srt));
    let edited = "1\n00:00:01,000 --> 00:00:03,000\nHi\n\n".to_string();
    assert!(mode.should_reload(true, true, &edited));
    assert!(!mode.should_reload(true, false, &edited));
    assert!(!mode.should_reload(false, true, &edited));
    assert!(!mode.should_reload(true, true, &" \n ".to_string()));
    match mode.toggle(false, String::new(), Some(2)) {
        CustomSubtitleAction::Unload { restore_track } => assert_eq!(restore_track, Some(2)),
        _ => panic!("expected an unload"),
    }
    assert!(!mode.is_enabled());
    assert!(mode.should_reload(true, true, &srt));
    assert!(matches!(mode.toggle(true, "  \n".to_string(), None), CustomSubtitleAction::Nothing));
}
