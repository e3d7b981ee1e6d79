use asve::config::{choose_theme, Config};
use asve::controls::{CheckboxEvent, CheckboxState, ExportFormat, SelectEvent, SelectState};
use asve::input_mode::{BlinkCursor, InputMode, TabSize};
use asve::playback::{subtitle_track_setting, ClockTime, PlaybackState, VideoPlayerError};

#[test]
fn export_format_cycle() {
    let f = ExportFormat::Video;
    assert_eq!(f.next(), ExportFormat::Gif);
    assert_eq!(f.next().next(), ExportFormat::Audio);
    assert_eq!(f.next().next().next(), ExportFormat::Video);
    assert_eq!(ExportFormat::Gif.as_str(), "gif");
    assert_eq!(ExportFormat::Audio.file_extension(), "_clip.mp3");
    assert_eq!(ExportFormat::Video.file_extension(), "_clip.mp4");
}

#[test]
fn checkbox_events() {
    let mut c = CheckboxState::new(false);
    assert_eq!(c.set_checked(false), None);
    assert_eq!(c.set_checked(true), Some(CheckboxEvent::Change(true)));
    assert!(c.is_checked());
    assert_eq!(c.toggle(), Some(CheckboxEvent::Change(false)));
    assert!(!c.is_checked());
}

#[test]
fn select_state_selection() {
    let mut s = SelectState::new(vec!["a".to_string(), "b".to_string(), "c".to_string()]);
    assert_eq!(s.selected_index(), None);
    assert_eq!(s.set_selected_index(Some(2)), (true, Some(SelectEvent::Change(2))));
    assert_eq!(s.set_selected_index(Some(2)), (false, None));
    assert_eq!(s.selected_item().map(|x| x.as_str()), Some("c"));
    s.set_items(vec!["x".to_string()]);
    assert_eq!(s.selected_index(), None);
    assert_eq!(s.items().len(), 1);
    s.toggle_open();
    assert_eq!(s.select_item(0), ((true, Some(SelectEvent::Change(0))), true));
    assert!(!s.close());
    assert_eq!(s.set_selected_index(None), (true, None));
}

#[test]
fn input_modes() {
    let t = TabSize::default();
    assert_eq!((t.tab_size, t.hard_tabs), (2, false));
    assert_eq!(t.to_string(), "  ");
    assert_eq!(TabSize::new(4, true).to_string(), "\t");
    assert_eq!(TabSize::new(0, false).to_string(), "");
    let single = InputMode::default();
    assert!(single.is_single_line() && !single.is_multi_line() && !single.is_auto_grow());
    assert_eq!((single.rows(), single.min_rows(), single.max_rows()), (1, 1, 1));
    let mut multi = InputMode::MultiLine { tab: TabSize::default(), rows: 0 };
    assert_eq!(multi.rows(), 1);
    multi.set_rows(7);
    assert_eq!((multi.rows(), multi.min_rows(), multi.max_rows()), (7, 1, usize::MAX));
    let mut grow = InputMode::AutoGrow { rows: 3, min_rows: 3, max_rows: 20 };
    assert!(grow.is_auto_grow() && grow.is_multi_line());
    grow.set_rows(50);
    assert_eq!(grow.rows(), 20);
    grow.set_rows(1);
    assert_eq!(grow.rows(), 3);
    grow.set_rows(10);
    assert_eq!((grow.rows(), grow.min_rows(), grow.max_rows()), (10, 3, 20));
    let zero = InputMode::AutoGrow { rows: 0, min_rows: 0, max_rows: 0 };
    assert_eq!((zero.rows(), zero.min_rows()), (1, 1));
}

#[test]
fn blink_cursor_stays_visible() {
    let mut c = BlinkCursor::new();
    assert!(c.visible());
    c.pause();
    assert!(c.visible());
    c.start();
    assert!(c.visible());
}

#[test]
fn playback_record() {
    let mut p = PlaybackState::new();
    assert_eq!((p.get_position(), p.get_duration(), p.is_paused()), (0, 0, true));
    p.set_position(1_500_000_000);
    p.set_duration(60_000_000_000);
    p.set_paused(false);
    assert_eq!((p.get_position(), p.get_duration(), p.is_paused()), (1_500_000_000, 60_000_000_000, false));
    let t = ClockTime::from_nseconds(42);
    assert_eq!(t.nseconds(), 42);
    assert_eq!(t.0, 42);
}

#[test]
fn player_error_texts() {
    assert_eq!(VideoPlayerError::MpvError("x".to_string()).message(), "mpv error: x");
    assert_eq!(VideoPlayerError::InitializationError("y".to_string()).message(), "Initialization error: y");
    assert_eq!(VideoPlayerError::InvalidFilePath.message(), "Invalid file path");
    assert_eq!(VideoPlayerError::CommandError("z".to_string()).message(), "Command error: z");
}

#[test]
fn theme_choice() {
    let names = vec!["Ayu Dark".to_string(), "One Dark".to_string(), "Solarized".to_string()];
    assert_eq!(choose_theme(&names, Some("Solarized")), Some(2));
    assert_eq!(choose_theme(&names, Some("Missing")), Some(1));
    assert_eq!(choose_theme(&names, None), Some(1));
    assert_eq!(choose_theme(&vec!["Ayu".to_string()], Some("Nope")), None);
    assert!(Config::default().theme_name.is_none());
}

#[test]
fn subtitle_track_setting_follows_display() {
    assert_eq!(subtitle_track_setting(true, Some(3)).ok(), Some(Some(3)));
    assert_eq!(subtitle_track_setting(false, Some(3)).ok(), Some(None));
    assert_eq!(subtitle_track_setting(false, None).ok(), Some(None));
    match subtitle_track_setting(true, None) {
        Err(VideoPlayerError::CommandError(m)) => assert_eq!(m, "No track index provided"),
        _ => panic!("expected a command error"),
    }
}
