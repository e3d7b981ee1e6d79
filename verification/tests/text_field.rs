use asve::text_field::{SearchInput, TextField, TimeInput};

#[test]
fn utf16_offsets() {
    let mut f = TextField::new();
    f.set_content("a\u{e9}\u{1F600}b".to_string());
    // a: 1 byte / 1 unit; é: 2 bytes / 1 unit; 😀: 4 bytes / 2 units; b: 1 / 1
    assert_eq!(f.offset_from_utf16(0), 0);
    assert_eq!(f.offset_from_utf16(1), 1);
    assert_eq!(f.offset_from_utf16(2), 3);
    assert_eq!(f.offset_from_utf16(3), 7);
    assert_eq!(f.offset_from_utf16(4), 7);
    assert_eq!(f.offset_from_utf16(5), 8);
    assert_eq!(f.offset_from_utf16(99), 8);
    assert_eq!(f.offset_to_utf16(3), 2);
    assert_eq!(f.offset_to_utf16(7), 4);
    assert_eq!(f.offset_to_utf16(8), 5);
    assert_eq!(f.range_to_utf16((1, 7)), (1, 4));
    assert_eq!(f.range_from_utf16((1, 4)), (1, 7));
    assert_eq!(f.selected_text_range(), (5, 5));
    assert_eq!(f.character_index_for_point(), 8);
}

#[test]
fn editing() {
    let mut f = TextField::new();
    f.replace_text_in_range(None, "12:3");
    assert_eq!(f.content(), "12:3");
    f.replace_text_in_range(Some((2, 3)), ".");
    assert_eq!(f.content(), "12.3");
    assert_eq!(f.text_for_range((1, 3)), ("2.".to_string(), (1, 3)));
    f.backspace();
    assert_eq!(f.content(), "12.");
    f.insert_newline();
    assert_eq!(f.content(), "12.");
    f.set_multiline(true);
    f.insert_newline();
    assert_eq!(f.content(), "12.\n");
    f.clear();
    assert_eq!(f.content(), "");
    f.backspace();
    assert_eq!(f.content(), "");
}

#[test]
fn time_and_search_inputs() {
    let mut t = TimeInput::new();
    assert!(t.is_valid());
    assert_eq!(t.parse_time_ms(), None);
    t.replace_text_in_range(None, "01:30.500");
    assert_eq!(t.parse_time_ms(), Some(90500));
    assert!(t.is_valid());
    t.set_content("1:x".to_string());
    assert!(!t.is_valid());
    let mut s = SearchInput::new();
    s.set_placeholder("Search subtitles".to_string());
    s.set_fill_height(true);
    s.set_multiline(true);
    s.replace_text_in_range(None, "abc");
    s.insert_newline();
    assert_eq!(s.content(), "abc\n");
    s.clear();
    assert_eq!(s.content(), "");
}
