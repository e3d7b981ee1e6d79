use asve::input_state::{InputState, Selection};

#[test]
fn typing_and_deleting() {
    let mut s = InputState::new();
    assert_eq!(s.content(), "");
    s.set_text("hello".to_string());
    s.backspace();
    assert_eq!(s.content(), "hell");
    s.left();
    s.left();
    s.delete();
    assert_eq!(s.content(), "hel");
    s.replace_text_in_range(None, "X\nY");
    assert_eq!(s.content(), "heXYl");
    let sel = s.selected_text_range().unwrap();
    assert_eq!(sel.range, 4..4);
    assert!(!sel.reversed);
    s.enter();
    assert_eq!(s.content(), "heXYl");
}

#[test]
fn lines_and_arrows() {
    let mut s = InputState::new();
    s.set_text("heXYl".to_string());
    s.left();
    s.set_multiline(true);
    s.enter();
    assert_eq!(s.content(), "heXY\nl");
    s.up();
    assert_eq!(s.selected_text_range().unwrap().range, 0..0);
    s.right();
    s.down();
    assert_eq!(s.selected_text_range().unwrap().range, 6..6);
    s.replace_text_in_range(None, "!");
    assert_eq!(s.content(), "heXY\nl!");
    s.down();
    assert_eq!(s.selected_text_range().unwrap().range, 7..7);
    s.up();
    assert_eq!(s.selected_text_range().unwrap().range, 2..2);
}

#[test]
fn selecting_and_cutting() {
    let mut s = InputState::new();
    s.set_text("abc def".to_string());
    s.select_all();
    assert_eq!(s.selected_text(), "abc def");
    s.cut();
    assert_eq!(s.content(), "");
    assert_eq!(s.selected_text(), "");
    s.set_content("abc".to_string());
    let mut actual = None;
    assert_eq!(s.text_for_range(1..3, &mut actual), Some("bc".to_string()));
    assert_eq!(actual, Some(1..3));
    s.replace_text_in_range(Some(0..2), "Q");
    assert_eq!(s.content(), "Qc");
    assert_eq!(s.selected_text_range().unwrap().range, 1..1);
    s.replace_and_mark_text_in_range(None, "\r\n", Some(0..0));
    assert_eq!(s.content(), "Qc");
}

#[test]
fn content_and_caret() {
    let mut s = InputState::new();
    s.set_content("abc".to_string());
    s.set_content_with_cursor("abcdef".to_string(), false);
    s.replace_text_in_range(None, "Z");
    assert_eq!(s.content(), "abcZdef");
    s.set_content_with_cursor("xy".to_string(), false);
    s.replace_text_in_range(None, "Z");
    assert_eq!(s.text(), "xyZ");
    s.clear();
    assert_eq!(s.content(), "");
    s.backspace();
    s.delete();
    assert_eq!(s.content(), "");
    s.set_placeholder("type here".to_string());
    s.focus();
    assert_eq!(Selection::new(2, 2).is_empty(), true);
    assert_eq!(Selection::default(), Selection::new(0, 0));
}

#[test]
fn backspace_undoes_typing() {
    let mut s = InputState::new();
    s.set_text("abc".to_string());
    s.left();
    s.replace_text_in_range(None, "x");
    assert_eq!(s.content(), "abxc");
    s.backspace();
    assert_eq!(s.content(), "abc");
    assert_eq!(s.selected_text_range().unwrap().range, 2..2);
}
