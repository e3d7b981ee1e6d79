use asve::rope_ext::{Bias, Position, RopeExt, RopeLines};
use ropey::Rope;

fn sample() -> Rope {
    Rope::from("ab\ncd\r\nef")
}

#[test]
fn lines_split_at_every_break_with_crlf_once() {
    let r = sample();
    assert_eq!(r.lines_len(), 3);
    assert_eq!(r.slice_line(0), "ab");
    assert_eq!(r.slice_line(1), "cd\r");
    assert_eq!(r.slice_line(2), "ef");
    assert_eq!(r.slice_line(3), "");
    assert_eq!(r.line_len(0), 2);
    assert_eq!(r.line_len(1), 3);
    assert_eq!(r.line_len(7), 0);
}

#[test]
fn line_offsets() {
    let r = sample();
    assert_eq!(r.line_start_offset(0), 0);
    assert_eq!(r.line_start_offset(1), 3);
    assert_eq!(r.line_start_offset(2), 7);
    assert_eq!(r.line_start_offset(5), 9);
    assert_eq!(r.line_end_offset(0), 2);
    assert_eq!(r.line_end_offset(1), 6);
    assert_eq!(r.line_end_offset(2), 9);
    assert_eq!(r.line_end_offset(9), 9);
    assert_eq!(r.slice_lines(0..2), "ab\ncd\r");
    assert_eq!(r.slice_lines(2..3), "ef");
}

#[test]
fn positions() {
    let r = sample();
    assert_eq!(r.offset_to_position(0), Position::new(0, 0));
    assert_eq!(r.offset_to_position(4), Position::new(1, 1));
    assert_eq!(r.offset_to_position(6), Position::new(1, 3));
    assert_eq!(r.offset_to_position(100), Position::new(2, 2));
    assert_eq!(r.position_to_offset(&Position::new(0, 10)), 2);
    assert_eq!(r.position_to_offset(&Position::new(2, 1)), 8);
    assert_eq!(r.position_to_offset(&Position::new(5, 0)), 9);
    for offset in 0..=9 {
        let pos = r.offset_to_position(offset);
        assert_eq!(r.position_to_offset(&pos), offset);
    }
}

#[test]
fn walking_lines() {
    let r = sample();
    let mut lines: RopeLines = r.iter_lines();
    assert_eq!(lines.size_hint(), (3, Some(3)));
    assert_eq!(lines.next(), Some("ab".to_string()));
    assert_eq!(lines.size_hint(), (2, Some(2)));
    assert_eq!(lines.nth(1), Some("ef".to_string()));
    assert_eq!(lines.next(), None);
    let mut again = RopeLines::new(&r);
    assert_eq!(again.nth(usize::MAX), None);
}

#[test]
fn characters_and_clipping() {
    let r = sample();
    assert_eq!(r.char_at(0), Some('a'));
    assert_eq!(r.char_at(5), Some('\r'));
    assert_eq!(r.char_at(9), None);
    assert_eq!(r.clip_offset(4, Bias::Left), 4);
    assert_eq!(r.clip_offset(100, Bias::Left), 9);
    assert_eq!(r.clip_offset(100, Bias::Right), 9);
    assert_eq!(r.char_index_to_offset(3), 3);
    assert_eq!(r.char_index_to_offset(100), 9);
    assert_eq!(r.offset_to_char_index(4), 4);
    assert_eq!(r.offset_to_char_index(100), 9);

    let wide = Rope::from("a\u{e9}\u{1F600}b");
    assert_eq!(wide.char_index_to_offset(2), 3);
    assert_eq!(wide.char_index_to_offset(3), 7);
    assert_eq!(wide.offset_utf16_to_offset(2), 3);
    assert_eq!(wide.offset_utf16_to_offset(3), 7);
    assert_eq!(wide.offset_utf16_to_offset(99), 8);
    assert_eq!(wide.offset_to_offset_utf16(7), 4);
    assert_eq!(wide.offset_to_offset_utf16(8), 5);
    assert_eq!(wide.clip_offset(2, Bias::Left), 2);
}

#[test]
fn replacing_text() {
    let mut r = sample();
    r.replace(3..5, "XY");
    assert_eq!(r.to_string(), "ab\nXY\r\nef");
    r.replace(7..100, "");
    assert_eq!(r.to_string(), "ab\nXY\r\n");
    assert_eq!(r.lines_len(), 3);
    assert_eq!(r.slice_line(2), "");
}

#[test]
fn words() {
    let r = Rope::from("hello world_x");
    assert_eq!(r.word_range(2), Some(0..5));
    assert_eq!(r.word_at(2), "hello");
    assert_eq!(r.word_range(5), Some(0..5));
    assert_eq!(r.word_range(6), Some(6..13));
    assert_eq!(r.word_at(6), "world_x");
    assert_eq!(r.word_range(13), None);
    assert_eq!(r.word_at(13), "");
    let spaced = Rope::from("a  b");
    assert_eq!(spaced.word_range(2), None);
    assert_eq!(spaced.word_at(2), "");
}
