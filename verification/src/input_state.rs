//! The editing state of the multi-line text input: its text rope, caret, selection and
//! layout mode, and what each key and input-method request does to them.
//!
//! The caret and the selection are UTF-8 byte offsets. The rope edits take them as
//! character indices (see `rope_ext`); the contracts state what each edit then does, and
//! on ASCII text the two readings agree.
use vstd::prelude::*;

use ropey::Rope;
use std::ops::Range;

use crate::input_mode::{BlinkCursor, InputMode, TabSize};
use crate::rope_ext::{
    chars_within, clipped_offset, lemma_chars_within_bound, lemma_chars_within_next,
    lemma_chars_within_prefix, lemma_single_bytes, line_count, line_readable, offset_of_position, position_of,
    rope_byte_to_char, rope_char_to_byte, rope_from_str, rope_insert, rope_len_bytes,
    rope_len_chars, rope_substring, rope_text, rope_to_string, Bias, Position, RopeExt,
};
use crate::text::{byte_len, chars_of, lemma_utf8_len_take, utf8_len, utf8_width};
use crate::text_field::{utf16_offset_of, utf8_offset_of};

verus! {

/// A byte range of the text; a caret where it is empty.
#[derive(Clone, Copy, Debug, PartialEq, Eq, Structural)]
pub struct Selection {
    pub start: usize,
    pub end: usize,
}

impl Selection {
    pub fn new(start: usize, end: usize) -> (r: Self)
        ensures
            r.start == start,
            r.end == end,
    {
        Selection { start, end }
    }

    /// Whether the range holds nothing.
    pub fn is_empty(&self) -> (r: bool)
        ensures
            r == (self.start == self.end),
    {
        self.start == self.end
    }
}

impl Default for Selection {
    fn default() -> (r: Self)
        ensures
            r.start == 0,
            r.end == 0,
    {
        Selection { start: 0, end: 0 }
    }
}

/// The empty selection at `offset`.
pub open spec fn caret(offset: usize) -> Selection {
    Selection { start: offset, end: offset }
}

/// `t` with the part between two byte offsets, each first brought within the text, replaced
/// by `new`; the offsets index the characters.
pub open spec fn edited(t: Seq<char>, start: int, end: int, new: Seq<char>) -> Seq<char> {
    t.take(clipped_offset(t, start)) + new + t.skip(clipped_offset(t, end))
}

/// Whether such an edit stays within the text: the clipped offsets are in order and index
/// its characters.
pub open spec fn edit_fits(t: Seq<char>, start: int, end: int) -> bool {
    clipped_offset(t, start) <= clipped_offset(t, end) <= t.len()
}

/// `s` without its line feeds and carriage returns.
pub open spec fn without_line_breaks(s: Seq<char>) -> Seq<char>
    decreases s.len(),
{
    if s.len() == 0 {
        s
    } else {
        let rest = without_line_breaks(s.drop_last());
        if s.last() == '\n' || s.last() == '\r' {
            rest
        } else {
            rest.push(s.last())
        }
    }
}

/// Whether a mode lays the text out on several lines.
pub open spec fn multi_line(mode: InputMode) -> bool {
    mode is MultiLine || mode is AutoGrow
}

/// The text that typing `s` puts in: `s` on several lines, `s` without line breaks on one.
pub open spec fn typed_text(mode: InputMode, s: Seq<char>) -> Seq<char> {
    if mode is SingleLine {
        without_line_breaks(s)
    } else {
        s
    }
}

/// `s` without its line feeds and carriage returns.
fn strip_line_breaks(s: &str) -> (r: String)
    ensures
        r@ == without_line_breaks(s@),
{
    let c = chars_of(s);
    let n = c.len();
    let mut out = String::new();
    let mut i: usize = 0;
    assert(c@.take(0) =~= Seq::<char>::empty());
    while i < n
        invariant
            n == c@.len(),
            i <= n,
            out@ == without_line_breaks(c@.take(i as int)),
        decreases n - i,
    {
        let ch = c[i];
        assert(c@.take(i + 1).drop_last() =~= c@.take(i as int));
        if ch != '\n' && ch != '\r' {
            crate::text::push_char(&mut out, ch);
        }
        i = i + 1;
    }
    assert(c@.take(n as int) =~= c@);
    out
}

/// The byte offset where the character before the one byte `offset` belongs to starts.
pub open spec fn prev_char_start(t: Seq<char>, offset: int) -> nat {
    utf8_len(t.take(chars_within(t, offset) - 1))
}

/// The byte offset where the character byte `offset` belongs to ends.
pub open spec fn next_char_end(t: Seq<char>, offset: int) -> nat {
    utf8_len(t.take(chars_within(t, offset) as int + 1))
}

/// The text and caret once a non-empty selection is deleted (the caret goes to its start);
/// as they are for an empty one.
pub open spec fn without_selection(t: Seq<char>, sel: Selection, cursor: usize) -> (Seq<char>, usize) {
    if sel.start != sel.end {
        (edited(t, sel.start as int, sel.end as int, Seq::empty()), sel.start)
    } else {
        (t, cursor)
    }
}

/// The byte range a UTF-16 range stands for in `t`; the caret where none is given.
pub open spec fn byte_range_of(t: Seq<char>, range_utf16: Option<Range<usize>>, cursor: usize) -> (
    int,
    int,
) {
    match range_utf16 {
        Some(r) => (utf8_offset_of(t, r.start as int) as int, utf8_offset_of(t, r.end as int) as int),
        None => (cursor as int, cursor as int),
    }
}

/// A UTF-16 range of the text, and whether it runs backwards.
pub struct Utf16Selection {
    pub range: Range<usize>,
    pub reversed: bool,
}

/// The editing state of a text input.
pub struct InputState {
    text: Rope,
    placeholder: String,
    selected_range: Selection,
    cursor_offset: usize,
    mode: InputMode,
    blink_cursor: BlinkCursor,
    disabled: bool,
}

impl InputState {
    /// The text.
    pub closed spec fn text_view(&self) -> Seq<char> {
        rope_text(self.text)
    }

    /// The caret's byte offset.
    pub closed spec fn cursor(&self) -> usize {
        self.cursor_offset
    }

    /// The selected byte range.
    pub closed spec fn selection(&self) -> Selection {
        self.selected_range
    }

    /// The layout mode.
    pub closed spec fn mode_view(&self) -> InputMode {
        self.mode
    }

    /// The text shown while the input is empty.
    pub closed spec fn placeholder_view(&self) -> Seq<char> {
        self.placeholder@
    }

    /// Whether editing is refused.
    pub closed spec fn is_disabled(&self) -> bool {
        self.disabled
    }

    /// Whether the caret is shown.
    pub closed spec fn cursor_shown(&self) -> bool {
        self.blink_cursor.is_visible()
    }

    /// The parts that a text edit leaves alone are those of `old`.
    pub open spec fn same_settings(&self, old: InputState) -> bool {
        &&& self.mode_view() == old.mode_view()
        &&& self.placeholder_view() == old.placeholder_view()
        &&& self.is_disabled() == old.is_disabled()
    }

    /// An empty single-line input, enabled, its caret at the start and shown.
    pub fn new() -> (r: Self)
        ensures
            r.text_view() == Seq::<char>::empty(),
            r.placeholder_view() == Seq::<char>::empty(),
            r.selection() == caret(0),
            r.cursor() == 0,
            r.mode_view() is SingleLine,
            !r.is_disabled(),
            r.cursor_shown(),
    {
        let text = rope_from_str("");
        proof {
            reveal_strlit("");
        }
        Self {
            text,
            placeholder: String::new(),
            selected_range: Selection::default(),
            cursor_offset: 0,
            mode: InputMode::default(),
            blink_cursor: BlinkCursor::new(),
            disabled: false,
        }
    }

    /// Replaces the text; the caret goes to its end.
    pub fn set_text(&mut self, text: String)
        ensures
            final(self).text_view() == text@,
            final(self).cursor() == utf8_len(text@),
            final(self).selection() == caret(final(self).cursor()),
            final(self).same_settings(*old(self)),
            final(self).cursor_shown() == old(self).cursor_shown(),
    {
        self.text = rope_from_str(text.as_str());
        self.cursor_offset = rope_len_bytes(&self.text);
        self.selected_range = Selection::new(self.cursor_offset, self.cursor_offset);
    }

    pub fn set_placeholder(&mut self, placeholder: String)
        ensures
            final(self).placeholder_view() == placeholder@,
            final(self).text_view() == old(self).text_view(),
            final(self).cursor() == old(self).cursor(),
            final(self).selection() == old(self).selection(),
            final(self).mode_view() == old(self).mode_view(),
            final(self).is_disabled() == old(self).is_disabled(),
            final(self).cursor_shown() == old(self).cursor_shown(),
    {
        self.placeholder = placeholder;
    }

    pub fn set_mode(&mut self, mode: InputMode)
        ensures
            final(self).mode_view() == mode,
            final(self).text_view() == old(self).text_view(),
            final(self).cursor() == old(self).cursor(),
            final(self).selection() == old(self).selection(),
            final(self).placeholder_view() == old(self).placeholder_view(),
            final(self).is_disabled() == old(self).is_disabled(),
            final(self).cursor_shown() == old(self).cursor_shown(),
    {
        self.mode = mode;
    }

    /// Three rows with the default indentation on several lines, one line otherwise.
    pub fn set_multiline(&mut self, multiline: bool)
        ensures
            final(self).mode_view() == if multiline {
                InputMode::MultiLine { tab: TabSize { tab_size: 2, hard_tabs: false }, rows: 3 }
            } else {
                InputMode::SingleLine
            },
            final(self).text_view() == old(self).text_view(),
            final(self).cursor() == old(self).cursor(),
            final(self).selection() == old(self).selection(),
            final(self).placeholder_view() == old(self).placeholder_view(),
            final(self).is_disabled() == old(self).is_disabled(),
            final(self).cursor_shown() == old(self).cursor_shown(),
    {
        if multiline {
            self.mode = InputMode::MultiLine { tab: TabSize::default(), rows: 3 };
        } else {
            self.mode = InputMode::SingleLine;
        }
    }

    /// Filling the height turns a multi-line input into one that grows from three to
    /// twenty rows; anything else is left as it is.
    pub fn set_fill_height(&mut self, fill_height: bool)
        ensures
            final(self).mode_view() == if fill_height && old(self).mode_view() is MultiLine {
                InputMode::AutoGrow { rows: 3, min_rows: 3, max_rows: 20 }
            } else {
                old(self).mode_view()
            },
            final(self).text_view() == old(self).text_view(),
            final(self).cursor() == old(self).cursor(),
            final(self).selection() == old(self).selection(),
            final(self).placeholder_view() == old(self).placeholder_view(),
            final(self).is_disabled() == old(self).is_disabled(),
            final(self).cursor_shown() == old(self).cursor_shown(),
    {
        if fill_height {
            if let InputMode::MultiLine { .. } = self.mode {
                self.mode = InputMode::AutoGrow { rows: 3, min_rows: 3, max_rows: 20 };
            }
        }
    }

    /// The text.
    pub fn text(&self) -> (r: String)
        ensures
            r@ == self.text_view(),
    {
        rope_to_string(&self.text)
    }

    /// The text.
    pub fn content(&self) -> (r: String)
        ensures
            r@ == self.text_view(),
    {
        rope_to_string(&self.text)
    }

    /// Replaces the text; the caret goes to its end.
    pub fn set_content(&mut self, content: String)
        ensures
            final(self).text_view() == content@,
            final(self).cursor() == utf8_len(content@),
            final(self).selection() == caret(final(self).cursor()),
            final(self).same_settings(*old(self)),
            final(self).cursor_shown() == old(self).cursor_shown(),
    {
        self.set_content_with_cursor(content, true);
    }

    /// Replaces the text; the caret goes to its end, or stays where it was as far as the
    /// new text reaches.
    pub fn set_content_with_cursor(&mut self, content: String, reset_cursor: bool)
        ensures
            final(self).text_view() == content@,
            final(self).cursor() == if reset_cursor || old(self).cursor() > utf8_len(content@) {
                utf8_len(content@) as int
            } else {
                old(self).cursor() as int
            },
            final(self).selection() == caret(final(self).cursor()),
            final(self).same_settings(*old(self)),
            final(self).cursor_shown() == old(self).cursor_shown(),
    {
        self.text = rope_from_str(content.as_str());
        let len = rope_len_bytes(&self.text);
        if reset_cursor {
            self.cursor_offset = len;
        } else {
            self.cursor_offset = if self.cursor_offset < len {
                self.cursor_offset
            } else {
                len
            };
        }
        self.selected_range = Selection::new(self.cursor_offset, self.cursor_offset);
    }

    /// The selected text (its range indexes the characters); empty for a caret.
    pub fn selected_text(&self) -> (r: String)
        requires
            self.selection().start != self.selection().end ==> self.selection().start
                <= self.selection().end <= self.text_view().len(),
        ensures
            r@ == if self.selection().start == self.selection().end {
                Seq::<char>::empty()
            } else {
                self.text_view().subrange(
                    self.selection().start as int,
                    self.selection().end as int,
                )
            },
    {
        if self.selected_range.is_empty() {
            String::new()
        } else {
            rope_substring(&self.text, self.selected_range.start, self.selected_range.end)
        }
    }

    /// Focusing shows the caret.
    pub fn focus(&mut self)
        ensures
            final(self).cursor_shown(),
            final(self).text_view() == old(self).text_view(),
            final(self).cursor() == old(self).cursor(),
            final(self).selection() == old(self).selection(),
            final(self).same_settings(*old(self)),
    {
        self.blink_cursor.start();
    }

    /// Empties the text; the caret goes to the start.
    pub fn clear(&mut self)
        ensures
            final(self).text_view() == Seq::<char>::empty(),
            final(self).cursor() == 0,
            final(self).selection() == caret(0),
            final(self).same_settings(*old(self)),
            final(self).cursor_shown() == old(self).cursor_shown(),
    {
        self.text = rope_from_str("");
        proof {
            reveal_strlit("");
        }
        self.cursor_offset = 0;
        self.selected_range = Selection::default();
    }

    /// Deletes the selected text; the caret goes to where it started.
    fn delete_selection(&mut self)
        requires
            edit_fits(
                old(self).text_view(),
                old(self).selection().start as int,
                old(self).selection().end as int,
            ),
        ensures
            final(self).text_view() == edited(
                old(self).text_view(),
                old(self).selection().start as int,
                old(self).selection().end as int,
                Seq::empty(),
            ),
            final(self).cursor() == old(self).selection().start,
            final(self).selection() == caret(old(self).selection().start),
            final(self).same_settings(*old(self)),
            final(self).cursor_shown(),
    {
        let start = self.selected_range.start;
        let end = self.selected_range.end;
        self.text.replace(start..end, "");
        proof {
            reveal_strlit("");
        }
        self.cursor_offset = start;
        self.selected_range = Selection::new(start, start);
        self.blink_cursor.pause();
    }

    /// Backspace: deletes the selection, or else the character before the caret.
    pub fn backspace(&mut self)
        requires
            !old(self).is_disabled() && old(self).selection().start != old(self).selection().end
                ==> edit_fits(
                old(self).text_view(),
                old(self).selection().start as int,
                old(self).selection().end as int,
            ),
            !old(self).is_disabled() && old(self).selection().start == old(self).selection().end
                && old(self).cursor() > 0 ==> {
                &&& old(self).cursor() <= utf8_len(old(self).text_view())
                &&& chars_within(old(self).text_view(), old(self).cursor() as int) > 0
                    ==> old(self).cursor() <= old(self).text_view().len()
            },
        ensures
            old(self).is_disabled() ==> *final(self) == *old(self),
            !old(self).is_disabled() ==> {
                let t = old(self).text_view();
                let c = old(self).cursor();
                let sel = old(self).selection();
                &&& final(self).same_settings(*old(self))
                &&& final(self).cursor_shown()
                &&& if sel.start != sel.end {
                    &&& final(self).text_view() == edited(t, sel.start as int, sel.end as int, Seq::empty())
                    &&& final(self).cursor() == sel.start
                    &&& final(self).selection() == caret(sel.start)
                } else if c > 0 && chars_within(t, c as int) > 0 {
                    let p = prev_char_start(t, c as int);
                    &&& final(self).text_view() == t.take(p as int) + t.skip(c as int)
                    &&& final(self).cursor() == p
                    &&& final(self).selection() == caret(p as usize)
                } else {
                    &&& final(self).text_view() == t
                    &&& final(self).cursor() == c
                    &&& final(self).selection() == sel
                }
            },
    {
        if self.disabled {
            return;
        }
        let ghost t = rope_text(self.text);
        if !self.selected_range.is_empty() {
            self.delete_selection();
        } else if self.cursor_offset > 0 {
            let c = self.cursor_offset;
            let char_idx = rope_byte_to_char(&self.text, c);
            if char_idx > 0 {
                proof {
                    lemma_chars_within_bound(t, c as int);
                    lemma_utf8_len_take(t, char_idx - 1, char_idx as int);
                }
                let prev_byte = rope_char_to_byte(&self.text, char_idx - 1);
                self.text.replace(prev_byte..c, "");
                proof {
                    reveal_strlit("");
                    assert(t.take(prev_byte as int) + ""@ + t.skip(c as int) =~= t.take(
                        prev_byte as int,
                    ) + t.skip(c as int));
                }
                self.cursor_offset = prev_byte;
                self.selected_range = Selection::new(prev_byte, prev_byte);
            }
        }
        self.blink_cursor.pause();
    }

    /// Delete: deletes the selection, or else the character at the caret.
    pub fn delete(&mut self)
        requires
            !old(self).is_disabled() && old(self).selection().start != old(self).selection().end
                ==> edit_fits(
                old(self).text_view(),
                old(self).selection().start as int,
                old(self).selection().end as int,
            ),
            !old(self).is_disabled() && old(self).selection().start == old(self).selection().end
                && old(self).cursor() < utf8_len(old(self).text_view()) ==> next_char_end(
                old(self).text_view(),
                old(self).cursor() as int,
            ) <= old(self).text_view().len(),
        ensures
            old(self).is_disabled() ==> *final(self) == *old(self),
            !old(self).is_disabled() ==> {
                let t = old(self).text_view();
                let c = old(self).cursor();
                let sel = old(self).selection();
                &&& final(self).same_settings(*old(self))
                &&& final(self).cursor_shown()
                &&& if sel.start != sel.end {
                    &&& final(self).text_view() == edited(t, sel.start as int, sel.end as int, Seq::empty())
                    &&& final(self).cursor() == sel.start
                    &&& final(self).selection() == caret(sel.start)
                } else if c < utf8_len(t) {
                    &&& final(self).text_view() == t.take(c as int) + t.skip(
                        next_char_end(t, c as int) as int,
                    )
                    &&& final(self).cursor() == c
                    &&& final(self).selection() == caret(c)
                } else {
                    &&& final(self).text_view() == t
                    &&& final(self).cursor() == c
                    &&& final(self).selection() == sel
                }
            },
    {
        if self.disabled {
            return;
        }
        let ghost t = rope_text(self.text);
        if !self.selected_range.is_empty() {
            self.delete_selection();
        } else if self.cursor_offset < rope_len_bytes(&self.text) {
            let c = self.cursor_offset;
            let char_idx = rope_byte_to_char(&self.text, c);
            proof {
                lemma_chars_within_next(t, c as int);
                lemma_chars_within_bound(t, c as int);
            }
            if char_idx < rope_len_chars(&self.text) {
                proof {
                    lemma_utf8_len_take(t, 0, char_idx + 1);
                }
                let next_byte = rope_char_to_byte(&self.text, char_idx + 1);
                self.text.replace(c..next_byte, "");
                proof {
                    reveal_strlit("");
                    assert(t.take(c as int) + ""@ + t.skip(next_byte as int) =~= t.take(c as int)
                        + t.skip(next_byte as int));
                }
                self.selected_range = Selection::new(c, c);
            }
        }
        self.blink_cursor.pause();
    }

    /// Types `text` over the selection, at the caret (lines breaks dropped on one line).
    fn insert_text(&mut self, text: &str)
        requires
            old(self).selection().start != old(self).selection().end ==> edit_fits(
                old(self).text_view(),
                old(self).selection().start as int,
                old(self).selection().end as int,
            ),
            ({
                let (t, c) = without_selection(
                    old(self).text_view(),
                    old(self).selection(),
                    old(self).cursor(),
                );
                &&& c <= t.len()
                &&& c + utf8_len(typed_text(old(self).mode_view(), text@)) <= usize::MAX
            }),
        ensures
            ({
                let (t, c) = without_selection(
                    old(self).text_view(),
                    old(self).selection(),
                    old(self).cursor(),
                );
                let typed = typed_text(old(self).mode_view(), text@);
                &&& final(self).text_view() == t.take(c as int) + typed + t.skip(c as int)
                &&& final(self).cursor() == c + utf8_len(typed)
                &&& final(self).selection() == caret(final(self).cursor())
            }),
            final(self).same_settings(*old(self)),
            final(self).cursor_shown(),
    {
        if !self.selected_range.is_empty() {
            let start = self.selected_range.start;
            let end = self.selected_range.end;
            self.text.replace(start..end, "");
            proof {
                reveal_strlit("");
            }
            self.cursor_offset = start;
        }
        let typed = if self.mode.is_single_line() {
            strip_line_breaks(text)
        } else {
            String::from_str(text)
        };
        rope_insert(&mut self.text, self.cursor_offset, typed.as_str());
        let n = byte_len(typed.as_str());
        self.cursor_offset = self.cursor_offset + n;
        self.selected_range = Selection::new(self.cursor_offset, self.cursor_offset);
        self.blink_cursor.pause();
    }

    /// Enter: a line break, typed as any text, in a multi-line input that is enabled.
    pub fn enter(&mut self)
        requires
            !old(self).is_disabled() && multi_line(old(self).mode_view()) ==> {
                &&& old(self).selection().start != old(self).selection().end ==> edit_fits(
                    old(self).text_view(),
                    old(self).selection().start as int,
                    old(self).selection().end as int,
                )
                &&& ({
                    let (t, c) = without_selection(
                        old(self).text_view(),
                        old(self).selection(),
                        old(self).cursor(),
                    );
                    c <= t.len() && c + 1 <= usize::MAX
                })
            },
        ensures
            old(self).is_disabled() || !multi_line(old(self).mode_view()) ==> *final(self)
                == *old(self),
            !old(self).is_disabled() && multi_line(old(self).mode_view()) ==> {
                let (t, c) = without_selection(
                    old(self).text_view(),
                    old(self).selection(),
                    old(self).cursor(),
                );
                &&& final(self).text_view() == t.take(c as int) + seq!['\n'] + t.skip(c as int)
                &&& final(self).cursor() == c + 1
                &&& final(self).selection() == caret(final(self).cursor())
                &&& final(self).same_settings(*old(self))
                &&& final(self).cursor_shown()
            },
    {
        if self.disabled || !self.mode.is_multi_line() {
            return;
        }
        proof {
            reveal_strlit("\n");
            assert("\n"@ =~= seq!['\n']);
            assert(seq!['\n'].drop_last() =~= Seq::<char>::empty());
            assert(utf8_len(Seq::<char>::empty()) == 0);
        }
        self.insert_text("\n");
    }

    /// Left arrow: the caret moves back one byte, kept within the text.
    pub fn left(&mut self)
        ensures
            old(self).cursor() == 0 ==> *final(self) == *old(self),
            old(self).cursor() > 0 ==> {
                let c = clipped_offset(old(self).text_view(), old(self).cursor() - 1);
                &&& final(self).cursor() == c
                &&& final(self).selection() == caret(c as usize)
                &&& final(self).cursor_shown()
                &&& final(self).text_view() == old(self).text_view()
                &&& final(self).same_settings(*old(self))
            },
    {
        if self.cursor_offset > 0 {
            self.cursor_offset = self.text.clip_offset(self.cursor_offset - 1, Bias::Left);
            self.selected_range = Selection::new(self.cursor_offset, self.cursor_offset);
            self.blink_cursor.pause();
        }
    }

    /// Right arrow: the caret moves on one byte, up to the end of the text.
    pub fn right(&mut self)
        ensures
            old(self).cursor() >= utf8_len(old(self).text_view()) ==> *final(self) == *old(self),
            old(self).cursor() < utf8_len(old(self).text_view()) ==> {
                &&& final(self).cursor() == old(self).cursor() + 1
                &&& final(self).selection() == caret(final(self).cursor())
                &&& final(self).cursor_shown()
                &&& final(self).text_view() == old(self).text_view()
                &&& final(self).same_settings(*old(self))
            },
    {
        if self.cursor_offset < rope_len_bytes(&self.text) {
            self.cursor_offset = self.text.clip_offset(self.cursor_offset + 1, Bias::Right);
            self.selected_range = Selection::new(self.cursor_offset, self.cursor_offset);
            self.blink_cursor.pause();
        }
    }

    /// Selects the whole text, the caret at its end.
    pub fn select_all(&mut self)
        ensures
            final(self).selection() == (Selection {
                start: 0,
                end: utf8_len(old(self).text_view()) as usize,
            }),
            final(self).cursor() == utf8_len(old(self).text_view()),
            final(self).text_view() == old(self).text_view(),
            final(self).same_settings(*old(self)),
            final(self).cursor_shown() == old(self).cursor_shown(),
    {
        let len = rope_len_bytes(&self.text);
        self.selected_range = Selection::new(0, len);
        self.cursor_offset = len;
    }

    /// Cut: deletes the selection, if any, in an input that is enabled.
    pub fn cut(&mut self)
        requires
            !old(self).is_disabled() && old(self).selection().start != old(self).selection().end
                ==> edit_fits(
                old(self).text_view(),
                old(self).selection().start as int,
                old(self).selection().end as int,
            ),
        ensures
            old(self).is_disabled() || old(self).selection().start == old(self).selection().end
                ==> *final(self) == *old(self),
            !old(self).is_disabled() && old(self).selection().start != old(self).selection().end
                ==> {
                &&& final(self).text_view() == edited(
                    old(self).text_view(),
                    old(self).selection().start as int,
                    old(self).selection().end as int,
                    Seq::empty(),
                )
                &&& final(self).cursor() == old(self).selection().start
                &&& final(self).selection() == caret(old(self).selection().start)
                &&& final(self).same_settings(*old(self))
                &&& final(self).cursor_shown()
            },
    {
        if self.disabled {
            return;
        }
        if !self.selected_range.is_empty() {
            self.delete_selection();
        }
    }

    /// Up arrow, on several lines: the caret goes to the same column of the line above,
    /// where there is one.
    pub fn up(&mut self)
        requires
            multi_line(old(self).mode_view()) ==> {
                let pos = position_of(old(self).text_view(), old(self).cursor() as int);
                &&& line_readable(old(self).text_view(), pos.0)
                &&& (pos.0 as u32) > 0 ==> line_readable(
                    old(self).text_view(),
                    ((pos.0 as u32) - 1) as nat,
                )
            },
        ensures
            ({
                let pos = position_of(old(self).text_view(), old(self).cursor() as int);
                let line = pos.0 as u32;
                if multi_line(old(self).mode_view()) && line > 0 {
                    let c = offset_of_position(
                        old(self).text_view(),
                        (line - 1) as nat,
                        (pos.1 as u32) as nat,
                    );
                    &&& final(self).cursor() == c
                    &&& final(self).selection() == caret(c as usize)
                    &&& final(self).cursor_shown()
                    &&& final(self).text_view() == old(self).text_view()
                    &&& final(self).same_settings(*old(self))
                } else {
                    *final(self) == *old(self)
                }
            }),
    {
        if !self.mode.is_multi_line() {
            return;
        }
        let pos = self.text.offset_to_position(self.cursor_offset);
        if pos.line > 0 {
            let new_pos = Position::new(pos.line - 1, pos.character);
            self.cursor_offset = self.text.position_to_offset(&new_pos);
            self.selected_range = Selection::new(self.cursor_offset, self.cursor_offset);
            self.blink_cursor.pause();
        }
    }

    /// Down arrow, on several lines: the caret goes to the same column of the line below,
    /// where there is one.
    pub fn down(&mut self)
        requires
            multi_line(old(self).mode_view()) ==> {
                let pos = position_of(old(self).text_view(), old(self).cursor() as int);
                let line = pos.0 as u32;
                &&& line_readable(old(self).text_view(), pos.0)
                &&& line + 1 < line_count(old(self).text_view()) ==> {
                    &&& line < u32::MAX
                    &&& line_readable(old(self).text_view(), (line + 1) as nat)
                }
            },
        ensures
            ({
                let pos = position_of(old(self).text_view(), old(self).cursor() as int);
                let line = pos.0 as u32;
                if multi_line(old(self).mode_view()) && line + 1 < line_count(old(self).text_view()) {
                    let c = offset_of_position(
                        old(self).text_view(),
                        (line + 1) as nat,
                        (pos.1 as u32) as nat,
                    );
                    &&& final(self).cursor() == c
                    &&& final(self).selection() == caret(c as usize)
                    &&& final(self).cursor_shown()
                    &&& final(self).text_view() == old(self).text_view()
                    &&& final(self).same_settings(*old(self))
                } else {
                    *final(self) == *old(self)
                }
            }),
    {
        if !self.mode.is_multi_line() {
            return;
        }
        let pos = self.text.offset_to_position(self.cursor_offset);
        if (pos.line as usize) < self.text.lines_len() - 1 {
            let new_pos = Position::new(pos.line + 1, pos.character);
            self.cursor_offset = self.text.position_to_offset(&new_pos);
            self.selected_range = Selection::new(self.cursor_offset, self.cursor_offset);
            self.blink_cursor.pause();
        }
    }

    /// The UTF-16 range of a byte range.
    pub fn range_to_utf16(&self, range: &Range<usize>) -> (r: Range<usize>)
        ensures
            r.start == utf16_offset_of(self.text_view(), range.start as int),
            r.end == utf16_offset_of(self.text_view(), range.end as int),
    {
        self.text.offset_to_offset_utf16(range.start)..self.text.offset_to_offset_utf16(range.end)
    }

    /// The byte range of a UTF-16 range.
    pub fn range_from_utf16(&self, range_utf16: &Range<usize>) -> (r: Range<usize>)
        ensures
            r.start == utf8_offset_of(self.text_view(), range_utf16.start as int),
            r.end == utf8_offset_of(self.text_view(), range_utf16.end as int),
    {
        self.text.offset_utf16_to_offset(range_utf16.start)..self.text.offset_utf16_to_offset(
            range_utf16.end,
        )
    }

    /// The text of a UTF-16 range, its byte range indexing the characters; `actual_range`
    /// receives the UTF-16 range of that byte range.
    pub fn text_for_range(
        &self,
        range_utf16: Range<usize>,
        actual_range: &mut Option<Range<usize>>,
    ) -> (r: Option<String>)
        requires
            ({
                let a = utf8_offset_of(self.text_view(), range_utf16.start as int);
                let b = utf8_offset_of(self.text_view(), range_utf16.end as int);
                a <= b <= self.text_view().len()
            }),
        ensures
            ({
                let a = utf8_offset_of(self.text_view(), range_utf16.start as int);
                let b = utf8_offset_of(self.text_view(), range_utf16.end as int);
                &&& r matches Some(text) && text@ == self.text_view().subrange(a as int, b as int)
                &&& *final(actual_range) matches Some(actual) && actual.start == utf16_offset_of(
                    self.text_view(),
                    a as int,
                ) && actual.end == utf16_offset_of(self.text_view(), b as int)
            }),
    {
        let range = self.range_from_utf16(&range_utf16);
        *actual_range = Some(self.range_to_utf16(&range));
        Some(rope_substring(&self.text, range.start, range.end))
    }

    /// The UTF-16 range of the selection reported to the platform: the caret.
    pub fn selected_text_range(&self) -> (r: Option<Utf16Selection>)
        ensures
            r matches Some(sel) && sel.range.start == utf16_offset_of(
                self.text_view(),
                self.cursor() as int,
            ) && sel.range.end == sel.range.start && !sel.reversed,
    {
        Some(
            Utf16Selection {
                range: self.range_to_utf16(&(self.cursor_offset..self.cursor_offset)),
                reversed: false,
            },
        )
    }

    /// Replaces the text of a UTF-16 range (the caret when none is given) by `new_text`,
    /// without line breaks on one line; the caret goes to the end of what was put in.
    pub fn replace_text_in_range(&mut self, range_utf16: Option<Range<usize>>, new_text: &str)
        requires
            ({
                let (a, b) = byte_range_of(old(self).text_view(), range_utf16, old(self).cursor());
                &&& edit_fits(old(self).text_view(), a, b)
                &&& a + utf8_len(typed_text(old(self).mode_view(), new_text@)) <= usize::MAX
            }),
        ensures
            ({
                let (a, b) = byte_range_of(old(self).text_view(), range_utf16, old(self).cursor());
                let typed = typed_text(old(self).mode_view(), new_text@);
                &&& final(self).text_view() == edited(old(self).text_view(), a, b, typed)
                &&& final(self).cursor() == a + utf8_len(typed)
                &&& final(self).selection() == caret(final(self).cursor())
            }),
            final(self).same_settings(*old(self)),
            final(self).cursor_shown(),
    {
        let range = match range_utf16 {
            Some(r) => self.range_from_utf16(&r),
            None => self.cursor_offset..self.cursor_offset,
        };
        let typed = if self.mode.is_single_line() {
            strip_line_breaks(new_text)
        } else {
            String::from_str(new_text)
        };
        self.text.replace(range.start..range.end, typed.as_str());
        let n = byte_len(typed.as_str());
        self.cursor_offset = range.start + n;
        self.selected_range = Selection::new(self.cursor_offset, self.cursor_offset);
        self.blink_cursor.pause();
    }

    /// Marked (composed) text is handled as plain replacement; the range to select after
    /// it is not used.
    pub fn replace_and_mark_text_in_range(
        &mut self,
        range_utf16: Option<Range<usize>>,
        new_text: &str,
        new_selected_range_utf16: Option<Range<usize>>,
    )
        requires
            ({
                let (a, b) = byte_range_of(old(self).text_view(), range_utf16, old(self).cursor());
                &&& edit_fits(old(self).text_view(), a, b)
                &&& a + utf8_len(typed_text(old(self).mode_view(), new_text@)) <= usize::MAX
            }),
        ensures
            ({
                let (a, b) = byte_range_of(old(self).text_view(), range_utf16, old(self).cursor());
                let typed = typed_text(old(self).mode_view(), new_text@);
                &&& final(self).text_view() == edited(old(self).text_view(), a, b, typed)
                &&& final(self).cursor() == a + utf8_len(typed)
                &&& final(self).selection() == caret(final(self).cursor())
            }),
            final(self).same_settings(*old(self)),
            final(self).cursor_shown(),
    {
        self.replace_text_in_range(range_utf16, new_text);
    }
}

// ---------------------------------------------------------------------------
// Laws
// ---------------------------------------------------------------------------

/// On text whose characters are single bytes, typing one single-byte character at the
/// caret and then pressing Backspace gives back the text and the caret: the caret after
/// typing meets what Backspace asks of it, and Backspace deletes just the character typed.
pub proof fn lemma_backspace_undoes_typing(t: Seq<char>, c: nat, ch: char)
    requires
        utf8_len(t) == t.len(),
        c <= t.len(),
        utf8_width(ch) == 1,
    ensures
        ({
            let typed = edited(t, c as int, c as int, seq![ch]);
            let after = c + 1;
            &&& after <= utf8_len(typed)
            &&& after <= typed.len()
            &&& chars_within(typed, after as int) > 0
            &&& prev_char_start(typed, after as int) == c
            &&& typed.take(c as int) + typed.skip(after as int) == t
        }),
{
    let typed = edited(t, c as int, c as int, seq![ch]);
    assert(typed =~= t.take(c as int) + seq![ch] + t.skip(c as int));
    lemma_single_bytes(t, c as int);
    assert(typed.take(c as int) =~= t.take(c as int));
    assert(typed.take(c as int + 1).drop_last() =~= t.take(c as int));
    assert(typed.take(c as int + 1).last() == ch);
    lemma_chars_within_prefix(typed, c as int + 1);
    lemma_utf8_len_take(typed, 0, c as int + 1);
    assert(typed.take(c as int) + typed.skip(c as int + 1) =~= t);
}

} // verus!

