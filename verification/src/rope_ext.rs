//! Line, character and offset queries over the text rope of the multi-line input.
//!
//! The rope (`ropey::Rope`) is modelled by the characters it holds, `rope_text`. Lines
//! are split at every Unicode line break, a CR LF pair counting once, as the rope splits
//! them. Offsets handed to these queries are UTF-8 byte offsets; where a query hands one
//! to a rope operation that takes a character index (slicing, removing, inserting,
//! iterating from a position), the contracts say so, and the two agree on ASCII text.
use vstd::prelude::*;

use ropey::Rope;
use std::ops::Range;

use crate::text_field::{utf16_offset_of, utf16_offset_exec, utf8_offset_exec, utf8_offset_of};
use crate::text::{
    char_is_alphanumeric,
    alphanumeric, lemma_utf8_len_concat, lemma_utf8_len_lower, lemma_utf8_len_take, utf8_len,
    utf8_width,
};

verus! {

// ---------------------------------------------------------------------------
// The rope, as the outside crate provides it
// ---------------------------------------------------------------------------

/// `ropey::Rope`, carried opaquely; its text is `rope_text`.
#[verifier::external_type_specification]
#[verifier::external_body]
pub struct ExRope(Rope);

/// The characters a rope holds.
pub uninterp spec fn rope_text(r: Rope) -> Seq<char>;

/// Whether `c` breaks a line: LF, VT, FF, CR, NEL, LINE SEPARATOR, PARAGRAPH SEPARATOR.
pub open spec fn is_line_break(c: char) -> bool {
    ||| c == '\n'
    ||| c == '\u{0B}'
    ||| c == '\u{0C}'
    ||| c == '\r'
    ||| c == '\u{85}'
    ||| c == '\u{2028}'
    ||| c == '\u{2029}'
}

/// Whether a line break ends at index `i` of `s`. A CR directly followed by an LF ends
/// none: the pair breaks the line once, at the LF.
pub open spec fn ends_break(s: Seq<char>, i: int) -> bool {
    &&& 0 <= i < s.len()
    &&& is_line_break(s[i])
    &&& !(s[i] == '\r' && i + 1 < s.len() && s[i + 1] == '\n')
}

/// The number of line breaks that end before index `k` of `s`: the line index `k` is on.
pub open spec fn line_of(s: Seq<char>, k: int) -> nat
    decreases k,
{
    if k <= 0 {
        0
    } else {
        line_of(s, k - 1) + if ends_break(s, k - 1) {
            1nat
        } else {
            0nat
        }
    }
}

/// The number of lines of `s`: one more than its line breaks.
pub open spec fn line_count(s: Seq<char>) -> nat {
    line_of(s, s.len() as int) + 1
}

/// The first index from `k` on that `n` line breaks end before, or the end of `s`.
pub open spec fn first_on_line(s: Seq<char>, n: nat, k: int) -> nat
    decreases s.len() - k,
{
    if k >= s.len() {
        s.len()
    } else if line_of(s, k) >= n {
        if k < 0 {
            0
        } else {
            k as nat
        }
    } else {
        first_on_line(s, n, k + 1)
    }
}

/// The index where line `n` of `s` starts (the end of `s` past its last line).
pub open spec fn line_start(s: Seq<char>, n: nat) -> nat {
    first_on_line(s, n, 0)
}

/// The number of characters of `s` whose UTF-8 encoding ends at or before byte `b`: the
/// index of the character that byte `b` belongs to.
pub open spec fn chars_within(s: Seq<char>, b: int) -> nat
    decreases s.len(),
{
    if s.len() == 0 || b < utf8_width(s[0]) {
        0
    } else {
        1 + chars_within(s.drop_first(), b - utf8_width(s[0]))
    }
}

/// `Rope::from(&str)`: a rope holding the characters of `s`.
#[verifier::external_body]
pub(crate) fn rope_from_str(s: &str) -> (r: Rope)
    ensures
        rope_text(r) == s@,
{
    Rope::from(s)
}

/// `Rope::to_string` (its `Display`): a string of the characters the rope holds.
#[verifier::external_body]
pub(crate) fn rope_to_string(r: &Rope) -> (s: String)
    ensures
        s@ == rope_text(*r),
{
    r.to_string()
}

/// `Rope::len_bytes`: the length of the text in UTF-8 bytes.
#[verifier::external_body]
pub(crate) fn rope_len_bytes(r: &Rope) -> (n: usize)
    ensures
        n == utf8_len(rope_text(*r)),
{
    r.len_bytes()
}

/// `Rope::len_chars`: the number of characters.
#[verifier::external_body]
pub(crate) fn rope_len_chars(r: &Rope) -> (n: usize)
    ensures
        n == rope_text(*r).len(),
{
    r.len_chars()
}

/// `Rope::len_lines`: one more than the number of line breaks.
#[verifier::external_body]
fn rope_len_lines(r: &Rope) -> (n: usize)
    ensures
        n == line_count(rope_text(*r)),
{
    r.len_lines()
}

/// `Rope::line_to_byte`: the byte offset where a line starts; one past the last line
/// gives the length in bytes.
#[verifier::external_body]
fn rope_line_to_byte(r: &Rope, line_idx: usize) -> (b: usize)
    requires
        line_idx <= line_count(rope_text(*r)),
    ensures
        b == utf8_len(rope_text(*r).take(line_start(rope_text(*r), line_idx as nat) as int)),
{
    r.line_to_byte(line_idx)
}

/// `Rope::byte_to_line`: the number of line breaks before the character a byte belongs to.
#[verifier::external_body]
fn rope_byte_to_line(r: &Rope, byte_idx: usize) -> (l: usize)
    requires
        byte_idx <= utf8_len(rope_text(*r)),
    ensures
        l == line_of(rope_text(*r), chars_within(rope_text(*r), byte_idx as int) as int),
{
    r.byte_to_line(byte_idx)
}

/// `Rope::byte_to_char`: the index of the character a byte belongs to.
#[verifier::external_body]
pub(crate) fn rope_byte_to_char(r: &Rope, byte_idx: usize) -> (c: usize)
    requires
        byte_idx <= utf8_len(rope_text(*r)),
    ensures
        c == chars_within(rope_text(*r), byte_idx as int),
{
    r.byte_to_char(byte_idx)
}

/// `Rope::try_byte_to_char`: the same index for a byte within the text (one past its end
/// included), and nothing past that.
#[verifier::external_body]
fn rope_try_byte_to_char(r: &Rope, byte_idx: usize) -> (c: Option<usize>)
    ensures
        c is Some <==> byte_idx <= utf8_len(rope_text(*r)),
        c matches Some(k) ==> k == chars_within(rope_text(*r), byte_idx as int),
{
    r.try_byte_to_char(byte_idx).ok()
}

/// `Rope::char_to_byte`: the byte offset where a character starts.
#[verifier::external_body]
pub(crate) fn rope_char_to_byte(r: &Rope, char_idx: usize) -> (b: usize)
    requires
        char_idx <= rope_text(*r).len(),
    ensures
        b == utf8_len(rope_text(*r).take(char_idx as int)),
{
    r.char_to_byte(char_idx)
}

/// `Rope::char`: the character at an index.
#[verifier::external_body]
fn rope_char(r: &Rope, char_idx: usize) -> (c: char)
    requires
        char_idx < rope_text(*r).len(),
    ensures
        c == rope_text(*r)[char_idx as int],
{
    r.char(char_idx)
}

/// `Rope::insert`: puts `text` in at a character index.
#[verifier::external_body]
pub(crate) fn rope_insert(r: &mut Rope, char_idx: usize, text: &str)
    requires
        char_idx <= rope_text(*old(r)).len(),
    ensures
        rope_text(*final(r)) == rope_text(*old(r)).take(char_idx as int) + text@ + rope_text(
            *old(r),
        ).skip(char_idx as int),
{
    r.insert(char_idx, text)
}

/// `Rope::remove`: takes out the characters of a character index range.
#[verifier::external_body]
fn rope_remove(r: &mut Rope, start: usize, end: usize)
    requires
        start <= end <= rope_text(*old(r)).len(),
    ensures
        rope_text(*final(r)) == rope_text(*old(r)).take(start as int) + rope_text(*old(r)).skip(
            end as int,
        ),
{
    r.remove(start..end)
}

// ---------------------------------------------------------------------------
// Facts about lines and offsets
// ---------------------------------------------------------------------------

/// Byte offsets of character boundaries map back to their characters.
pub(crate) proof fn lemma_chars_within_prefix(s: Seq<char>, k: int)
    requires
        0 <= k <= s.len(),
    ensures
        chars_within(s, utf8_len(s.take(k)) as int) == k,
    decreases k,
{
    if k > 0 {
        let t = s.drop_first();
        assert(s.take(k) =~= seq![s[0]] + t.take(k - 1));
        crate::text::lemma_utf8_len_cons(s[0], t.take(k - 1));
        lemma_chars_within_prefix(t, k - 1);
    } else {
        assert(s.take(0) =~= Seq::<char>::empty());
        assert(utf8_len(Seq::<char>::empty()) == 0);
        if s.len() > 0 {
            assert(utf8_width(s[0]) >= 1);
        }
    }
}

/// The characters within a byte offset are a prefix, whose bytes do not pass the offset.
pub(crate) proof fn lemma_chars_within_bound(s: Seq<char>, b: int)
    ensures
        chars_within(s, b) <= s.len(),
        b >= 0 ==> utf8_len(s.take(chars_within(s, b) as int)) <= b,
    decreases s.len(),
{
    if s.len() > 0 && b >= utf8_width(s[0]) {
        let t = s.drop_first();
        lemma_chars_within_bound(t, b - utf8_width(s[0]));
        let k = chars_within(t, b - utf8_width(s[0])) as int;
        assert(s.take(k + 1) =~= seq![s[0]] + t.take(k));
        crate::text::lemma_utf8_len_cons(s[0], t.take(k));
    } else {
        assert(s.take(0) =~= Seq::<char>::empty());
        assert(utf8_len(Seq::<char>::empty()) == 0);
    }
}

/// A byte inside the text belongs to a character of it, which ends past the byte.
pub(crate) proof fn lemma_chars_within_next(s: Seq<char>, b: int)
    requires
        0 <= b < utf8_len(s),
    ensures
        chars_within(s, b) < s.len(),
        b < utf8_len(s.take(chars_within(s, b) as int + 1)),
    decreases s.len(),
{
    if s.len() == 0 {
        assert(utf8_len(s) == 0);
    } else {
        let t = s.drop_first();
        assert(s =~= seq![s[0]] + t);
        crate::text::lemma_utf8_len_cons(s[0], t);
        if b < utf8_width(s[0]) {
            assert(s.take(1) =~= seq![s[0]] + t.take(0));
            assert(t.take(0) =~= Seq::<char>::empty());
            crate::text::lemma_utf8_len_cons(s[0], t.take(0));
            assert(utf8_len(Seq::<char>::empty()) == 0);
        } else {
            lemma_chars_within_next(t, b - utf8_width(s[0]));
            let k = chars_within(t, b - utf8_width(s[0])) as int;
            assert(s.take(k + 2) =~= seq![s[0]] + t.take(k + 1));
            crate::text::lemma_utf8_len_cons(s[0], t.take(k + 1));
        }
    }
}

/// Lines only grow along the text, by at most one per character.
proof fn lemma_line_of_mono(s: Seq<char>, i: int, j: int)
    requires
        i <= j,
    ensures
        line_of(s, i) <= line_of(s, j),
    decreases j - i,
{
    if i < j {
        lemma_line_of_mono(s, i, j - 1);
    }
}

/// Line starts lie within the text, from the start of the search on.
proof fn lemma_first_on_line_bounds(s: Seq<char>, n: nat, k: int)
    requires
        0 <= k,
    ensures
        first_on_line(s, n, k) <= s.len(),
        k <= s.len() ==> k <= first_on_line(s, n, k),
    decreases s.len() - k,
{
    if k < s.len() && line_of(s, k) < n {
        lemma_first_on_line_bounds(s, n, k + 1);
    }
}

/// A later line starts no earlier.
proof fn lemma_first_on_line_mono(s: Seq<char>, n: nat, k: int)
    requires
        0 <= k,
    ensures
        first_on_line(s, n, k) <= first_on_line(s, n + 1, k),
    decreases s.len() - k,
{
    if k < s.len() {
        if line_of(s, k) >= n + 1 {
        } else if line_of(s, k) >= n {
            lemma_first_on_line_bounds(s, n + 1, k);
        } else {
            lemma_first_on_line_mono(s, n, k + 1);
        }
    }
}

/// Line starts are ordered and within the text; line 0 starts at the start.
proof fn lemma_line_start(s: Seq<char>, n: nat)
    ensures
        line_start(s, n) <= line_start(s, n + 1),
        line_start(s, n + 1) <= s.len(),
        line_start(s, 0) == 0,
{
    lemma_first_on_line_mono(s, n, 0);
    lemma_first_on_line_bounds(s, n + 1, 0);
    reveal_with_fuel(first_on_line, 2);
}

// ---------------------------------------------------------------------------
// Character access
// ---------------------------------------------------------------------------

/// `Rope::slice` over a character index range, written out (`RopeSlice`'s `Display`): the
/// characters of that range, as a string.
#[verifier::external_body]
pub(crate) fn rope_substring(r: &Rope, start: usize, end: usize) -> (s: String)
    requires
        start <= end <= rope_text(*r).len(),
    ensures
        s@ == rope_text(*r).subrange(start as int, end as int),
{
    r.slice(start..end).to_string()
}

/// `Rope::chars`, collected: the characters of the rope, in order.
#[verifier::external_body]
fn rope_chars(r: &Rope) -> (v: Vec<char>)
    ensures
        v@ == rope_text(*r),
{
    r.chars().collect()
}

// ---------------------------------------------------------------------------
// Lines as the input shows them
// ---------------------------------------------------------------------------

/// The characters of line `row` of `s`, its line break included.
pub open spec fn line_chars(s: Seq<char>, row: nat) -> Seq<char> {
    s.subrange(line_start(s, row) as int, line_start(s, row + 1) as int)
}

/// Whether line `row` can be shown: its last character is looked up by the line's length
/// in bytes, which stays within the line only when each of its characters is one byte.
/// Rows past the last line are always shown (empty).
pub open spec fn line_readable(s: Seq<char>, row: nat) -> bool {
    row >= line_count(s) || utf8_len(line_chars(s, row)) <= line_chars(s, row).len()
}

/// Line `row` of `s` without a final line feed; empty past the last line.
pub open spec fn shown_line(s: Seq<char>, row: nat) -> Seq<char> {
    if row >= line_count(s) {
        Seq::empty()
    } else {
        let ln = line_chars(s, row);
        let n = utf8_len(ln);
        if n > 0 && ln[n - 1] == '\n' {
            ln.take(n - 1)
        } else {
            ln
        }
    }
}

/// The byte offset where line `row` starts; the length in bytes past the last line.
pub open spec fn line_start_offset_of(s: Seq<char>, row: nat) -> nat {
    if row >= line_count(s) {
        utf8_len(s)
    } else {
        utf8_len(s.take(line_start(s, row) as int))
    }
}

/// The byte offset where the shown part of line `row` ends.
pub open spec fn line_end_offset_of(s: Seq<char>, row: nat) -> nat {
    if row >= line_count(s) {
        utf8_len(s)
    } else {
        line_start_offset_of(s, row) + utf8_len(shown_line(s, row))
    }
}

/// `offset`, brought within the text.
pub open spec fn clipped_offset(s: Seq<char>, offset: int) -> int {
    if offset <= utf8_len(s) {
        offset
    } else {
        utf8_len(s) as int
    }
}

/// The line and column of a byte offset: the line the (clipped) offset's character is on,
/// and its distance in bytes from the line's start, at most the shown line's length.
pub open spec fn position_of(s: Seq<char>, offset: int) -> (nat, nat) {
    let o = clipped_offset(s, offset);
    let row = line_of(s, chars_within(s, o) as int);
    let ls = utf8_len(s.take(line_start(s, row) as int));
    let col: int = if o >= ls {
        o - ls
    } else {
        0
    };
    let w = utf8_len(shown_line(s, row));
    (row, if col <= w {
        col as nat
    } else {
        w
    })
}

/// The byte offset of a line and column: the line's start, plus the bytes of the first
/// `character` characters of the shown line (all of them when it is shorter).
pub open spec fn offset_of_position(s: Seq<char>, line: nat, character: nat) -> nat {
    let shown = shown_line(s, line);
    let k = if character <= shown.len() {
        character as int
    } else {
        shown.len() as int
    };
    line_start_offset_of(s, line) + utf8_len(shown.take(k))
}

/// Whether `c` belongs to a word: alphanumeric, or an underscore.
pub open spec fn is_word_char(c: char) -> bool {
    alphanumeric(c) || c == '_'
}

/// The start of the run of word characters of `s` that ends at index `k`.
pub open spec fn word_run_start(s: Seq<char>, k: int) -> int
    decreases k,
{
    if k <= 0 || k > s.len() || !is_word_char(s[k - 1]) {
        k
    } else {
        word_run_start(s, k - 1)
    }
}

/// The end of the run of word characters of `s` that starts at index `k`.
pub open spec fn word_run_end(s: Seq<char>, k: int) -> int
    decreases s.len() - k,
{
    if k < 0 || k >= s.len() || !is_word_char(s[k]) {
        k
    } else {
        word_run_end(s, k + 1)
    }
}

/// The word range at `offset`: from `offset` back by the bytes of the word characters
/// before the character index `offset`, and forward by the bytes of those from it on.
/// Nothing at or past the end of the text, or where both runs are empty.
pub open spec fn word_span(s: Seq<char>, offset: int) -> Option<(nat, nat)> {
    if offset < 0 || offset >= utf8_len(s) {
        None
    } else {
        let left = utf8_len(s.subrange(word_run_start(s, offset), offset));
        let start: nat = if offset >= left {
            (offset - left) as nat
        } else {
            0
        };
        let end: nat = (offset + utf8_len(s.subrange(offset, word_run_end(s, offset)))) as nat;
        if start == end {
            None
        } else {
            Some((start, end))
        }
    }
}

/// Which way an offset inside a character would move to reach a character boundary.
#[derive(Clone, Copy, Debug, PartialEq, Eq, Structural)]
pub enum Bias {
    Left,
    Right,
}

/// A line and a column within it.
#[derive(Clone, Copy, Debug, PartialEq, Eq, Structural)]
pub struct Position {
    pub line: u32,
    pub character: u32,
}

impl Position {
    pub fn new(line: u32, character: u32) -> (r: Self)
        ensures
            r.line == line,
            r.character == character,
    {
        Position { line, character }
    }
}

/// The shown part of a line's bytes are the line's bytes, less its final line feed.
proof fn lemma_shown_line(s: Seq<char>, row: nat)
    requires
        row < line_count(s),
        line_readable(s, row),
    ensures
        line_start(s, row) <= line_start(s, row + 1) <= s.len(),
        utf8_len(line_chars(s, row)) == line_chars(s, row).len(),
        utf8_len(s.take(line_start(s, row) as int)) + utf8_len(line_chars(s, row)) == utf8_len(
            s.take(line_start(s, row + 1) as int),
        ),
        utf8_len(s.take(line_start(s, row + 1) as int)) <= utf8_len(s),
        shown_line(s, row).len() <= line_chars(s, row).len(),
        shown_line(s, row) == line_chars(s, row).take(shown_line(s, row).len() as int),
        utf8_len(shown_line(s, row)) == shown_line(s, row).len(),
{
    lemma_line_start(s, row);
    let a = line_start(s, row) as int;
    let b = line_start(s, row + 1) as int;
    lemma_utf8_len_take(s, a, b);
    let ln = line_chars(s, row);
    lemma_utf8_len_lower(ln);
    let n = utf8_len(ln);
    if n > 0 && ln[n - 1] == '\n' {
        assert(ln.take(n - 1) =~= ln.drop_last());
        assert(ln.take(ln.take(n - 1).len() as int) =~= ln.take(n - 1));
    } else {
        assert(ln.take(ln.len() as int) =~= ln);
    }
}

/// Where the shown part of a readable line lies in the rope: its first and past-the-last
/// character indices, and its length in bytes.
fn shown_line_bounds(r: &Rope, row: usize) -> (res: (usize, usize, usize))
    requires
        row < line_count(rope_text(*r)),
        line_count(rope_text(*r)) <= usize::MAX,
        line_readable(rope_text(*r), row as nat),
    ensures
        res.0 == line_start(rope_text(*r), row as nat),
        res.0 <= res.1 <= rope_text(*r).len(),
        rope_text(*r).subrange(res.0 as int, res.1 as int) == shown_line(rope_text(*r), row as nat),
        res.2 == utf8_len(shown_line(rope_text(*r), row as nat)),
        res.2 == res.1 - res.0,
{
    let ghost t = rope_text(*r);
    proof {
        lemma_shown_line(t, row as nat);
        lemma_chars_within_prefix(t, line_start(t, row as nat) as int);
        lemma_chars_within_prefix(t, line_start(t, (row + 1) as nat) as int);
    }
    let sb = rope_line_to_byte(r, row);
    let eb = rope_line_to_byte(r, row + 1);
    let sc = rope_byte_to_char(r, sb);
    let ec = rope_byte_to_char(r, eb);
    let nbytes = eb - sb;
    if nbytes > 0 {
        let line_end = nbytes - 1;
        let c = rope_char(r, sc + line_end);
        if c == '\n' {
            return (sc, sc + line_end, line_end);
        }
    }
    (sc, ec, nbytes)
}

pub trait RopeExt {
    /// The text held.
    spec fn text_chars(&self) -> Seq<char>;

    /// The byte offset where line `row` starts; the length in bytes past the last line.
    fn line_start_offset(&self, row: usize) -> (r: usize)
        ensures
            r == line_start_offset_of(self.text_chars(), row as nat),
    ;

    /// The byte offset where the shown part of line `row` ends.
    fn line_end_offset(&self, row: usize) -> (r: usize)
        requires
            line_readable(self.text_chars(), row as nat),
        ensures
            r == line_end_offset_of(self.text_chars(), row as nat),
    ;

    /// Line `row` without its final line feed; empty past the last line.
    fn slice_line(&self, row: usize) -> (r: String)
        requires
            line_readable(self.text_chars(), row as nat),
        ensures
            r@ == shown_line(self.text_chars(), row as nat),
    ;

    /// A walk over all shown lines.
    fn iter_lines(&self) -> (r: RopeLines<'_>)
        ensures
            r.text() == self.text_chars(),
            r.next_row() == 0,
            r.end() == line_count(self.text_chars()),
    ;

    /// The number of lines.
    fn lines_len(&self) -> (r: usize)
        ensures
            r == line_count(self.text_chars()),
    ;

    /// The length in bytes of the shown part of line `row`.
    fn line_len(&self, row: usize) -> (r: usize)
        requires
            line_readable(self.text_chars(), row as nat),
        ensures
            r == utf8_len(shown_line(self.text_chars(), row as nat)),
    ;

    /// `offset`, brought within the text. Every offset up to the end is accepted as it
    /// is, whichever way `bias` points.
    fn clip_offset(&self, offset: usize, bias: Bias) -> (r: usize)
        ensures
            r == clipped_offset(self.text_chars(), offset as int),
    ;

    /// The text from the start of the first row of `rows` to the end of the shown part of
    /// its last row; the two byte offsets index the rope's characters.
    fn slice_lines(&self, rows: Range<usize>) -> (r: String)
        requires
            line_readable(self.text_chars(), (if rows.end > 0 { rows.end - 1 } else { 0 }) as nat),
            line_start_offset_of(self.text_chars(), rows.start as nat) <= line_end_offset_of(
                self.text_chars(),
                (if rows.end > 0 { rows.end - 1 } else { 0 }) as nat,
            ) <= self.text_chars().len(),
        ensures
            r@ == self.text_chars().subrange(
                line_start_offset_of(self.text_chars(), rows.start as nat) as int,
                line_end_offset_of(
                    self.text_chars(),
                    (if rows.end > 0 { rows.end - 1 } else { 0 }) as nat,
                ) as int,
            ),
    ;

    /// Replaces the text between two byte offsets, each first brought within the text, by
    /// `new_text`; the rope takes the offsets as character indices.
    fn replace(&mut self, range: Range<usize>, new_text: &str)
        requires
            clipped_offset(old(self).text_chars(), range.start as int) <= clipped_offset(
                old(self).text_chars(),
                range.end as int,
            ) <= old(self).text_chars().len(),
        ensures
            final(self).text_chars() == old(self).text_chars().take(
                clipped_offset(old(self).text_chars(), range.start as int),
            ) + new_text@ + old(self).text_chars().skip(
                clipped_offset(old(self).text_chars(), range.end as int),
            ),
    ;

    /// The character at index `offset`, nothing at or past the end of the text in bytes.
    fn char_at(&self, offset: usize) -> (r: Option<char>)
        requires
            offset < utf8_len(self.text_chars()) ==> offset < self.text_chars().len(),
        ensures
            r == if offset >= utf8_len(self.text_chars()) {
                None
            } else {
                Some(self.text_chars()[offset as int])
            },
    ;

    /// The byte offset of a line and column.
    fn position_to_offset(&self, pos: &Position) -> (r: usize)
        requires
            line_readable(self.text_chars(), pos.line as nat),
        ensures
            r == offset_of_position(self.text_chars(), pos.line as nat, pos.character as nat),
    ;

    /// The line and column of a byte offset.
    fn offset_to_position(&self, offset: usize) -> (r: Position)
        requires
            line_readable(self.text_chars(), position_of(self.text_chars(), offset as int).0),
        ensures
            r.line == position_of(self.text_chars(), offset as int).0 as u32,
            r.character == position_of(self.text_chars(), offset as int).1 as u32,
    ;

    /// The range of the word at `offset` (see [`word_span`]).
    fn word_range(&self, offset: usize) -> (r: Option<Range<usize>>)
        requires
            offset < utf8_len(self.text_chars()) ==> offset <= self.text_chars().len(),
        ensures
            match word_span(self.text_chars(), offset as int) {
                Some((a, b)) => r matches Some(rg) && rg.start == a && rg.end == b,
                None => r is None,
            },
    ;

    /// The text of the word at `offset`, whose range indexes the rope's characters; empty
    /// where there is no word.
    fn word_at(&self, offset: usize) -> (r: String)
        requires
            offset < utf8_len(self.text_chars()) ==> offset <= self.text_chars().len(),
            word_span(self.text_chars(), offset as int) matches Some((a, b)) ==> b
                <= self.text_chars().len(),
        ensures
            r@ == match word_span(self.text_chars(), offset as int) {
                Some((a, b)) => self.text_chars().subrange(a as int, b as int),
                None => Seq::empty(),
            },
    ;

    /// The byte offset of a UTF-16 offset.
    fn offset_utf16_to_offset(&self, offset_utf16: usize) -> (r: usize)
        ensures
            r == utf8_offset_of(self.text_chars(), offset_utf16 as int),
    ;

    /// The UTF-16 offset of a byte offset.
    fn offset_to_offset_utf16(&self, offset: usize) -> (r: usize)
        ensures
            r == utf16_offset_of(self.text_chars(), offset as int),
    ;

    /// The byte offset where character `char_index` starts (the end past the last one).
    fn char_index_to_offset(&self, char_index: usize) -> (r: usize)
        ensures
            r == utf8_len(
                self.text_chars().take(
                    if char_index <= self.text_chars().len() {
                        char_index as int
                    } else {
                        self.text_chars().len() as int
                    },
                ),
            ),
    ;

    /// The number of characters before a byte offset brought within the text, which the
    /// rope reads as a character index.
    fn offset_to_char_index(&self, offset: usize) -> (r: usize)
        requires
            clipped_offset(self.text_chars(), offset as int) <= self.text_chars().len(),
        ensures
            r == clipped_offset(self.text_chars(), offset as int),
    ;
}

impl RopeExt for Rope {
    open spec fn text_chars(&self) -> Seq<char> {
        rope_text(*self)
    }

    fn line_start_offset(&self, row: usize) -> (r: usize) {
        if row >= rope_len_lines(self) {
            return rope_len_bytes(self);
        }
        rope_line_to_byte(self, row)
    }

    fn line_end_offset(&self, row: usize) -> (r: usize) {
        let len = rope_len_bytes(self);
        if row >= rope_len_lines(self) {
            return len;
        }
        proof {
            lemma_shown_line(rope_text(*self), row as nat);
        }
        self.line_start_offset(row) + self.line_len(row)
    }

    fn slice_line(&self, row: usize) -> (r: String) {
        if row >= rope_len_lines(self) {
            return String::new();
        }
        let (start, end, _) = shown_line_bounds(self, row);
        rope_substring(self, start, end)
    }

    fn iter_lines(&self) -> (r: RopeLines<'_>) {
        RopeLines::new(self)
    }

    fn lines_len(&self) -> (r: usize) {
        rope_len_lines(self)
    }

    fn line_len(&self, row: usize) -> (r: usize) {
        if row >= rope_len_lines(self) {
            return 0;
        }
        let (_, _, len) = shown_line_bounds(self, row);
        len
    }

    fn clip_offset(&self, offset: usize, bias: Bias) -> (r: usize) {
        let len = rope_len_bytes(self);
        let offset = if offset < len {
            offset
        } else {
            len
        };
        if rope_try_byte_to_char(self, offset).is_some() {
            return offset;
        }
        let mut check = offset;
        match bias {
            Bias::Left => {
                while check > 0 && rope_try_byte_to_char(self, check).is_none()
                    invariant
                        check <= offset,
                    decreases check,
                {
                    check = check - 1;
                }
            },
            Bias::Right => {
                while check < len && rope_try_byte_to_char(self, check).is_none()
                    invariant
                        offset <= check,
                    decreases len - check,
                {
                    check = check + 1;
                }
            },
        }
        check
    }

    fn slice_lines(&self, rows: Range<usize>) -> (r: String) {
        let start = self.line_start_offset(rows.start);
        let end = self.line_end_offset(rows.end.saturating_sub(1));
        rope_substring(self, start, end)
    }

    fn replace(&mut self, range: Range<usize>, new_text: &str) {
        let ghost t = rope_text(*self);
        let start = self.clip_offset(range.start, Bias::Left);
        let end = self.clip_offset(range.end, Bias::Right);
        rope_remove(self, start, end);
        let ghost mid = rope_text(*self);
        assert(mid.take(start as int) =~= t.take(start as int));
        assert(mid.skip(start as int) =~= t.skip(end as int));
        rope_insert(self, start, new_text);
    }

    fn char_at(&self, offset: usize) -> (r: Option<char>) {
        if offset >= rope_len_bytes(self) {
            return None;
        }
        Some(rope_char(self, offset))
    }

    fn position_to_offset(&self, pos: &Position) -> (r: usize) {
        let ghost t = rope_text(*self);
        let row = pos.line as usize;
        let len = rope_len_bytes(self);
        let start = self.line_start_offset(row);
        if row >= rope_len_lines(self) {
            assert(shown_line(t, row as nat).take(0) =~= Seq::<char>::empty());
            assert(utf8_len(Seq::<char>::empty()) == 0);
            return start;
        }
        let (first, past, _) = shown_line_bounds(self, row);
        let limit = pos.character as usize;
        let k = if limit < past - first {
            limit
        } else {
            past - first
        };
        let mut width: usize = 0;
        let mut i: usize = 0;
        proof {
            lemma_utf8_len_take(t, first as int, first as int);
            assert(t.subrange(first as int, first as int) =~= Seq::<char>::empty());
        }
        while i < k
            invariant
                first + k <= past <= t.len(),
                t == rope_text(*self),
                len == utf8_len(t),
                i <= k,
                start == utf8_len(t.take(first as int)),
                start + width == utf8_len(t.take(first + i)),
            decreases k - i,
        {
            let c = rope_char(self, first + i);
            proof {
                assert(t.take(first + i + 1).drop_last() =~= t.take(first + i));
                lemma_utf8_len_take(t, 0, first + i + 1);
            }
            width = width + crate::text::utf8_width_exec(c) as usize;
            i = i + 1;
        }
        proof {
            lemma_utf8_len_take(t, first as int, first + k);
            assert(shown_line(t, row as nat).take(k as int) =~= t.subrange(first as int, first + k));
        }
        start + width
    }

    fn offset_to_position(&self, offset: usize) -> (r: Position) {
        let ghost t = rope_text(*self);
        let offset = self.clip_offset(offset, Bias::Left);
        let row = rope_byte_to_line(self, offset);
        proof {
            lemma_chars_within_bound(t, offset as int);
            lemma_line_of_mono(t, chars_within(t, offset as int) as int, t.len() as int);
        }
        let line_start = rope_line_to_byte(self, row);
        let column = offset.saturating_sub(line_start);
        let line_len = self.line_len(row);
        let character = if column < line_len {
            column
        } else {
            line_len
        };
        Position::new(row as u32, character as u32)
    }

    fn word_range(&self, offset: usize) -> (r: Option<Range<usize>>) {
        let ghost t = rope_text(*self);
        let len = rope_len_bytes(self);
        if offset >= len {
            return None;
        }
        let offset = self.clip_offset(offset, Bias::Left);
        let mut j = offset;
        let mut left: usize = 0;
        let mut scanning = true;
        proof {
            assert(t.subrange(offset as int, offset as int) =~= Seq::<char>::empty());
            assert(utf8_len(Seq::<char>::empty()) == 0);
        }
        while scanning && j > 0
            invariant
                t == rope_text(*self),
                len == utf8_len(t),
                j <= offset <= t.len(),
                word_run_start(t, offset as int) == word_run_start(t, j as int),
                left == utf8_len(t.subrange(j as int, offset as int)),
                !scanning ==> j > 0 && !is_word_char(t[j - 1]),
            decreases j + if scanning {
                1int
            } else {
                0int
            },
        {
            let c = rope_char(self, j - 1);
            if char_is_alphanumeric(c) || c == '_' {
                proof {
                    assert(t.subrange(j - 1, offset as int) =~= seq![c] + t.subrange(
                        j as int,
                        offset as int,
                    ));
                    crate::text::lemma_utf8_len_cons(c, t.subrange(j as int, offset as int));
                    lemma_utf8_len_take(t, j - 1, offset as int);
                    lemma_utf8_len_take(t, 0, offset as int);
                }
                left = left + crate::text::utf8_width_exec(c) as usize;
                j = j - 1;
            } else {
                scanning = false;
            }
        }
        let start = offset.saturating_sub(left);
        let n = rope_len_chars(self);
        let mut m = offset;
        let mut right: usize = 0;
        scanning = true;
        proof {
            lemma_utf8_len_lower(t.take(offset as int));
            lemma_utf8_len_take(t, 0, offset as int);
        }
        while scanning && m < n
            invariant
                t == rope_text(*self),
                len == utf8_len(t),
                n == t.len(),
                offset <= m <= n,
                word_run_end(t, offset as int) == word_run_end(t, m as int),
                right == utf8_len(t.subrange(offset as int, m as int)),
                offset + right <= utf8_len(t.take(m as int)),
                utf8_len(t.take(m as int)) <= len,
                !scanning ==> m < n && !is_word_char(t[m as int]),
            decreases n - m + if scanning {
                1int
            } else {
                0int
            },
        {
            let c = rope_char(self, m);
            if char_is_alphanumeric(c) || c == '_' {
                proof {
                    assert(t.subrange(offset as int, m + 1).drop_last() =~= t.subrange(
                        offset as int,
                        m as int,
                    ));
                    assert(t.take(m + 1).drop_last() =~= t.take(m as int));
                    lemma_utf8_len_take(t, 0, m + 1);
                }
                right = right + crate::text::utf8_width_exec(c) as usize;
                m = m + 1;
            } else {
                scanning = false;
            }
        }
        let end = offset + right;
        if start == end {
            None
        } else {
            Some(start..end)
        }
    }

    fn word_at(&self, offset: usize) -> (r: String) {
        match self.word_range(offset) {
            Some(range) => rope_substring(self, range.start, range.end),
            None => String::new(),
        }
    }

    fn offset_utf16_to_offset(&self, offset_utf16: usize) -> (r: usize) {
        let ghost t = rope_text(*self);
        let chars = rope_chars(self);
        let len = rope_len_bytes(self);
        let offset = utf8_offset_exec(&chars, offset_utf16);
        proof {
            crate::text_field::lemma_chars_at_bound(t, offset_utf16 as int);
            lemma_utf8_len_take(
                t,
                0,
                crate::text_field::chars_at_utf16(t, offset_utf16 as int) as int,
            );
        }
        if offset < len {
            offset
        } else {
            len
        }
    }

    fn offset_to_offset_utf16(&self, offset: usize) -> (r: usize) {
        let chars = rope_chars(self);
        let _len = rope_len_bytes(self);
        utf16_offset_exec(&chars, offset)
    }

    fn char_index_to_offset(&self, char_index: usize) -> (r: usize) {
        let ghost t = rope_text(*self);
        let n = rope_len_chars(self);
        let len = rope_len_bytes(self);
        let k = if char_index < n {
            char_index
        } else {
            n
        };
        let mut total: usize = 0;
        let mut i: usize = 0;
        assert(t.take(0) =~= Seq::<char>::empty());
        while i < k
            invariant
                t == rope_text(*self),
                len == utf8_len(t),
                k <= n == t.len(),
                i <= k,
                total == utf8_len(t.take(i as int)),
            decreases k - i,
        {
            let c = rope_char(self, i);
            proof {
                assert(t.take(i + 1).drop_last() =~= t.take(i as int));
                lemma_utf8_len_take(t, 0, i + 1);
            }
            total = total + crate::text::utf8_width_exec(c) as usize;
            i = i + 1;
        }
        total
    }

    fn offset_to_char_index(&self, offset: usize) -> (r: usize) {
        self.clip_offset(offset, Bias::Right)
    }
}

// ---------------------------------------------------------------------------
// Walking the lines
// ---------------------------------------------------------------------------

/// A walk over the shown lines of a rope, from a row up to an end row.
pub struct RopeLines<'a> {
    rope: &'a Rope,
    row: usize,
    end_row: usize,
}

impl<'a> RopeLines<'a> {
    /// The text walked.
    pub closed spec fn text(&self) -> Seq<char> {
        rope_text(*self.rope)
    }

    /// The next row to hand out.
    pub closed spec fn next_row(&self) -> usize {
        self.row
    }

    /// The row the walk stops at.
    pub closed spec fn end(&self) -> usize {
        self.end_row
    }

    /// A walk over all lines of `rope`.
    pub fn new(rope: &'a Rope) -> (r: Self)
        ensures
            r.text() == rope_text(*rope),
            r.next_row() == 0,
            r.end() == line_count(rope_text(*rope)),
    {
        let end_row = rope.lines_len();
        Self { row: 0, end_row, rope }
    }

    /// The next shown line, nothing once the end row is reached.
    pub fn next(&mut self) -> (r: Option<String>)
        requires
            old(self).next_row() < old(self).end() ==> line_readable(
                old(self).text(),
                old(self).next_row() as nat,
            ),
        ensures
            final(self).text() == old(self).text(),
            final(self).end() == old(self).end(),
            if old(self).next_row() >= old(self).end() {
                r is None && final(self).next_row() == old(self).next_row()
            } else {
                &&& r matches Some(line) && line@ == shown_line(old(self).text(), old(self).next_row() as nat)
                &&& final(self).next_row() == old(self).next_row() + 1
            },
    {
        if self.row >= self.end_row {
            return None;
        }
        let line = self.rope.slice_line(self.row);
        self.row = self.row + 1;
        Some(line)
    }

    /// Skips `n` rows (stopping at the largest row), then hands out the next line.
    pub fn nth(&mut self, n: usize) -> (r: Option<String>)
        requires
            ({
                let row = if old(self).next_row() + n <= usize::MAX {
                    (old(self).next_row() + n) as usize
                } else {
                    usize::MAX
                };
                row < old(self).end() ==> line_readable(old(self).text(), row as nat)
            }),
        ensures
            ({
                let row = if old(self).next_row() + n <= usize::MAX {
                    (old(self).next_row() + n) as usize
                } else {
                    usize::MAX
                };
                &&& final(self).text() == old(self).text()
                &&& final(self).end() == old(self).end()
                &&& if row >= old(self).end() {
                    r is None && final(self).next_row() == row
                } else {
                    &&& r matches Some(line) && line@ == shown_line(old(self).text(), row as nat)
                    &&& final(self).next_row() == row + 1
                }
            }),
    {
        self.row = self.row.saturating_add(n);
        self.next()
    }

    /// The number of lines left, exactly.
    pub fn size_hint(&self) -> (r: (usize, Option<usize>))
        requires
            self.next_row() <= self.end(),
        ensures
            r.0 == self.end() - self.next_row(),
            r.1 == Some(r.0),
    {
        let len = self.end_row - self.row;
        (len, Some(len))
    }
}

// ---------------------------------------------------------------------------
// Laws
// ---------------------------------------------------------------------------

/// The search for a line start stops at the first index on that line or later, or at the
/// end of the text.
proof fn lemma_first_on_line_spec(s: Seq<char>, n: nat, k0: int)
    requires
        0 <= k0 <= s.len(),
    ensures
        k0 <= first_on_line(s, n, k0) <= s.len(),
        first_on_line(s, n, k0) < s.len() ==> line_of(s, first_on_line(s, n, k0) as int) >= n,
        forall|i: int| k0 <= i < first_on_line(s, n, k0) ==> line_of(s, i) < n,
    decreases s.len() - k0,
{
    if k0 < s.len() && line_of(s, k0) < n {
        lemma_first_on_line_spec(s, n, k0 + 1);
    }
}

/// An index lies on the line that its count of line breaks names: from the line's start,
/// and before the next line's start unless it is the end of the text.
proof fn lemma_index_on_its_line(s: Seq<char>, k: int)
    requires
        0 <= k <= s.len(),
    ensures
        line_start(s, line_of(s, k)) <= k <= line_start(s, line_of(s, k) + 1),
        k < line_start(s, line_of(s, k) + 1) || k == s.len(),
        line_of(s, k) < line_count(s),
{
    let row = line_of(s, k);
    lemma_first_on_line_spec(s, row, 0);
    lemma_first_on_line_spec(s, row + 1, 0);
    lemma_line_of_mono(s, k, s.len() as int);
    let ls1 = line_start(s, row + 1) as int;
    if ls1 <= k && ls1 < s.len() {
        lemma_line_of_mono(s, ls1, k);
    }
}

/// In a text with as many bytes as characters, every character is one byte, and so is
/// every prefix's length.
pub(crate) proof fn lemma_single_bytes(x: Seq<char>, j: int)
    requires
        utf8_len(x) == x.len(),
        0 <= j <= x.len(),
    ensures
        utf8_len(x.take(j)) == j,
{
    assert(x =~= x.take(j) + x.skip(j));
    lemma_utf8_len_concat(x.take(j), x.skip(j));
    lemma_utf8_len_lower(x.take(j));
    lemma_utf8_len_lower(x.skip(j));
}

/// On a line whose characters are single bytes, a byte offset within the text converts to
/// a line and column and back to itself.
pub proof fn lemma_position_roundtrip(s: Seq<char>, offset: nat)
    requires
        offset <= utf8_len(s),
        line_readable(s, position_of(s, offset as int).0),
    ensures
        offset_of_position(s, position_of(s, offset as int).0, position_of(s, offset as int).1)
            == offset,
{
    let k = chars_within(s, offset as int) as int;
    lemma_chars_within_bound(s, offset as int);
    let row = line_of(s, k);
    lemma_index_on_its_line(s, k);
    lemma_shown_line(s, row);
    let ls = line_start(s, row) as int;
    let ls1 = line_start(s, row + 1) as int;
    let ln = line_chars(s, row);
    lemma_utf8_len_take(s, ls, k);
    assert(s.subrange(ls, k) =~= ln.take(k - ls));
    lemma_single_bytes(ln, k - ls);
    // The offset is where character `k` starts.
    if (offset as int) < utf8_len(s) {
        lemma_chars_within_next(s, offset as int);
        assert(s.take(k + 1).drop_last() =~= s.take(k));
        assert(s[k] == ln[k - ls]);
        lemma_single_bytes(ln, k - ls + 1);
        assert(ln.take(k - ls + 1).drop_last() =~= ln.take(k - ls));
    } else {
        lemma_chars_within_prefix(s, s.len() as int);
        assert(s.take(s.len() as int) =~= s);
    }
    assert(offset == utf8_len(s.take(ls)) + (k - ls));
    // The column is within the shown line.
    let shown = shown_line(s, row);
    if k == s.len() && ln.len() > 0 && ln[ln.len() - 1] == '\n' {
        assert(ls1 == s.len());
        assert(ends_break(s, s.len() - 1));
        lemma_first_on_line_spec(s, row, 0);
        lemma_line_of_mono(s, ls, s.len() - 1);
    }
    assert(k - ls <= shown.len());
    assert(shown.take(k - ls) =~= ln.take(k - ls));
}

} // verus!

