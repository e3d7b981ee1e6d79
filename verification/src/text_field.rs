//! The single-field text inputs (clip times, subtitle search): their content, and the
//! conversion between the UTF-16 offsets the platform's input handler speaks and the
//! UTF-8 byte offsets of the content.
use vstd::prelude::*;

use crate::timestamp::{clip_time_fits, clip_time_ms};
use crate::text::{
    chars_of, lemma_utf8_len_cons, push_chars, slice_to_vec, string_of, utf8_len, utf8_width,
    utf8_width_exec,
};

verus! {

/// The number of UTF-16 code units of `c`.
pub open spec fn utf16_width(c: char) -> nat {
    if (c as u32) >= 0x10000 {
        2
    } else {
        1
    }
}

/// The number of UTF-16 code units of `s`.
pub open spec fn utf16_len(s: Seq<char>) -> nat
    decreases s.len(),
{
    if s.len() == 0 {
        0
    } else {
        utf16_len(s.drop_last()) + utf16_width(s.last())
    }
}

/// How many characters of `s` a UTF-16 offset `off` reaches: characters are taken while
/// the code units taken so far stay below `off`.
pub open spec fn chars_at_utf16(s: Seq<char>, off: int) -> nat
    decreases s.len(),
{
    if s.len() == 0 || off <= 0 {
        0
    } else {
        1 + chars_at_utf16(s.drop_first(), off - utf16_width(s[0]))
    }
}

/// How many characters of `s` a UTF-8 byte offset `off` reaches: characters are taken
/// while the bytes taken so far stay below `off`.
pub open spec fn chars_at_utf8(s: Seq<char>, off: int) -> nat
    decreases s.len(),
{
    if s.len() == 0 || off <= 0 {
        0
    } else {
        1 + chars_at_utf8(s.drop_first(), off - utf8_width(s[0]))
    }
}

/// The byte offset in `s` of the UTF-16 offset `off`.
pub open spec fn utf8_offset_of(s: Seq<char>, off: int) -> nat {
    utf8_len(s.take(chars_at_utf16(s, off) as int))
}

/// The UTF-16 offset in `s` of the byte offset `off`.
pub open spec fn utf16_offset_of(s: Seq<char>, off: int) -> nat {
    utf16_len(s.take(chars_at_utf8(s, off) as int))
}

pub proof fn lemma_utf16_len_cons(c: char, a: Seq<char>)
    ensures
        utf16_len(seq![c] + a) == utf16_width(c) + utf16_len(a),
    decreases a.len(),
{
    if a.len() == 0 {
        assert((seq![c] + a).drop_last() =~= Seq::<char>::empty());
        assert(utf16_len(Seq::<char>::empty()) == 0);
    } else {
        assert((seq![c] + a).drop_last() =~= seq![c] + a.drop_last());
        lemma_utf16_len_cons(c, a.drop_last());
    }
}

pub(crate) proof fn lemma_chars_at_bound(s: Seq<char>, off: int)
    ensures
        chars_at_utf16(s, off) <= s.len(),
        chars_at_utf8(s, off) <= s.len(),
    decreases s.len(),
{
    if s.len() > 0 {
        lemma_chars_at_bound(s.drop_first(), off - utf16_width(s[0]));
        lemma_chars_at_bound(s.drop_first(), off - utf8_width(s[0]));
    }
}

/// Each character takes no more UTF-16 units than bytes; so does every prefix, which
/// takes no more bytes than the whole.
pub(crate) proof fn lemma_prefix_lengths(s: Seq<char>, i: int)
    requires
        0 <= i <= s.len(),
    ensures
        utf16_len(s.take(i)) <= utf8_len(s.take(i)),
        utf8_len(s.take(i)) <= utf8_len(s),
    decreases s.len() - i,
{
    if i < s.len() {
        lemma_prefix_lengths(s, i + 1);
        assert(s.take(i + 1).drop_last() =~= s.take(i));
    } else {
        assert(s.take(i) =~= s);
    }
    lemma_utf16_le_utf8(s.take(i));
}

proof fn lemma_utf16_le_utf8(s: Seq<char>)
    ensures
        utf16_len(s) <= utf8_len(s),
    decreases s.len(),
{
    if s.len() > 0 {
        lemma_utf16_le_utf8(s.drop_last());
    }
}

/// The byte offset of a UTF-16 offset into `s`.
pub fn utf8_offset_exec(s: &[char], off: usize) -> (r: usize)
    requires
        utf8_len(s@) <= usize::MAX,
    ensures
        r == utf8_offset_of(s@, off as int),
{
    let n = s.len();
    let mut i: usize = 0;
    let mut count16: usize = 0;
    let mut count8: usize = 0;
    assert(s@.skip(0) =~= s@);
    while i < n && count16 < off
        invariant
            n == s@.len(),
            i <= n,
            utf8_len(s@) <= usize::MAX,
            count8 == utf8_len(s@.take(i as int)),
            count16 == utf16_len(s@.take(i as int)),
            chars_at_utf16(s@, off as int) == i + chars_at_utf16(s@.skip(i as int), off - count16),
        decreases n - i,
    {
        proof {
            lemma_prefix_lengths(s@, i + 1);
            assert(s@.take(i + 1).drop_last() =~= s@.take(i as int));
            let t = s@.skip(i as int);
            assert(t[0] == s@[i as int]);
            assert(t.drop_first() =~= s@.skip(i + 1));
        }
        count16 = count16 + utf16_width_exec(s[i]);
        count8 = count8 + utf8_width_exec(s[i]) as usize;
        i = i + 1;
    }
    proof {
        if i == n {
            assert(s@.skip(n as int).len() == 0);
        }
    }
    count8
}

/// The UTF-16 offset of a byte offset into `s`.
pub fn utf16_offset_exec(s: &[char], off: usize) -> (r: usize)
    requires
        utf8_len(s@) <= usize::MAX,
    ensures
        r == utf16_offset_of(s@, off as int),
{
    let n = s.len();
    let mut i: usize = 0;
    let mut count16: usize = 0;
    let mut count8: usize = 0;
    assert(s@.skip(0) =~= s@);
    while i < n && count8 < off
        invariant
            n == s@.len(),
            i <= n,
            utf8_len(s@) <= usize::MAX,
            count8 == utf8_len(s@.take(i as int)),
            count16 == utf16_len(s@.take(i as int)),
            chars_at_utf8(s@, off as int) == i + chars_at_utf8(s@.skip(i as int), off - count8),
        decreases n - i,
    {
        proof {
            lemma_prefix_lengths(s@, i + 1);
            assert(s@.take(i + 1).drop_last() =~= s@.take(i as int));
            let t = s@.skip(i as int);
            assert(t[0] == s@[i as int]);
            assert(t.drop_first() =~= s@.skip(i + 1));
        }
        count16 = count16 + utf16_width_exec(s[i]);
        count8 = count8 + utf8_width_exec(s[i]) as usize;
        i = i + 1;
    }
    proof {
        if i == n {
            assert(s@.skip(n as int).len() == 0);
        }
    }
    count16
}

/// The number of UTF-16 code units of `c`.
pub fn utf16_width_exec(c: char) -> (r: usize)
    ensures
        r == utf16_width(c),
{
    if (c as u32) >= 0x10000 {
        2
    } else {
        1
    }
}

/// `s` with the text of the UTF-16 range `range` (its end when none is given) replaced by
/// `new_text`.
pub open spec fn replaced(s: Seq<char>, range: Option<(usize, usize)>, new_text: Seq<char>) -> Seq<
    char,
> {
    match range {
        Some((a, b)) => s.take(chars_at_utf16(s, a as int) as int) + new_text + s.skip(
            chars_at_utf16(s, b as int) as int,
        ),
        None => s + new_text,
    }
}

/// The content of a single-field text input (the subtitle search box, the clip time
/// fields), with whether Enter inserts a line break, its placeholder, and whether it fills
/// the height it is given.
pub struct TextField {
    content: String,
    placeholder: String,
    multiline: bool,
    fill_height: bool,
}

/// The subtitle search box.
pub type SearchInput = TextField;

/// A clip time field (`MM:SS.mmm`).
pub type TimeInput = TextField;

impl TextField {
    /// The content.
    pub closed spec fn text(&self) -> Seq<char> {
        self.content@
    }

    /// Whether Enter inserts a line break.
    pub closed spec fn is_multiline(&self) -> bool {
        self.multiline
    }

    /// The text shown while the field is empty.
    pub closed spec fn placeholder_text(&self) -> Seq<char> {
        self.placeholder@
    }

    /// Whether the field fills the height it is given.
    pub closed spec fn fills_height(&self) -> bool {
        self.fill_height
    }

    /// The content's length in bytes fits in a `usize`, as it does for every `String`.
    pub open spec fn wf(&self) -> bool {
        utf8_len(self.text()) <= usize::MAX
    }

    /// An empty single-line field.
    pub fn new() -> (r: Self)
        ensures
            r.wf(),
            r.text() == Seq::<char>::empty(),
            r.placeholder_text() == Seq::<char>::empty(),
            !r.is_multiline(),
            !r.fills_height(),
    {
        TextField {
            content: String::new(),
            placeholder: String::new(),
            multiline: false,
            fill_height: false,
        }
    }

    pub fn set_placeholder(&mut self, placeholder: String)
        ensures
            final(self).placeholder_text() == placeholder@,
            final(self).text() == old(self).text(),
            final(self).is_multiline() == old(self).is_multiline(),
            final(self).fills_height() == old(self).fills_height(),
    {
        self.placeholder = placeholder;
    }

    pub fn set_fill_height(&mut self, fill_height: bool)
        ensures
            final(self).fills_height() == fill_height,
            final(self).text() == old(self).text(),
            final(self).is_multiline() == old(self).is_multiline(),
            final(self).placeholder_text() == old(self).placeholder_text(),
    {
        self.fill_height = fill_height;
    }

    /// The clip time the content holds, in milliseconds; `None` when it holds none.
    pub fn parse_time_ms(&self) -> (r: Option<u64>)
        requires
            clip_time_fits(self.text()),
        ensures
            r == clip_time_ms(self.text()),
    {
        crate::timestamp::parse_time_ms(self.content.as_str())
    }

    /// Whether the content is acceptable as a clip time: empty, or a clip time.
    pub fn is_valid(&self) -> (r: bool)
        requires
            clip_time_fits(self.text()),
        ensures
            r == (self.text().len() == 0 || clip_time_ms(self.text()) is Some),
    {
        crate::timestamp::is_valid_time(self.content.as_str())
    }

    pub fn content(&self) -> (r: String)
        ensures
            r@ == self.text(),
    {
        String::from_str(self.content.as_str())
    }

    pub fn set_multiline(&mut self, multiline: bool)
        ensures
            final(self).is_multiline() == multiline,
            final(self).text() == old(self).text(),
            final(self).placeholder_text() == old(self).placeholder_text(),
            final(self).fills_height() == old(self).fills_height(),
    {
        self.multiline = multiline;
    }

    pub fn set_content(&mut self, content: String)
        requires
            utf8_len(content@) <= usize::MAX,
        ensures
            final(self).wf(),
            final(self).text() == content@,
            final(self).is_multiline() == old(self).is_multiline(),
            final(self).placeholder_text() == old(self).placeholder_text(),
            final(self).fills_height() == old(self).fills_height(),
    {
        self.content = content;
    }

    pub fn clear(&mut self)
        ensures
            final(self).wf(),
            final(self).text() == Seq::<char>::empty(),
            final(self).is_multiline() == old(self).is_multiline(),
            final(self).placeholder_text() == old(self).placeholder_text(),
            final(self).fills_height() == old(self).fills_height(),
    {
        self.content = String::new();
    }

    /// Removes the last character, if any.
    pub fn backspace(&mut self)
        requires
            old(self).wf(),
        ensures
            final(self).wf(),
            final(self).text() == if old(self).text().len() > 0 {
                old(self).text().drop_last()
            } else {
                old(self).text()
            },
            final(self).is_multiline() == old(self).is_multiline(),
            final(self).placeholder_text() == old(self).placeholder_text(),
            final(self).fills_height() == old(self).fills_height(),
    {
        let c = chars_of(self.content.as_str());
        if c.len() > 0 {
            let kept = slice_to_vec(&c, 0, c.len() - 1);
            assert(kept@ =~= c@.drop_last());
            proof {
                assert(c@.drop_last() =~= c@.take(c@.len() - 1));
                lemma_prefix_lengths(c@, c@.len() - 1);
            }
            self.content = string_of(&kept);
        }
    }

    /// Enter: a line break in a multi-line field, nothing otherwise.
    pub fn insert_newline(&mut self)
        requires
            old(self).wf(),
            utf8_len(old(self).text()) < usize::MAX,
        ensures
            final(self).wf(),
            final(self).text() == if old(self).is_multiline() {
                old(self).text().push('\n')
            } else {
                old(self).text()
            },
            final(self).is_multiline() == old(self).is_multiline(),
            final(self).placeholder_text() == old(self).placeholder_text(),
            final(self).fills_height() == old(self).fills_height(),
    {
        if self.multiline {
            crate::text::push_char(&mut self.content, '\n');
            proof {
                assert(self.content@.drop_last() =~= old(self).content@);
            }
        }
    }

    /// The byte offset of a UTF-16 offset into the content.
    pub fn offset_from_utf16(&self, offset: usize) -> (r: usize)
        requires
            self.wf(),
        ensures
            r == utf8_offset_of(self.text(), offset as int),
    {
        let c = chars_of(self.content.as_str());
        utf8_offset_exec(&c, offset)
    }

    /// The UTF-16 offset of a byte offset into the content.
    pub fn offset_to_utf16(&self, offset: usize) -> (r: usize)
        requires
            self.wf(),
        ensures
            r == utf16_offset_of(self.text(), offset as int),
    {
        let c = chars_of(self.content.as_str());
        utf16_offset_exec(&c, offset)
    }

    /// The byte range of a UTF-16 range.
    pub fn range_from_utf16(&self, range_utf16: (usize, usize)) -> (r: (usize, usize))
        requires
            self.wf(),
        ensures
            r == (
                utf8_offset_of(self.text(), range_utf16.0 as int) as usize,
                utf8_offset_of(self.text(), range_utf16.1 as int) as usize,
            ),
    {
        (self.offset_from_utf16(range_utf16.0), self.offset_from_utf16(range_utf16.1))
    }

    /// The UTF-16 range of a byte range.
    pub fn range_to_utf16(&self, range: (usize, usize)) -> (r: (usize, usize))
        requires
            self.wf(),
        ensures
            r == (
                utf16_offset_of(self.text(), range.0 as int) as usize,
                utf16_offset_of(self.text(), range.1 as int) as usize,
            ),
    {
        (self.offset_to_utf16(range.0), self.offset_to_utf16(range.1))
    }

    /// The text of a UTF-16 range, with the UTF-16 range it actually covers (whole
    /// characters).
    pub fn text_for_range(&self, range_utf16: (usize, usize)) -> (r: (String, (usize, usize)))
        requires
            self.wf(),
            chars_at_utf16(self.text(), range_utf16.0 as int) <= chars_at_utf16(
                self.text(),
                range_utf16.1 as int,
            ),
        ensures
            r.0@ == self.text().subrange(
                chars_at_utf16(self.text(), range_utf16.0 as int) as int,
                chars_at_utf16(self.text(), range_utf16.1 as int) as int,
            ),
            r.1 == (
                utf16_len(self.text().take(chars_at_utf16(self.text(), range_utf16.0 as int) as int))
                    as usize,
                utf16_len(self.text().take(chars_at_utf16(self.text(), range_utf16.1 as int) as int))
                    as usize,
            ),
    {
        let c = chars_of(self.content.as_str());
        let k1 = chars_at_utf16_exec(&c, range_utf16.0);
        let k2 = chars_at_utf16_exec(&c, range_utf16.1);
        let part = slice_to_vec(&c, k1, k2);
        let a = utf16_len_prefix(&c, k1);
        let b = utf16_len_prefix(&c, k2);
        (string_of(&part), (a, b))
    }

    /// The UTF-16 range of the selection: the caret at the end of the content.
    pub fn selected_text_range(&self) -> (r: (usize, usize))
        requires
            self.wf(),
        ensures
            r.0 == r.1,
            r.0 == utf16_len(self.text()),
    {
        let c = chars_of(self.content.as_str());
        let n = c.len();
        let r = utf16_len_prefix(&c, n);
        assert(c@.take(n as int) =~= c@);
        (r, r)
    }

    /// Replaces the text of a UTF-16 range (the end of the content when none is given) by
    /// `new_text`.
    pub fn replace_text_in_range(&mut self, range_utf16: Option<(usize, usize)>, new_text: &str)
        requires
            old(self).wf(),
            utf8_len(replaced(old(self).text(), range_utf16, new_text@)) <= usize::MAX,
        ensures
            final(self).wf(),
            final(self).text() == replaced(old(self).text(), range_utf16, new_text@),
            final(self).is_multiline() == old(self).is_multiline(),
            final(self).placeholder_text() == old(self).placeholder_text(),
            final(self).fills_height() == old(self).fills_height(),
    {
        let c = chars_of(self.content.as_str());
        let n = c.len();
        let (k1, k2) = match range_utf16 {
            Some((a, b)) => (chars_at_utf16_exec(&c, a), chars_at_utf16_exec(&c, b)),
            None => (n, n),
        };
        let head = slice_to_vec(&c, 0, k1);
        let tail = slice_to_vec(&c, k2, n);
        let mut out = string_of(&head);
        out.append(new_text);
        push_chars(&mut out, &tail);
        proof {
            assert(head@ =~= c@.take(k1 as int));
            assert(tail@ =~= c@.skip(k2 as int));
            assert(c@.take(n as int) =~= c@);
            assert(c@.skip(n as int) =~= Seq::<char>::empty());
        }
        self.content = out;
    }

    /// The byte index reported for any point: the end of the content.
    pub fn character_index_for_point(&self) -> (r: usize)
        requires
            self.wf(),
        ensures
            r == utf8_len(self.text()),
    {
        let c = chars_of(self.content.as_str());
        let n = c.len();
        let r = utf8_offset_exec(&c, usize::MAX);
        proof {
            lemma_chars_at_all(c@, usize::MAX as int);
            assert(c@.take(n as int) =~= c@);
        }
        r
    }
}

/// A UTF-16 offset at least the text's length in code units reaches all of it.
proof fn lemma_chars_at_all(s: Seq<char>, off: int)
    requires
        off >= utf8_len(s),
    ensures
        chars_at_utf16(s, off) == s.len(),
    decreases s.len(),
{
    if s.len() > 0 {
        assert(s =~= seq![s[0]] + s.drop_first());
        lemma_utf8_len_cons(s[0], s.drop_first());
        assert(utf8_width(s[0]) >= 1);
        assert(utf16_width(s[0]) <= utf8_width(s[0]));
        lemma_chars_at_all(s.drop_first(), off - utf16_width(s[0]));
    }
}

/// How many characters of `s` the UTF-16 offset `off` reaches.
fn chars_at_utf16_exec(s: &[char], off: usize) -> (r: usize)
    ensures
        r == chars_at_utf16(s@, off as int),
        r <= s@.len(),
{
    let n = s.len();
    let mut i: usize = 0;
    let mut left: usize = off;
    assert(s@.skip(0) =~= s@);
    while i < n && left > 0
        invariant
            n == s@.len(),
            i <= n,
            left <= off,
            chars_at_utf16(s@, off as int) == i + chars_at_utf16(s@.skip(i as int), left as int),
        decreases n - i,
    {
        let w = utf16_width_exec(s[i]);
        proof {
            let t = s@.skip(i as int);
            assert(t[0] == s@[i as int]);
            assert(t.drop_first() =~= s@.skip(i + 1));
            if w > left {
                assert(chars_at_utf16(s@.skip(i + 1), left - w) == 0) by {
                    reveal_with_fuel(chars_at_utf16, 2);
                }
            }
        }
        left = if w > left {
            0
        } else {
            left - w
        };
        i = i + 1;
    }
    proof {
        lemma_chars_at_bound(s@, off as int);
        if i == n {
            assert(s@.skip(n as int).len() == 0);
        }
    }
    i
}

/// The number of UTF-16 code units of the first `k` characters of `s`.
fn utf16_len_prefix(s: &[char], k: usize) -> (r: usize)
    requires
        k <= s@.len(),
        utf8_len(s@) <= usize::MAX,
    ensures
        r == utf16_len(s@.take(k as int)),
{
    let mut i: usize = 0;
    let mut total: usize = 0;
    while i < k
        invariant
            k <= s@.len(),
            i <= k,
            utf8_len(s@) <= usize::MAX,
            total == utf16_len(s@.take(i as int)),
        decreases k - i,
    {
        proof {
            lemma_prefix_lengths(s@, i + 1);
            assert(s@.take(i + 1).drop_last() =~= s@.take(i as int));
        }
        total = total + utf16_width_exec(s[i]);
        i = i + 1;
    }
    total
}

// ---------------------------------------------------------------------------
// Laws
// ---------------------------------------------------------------------------

/// At a character boundary the conversions are inverse: the UTF-16 offset of the first
/// `k` characters converts to their byte offset, and back.
pub proof fn lemma_offsets_roundtrip(s: Seq<char>, k: int)
    requires
        0 <= k <= s.len(),
    ensures
        utf8_offset_of(s, utf16_len(s.take(k)) as int) == utf8_len(s.take(k)),
        utf16_offset_of(s, utf8_len(s.take(k)) as int) == utf16_len(s.take(k)),
{
    lemma_chars_at_utf16_prefix(s, k);
    lemma_chars_at_utf8_prefix(s, k);
}

proof fn lemma_chars_at_utf16_prefix(s: Seq<char>, k: int)
    requires
        0 <= k <= s.len(),
    ensures
        chars_at_utf16(s, utf16_len(s.take(k)) as int) == k,
    decreases k,
{
    if k > 0 {
        let t = s.drop_first();
        assert(s.take(k) =~= seq![s[0]] + t.take(k - 1));
        lemma_utf16_len_cons(s[0], t.take(k - 1));
        lemma_chars_at_utf16_prefix(t, k - 1);
    } else {
        assert(s.take(0) =~= Seq::<char>::empty());
        assert(utf16_len(Seq::<char>::empty()) == 0);
    }
}

proof fn lemma_chars_at_utf8_prefix(s: Seq<char>, k: int)
    requires
        0 <= k <= s.len(),
    ensures
        chars_at_utf8(s, utf8_len(s.take(k)) as int) == k,
    decreases k,
{
    if k > 0 {
        let t = s.drop_first();
        assert(s.take(k) =~= seq![s[0]] + t.take(k - 1));
        lemma_utf8_len_cons(s[0], t.take(k - 1));
        assert(utf8_width(s[0]) >= 1);
        lemma_chars_at_utf8_prefix(t, k - 1);
    } else {
        assert(s.take(0) =~= Seq::<char>::empty());
        assert(utf8_len(Seq::<char>::empty()) == 0);
    }
}

} // verus!
