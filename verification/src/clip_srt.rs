//! SRT text written from subtitle entries reads back as those entries; in particular the
//! clip tab's text reaches the player as the subtitles it was made from: the cues of a
//! clip, converted to SRT by the custom-subtitle conversion, read back as the entries that
//! overlap the clip.
use vstd::prelude::*;

use crate::decimal::{
    decimal_digits, is_digit, lemma_decimal_digits, lemma_padded, lemma_parse_padded, padded,
};
use crate::srt::{
    arrow, is_blank, is_index_line, join_lines, lemma_timecode_roundtrip, srt_entries,
    entry_views, srt_entries_from, srt_fits, srt_fits_from, text_end, timecode_text, timecode_total,
    timing_fits, timing_ms, SubtitleEntry,
};
use crate::subtitles::{
    block_has_timing, clip_text, cue_text, custom_cues, numbered_srt, overlaps, timed_blocks,
    timing_separator,
};
use crate::text::{
    contains, find_from, free_of, is_white_space, lemma_find_from_bounds, lemma_find_prefix,
    lemma_split_first, lemma_split_free, lemma_split_from_nonempty, lemma_split_from_shift,
    lemma_trim_no_space, lines, matches_at, split, strip_cr, trim, trim_end, trim_start,
};

verus! {

// ---------------------------------------------------------------------------
// Splitting at a single character
// ---------------------------------------------------------------------------

/// The first occurrence of `c` in a text that holds one.
proof fn lemma_first_occurrence(s: Seq<char>, c: char) -> (j: int)
    requires
        !free_of(s, c),
    ensures
        0 <= j < s.len(),
        s[j] == c,
        free_of(s.take(j), c),
    decreases s.len(),
{
    if s[0] == c {
        0
    } else {
        let t = s.drop_first();
        assert(!free_of(t, c)) by {
            let i = choose|i: int| 0 <= i < s.len() && s[i] == c;
            assert(t[i - 1] == s[i]);
        }
        let j = lemma_first_occurrence(t, c) + 1;
        assert forall|k: int| 0 <= k < j implies s.take(j)[k] != c by {
            if k > 0 {
                assert(s.take(j)[k] == t.take(j - 1)[k - 1]);
            }
        }
        j
    }
}

/// Splitting at a single character splits each side of one occurrence of it.
proof fn lemma_split_concat(a: Seq<char>, c: char, b: Seq<char>)
    ensures
        split(a + seq![c] + b, seq![c]) == split(a, seq![c]) + split(b, seq![c]),
    decreases a.len(),
{
    if free_of(a, c) {
        lemma_split_first(a, c, b);
        lemma_split_free(a, c);
    } else {
        let j = lemma_first_occurrence(a, c);
        let a1 = a.take(j);
        let a2 = a.skip(j + 1);
        assert(a =~= a1 + seq![c] + a2);
        assert(a + seq![c] + b =~= a1 + seq![c] + (a2 + seq![c] + b));
        lemma_split_first(a1, c, a2 + seq![c] + b);
        lemma_split_first(a1, c, a2);
        lemma_split_concat(a2, c, b);
    }
}

/// An empty text splits into one empty piece.
proof fn lemma_split_empty(p: Seq<char>)
    requires
        p.len() > 0,
    ensures
        split(Seq::<char>::empty(), p) == seq![Seq::<char>::empty()],
{
    assert(Seq::<char>::empty().subrange(0, 0) =~= Seq::<char>::empty());
}

/// The pieces of a text free of `d` are free of `d`.
proof fn lemma_pieces_free(s: Seq<char>, c: char, d: char)
    requires
        free_of(s, d),
    ensures
        forall|i: int| 0 <= i < split(s, seq![c]).len() ==> free_of(#[trigger] split(s, seq![c])[i], d),
    decreases s.len(),
{
    if free_of(s, c) {
        lemma_split_free(s, c);
    } else {
        let j = lemma_first_occurrence(s, c);
        let a1 = s.take(j);
        let a2 = s.skip(j + 1);
        assert(s =~= a1 + seq![c] + a2);
        lemma_split_first(a1, c, a2);
        lemma_pieces_free(a2, c, d);
        assert forall|i: int| 0 <= i < split(s, seq![c]).len() implies free_of(
            #[trigger] split(s, seq![c])[i],
            d,
        ) by {
            if i > 0 {
                assert(split(s, seq![c])[i] == split(a2, seq![c])[i - 1]);
            }
        }
    }
}

/// Joining a first line to at least one more puts a line feed after it.
proof fn lemma_join_lines_front(a: Seq<char>, rest: Seq<Seq<char>>)
    requires
        rest.len() > 0,
    ensures
        join_lines(seq![a] + rest) == a + seq!['\n'] + join_lines(rest),
    decreases rest.len(),
{
    let all = seq![a] + rest;
    assert(all.last() == rest.last());
    if rest.len() == 1 {
        assert(all.drop_last() =~= seq![a]);
        assert(join_lines(seq![a]) == a);
        assert(join_lines(rest) == rest[0]);
        assert(join_lines(all) == join_lines(all.drop_last()) + seq!['\n'] + all.last());
    } else {
        assert(all.drop_last() =~= seq![a] + rest.drop_last());
        lemma_join_lines_front(a, rest.drop_last());
        assert(join_lines(all) == join_lines(all.drop_last()) + seq!['\n'] + all.last());
        assert(join_lines(rest) == join_lines(rest.drop_last()) + seq!['\n'] + rest.last());
        assert(join_lines(all) =~= a + seq!['\n'] + join_lines(rest));
    }
}

/// Joining the lines a text splits into at its line feeds gives the text back.
proof fn lemma_join_split(s: Seq<char>)
    ensures
        join_lines(split(s, seq!['\n'])) == s,
    decreases s.len(),
{
    if free_of(s, '\n') {
        lemma_split_free(s, '\n');
    } else {
        let j = lemma_first_occurrence(s, '\n');
        let a1 = s.take(j);
        let a2 = s.skip(j + 1);
        assert(s =~= a1 + seq!['\n'] + a2);
        lemma_split_first(a1, '\n', a2);
        lemma_split_from_nonempty(a2, seq!['\n'], 0);
        lemma_join_lines_front(a1, split(a2, seq!['\n']));
        lemma_join_split(a2);
    }
}

// ---------------------------------------------------------------------------
// Splitting at blank lines
// ---------------------------------------------------------------------------

/// Whether `s` holds no two line feeds in a row and does not end with one.
pub open spec fn no_blank_gap(s: Seq<char>) -> bool {
    &&& forall|i: int| 0 < i < s.len() ==> !(s[i - 1] == '\n' && #[trigger] s[i] == '\n')
    &&& s.len() > 0 ==> s.last() != '\n'
}

/// A block without a blank gap, followed by a blank line, is the first piece of the split
/// at blank lines.
proof fn lemma_split_paragraph(b: Seq<char>, r: Seq<char>)
    requires
        no_blank_gap(b),
    ensures
        split(b + seq!['\n', '\n'] + r, seq!['\n', '\n']) == seq![b] + split(r, seq!['\n', '\n']),
{
    let p = seq!['\n', '\n'];
    let s = b + p + r;
    assert forall|k: int| 0 <= k < b.len() implies !matches_at(s, p, k) by {
        if matches_at(s, p, k) {
            assert(s.subrange(k, k + 2)[0] == s[k]);
            assert(s.subrange(k, k + 2)[1] == s[k + 1]);
            if k + 1 < b.len() {
                assert(s[k] == b[k] && s[k + 1] == b[k + 1]);
            } else {
                assert(s[k] == b.last());
            }
        }
    }
    assert(matches_at(s, p, b.len() as int)) by {
        assert(s.subrange(b.len() as int, b.len() as int + 2) =~= p);
    }
    lemma_find_prefix(s, p, 0, b.len() as int);
    assert(s.subrange(0, b.len() as int) =~= b);
    let pre = b + p;
    assert(s =~= pre + r);
    lemma_split_from_shift(pre, r, p, 0);
}

// ---------------------------------------------------------------------------
// One cue
// ---------------------------------------------------------------------------

/// A subtitle text that passes through the clip text and back unchanged: without carriage
/// returns, not empty, every line holding more than whitespace, and not ending in
/// whitespace.
pub open spec fn cue_ready(text: Seq<char>) -> bool {
    &&& free_of(text, '\r')
    &&& text.len() > 0
    &&& !is_white_space(text.last())
    &&& forall|i: int|
        0 <= i < split(text, seq!['\n']).len() ==> !is_blank(#[trigger] split(text, seq!['\n'])[i])
}

/// The timing line of a cue.
pub open spec fn timing_line(start: nat, end: nat) -> Seq<char> {
    timecode_text(start) + timing_separator() + timecode_text(end)
}

/// A cue as the clip text holds it: its timing line, then its text.
pub open spec fn cue_block(v: (u64, u64, Seq<char>)) -> Seq<char> {
    timing_line(v.0 as nat, v.1 as nat) + seq!['\n'] + v.2
}

/// A character of a timecode.
spec fn clock_char(c: char) -> bool {
    is_digit(c) || c == ':' || c == ','
}

/// A timecode is made of digits, colons and commas, and starts and ends with a digit.
proof fn lemma_timecode_chars(ms: nat)
    ensures
        timecode_text(ms).len() > 0,
        forall|i: int| 0 <= i < timecode_text(ms).len() ==> clock_char(#[trigger] timecode_text(ms)[i]),
        is_digit(timecode_text(ms)[0]),
        is_digit(timecode_text(ms).last()),
{
    let ph = padded(ms / 3600000, 2);
    let pm = padded((ms % 3600000) / 60000, 2);
    let ps = padded((ms % 60000) / 1000, 2);
    let pf = padded(ms % 1000, 3);
    lemma_padded(ms / 3600000, 2);
    lemma_padded((ms % 3600000) / 60000, 2);
    lemma_padded((ms % 60000) / 1000, 2);
    lemma_padded(ms % 1000, 3);
    let t = timecode_text(ms);
    assert(t =~= ph + seq![':'] + pm + seq![':'] + ps + seq![','] + pf);
    assert forall|i: int| 0 <= i < t.len() implies clock_char(#[trigger] t[i]) by {
        let a = ph.len() as int;
        let b = a + 1 + pm.len();
        let c = b + 1 + ps.len();
        if i < a {
            assert(t[i] == ph[i]);
        } else if i == a {
        } else if i < b {
            assert(t[i] == pm[i - a - 1]);
        } else if i == b {
        } else if i < c {
            assert(t[i] == ps[i - b - 1]);
        } else if i == c {
        } else {
            assert(t[i] == pf[i - c - 1]);
        }
    }
    assert(t[0] == ph[0]);
    assert(t.last() == pf.last());
}

/// A text free of `'-'` holds no arrow.
proof fn lemma_no_arrow(x: Seq<char>)
    requires
        free_of(x, '-'),
    ensures
        split(x, arrow()) == seq![x],
{
    lemma_find_from_bounds(x, arrow(), 0);
    if find_from(x, arrow(), 0) is Some {
        let j = find_from(x, arrow(), 0)->0;
        assert(x.subrange(j, j + 3)[0] == x[j]);
    }
    assert(x.subrange(0, x.len() as int) =~= x);
}

/// A text made of timecode characters, starting and ending with a digit.
spec fn clock_text(a: Seq<char>) -> bool {
    &&& a.len() > 0
    &&& forall|i: int| 0 <= i < a.len() ==> clock_char(#[trigger] a[i])
    &&& is_digit(a[0])
    &&& is_digit(a.last())
}

/// Two timecodes around the separator split at the arrow into the first with its space
/// and the second after its space.
proof fn lemma_split_at_arrow(a: Seq<char>, b: Seq<char>)
    requires
        clock_text(a),
        clock_text(b),
    ensures
        split(a + timing_separator() + b, arrow()) == seq![a + seq![' '], seq![' '] + b],
{
    let line = a + timing_separator() + b;
    let p = arrow();
    let n = a.len() as int;
    assert forall|k: int| 0 <= k < n + 1 implies !matches_at(line, p, k) by {
        if matches_at(line, p, k) {
            assert(line.subrange(k, k + 3)[0] == line[k]);
            if k < n {
                assert(line[k] == a[k]);
            }
        }
    }
    assert(matches_at(line, p, n + 1)) by {
        assert(line.subrange(n + 1, n + 4) =~= p);
    }
    lemma_find_prefix(line, p, 0, n + 1);
    let pre = a + seq![' ', '-', '-', '>'];
    let post = seq![' '] + b;
    assert(line =~= pre + post);
    assert(line.subrange(0, n + 1) =~= a + seq![' ']);
    lemma_split_from_shift(pre, post, p, 0);
    assert(free_of(post, '-')) by {
        assert forall|i: int| 0 <= i < post.len() implies post[i] != '-' by {
            if i > 0 {
                assert(post[i] == b[i - 1]);
            }
        }
    }
    lemma_no_arrow(post);
}

/// The two sides of the arrow trim to the timecodes.
proof fn lemma_trim_sides(a: Seq<char>, b: Seq<char>)
    requires
        clock_text(a),
        clock_text(b),
    ensures
        trim(a + seq![' ']) == a,
        trim(seq![' '] + b) == b,
{
    assert((a + seq![' ']).drop_last() =~= a);
    lemma_trim_no_space(a);
    assert(trim_start(a + seq![' ']) == a + seq![' ']);
    assert(trim_end(a + seq![' ']) == trim_end(a));
    let post = seq![' '] + b;
    assert(post.drop_first() =~= b);
    lemma_trim_no_space(b);
    assert(trim_start(post) == trim_start(b));
}

/// Two timecodes around the separator read back as their values.
proof fn lemma_timing_of(a: Seq<char>, b: Seq<char>, x: u64, y: u64)
    requires
        clock_text(a),
        clock_text(b),
        timecode_total(a) == Some(x as int),
        timecode_total(b) == Some(y as int),
    ensures
        timing_ms(a + timing_separator() + b) == Some((x, y)),
        timing_fits(a + timing_separator() + b),
{
    lemma_split_at_arrow(a, b);
    lemma_trim_sides(a, b);
}

/// The timing line reads back as its start and end, within `u64`, holds the separator,
/// and holds no line break.
proof fn lemma_timing_line(start: u64, end: u64)
    ensures
        timing_ms(timing_line(start as nat, end as nat)) == Some((start, end)),
        timing_fits(timing_line(start as nat, end as nat)),
        contains(timing_line(start as nat, end as nat), timing_separator()),
        free_of(timing_line(start as nat, end as nat), '\n'),
        free_of(timing_line(start as nat, end as nat), '\r'),
        is_digit(timing_line(start as nat, end as nat)[0]),
        is_digit(timing_line(start as nat, end as nat).last()),
{
    let a = timecode_text(start as nat);
    let b = timecode_text(end as nat);
    lemma_timecode_chars(start as nat);
    lemma_timecode_chars(end as nat);
    lemma_timecode_roundtrip(start);
    lemma_timecode_roundtrip(end);
    lemma_timing_of(a, b, start, end);
    lemma_line_facts(a, b);
}

/// The separator occurs between two timecodes, which hold no line break.
#[verifier::spinoff_prover]
#[verifier::rlimit(40)]
proof fn lemma_line_facts(a: Seq<char>, b: Seq<char>)
    requires
        clock_text(a),
        clock_text(b),
    ensures
        contains(a + timing_separator() + b, timing_separator()),
        free_of(a + timing_separator() + b, '\n'),
        free_of(a + timing_separator() + b, '\r'),
        is_digit((a + timing_separator() + b)[0]),
        is_digit((a + timing_separator() + b).last()),
{
    let line = a + timing_separator() + b;
    let n = a.len() as int;
    assert forall|i: int| 0 <= i < line.len() implies line[i] != '\n' && line[i] != '\r' by {
        if i < n {
            assert(line[i] == a[i]);
        } else if i >= n + 5 {
            assert(line[i] == b[i - n - 5]);
        }
    }
    let sep = timing_separator();
    assert(matches_at(line, sep, n)) by {
        assert(line.subrange(n, n + 5) =~= sep);
    }
    lemma_find_from_bounds(line, sep, 0);
    assert(line[0] == a[0]);
    assert(line.last() == b.last());
}

/// A cue-ready text has no blank gap and does not start with a line feed.
proof fn lemma_cue_ready_gaps(text: Seq<char>)
    requires
        cue_ready(text),
    ensures
        no_blank_gap(text),
        text[0] != '\n',
{
    let nl = seq!['\n'];
    assert forall|j: int| 0 < j < text.len() implies !(text[j - 1] == '\n' && #[trigger] text[j]
        == '\n') by {
        let i = j - 1;
        if text[i] == '\n' && text[i + 1] == '\n' {
            let a = text.take(i);
            let r = text.skip(i + 2);
            assert(text =~= a + nl + (Seq::<char>::empty() + nl + r));
            lemma_split_concat(a, '\n', Seq::<char>::empty() + nl + r);
            lemma_split_concat(Seq::<char>::empty(), '\n', r);
            lemma_split_empty(nl);
            let k = split(a, nl).len() as int;
            assert(split(text, nl)[k] == Seq::<char>::empty());
            assert(trim(Seq::<char>::empty()).len() == 0);
        }
    }
    if text[0] == '\n' {
        let r = text.skip(1);
        assert(text =~= Seq::<char>::empty() + nl + r);
        lemma_split_concat(Seq::<char>::empty(), '\n', r);
        lemma_split_empty(nl);
        assert(split(text, nl)[0] == Seq::<char>::empty());
        assert(trim(Seq::<char>::empty()).len() == 0);
    }
}

/// The block of a cue with a cue-ready text: no blank gap, untouched by trimming, read as
/// a cue, and without carriage returns.
proof fn lemma_cue_block(v: (u64, u64, Seq<char>))
    requires
        cue_ready(v.2),
    ensures
        cue_block(v).len() > 0,
        no_blank_gap(cue_block(v)),
        trim(cue_block(v)) == cue_block(v),
        block_has_timing(cue_block(v)),
        free_of(cue_block(v), '\r'),
{
    let line = timing_line(v.0 as nat, v.1 as nat);
    let text = v.2;
    let b = cue_block(v);
    lemma_timing_line(v.0, v.1);
    lemma_cue_ready_gaps(text);
    let n = line.len() as int;
    assert forall|j: int| 0 < j < b.len() implies !(b[j - 1] == '\n' && #[trigger] b[j] == '\n') by {
        let i = j - 1;
        if i + 1 < n {
            assert(b[i] == line[i]);
        } else if i + 1 == n {
            assert(b[i + 1] == '\n');
            assert(b[i] == line[i]);
        } else if i == n {
            assert(b[i + 1] == text[0]);
        } else {
            assert(b[i] == text[i - n - 1]);
            assert(b[i + 1] == text[i - n]);
        }
    }
    assert(b.last() == text.last());
    assert(b[0] == line[0]);
    lemma_trim_no_space(b);
    assert forall|i: int| 0 <= i < b.len() implies b[i] != '\r' by {
        if i < n {
            assert(b[i] == line[i]);
        } else if i > n {
            assert(b[i] == text[i - n - 1]);
        }
    }
    lemma_split_first(line, '\n', text);
    lemma_split_from_nonempty(text, seq!['\n'], 0);
    let pieces = split(b, seq!['\n']);
    assert(pieces[0] == line);
    assert(lines(b)[0] == line);
}

// ---------------------------------------------------------------------------
// The clip text and its blocks
// ---------------------------------------------------------------------------

/// The entries that overlap the clip `[start, end]`, in order, as views.
pub open spec fn clip_entries(entries: Seq<SubtitleEntry>, start: u64, end: u64) -> Seq<
    (u64, u64, Seq<char>),
>
    decreases entries.len(),
{
    if entries.len() == 0 {
        seq![]
    } else {
        clip_entries(entries.drop_last(), start, end) + if overlaps(entries.last(), start, end) {
            seq![entries.last()@]
        } else {
            seq![]
        }
    }
}

/// The blocks of cues, each followed by a blank line.
spec fn cues_text(vs: Seq<(u64, u64, Seq<char>)>) -> Seq<char>
    decreases vs.len(),
{
    if vs.len() == 0 {
        seq![]
    } else {
        cues_text(vs.drop_last()) + cue_block(vs.last()) + seq!['\n', '\n']
    }
}

/// The blocks of cues.
spec fn cue_blocks(vs: Seq<(u64, u64, Seq<char>)>) -> Seq<Seq<char>> {
    vs.map_values(|v: (u64, u64, Seq<char>)| cue_block(v))
}

/// Every text of the cues is cue-ready.
spec fn all_ready(vs: Seq<(u64, u64, Seq<char>)>) -> bool {
    forall|i: int| 0 <= i < vs.len() ==> cue_ready(#[trigger] vs[i].2)
}

/// A subtitle text that an SRT document carries back unchanged: without carriage returns,
/// and either empty or with every line holding more than whitespace.
pub open spec fn srt_text_ready(text: Seq<char>) -> bool {
    &&& free_of(text, '\r')
    &&& text.len() > 0 ==> forall|i: int|
        0 <= i < split(text, seq!['\n']).len() ==> !is_blank(#[trigger] split(text, seq!['\n'])[i])
}

/// Every text of the cues is carried back by an SRT document.
spec fn all_srt_ready(vs: Seq<(u64, u64, Seq<char>)>) -> bool {
    forall|i: int| 0 <= i < vs.len() ==> srt_text_ready(#[trigger] vs[i].2)
}

/// The cues after the first are as ready as all of them.
proof fn lemma_srt_ready_rest(vs: Seq<(u64, u64, Seq<char>)>)
    requires
        vs.len() > 0,
        all_srt_ready(vs),
    ensures
        all_srt_ready(vs.drop_first()),
{
    assert forall|i: int| 0 <= i < vs.drop_first().len() implies srt_text_ready(
        #[trigger] vs.drop_first()[i].2,
    ) by {
        assert(vs.drop_first()[i] == vs[i + 1]);
    }
}

/// The clip text is the blocks of the overlapping entries, each followed by a blank line.
proof fn lemma_clip_text_blocks(entries: Seq<SubtitleEntry>, start: u64, end: u64)
    ensures
        clip_text(entries, start, end) == cues_text(clip_entries(entries, start, end)),
        clip_entries(entries, start, end).len() <= entries.len(),
        forall|i: int| 0 <= i < clip_entries(entries, start, end).len() ==> exists|j: int|
            0 <= j < entries.len() && #[trigger] clip_entries(entries, start, end)[i]
                == entries[j]@,
    decreases entries.len(),
{
    if entries.len() > 0 {
        let rest = entries.drop_last();
        lemma_clip_text_blocks(rest, start, end);
        let e = entries.last();
        let before = clip_entries(rest, start, end);
        if overlaps(e, start, end) {
            assert(clip_entries(entries, start, end) =~= before.push(e@));
            assert(cues_text(before.push(e@)).len() >= 0);
            assert(before.push(e@).drop_last() =~= before);
            assert(cue_text(e) =~= cue_block(e@) + seq!['\n', '\n']);
            assert(clip_text(entries, start, end) =~= cues_text(before.push(e@)));
        } else {
            assert(clip_entries(entries, start, end) =~= before);
            assert(clip_text(entries, start, end) =~= clip_text(rest, start, end));
        }
        let all = clip_entries(entries, start, end);
        assert forall|i: int| 0 <= i < all.len() implies exists|j: int|
            0 <= j < entries.len() && #[trigger] all[i] == entries[j]@ by {
            if i < before.len() {
                let j = choose|j: int| 0 <= j < rest.len() && before[i] == rest[j]@;
                assert(all[i] == entries[j]@);
            } else {
                assert(all[i] == entries[entries.len() - 1]@);
            }
        }
    }
}

/// The blocks of cues, read from the front: the first block, a blank line, the rest.
proof fn lemma_cues_text_front(vs: Seq<(u64, u64, Seq<char>)>)
    requires
        vs.len() > 0,
    ensures
        cues_text(vs) == cue_block(vs[0]) + seq!['\n', '\n'] + cues_text(vs.drop_first()),
    decreases vs.len(),
{
    if vs.len() == 1 {
        assert(vs.drop_last() =~= Seq::<(u64, u64, Seq<char>)>::empty());
        assert(vs.drop_first() =~= Seq::<(u64, u64, Seq<char>)>::empty());
        assert(cues_text(vs) =~= cue_block(vs[0]) + seq!['\n', '\n'] + cues_text(vs.drop_first()));
    } else {
        lemma_cues_text_front(vs.drop_last());
        assert(vs.drop_last().drop_first() =~= vs.drop_first().drop_last());
        assert(vs.drop_first().last() == vs.last());
        assert(cues_text(vs) =~= cue_block(vs[0]) + seq!['\n', '\n'] + cues_text(vs.drop_first()));
    }
}

/// Split at blank lines, the blocks of cue-ready cues come apart into the blocks, and an
/// empty piece after the last blank line.
proof fn lemma_split_cues(vs: Seq<(u64, u64, Seq<char>)>)
    requires
        all_ready(vs),
    ensures
        split(cues_text(vs), seq!['\n', '\n']) == cue_blocks(vs).push(Seq::<char>::empty()),
    decreases vs.len(),
{
    if vs.len() == 0 {
        lemma_split_empty(seq!['\n', '\n']);
        assert(cue_blocks(vs).push(Seq::<char>::empty()) =~= seq![Seq::<char>::empty()]);
    } else {
        lemma_cues_text_front(vs);
        lemma_cue_block(vs[0]);
        lemma_split_paragraph(cue_block(vs[0]), cues_text(vs.drop_first()));
        assert(all_ready(vs.drop_first())) by {
            assert forall|i: int| 0 <= i < vs.drop_first().len() implies cue_ready(
                #[trigger] vs.drop_first()[i].2,
            ) by {
                assert(vs.drop_first()[i] == vs[i + 1]);
            }
        }
        lemma_split_cues(vs.drop_first());
        assert(cue_blocks(vs).push(Seq::<char>::empty()) =~= seq![cue_block(vs[0])] + cue_blocks(
            vs.drop_first(),
        ).push(Seq::<char>::empty()));
    }
}

/// The cues of blocks that are all kept are the blocks; an empty last piece adds none.
proof fn lemma_timed_blocks_keep(bs: Seq<Seq<char>>)
    requires
        forall|i: int|
            0 <= i < bs.len() ==> #[trigger] trim(bs[i]) == bs[i] && bs[i].len() > 0
                && block_has_timing(bs[i]),
    ensures
        timed_blocks(bs.push(Seq::<char>::empty())) == bs,
    decreases bs.len(),
{
    let with_end = bs.push(Seq::<char>::empty());
    assert(with_end.drop_last() =~= bs);
    assert(with_end.last() == Seq::<char>::empty());
    assert(trim(Seq::<char>::empty()).len() == 0);
    assert(timed_blocks(with_end) == timed_blocks(bs));
    if bs.len() > 0 {
        lemma_timed_blocks_keep(bs.drop_last());
        assert(bs.drop_last().push(Seq::<char>::empty()).drop_last() =~= bs.drop_last());
        assert(timed_blocks(bs.drop_last()) == timed_blocks(bs.drop_last().push(Seq::<char>::empty())));
        assert(trim(bs.last()) == bs.last());
        assert(timed_blocks(bs) == timed_blocks(bs.drop_last()).push(bs.last()));
        assert(timed_blocks(bs) =~= bs);
    }
}

/// The custom cues of a clip text are the blocks of its cues.
proof fn lemma_custom_cues_of_clip(vs: Seq<(u64, u64, Seq<char>)>)
    requires
        all_ready(vs),
    ensures
        custom_cues(cues_text(vs)) == cue_blocks(vs),
{
    lemma_split_cues(vs);
    let bs = cue_blocks(vs);
    assert forall|i: int| 0 <= i < bs.len() implies #[trigger] trim(bs[i]) == bs[i] && bs[i].len() > 0
        && block_has_timing(bs[i]) by {
        lemma_cue_block(vs[i]);
    }
    lemma_timed_blocks_keep(bs);
}

// ---------------------------------------------------------------------------
// The numbered SRT text and its lines
// ---------------------------------------------------------------------------

/// Cues numbered from `k`, read from the front.
spec fn numbered_from(cues: Seq<Seq<char>>, k: nat) -> Seq<char>
    decreases cues.len(),
{
    if cues.len() == 0 {
        seq![]
    } else {
        decimal_digits(k) + seq!['\n'] + cues[0] + seq!['\n', '\n'] + numbered_from(
            cues.drop_first(),
            k + 1,
        )
    }
}

/// Numbering one more cue at the end appends it with the next number.
proof fn lemma_numbered_from_push(cues: Seq<Seq<char>>, x: Seq<char>, k: nat)
    ensures
        numbered_from(cues.push(x), k) == numbered_from(cues, k) + decimal_digits(k + cues.len())
            + seq!['\n'] + x + seq!['\n', '\n'],
    decreases cues.len(),
{
    let all = cues.push(x);
    if cues.len() == 0 {
        assert(all.drop_first() =~= Seq::<Seq<char>>::empty());
        assert(numbered_from(Seq::<Seq<char>>::empty(), k + 1) == Seq::<char>::empty());
        assert(numbered_from(cues, k) == Seq::<char>::empty());
        assert(all[0] == x);
        assert(numbered_from(all, k) =~= numbered_from(cues, k) + decimal_digits(k + cues.len())
            + seq!['\n'] + x + seq!['\n', '\n']);
    } else {
        assert(all.drop_first() =~= cues.drop_first().push(x));
        lemma_numbered_from_push(cues.drop_first(), x, k + 1);
        assert(numbered_from(all, k) =~= numbered_from(cues, k) + decimal_digits(k + cues.len())
            + seq!['\n'] + x + seq!['\n', '\n']);
    }
}

/// The numbered SRT text numbers its cues from 1, front to back.
proof fn lemma_numbered_srt_front(cues: Seq<Seq<char>>)
    ensures
        numbered_srt(cues) == numbered_from(cues, 1),
    decreases cues.len(),
{
    if cues.len() > 0 {
        lemma_numbered_srt_front(cues.drop_last());
        lemma_numbered_from_push(cues.drop_last(), cues.last(), 1);
        assert(cues.drop_last().push(cues.last()) =~= cues);
    }
}

/// The lines of cues numbered from `k`: per cue its number, its timing line, the lines of
/// its text, and a blank line.
spec fn srt_lines(vs: Seq<(u64, u64, Seq<char>)>, k: nat) -> Seq<Seq<char>>
    decreases vs.len(),
{
    if vs.len() == 0 {
        seq![]
    } else {
        seq![decimal_digits(k), timing_line(vs[0].0 as nat, vs[0].1 as nat)] + split(
            vs[0].2,
            seq!['\n'],
        ) + seq![Seq::<char>::empty()] + srt_lines(vs.drop_first(), k + 1)
    }
}

/// A number holds no line break and no carriage return, and is not whitespace at either
/// end.
proof fn lemma_digits_plain(k: nat)
    ensures
        free_of(decimal_digits(k), '\n'),
        free_of(decimal_digits(k), '\r'),
        decimal_digits(k).len() > 0,
        !is_white_space(decimal_digits(k)[0]),
        !is_white_space(decimal_digits(k).last()),
{
    lemma_decimal_digits(k);
    let d = decimal_digits(k);
    assert(is_digit(d[0]));
    assert(is_digit(d[d.len() - 1]));
}

/// A number, a timing line and a text, each ended by a line feed, then a blank line and
/// the rest, split at line feeds into the number, the timing line, the text's lines, an
/// empty piece and the rest's pieces.
proof fn lemma_split_entry(d: Seq<char>, line: Seq<char>, text: Seq<char>, rest: Seq<char>)
    requires
        free_of(d, '\n'),
        free_of(line, '\n'),
    ensures
        split(
            d + seq!['\n'] + (line + seq!['\n'] + (text + seq!['\n'] + (Seq::<char>::empty()
                + seq!['\n'] + rest))),
            seq!['\n'],
        ) == seq![d] + (seq![line] + (split(text, seq!['\n']) + (seq![Seq::<char>::empty()]
            + split(rest, seq!['\n'])))),
{
    let nl = seq!['\n'];
    let empty = Seq::<char>::empty();
    let z = empty + nl + rest;
    let y = text + nl + z;
    let x = line + nl + y;
    lemma_split_concat(d, '\n', x);
    lemma_split_free(d, '\n');
    lemma_split_concat(line, '\n', y);
    lemma_split_free(line, '\n');
    lemma_split_concat(text, '\n', z);
    lemma_split_concat(empty, '\n', rest);
    lemma_split_empty(nl);
}

/// Split at line feeds, cues numbered from `k` come apart into their lines, and an empty
/// piece after the last line feed.
#[verifier::spinoff_prover]
#[verifier::rlimit(60)]
proof fn lemma_split_numbered(vs: Seq<(u64, u64, Seq<char>)>, k: nat)
    ensures
        split(numbered_from(cue_blocks(vs), k), seq!['\n']) == srt_lines(vs, k).push(
            Seq::<char>::empty(),
        ),
    decreases vs.len(),
{
    let nl = seq!['\n'];
    let empty = Seq::<char>::empty();
    let cues = cue_blocks(vs);
    if vs.len() == 0 {
        lemma_split_empty(nl);
        assert(srt_lines(vs, k).push(empty) =~= seq![empty]);
    } else {
        let d = decimal_digits(k);
        let line = timing_line(vs[0].0 as nat, vs[0].1 as nat);
        let text = vs[0].2;
        let rest_vs = vs.drop_first();
        assert(cues.drop_first() =~= cue_blocks(rest_vs));
        let rest = numbered_from(cue_blocks(rest_vs), k + 1);
        assert(cues[0] == cue_block(vs[0]));
        assert(numbered_from(cues, k) =~= d + nl + (line + nl + (text + nl + (empty + nl + rest))));
        lemma_digits_plain(k);
        lemma_timing_line(vs[0].0, vs[0].1);
        lemma_split_entry(d, line, text, rest);
        lemma_split_numbered(rest_vs, k + 1);
        assert(srt_lines(vs, k).push(empty) =~= seq![d] + (seq![line] + (split(text, nl) + (seq![
            empty,
        ] + srt_lines(rest_vs, k + 1).push(empty)))));
    }
}

/// None of the lines of numbered cues holds a carriage return.
proof fn lemma_srt_lines_free(vs: Seq<(u64, u64, Seq<char>)>, k: nat)
    requires
        all_srt_ready(vs),
    ensures
        forall|i: int| 0 <= i < srt_lines(vs, k).len() ==> free_of(#[trigger] srt_lines(vs, k)[i], '\r'),
    decreases vs.len(),
{
    if vs.len() > 0 {
        let rest_vs = vs.drop_first();
        lemma_srt_ready_rest(vs);
        lemma_srt_lines_free(rest_vs, k + 1);
        lemma_digits_plain(k);
        lemma_timing_line(vs[0].0, vs[0].1);
        let pieces = split(vs[0].2, seq!['\n']);
        lemma_pieces_free(vs[0].2, '\n', '\r');
        let ls = srt_lines(vs, k);
        let m = pieces.len() as int;
        assert forall|i: int| 0 <= i < ls.len() implies free_of(#[trigger] ls[i], '\r') by {
            if i == 0 {
            } else if i == 1 {
            } else if i < 2 + m {
                assert(ls[i] == pieces[i - 2]);
            } else if i == 2 + m {
                assert(ls[i] == Seq::<char>::empty());
            } else {
                assert(ls[i] == srt_lines(rest_vs, k + 1)[i - 3 - m]);
            }
        }
    }
}

/// The lines of numbered cues, as `str::lines` reads them.
proof fn lemma_lines_numbered(vs: Seq<(u64, u64, Seq<char>)>, k: nat)
    requires
        all_srt_ready(vs),
    ensures
        lines(numbered_from(cue_blocks(vs), k)) == srt_lines(vs, k),
{
    lemma_split_numbered(vs, k);
    lemma_srt_lines_free(vs, k);
    let ls = srt_lines(vs, k);
    let pieces = ls.push(Seq::<char>::empty());
    assert(pieces.take(ls.len() as int) =~= ls);
    assert forall|i: int| 0 <= i < ls.len() implies strip_cr(#[trigger] ls[i]) == ls[i] by {
        if ls[i].len() > 0 {
            assert(ls[i][ls[i].len() - 1] != '\r');
        }
    }
    assert(ls.map_values(|l: Seq<char>| strip_cr(l)) =~= ls);
}

/// The first blank line from `j` on, when the `m` lines from `j` are not blank and the
/// next one is.
proof fn lemma_text_end_at(ls: Seq<Seq<char>>, j: int, m: int)
    requires
        0 <= j,
        0 <= m,
        j + m < ls.len(),
        forall|i: int| j <= i < j + m ==> !is_blank(#[trigger] ls[i]),
        is_blank(ls[j + m]),
    ensures
        text_end(ls, j) == j + m,
    decreases m,
{
    if m > 0 {
        lemma_text_end_at(ls, j + 1, m - 1);
    }
}

/// Looking for a blank line in the second half of `a + b` is looking in `b`.
proof fn lemma_text_end_shift(a: Seq<Seq<char>>, b: Seq<Seq<char>>, j: int)
    requires
        0 <= j,
    ensures
        text_end(a + b, a.len() + j) == a.len() + text_end(b, j),
    decreases b.len() - j,
{
    if j < b.len() {
        assert((a + b)[a.len() + j] == b[j]);
        if !is_blank(b[j]) {
            lemma_text_end_shift(a, b, j + 1);
        }
    }
}

/// Reading entries from the second half of `a + b` is reading them from `b`.
proof fn lemma_srt_shift(a: Seq<Seq<char>>, b: Seq<Seq<char>>, i: int)
    requires
        0 <= i,
    ensures
        srt_entries_from(a + b, a.len() + i) == srt_entries_from(b, i),
        srt_fits_from(a + b, a.len() + i) == srt_fits_from(b, i),
    decreases b.len() - i,
{
    let ls = a + b;
    let n = a.len() as int;
    if i < b.len() {
        assert(ls[n + i] == b[i]);
        if !is_index_line(b[i]) {
            lemma_srt_shift(a, b, i + 1);
        } else if i + 1 < b.len() {
            assert(ls[n + i + 1] == b[i + 1]);
            lemma_srt_shift(a, b, i + 2);
            lemma_text_end_shift(a, b, i + 2);
            let e = text_end(b, i + 2);
            if i + 2 <= e <= b.len() {
                assert(ls.subrange(n + i + 2, n + e) =~= b.subrange(i + 2, e));
                if e < b.len() {
                    lemma_srt_shift(a, b, e + 1);
                } else {
                    lemma_srt_shift(a, b, e);
                }
            }
        }
    }
}

/// A number up to `usize::MAX` is a sequence number line.
proof fn lemma_index_line(k: nat)
    requires
        k <= usize::MAX,
    ensures
        is_index_line(decimal_digits(k)),
{
    lemma_digits_plain(k);
    lemma_trim_no_space(decimal_digits(k));
    lemma_parse_padded(k, 0, usize::MAX as nat);
    assert(padded(k, 0) == decimal_digits(k));
}

/// The lines of numbered cues whose texts an SRT document carries read back as the cues,
/// within `u64`.
proof fn lemma_parse_srt_lines(vs: Seq<(u64, u64, Seq<char>)>, k: nat)
    requires
        all_srt_ready(vs),
        k + vs.len() <= usize::MAX + 1,
    ensures
        srt_entries_from(srt_lines(vs, k), 0) == vs,
        srt_fits_from(srt_lines(vs, k), 0),
    decreases vs.len(),
{
    if vs.len() > 0 {
        let v = vs[0];
        let rest_vs = vs.drop_first();
        lemma_srt_ready_rest(vs);
        lemma_parse_srt_lines(rest_vs, k + 1);
        let d = decimal_digits(k);
        let line = timing_line(v.0 as nat, v.1 as nat);
        let p = split(v.2, seq!['\n']);
        let empty = Seq::<char>::empty();
        let g = seq![d, line] + p + seq![empty];
        let r = srt_lines(rest_vs, k + 1);
        let ls = srt_lines(vs, k);
        assert(ls =~= g + r);
        let m = p.len() as int;
        lemma_index_line(k);
        lemma_timing_line(v.0, v.1);
        assert(ls[0] == d);
        assert(ls[1] == line);
        assert(trim(empty).len() == 0);
        lemma_join_split(v.2);
        assert(vs =~= seq![v] + rest_vs);
        if v.2.len() > 0 {
            assert forall|i: int| 2 <= i < 2 + m implies !is_blank(#[trigger] ls[i]) by {
                assert(ls[i] == p[i - 2]);
            }
            assert(ls[2 + m] == empty);
            lemma_text_end_at(ls, 2, m);
            assert(ls.subrange(2, 2 + m) =~= p);
            lemma_srt_shift(g, r, 0);
            assert(srt_entries_from(ls, 0) == seq![(v.0, v.1, v.2)] + srt_entries_from(ls, 3 + m));
        } else {
            // An empty text: its single empty line ends it at once, and the blank line
            // after it is skipped.
            lemma_split_empty(seq!['\n']);
            assert(m == 1);
            assert(ls[2] == empty);
            assert(ls[3] == empty);
            lemma_text_end_at(ls, 2, 0);
            assert(ls.subrange(2, 2) =~= Seq::<Seq<char>>::empty());
            assert(join_lines(Seq::<Seq<char>>::empty()) == empty);
            assert(v.2 =~= empty);
            assert(!is_index_line(empty));
            lemma_srt_shift(g, r, 0);
            assert(srt_entries_from(ls, 3) == srt_entries_from(ls, 4));
            assert(srt_fits_from(ls, 3) == srt_fits_from(ls, 4));
            assert(srt_entries_from(ls, 0) == seq![(v.0, v.1, v.2)] + srt_entries_from(ls, 3));
        }
    }
}

// ---------------------------------------------------------------------------
// The law
// ---------------------------------------------------------------------------

/// The text the clip tab shows for a clip (the cues of the entries that overlap it), turned
/// into SRT by the custom-subtitle conversion, reads back as exactly those entries, in
/// order, when every entry's text is cue-ready (see [`cue_ready`]).
pub proof fn lemma_clip_srt_roundtrip(entries: Seq<SubtitleEntry>, start: u64, end: u64)
    requires
        entries.len() < i32::MAX,
        forall|i: int| 0 <= i < entries.len() ==> cue_ready(#[trigger] entries[i].text@),
    ensures
        custom_cues(clip_text(entries, start, end)).len() < i32::MAX,
        srt_fits(numbered_srt(custom_cues(clip_text(entries, start, end)))),
        srt_entries(numbered_srt(custom_cues(clip_text(entries, start, end)))) == clip_entries(
            entries,
            start,
            end,
        ),
{
    lemma_clip_text_blocks(entries, start, end);
    let vs = clip_entries(entries, start, end);
    assert(all_ready(vs)) by {
        assert forall|i: int| 0 <= i < vs.len() implies cue_ready(#[trigger] vs[i].2) by {
            let j = choose|j: int| 0 <= j < entries.len() && vs[i] == entries[j]@;
            assert(cue_ready(entries[j].text@));
        }
    }
    assert(all_srt_ready(vs)) by {
        assert forall|i: int| 0 <= i < vs.len() implies srt_text_ready(#[trigger] vs[i].2) by {
            assert(cue_ready(vs[i].2));
        }
    }
    lemma_custom_cues_of_clip(vs);
    lemma_numbered_srt_front(cue_blocks(vs));
    lemma_lines_numbered(vs, 1);
    lemma_parse_srt_lines(vs, 1);
}

/// An SRT document written from subtitle entries: for each, its number (from 1), its
/// timing line (`HH:MM:SS,mmm --> HH:MM:SS,mmm`, as `format_timecode` writes the times),
/// its text, and a blank line.
pub open spec fn srt_document(vs: Seq<(u64, u64, Seq<char>)>) -> Seq<char>
    decreases vs.len(),
{
    if vs.len() == 0 {
        seq![]
    } else {
        srt_document(vs.drop_last()) + decimal_digits(vs.len()) + seq!['\n'] + timecode_text(
            vs.last().0 as nat,
        ) + timing_separator() + timecode_text(vs.last().1 as nat) + seq!['\n'] + vs.last().2
            + seq!['\n', '\n']
    }
}

/// The document is the numbered blocks of its cues.
#[verifier::spinoff_prover]
#[verifier::rlimit(40)]
proof fn lemma_srt_document_blocks(vs: Seq<(u64, u64, Seq<char>)>)
    ensures
        srt_document(vs) == numbered_srt(cue_blocks(vs)),
    decreases vs.len(),
{
    if vs.len() > 0 {
        lemma_srt_document_blocks(vs.drop_last());
        let c = cue_blocks(vs);
        assert(c.drop_last() =~= cue_blocks(vs.drop_last()));
        assert(c.last() == cue_block(vs.last()));
        assert(numbered_srt(c) == numbered_srt(c.drop_last()) + decimal_digits(c.len())
            + seq!['\n'] + c.last() + seq!['\n', '\n']);
        assert(srt_document(vs) =~= numbered_srt(c));
    }
}

/// An SRT document written from subtitle entries reads back as those entries, in order,
/// none lost and none added, when every text is empty or has no carriage return and no
/// line that is only whitespace (see [`srt_text_ready`]), and the numbers fit a `usize`.
pub proof fn lemma_srt_roundtrip(entries: Seq<SubtitleEntry>)
    requires
        entries.len() <= usize::MAX,
        forall|i: int| 0 <= i < entries.len() ==> srt_text_ready(#[trigger] entries[i].text@),
    ensures
        srt_fits(srt_document(entry_views(entries))),
        srt_entries(srt_document(entry_views(entries))) == entry_views(entries),
{
    let vs = entry_views(entries);
    assert(all_srt_ready(vs)) by {
        assert forall|i: int| 0 <= i < vs.len() implies srt_text_ready(#[trigger] vs[i].2) by {
            assert(vs[i] == entries[i]@);
        }
    }
    lemma_srt_document_blocks(vs);
    lemma_numbered_srt_front(cue_blocks(vs));
    lemma_lines_numbered(vs, 1);
    lemma_parse_srt_lines(vs, 1);
}

} // verus!

