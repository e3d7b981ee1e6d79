//! SubRip (SRT) subtitles: timecodes, timecode lines and whole files.
use vstd::prelude::*;
use vstd::arithmetic::div_mod::{lemma_fundamental_div_mod, lemma_mod_mod};

use crate::decimal::{
    is_digit, lemma_padded, lemma_parse_padded, padded, parse_unsigned, parse_unsigned_exec,
    push_padded,
};
use crate::text::{
    chars_of, free_of, lemma_split_first, lemma_split_free, lines, lines_exec, split, split_exec,
    string_of, trim, trim_bounds, trimmed,
};

verus! {

/// A single subtitle entry with timing and text.
#[derive(Debug, Clone)]
pub struct SubtitleEntry {
    /// Start time in milliseconds
    pub start_ms: u64,
    /// End time in milliseconds
    pub end_ms: u64,
    /// Subtitle text content (may contain multiple lines)
    pub text: String,
}

impl View for SubtitleEntry {
    type V = (u64, u64, Seq<char>);

    open spec fn view(&self) -> (u64, u64, Seq<char>) {
        (self.start_ms, self.end_ms, self.text@)
    }
}

/// The largest `u64`, as a mathematical integer.
pub open spec fn u64_max() -> nat {
    u64::MAX as nat
}

// ---------------------------------------------------------------------------
// Timecodes
// ---------------------------------------------------------------------------

/// `ms` milliseconds as an SRT timecode `HH:MM:SS,mmm` (hours take as many digits as
/// they need, at least two).
pub open spec fn timecode_text(ms: nat) -> Seq<char> {
    padded(ms / 3600000, 2) + seq![':'] + padded((ms % 3600000) / 60000, 2) + seq![':']
        + padded((ms % 60000) / 1000, 2) + seq![','] + padded(ms % 1000, 3)
}

/// The number of milliseconds an SRT timecode `H:M:S,f` denotes, when it is one:
/// exactly three `':'`-separated fields, the last holding exactly one `','`, and each
/// of the four numbers readable as a `u64`. The sum itself is not bounded here.
pub open spec fn timecode_total(tc: Seq<char>) -> Option<int> {
    let parts = split(tc, seq![':']);
    if parts.len() != 3 {
        None
    } else {
        let secs = split(parts[2], seq![',']);
        match (parse_unsigned(parts[0], u64_max()), parse_unsigned(parts[1], u64_max())) {
            (Some(h), Some(m)) => if secs.len() != 2 {
                None
            } else {
                match (parse_unsigned(secs[0], u64_max()), parse_unsigned(secs[1], u64_max())) {
                    (Some(s), Some(f)) => Some((h * 3600000 + m * 60000 + s * 1000 + f) as int),
                    _ => None,
                }
            },
            _ => None,
        }
    }
}

/// The total of a timecode fits in a `u64` (or it is no timecode at all).
pub open spec fn fits_u64(t: Option<int>) -> bool {
    match t {
        Some(v) => v <= u64_max(),
        None => true,
    }
}

/// The value of a timecode in milliseconds.
pub open spec fn timecode_ms(tc: Seq<char>) -> Option<u64> {
    match timecode_total(tc) {
        Some(v) => Some(v as u64),
        None => None,
    }
}

/// Outcome of reading a number that may be too large for a `u64`.
pub enum Reading {
    /// The text does not have the expected shape.
    Invalid,
    /// The text has the expected shape but its value exceeds `u64::MAX`.
    TooLarge,
    /// The value.
    Value(u64),
}

/// `r` reports the unbounded reading `t`.
pub open spec fn reports(r: Reading, t: Option<int>) -> bool {
    match r {
        Reading::Invalid => t is None,
        Reading::TooLarge => t matches Some(v) && v > u64_max(),
        Reading::Value(x) => t == Some(x as int),
    }
}

/// Reads a timecode, telling a malformed one from one too large for a `u64`.
pub fn read_timecode(tc: &[char]) -> (r: Reading)
    ensures
        reports(r, timecode_total(tc@)),
{
    let colon = [':'];
    let comma = [','];
    assert(colon@ =~= seq![':']);
    assert(comma@ =~= seq![',']);
    let parts = split_exec(tc, &colon);
    let ghost pv = parts@.map_values(|x: Vec<char>| x@);
    if parts.len() != 3 {
        return Reading::Invalid;
    }
    assert(pv[0] == parts[0]@ && pv[1] == parts[1]@ && pv[2] == parts[2]@);
    let h = match parse_unsigned_exec(&parts[0], u64::MAX) {
        Some(v) => v,
        None => return Reading::Invalid,
    };
    let m = match parse_unsigned_exec(&parts[1], u64::MAX) {
        Some(v) => v,
        None => return Reading::Invalid,
    };
    let secs = split_exec(&parts[2], &comma);
    let ghost sv = secs@.map_values(|x: Vec<char>| x@);
    if secs.len() != 2 {
        return Reading::Invalid;
    }
    assert(sv[0] == secs[0]@ && sv[1] == secs[1]@);
    let s = match parse_unsigned_exec(&secs[0], u64::MAX) {
        Some(v) => v,
        None => return Reading::Invalid,
    };
    let f = match parse_unsigned_exec(&secs[1], u64::MAX) {
        Some(v) => v,
        None => return Reading::Invalid,
    };
    let a = match h.checked_mul(3600000) {
        Some(v) => v,
        None => return Reading::TooLarge,
    };
    let b = match m.checked_mul(60000) {
        Some(v) => v,
        None => return Reading::TooLarge,
    };
    let c = match s.checked_mul(1000) {
        Some(v) => v,
        None => return Reading::TooLarge,
    };
    let ab = match a.checked_add(b) {
        Some(v) => v,
        None => return Reading::TooLarge,
    };
    let abc = match ab.checked_add(c) {
        Some(v) => v,
        None => return Reading::TooLarge,
    };
    match abc.checked_add(f) {
        Some(v) => Reading::Value(v),
        None => Reading::TooLarge,
    }
}

/// Parses a single SRT timecode (e.g. `"00:00:10,500"`) into milliseconds.
///
/// The result is `None` exactly when `timecode` is not of the form `H:M:S,f` with four
/// numbers readable as `u64`.
pub fn parse_timecode(timecode: &str) -> (r: Option<u64>)
    requires
        fits_u64(timecode_total(timecode@)),
    ensures
        r == timecode_ms(timecode@),
{
    let tc = chars_of(timecode);
    match read_timecode(&tc) {
        Reading::Value(v) => Some(v),
        _ => None,
    }
}

/// Formats milliseconds as an SRT timecode (`HH:MM:SS,mmm`).
pub fn format_timecode(ms: u64) -> (r: String)
    ensures
        r@ == timecode_text(ms as nat),
{
    let hours = ms / 3600000;
    let minutes = (ms % 3600000) / 60000;
    let seconds = (ms % 60000) / 1000;
    let milliseconds = ms % 1000;
    let mut out: Vec<char> = Vec::new();
    push_padded(&mut out, hours, 2);
    out.push(':');
    push_padded(&mut out, minutes, 2);
    out.push(':');
    push_padded(&mut out, seconds, 2);
    out.push(',');
    push_padded(&mut out, milliseconds, 3);
    assert(out@ =~= timecode_text(ms as nat));
    string_of(&out)
}

impl SubtitleEntry {
    /// Formats the start time as an SRT timecode (`HH:MM:SS,mmm`).
    pub fn format_start_time(&self) -> (r: String)
        ensures
            r@ == timecode_text(self.start_ms as nat),
    {
        format_timecode(self.start_ms)
    }

    /// Formats the end time as an SRT timecode (`HH:MM:SS,mmm`).
    pub fn format_end_time(&self) -> (r: String)
        ensures
            r@ == timecode_text(self.end_ms as nat),
    {
        format_timecode(self.end_ms)
    }
}

// ---------------------------------------------------------------------------
// Timecode lines
// ---------------------------------------------------------------------------

/// The arrow between the two timecodes of an SRT timing line.
pub open spec fn arrow() -> Seq<char> {
    seq!['-', '-', '>']
}

/// The two timecodes of a timing line `start --> end`, each trimmed: the line holds
/// exactly one `"-->"`.
pub open spec fn timing_parts(line: Seq<char>) -> Option<(Seq<char>, Seq<char>)> {
    let parts = split(line, arrow());
    if parts.len() != 2 {
        None
    } else {
        Some((trim(parts[0]), trim(parts[1])))
    }
}

/// The unbounded totals of the two timecodes of a timing line.
pub open spec fn timing_totals(line: Seq<char>) -> Option<(int, int)> {
    match timing_parts(line) {
        Some((a, b)) => match (timecode_total(a), timecode_total(b)) {
            (Some(x), Some(y)) => Some((x, y)),
            _ => None,
        },
        None => None,
    }
}

/// Reading the timing line stays within `u64`: the start is read first, and the end
/// only when the start is a timecode.
pub open spec fn timing_fits(line: Seq<char>) -> bool {
    match timing_parts(line) {
        Some((a, b)) => fits_u64(timecode_total(a)) && (timecode_total(a) is Some ==> fits_u64(
            timecode_total(b),
        )),
        None => true,
    }
}

/// The start and end, in milliseconds, of a timing line.
pub open spec fn timing_ms(line: Seq<char>) -> Option<(u64, u64)> {
    match timing_totals(line) {
        Some((x, y)) => Some((x as u64, y as u64)),
        None => None,
    }
}

/// Outcome of reading a timing line.
pub enum TimingReading {
    /// Not a timing line.
    Invalid,
    /// A timecode on the line is too large for a `u64`.
    TooLarge,
    /// Start and end in milliseconds.
    Value(u64, u64),
}

/// `r` reports how reading `line` as a timing line goes.
pub open spec fn timing_reports(r: TimingReading, line: Seq<char>) -> bool {
    match r {
        TimingReading::Invalid => timing_fits(line) && timing_totals(line) is None,
        TimingReading::TooLarge => !timing_fits(line),
        TimingReading::Value(a, b) => timing_fits(line) && timing_ms(line) == Some((a, b)),
    }
}

/// Reads an SRT timing line (e.g. `"00:00:10,500 --> 00:00:13,000"`).
pub fn read_timing_line(line: &[char]) -> (r: TimingReading)
    ensures
        timing_reports(r, line@),
{
    let arrow_chars = ['-', '-', '>'];
    assert(arrow_chars@ =~= arrow());
    let parts = split_exec(line, &arrow_chars);
    if parts.len() != 2 {
        return TimingReading::Invalid;
    }
    let ghost pv = parts@.map_values(|x: Vec<char>| x@);
    assert(pv[0] == parts[0]@ && pv[1] == parts[1]@);
    let a = trimmed(&parts[0]);
    let b = trimmed(&parts[1]);
    let start = match read_timecode(&a) {
        Reading::Value(v) => v,
        Reading::TooLarge => return TimingReading::TooLarge,
        Reading::Invalid => return TimingReading::Invalid,
    };
    match read_timecode(&b) {
        Reading::Value(v) => TimingReading::Value(start, v),
        Reading::TooLarge => TimingReading::TooLarge,
        Reading::Invalid => TimingReading::Invalid,
    }
}

/// Parses an SRT timing line (e.g. `"00:00:10,500 --> 00:00:13,000"`) into its start and
/// end in milliseconds.
///
/// The result is `None` exactly when the line does not hold exactly one `"-->"` with a
/// timecode (after trimming) on each side.
pub fn parse_timecode_line(line: &str) -> (r: Option<(u64, u64)>)
    requires
        timing_fits(line@),
    ensures
        r == timing_ms(line@),
{
    let chars = chars_of(line);
    match read_timing_line(&chars) {
        TimingReading::Value(a, b) => Some((a, b)),
        _ => None,
    }
}

// ---------------------------------------------------------------------------
// Whole files
// ---------------------------------------------------------------------------

/// A line that reads as a subtitle's sequence number (a `usize`, after trimming).
pub open spec fn is_index_line(l: Seq<char>) -> bool {
    parse_unsigned(trim(l), usize::MAX as nat) is Some
}

/// A line that is empty after trimming.
pub open spec fn is_blank(l: Seq<char>) -> bool {
    trim(l).len() == 0
}

/// The first line at or after `j` that is blank (or the number of lines).
pub open spec fn text_end(ls: Seq<Seq<char>>, j: int) -> int
    decreases ls.len() - j,
{
    if j < 0 || j >= ls.len() {
        ls.len() as int
    } else if is_blank(ls[j]) {
        j
    } else {
        text_end(ls, j + 1)
    }
}

/// Where reading resumes after a subtitle's text that ends at `e` (the blank line
/// there, if any, is consumed).
pub open spec fn resume_after(ls: Seq<Seq<char>>, e: int) -> int {
    if e < ls.len() {
        e + 1
    } else {
        e
    }
}

/// Lines joined with `'\n'` between them.
pub open spec fn join_lines(ls: Seq<Seq<char>>) -> Seq<char>
    decreases ls.len(),
{
    if ls.len() == 0 {
        seq![]
    } else if ls.len() == 1 {
        ls[0]
    } else {
        join_lines(ls.drop_last()) + seq!['\n'] + ls.last()
    }
}

/// The entries read from the lines `ls[i..]`: a line that is a sequence number, then a
/// timing line, then the text lines up to the next blank line make one entry; a sequence
/// number followed by a line that is no timing line is skipped with that line; every
/// other line is skipped.
pub open spec fn srt_entries_from(ls: Seq<Seq<char>>, i: int) -> Seq<(u64, u64, Seq<char>)>
    decreases ls.len() - i,
{
    if i < 0 || i >= ls.len() {
        seq![]
    } else if !is_index_line(ls[i]) {
        srt_entries_from(ls, i + 1)
    } else if i + 1 >= ls.len() {
        seq![]
    } else {
        match timing_ms(ls[i + 1]) {
            None => srt_entries_from(ls, i + 2),
            Some((a, b)) => {
                let e = text_end(ls, i + 2);
                if i + 2 <= e <= ls.len() {
                    seq![(a, b, join_lines(ls.subrange(i + 2, e)))] + srt_entries_from(
                        ls,
                        resume_after(ls, e),
                    )
                } else {
                    seq![]
                }
            },
        }
    }
}

/// Reading the lines `ls[i..]` keeps every timecode it reads within `u64`.
pub open spec fn srt_fits_from(ls: Seq<Seq<char>>, i: int) -> bool
    decreases ls.len() - i,
{
    if i < 0 || i >= ls.len() {
        true
    } else if !is_index_line(ls[i]) {
        srt_fits_from(ls, i + 1)
    } else if i + 1 >= ls.len() {
        true
    } else if !timing_fits(ls[i + 1]) {
        false
    } else {
        match timing_ms(ls[i + 1]) {
            None => srt_fits_from(ls, i + 2),
            Some(_) => {
                let e = text_end(ls, i + 2);
                if i + 2 <= e <= ls.len() {
                    srt_fits_from(ls, resume_after(ls, e))
                } else {
                    true
                }
            },
        }
    }
}

/// The entries of an SRT document.
pub open spec fn srt_entries(content: Seq<char>) -> Seq<(u64, u64, Seq<char>)> {
    srt_entries_from(lines(content), 0)
}

/// Every timecode that reading the SRT document reads fits in a `u64`.
pub open spec fn srt_fits(content: Seq<char>) -> bool {
    srt_fits_from(lines(content), 0)
}

/// The views of a sequence of entries.
pub open spec fn entry_views(v: Seq<SubtitleEntry>) -> Seq<(u64, u64, Seq<char>)> {
    v.map_values(|e: SubtitleEntry| e@)
}

proof fn lemma_text_end_bounds(ls: Seq<Seq<char>>, j: int)
    requires
        0 <= j <= ls.len(),
    ensures
        j <= text_end(ls, j) <= ls.len(),
        text_end(ls, j) < ls.len() ==> is_blank(ls[text_end(ls, j)]),
    decreases ls.len() - j,
{
    if j < ls.len() && !is_blank(ls[j]) {
        lemma_text_end_bounds(ls, j + 1);
    }
}

/// Whether `l` is empty after trimming.
pub fn is_blank_exec(l: &[char]) -> (r: bool)
    ensures
        r == is_blank(l@),
{
    let (a, b) = trim_bounds(l);
    a == b
}

/// Reads an SRT document; `None` when one of the timecodes it reads is too large for a
/// `u64`.
pub fn parse_srt_checked(srt_content: &str) -> (r: Option<Vec<SubtitleEntry>>)
    ensures
        match r {
            Some(v) => srt_fits(srt_content@) && entry_views(v@) == srt_entries(srt_content@),
            None => !srt_fits(srt_content@),
        },
{
    let chars = chars_of(srt_content);
    let ls = lines_exec(&chars);
    let ghost lv = ls@.map_values(|x: Vec<char>| x@);
    let n = ls.len();
    let mut i: usize = 0;
    let mut out: Vec<SubtitleEntry> = Vec::new();
    while i < n
        invariant
            lv == ls@.map_values(|x: Vec<char>| x@),
            lv == lines(srt_content@),
            n == lv.len(),
            i <= n,
            entry_views(out@) + srt_entries_from(lv, i as int) == srt_entries_from(lv, 0),
            srt_fits_from(lv, 0) == srt_fits_from(lv, i as int),
        decreases n - i,
    {
        assert(lv[i as int] == ls[i as int]@);
        let t = trimmed(&ls[i]);
        if parse_unsigned_exec(&t, usize::MAX as u64).is_none() {
            i = i + 1;
        } else if i + 1 >= n {
            i = n;
        } else {
            assert(lv[i + 1] == ls[i + 1]@);
            match read_timing_line(&ls[i + 1]) {
                TimingReading::TooLarge => {
                    return None;
                },
                TimingReading::Invalid => {
                    i = i + 2;
                },
                TimingReading::Value(a, b) => {
                    let mut text: Vec<char> = Vec::new();
                    let mut j = i + 2;
                    proof {
                        assert(lv.subrange(i + 2, j as int) =~= Seq::<Seq<char>>::empty());
                    }
                    while j < n && !is_blank_exec(&ls[j])
                        invariant
                            lv == ls@.map_values(|x: Vec<char>| x@),
                            n == lv.len(),
                            i + 2 <= j <= n,
                            text@ == join_lines(lv.subrange(i + 2, j as int)),
                            text_end(lv, i + 2) == text_end(lv, j as int),
                        decreases n - j,
                    {
                        assert(lv[j as int] == ls[j as int]@);
                        let ghost before = text@;
                        if j > i + 2 {
                            text.push('\n');
                        }
                        let line = &ls[j];
                        let m = line.len();
                        let mut k: usize = 0;
                        let ghost mid = text@;
                        while k < m
                            invariant
                                m == line@.len(),
                                k <= m,
                                text@ == mid + line@.take(k as int),
                            decreases m - k,
                        {
                            text.push(line[k]);
                            assert(mid + line@.take(k + 1) =~= (mid + line@.take(k as int)).push(
                                line@[k as int],
                            ));
                            k = k + 1;
                        }
                        proof {
                            assert(line@.take(m as int) =~= line@);
                            let sub = lv.subrange(i + 2, j + 1);
                            assert(sub.drop_last() =~= lv.subrange(i + 2, j as int));
                            if j > i + 2 {
                                assert(text@ =~= join_lines(sub.drop_last()) + seq!['\n']
                                    + sub.last());
                            } else {
                                assert(sub.len() == 1);
                                assert(text@ =~= sub[0]);
                            }
                        }
                        j = j + 1;
                    }
                    proof {
                        if j < n {
                            assert(lv[j as int] == ls[j as int]@);
                        }
                        lemma_text_end_bounds(lv, j as int);
                    }
                    let entry = SubtitleEntry { start_ms: a, end_ms: b, text: string_of(&text) };
                    let ghost before = out@;
                    out.push(entry);
                    assert(entry_views(out@) =~= entry_views(before).push(entry@));
                    i = if j < n {
                        j + 1
                    } else {
                        j
                    };
                },
            }
        }
    }
    Some(out)
}

/// Parses SRT content into its subtitle entries.
///
/// Each entry is a line holding a sequence number, a timing line
/// `HH:MM:SS,mmm --> HH:MM:SS,mmm`, and the text lines up to the next blank line (joined
/// with `'\n'`); every other line is skipped.
pub fn parse_srt(srt_content: &str) -> (r: Vec<SubtitleEntry>)
    requires
        srt_fits(srt_content@),
    ensures
        entry_views(r@) == srt_entries(srt_content@),
{
    match parse_srt_checked(srt_content) {
        Some(v) => v,
        None => Vec::new(),
    }
}

// ---------------------------------------------------------------------------
// Laws of timecodes
// ---------------------------------------------------------------------------

proof fn lemma_digits_free_of(n: nat, width: nat, c: char)
    requires
        !is_digit(c),
    ensures
        free_of(padded(n, width), c),
{
    lemma_padded(n, width);
}

/// The clock fields of a millisecond count add back up to it.
pub proof fn lemma_clock_fields(ms: nat)
    ensures
        ms == (ms / 3600000) * 3600000 + ((ms % 3600000) / 60000) * 60000 + ((ms % 60000)
            / 1000) * 1000 + ms % 1000,
{
    lemma_fundamental_div_mod(ms as int, 3600000);
    lemma_fundamental_div_mod((ms % 3600000) as int, 60000);
    lemma_mod_mod(ms as int, 60000, 60);
    assert(60000 * 60 == 3600000);
    lemma_fundamental_div_mod((ms % 60000) as int, 1000);
    lemma_mod_mod(ms as int, 1000, 60);
    assert(1000 * 60 == 60000);
}

/// Reading a formatted timecode gives back the milliseconds it was made from.
pub proof fn lemma_timecode_roundtrip(ms: u64)
    ensures
        timecode_total(timecode_text(ms as nat)) == Some(ms as int),
        timecode_ms(timecode_text(ms as nat)) == Some(ms),
{
    let n = ms as nat;
    let ph = padded(n / 3600000, 2);
    let pm = padded((n % 3600000) / 60000, 2);
    let ps = padded((n % 60000) / 1000, 2);
    let pf = padded(n % 1000, 3);
    lemma_digits_free_of(n / 3600000, 2, ':');
    lemma_digits_free_of((n % 3600000) / 60000, 2, ':');
    lemma_digits_free_of((n % 60000) / 1000, 2, ':');
    lemma_digits_free_of((n % 60000) / 1000, 2, ',');
    lemma_digits_free_of(n % 1000, 3, ':');
    lemma_digits_free_of(n % 1000, 3, ',');
    let last = ps + seq![','] + pf;
    assert(free_of(last, ':')) by {
        assert forall|i: int| 0 <= i < last.len() implies last[i] != ':' by {
            if i < ps.len() {
                assert(last[i] == ps[i]);
            } else if i > ps.len() {
                assert(last[i] == pf[i - ps.len() - 1]);
            }
        }
    }
    let t = timecode_text(n);
    assert(t =~= ph + seq![':'] + (pm + seq![':'] + last));
    lemma_split_first(ph, ':', pm + seq![':'] + last);
    lemma_split_first(pm, ':', last);
    lemma_split_free(last, ':');
    let parts = split(t, seq![':']);
    assert(parts =~= seq![ph, pm, last]);
    lemma_split_first(ps, ',', pf);
    lemma_split_free(pf, ',');
    assert(split(last, seq![',']) =~= seq![ps, pf]);
    lemma_parse_padded(n / 3600000, 2, u64_max());
    lemma_parse_padded((n % 3600000) / 60000, 2, u64_max());
    lemma_parse_padded((n % 60000) / 1000, 2, u64_max());
    lemma_parse_padded(n % 1000, 3, u64_max());
    lemma_clock_fields(n);
}

} // verus!
