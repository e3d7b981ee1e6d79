//! Working with loaded subtitles: the entry shown at a playback time, searching the
//! entries, and the SRT text of the entries inside a clip.
use vstd::prelude::*;

use crate::decimal::{decimal_digits, push_decimal};
use crate::srt::{timecode_text, SubtitleEntry};
use crate::text::{
    chars_of, contains, contains_exec, find_from, lemma_find_from_bounds, lines, lines_exec,
    lowercase, push_chars, split, split_exec, split_from, to_lowercase, trim, trimmed,
};

verus! {

// ---------------------------------------------------------------------------
// The entry at a time
// ---------------------------------------------------------------------------

/// Entry `e` is on screen at `t` milliseconds (both ends included).
pub open spec fn shows_at(e: SubtitleEntry, t: u64) -> bool {
    e.start_ms <= t && t <= e.end_ms
}

/// The first entry on screen at `time_ms`.
pub fn find_subtitle_at_time(entries: &[SubtitleEntry], time_ms: u64) -> (r: Option<usize>)
    ensures
        match r {
            Some(i) => i < entries@.len() && shows_at(entries@[i as int], time_ms) && forall|
                k: int,
            |
                0 <= k < i ==> !shows_at(#[trigger] entries@[k], time_ms),
            None => forall|k: int|
                0 <= k < entries@.len() ==> !shows_at(#[trigger] entries@[k], time_ms),
        },
{
    let n = entries.len();
    let mut i: usize = 0;
    while i < n
        invariant
            n == entries@.len(),
            i <= n,
            forall|k: int| 0 <= k < i ==> !shows_at(#[trigger] entries@[k], time_ms),
        decreases n - i,
    {
        if entries[i].start_ms <= time_ms && time_ms <= entries[i].end_ms {
            return Some(i);
        }
        i = i + 1;
    }
    None
}

/// An entry is on screen from its start to its end, both included: at its start time, at
/// its end time, and at every time between. So the search at any entry's start time (the
/// time the player seeks to when the entry is clicked) finds an entry, at that entry's
/// position or before it; and no entry is on screen before its start or after its end.
pub proof fn lemma_entry_on_screen(entries: Seq<SubtitleEntry>, j: int)
    requires
        0 <= j < entries.len(),
        entries[j].start_ms <= entries[j].end_ms,
    ensures
        shows_at(entries[j], entries[j].start_ms),
        shows_at(entries[j], entries[j].end_ms),
        forall|t: u64| entries[j].start_ms <= t <= entries[j].end_ms ==> shows_at(entries[j], t),
        forall|t: u64| t < entries[j].start_ms || t > entries[j].end_ms ==> !shows_at(entries[j], t),
        exists|k: int| 0 <= k <= j && #[trigger] shows_at(entries[k], entries[j].start_ms),
{
    assert(shows_at(entries[j], entries[j].start_ms));
}

// ---------------------------------------------------------------------------
// Searching
// ---------------------------------------------------------------------------

/// Entry text `text` matches the query `q`: its lowercase form contains the lowercase
/// query.
pub open spec fn text_matches(text: Seq<char>, q: Seq<char>) -> bool {
    contains(lowercase(text), lowercase(q))
}

/// The positions, in increasing order, of the entries whose text matches `q`.
pub open spec fn matching_indices(entries: Seq<SubtitleEntry>, q: Seq<char>) -> Seq<usize>
    decreases entries.len(),
{
    if entries.len() == 0 {
        seq![]
    } else {
        let before = matching_indices(entries.drop_last(), q);
        if text_matches(entries.last().text@, q) {
            before.push((entries.len() - 1) as usize)
        } else {
            before
        }
    }
}

/// The search over the subtitle list: its results, the result being shown, the last query
/// submitted, and whether the list follows playback ("sync") instead.
pub struct SubtitleSearch {
    sync_enabled: bool,
    result_indices: Vec<usize>,
    current_result: Option<usize>,
    last_scrolled_to_search: Option<usize>,
    last_submitted_term: Option<String>,
}

/// The next result after `c` among `len`, wrapping around.
pub open spec fn next_result(c: usize, len: nat) -> usize {
    ((c + 1) % (len as int)) as usize
}

impl SubtitleSearch {
    /// Whether the list follows playback.
    pub closed spec fn sync_spec(&self) -> bool {
        self.sync_enabled
    }

    /// The positions of the matching entries.
    pub closed spec fn results_spec(&self) -> Seq<usize> {
        self.result_indices@
    }

    /// The result being shown (a position within the results).
    pub closed spec fn current_spec(&self) -> Option<usize> {
        self.current_result
    }

    /// The last query submitted with Enter.
    pub closed spec fn last_term_spec(&self) -> Option<Seq<char>> {
        match self.last_submitted_term {
            Some(t) => Some(t@),
            None => None,
        }
    }

    /// The last result scrolled to.
    pub closed spec fn scrolled_spec(&self) -> Option<usize> {
        self.last_scrolled_to_search
    }

    /// The result being shown lies within the results, whose number fits a `usize`.
    pub open spec fn wf(&self) -> bool {
        &&& self.current_spec() matches Some(c) ==> c < self.results_spec().len()
        &&& self.results_spec().len() <= usize::MAX
    }

    /// Synced to playback, nothing searched.
    pub fn new() -> (r: Self)
        ensures
            r.wf(),
            r.sync_spec(),
            r.results_spec().len() == 0,
            r.current_spec() is None,
            r.last_term_spec() is None,
            r.scrolled_spec() is None,
    {
        SubtitleSearch {
            sync_enabled: true,
            result_indices: Vec::new(),
            current_result: None,
            last_scrolled_to_search: None,
            last_submitted_term: None,
        }
    }

    /// Whether the list follows playback.
    pub fn sync_enabled(&self) -> (r: bool)
        ensures
            r == self.sync_spec(),
    {
        self.sync_enabled
    }

    /// Turns following playback on or off; turning it on drops the search.
    pub fn toggle_sync(&mut self, checked: bool)
        requires
            old(self).wf(),
        ensures
            final(self).wf(),
            final(self).sync_spec() == checked,
            checked ==> final(self).results_spec().len() == 0 && final(self).current_spec() is None
                && final(self).last_term_spec() is None && final(self).scrolled_spec() is None,
            !checked ==> final(self).results_spec() == old(self).results_spec()
                && final(self).current_spec() == old(self).current_spec()
                && final(self).last_term_spec() == old(self).last_term_spec()
                && final(self).scrolled_spec() == old(self).scrolled_spec(),
    {
        self.sync_enabled = checked;
        if checked {
            self.result_indices = Vec::new();
            self.current_result = None;
            self.last_submitted_term = None;
            self.last_scrolled_to_search = None;
        }
    }

    /// Searches the entries for `search_text` (case-insensitively). The results are the
    /// matching positions in order; with results, the first is shown and following
    /// playback is turned off.
    pub fn update_search_results(&mut self, entries: &[SubtitleEntry], search_text: &str)
        requires
            old(self).wf(),
        ensures
            final(self).wf(),
            search_text@.len() == 0 ==> final(self).results_spec().len() == 0
                && final(self).current_spec() is None && final(self).sync_spec()
                == old(self).sync_spec(),
            search_text@.len() > 0 ==> final(self).results_spec() == matching_indices(
                entries@,
                search_text@,
            ),
            search_text@.len() > 0 && final(self).results_spec().len() > 0 ==> final(self).current_spec() == Some(0usize) && !final(self).sync_spec(),
            search_text@.len() > 0 && final(self).results_spec().len() == 0 ==> final(self).current_spec() is None && final(self).sync_spec() == old(self).sync_spec(),
            final(self).last_term_spec() == old(self).last_term_spec(),
            final(self).scrolled_spec() == old(self).scrolled_spec(),
    {
        self.result_indices = Vec::new();
        self.current_result = None;
        let q = chars_of(search_text);
        if q.len() == 0 {
            return;
        }
        let lq = to_lowercase(search_text);
        let lqc = chars_of(lq.as_str());
        let n = entries.len();
        let mut found: Vec<usize> = Vec::new();
        let mut i: usize = 0;
        while i < n
            invariant
                n == entries@.len(),
                i <= n,
                lqc@ == lowercase(search_text@),
                found@ == matching_indices(entries@.take(i as int), search_text@),
            decreases n - i,
        {
            assert(entries@.take(i + 1).drop_last() =~= entries@.take(i as int));
            let lt = to_lowercase(entries[i].text.as_str());
            let ltc = chars_of(lt.as_str());
            if contains_exec(&ltc, &lqc) {
                found.push(i);
            }
            i = i + 1;
        }
        assert(entries@.take(n as int) =~= entries@);
        self.result_indices = found;
        if self.result_indices.len() > 0 {
            self.current_result = Some(0);
            self.toggle_sync(false);
        }
    }

    /// Moves to the next result, wrapping around; nothing happens without results.
    pub fn search_next(&mut self)
        requires
            old(self).wf(),
        ensures
            final(self).wf(),
            final(self).results_spec() == old(self).results_spec(),
            final(self).current_spec() == match old(self).current_spec() {
                Some(c) => if old(self).results_spec().len() > 0 {
                    Some(next_result(c, old(self).results_spec().len()))
                } else {
                    Some(c)
                },
                None => None,
            },
            final(self).sync_spec() == old(self).sync_spec(),
            final(self).last_term_spec() == old(self).last_term_spec(),
            final(self).scrolled_spec() == old(self).scrolled_spec(),
    {
        if self.result_indices.len() == 0 {
            return;
        }
        if let Some(current_idx) = self.current_result {
            let next_idx = (current_idx + 1) % self.result_indices.len();
            self.current_result = Some(next_idx);
        }
    }

    /// The position of the entry of the result being shown.
    pub fn current_search_subtitle_index(&self) -> (r: Option<usize>)
        ensures
            r == match self.current_spec() {
                Some(c) => if c < self.results_spec().len() {
                    Some(self.results_spec()[c as int])
                } else {
                    None
                },
                None => None,
            },
    {
        match self.current_result {
            Some(idx) => if idx < self.result_indices.len() {
                Some(self.result_indices[idx])
            } else {
                None
            },
            None => None,
        }
    }

    /// Enter in the search field: a new query is searched (turning following playback
    /// off); the same query again moves to the next result; an empty query does nothing.
    pub fn on_search_enter(&mut self, entries: &[SubtitleEntry], search_text: &str)
        requires
            old(self).wf(),
        ensures
            final(self).wf(),
            search_text@.len() == 0 ==> *final(self) == *old(self),
            search_text@.len() > 0 && old(self).last_term_spec() != Some(search_text@) ==> {
                &&& final(self).last_term_spec() == Some(search_text@)
                &&& !final(self).sync_spec()
                &&& final(self).results_spec() == matching_indices(entries@, search_text@)
                &&& final(self).current_spec() == if final(self).results_spec().len() > 0 {
                    Some(0usize)
                } else {
                    None
                }
            },
            search_text@.len() > 0 && old(self).last_term_spec() == Some(search_text@) ==> {
                &&& final(self).last_term_spec() == old(self).last_term_spec()
                &&& final(self).results_spec() == old(self).results_spec()
                &&& final(self).sync_spec() == old(self).sync_spec()
                &&& final(self).current_spec() == match old(self).current_spec() {
                    Some(c) => if old(self).results_spec().len() > 0 {
                        Some(next_result(c, old(self).results_spec().len()))
                    } else {
                        Some(c)
                    },
                    None => None,
                }
            },
    {
        let q = chars_of(search_text);
        if q.len() == 0 {
            return;
        }
        let same = match &self.last_submitted_term {
            Some(t) => {
                let tc = chars_of(t.as_str());
                crate::probe::text_eq(&tc, search_text)
            },
            None => false,
        };
        if !same {
            self.last_submitted_term = Some(String::from_str(search_text));
            self.toggle_sync(false);
            self.update_search_results(entries, search_text);
        } else {
            self.search_next();
        }
    }

    /// Escape in the search field: the search is dropped.
    pub fn on_search_escape(&mut self)
        requires
            old(self).wf(),
        ensures
            final(self).wf(),
            final(self).results_spec().len() == 0,
            final(self).current_spec() is None,
            final(self).scrolled_spec() is None,
            final(self).last_term_spec() is None,
            final(self).sync_spec() == old(self).sync_spec(),
    {
        self.result_indices = Vec::new();
        self.current_result = None;
        self.last_scrolled_to_search = None;
        self.last_submitted_term = None;
    }

    /// Records that the list was scrolled to the entry at `index` for the search; `true`
    /// when that is a change (and the list must scroll).
    pub fn note_scrolled_to_search(&mut self, index: usize) -> (r: bool)
        requires
            old(self).wf(),
        ensures
            final(self).wf(),
            r == (old(self).scrolled_spec() != Some(index)),
            final(self).scrolled_spec() == Some(index),
            final(self).results_spec() == old(self).results_spec(),
            final(self).current_spec() == old(self).current_spec(),
            final(self).last_term_spec() == old(self).last_term_spec(),
            final(self).sync_spec() == old(self).sync_spec(),
    {
        let changed = self.last_scrolled_to_search != Some(index);
        self.last_scrolled_to_search = Some(index);
        changed
    }
}

// ---------------------------------------------------------------------------
// The SRT text of a clip
// ---------------------------------------------------------------------------

/// Entry `e` overlaps the clip `[start, end]` (milliseconds, ends included).
pub open spec fn overlaps(e: SubtitleEntry, start: u64, end: u64) -> bool {
    e.start_ms <= end && e.end_ms >= start
}

/// The separator between the two timecodes of a timing line.
pub open spec fn timing_separator() -> Seq<char> {
    seq![' ', '-', '-', '>', ' ']
}

/// One entry as a cue of the clip text: its timing line, its text, and a blank line.
pub open spec fn cue_text(e: SubtitleEntry) -> Seq<char> {
    timecode_text(e.start_ms as nat) + timing_separator() + timecode_text(e.end_ms as nat)
        + seq!['\n'] + e.text@ + seq!['\n', '\n']
}

/// The cues of the entries that overlap the clip, in order.
pub open spec fn clip_text(entries: Seq<SubtitleEntry>, start: u64, end: u64) -> Seq<char>
    decreases entries.len(),
{
    if entries.len() == 0 {
        seq![]
    } else {
        clip_text(entries.drop_last(), start, end) + if overlaps(entries.last(), start, end) {
            cue_text(entries.last())
        } else {
            seq![]
        }
    }
}

/// The text of the entries that overlap the clip from `start_ms` to `end_ms`, as cues
/// without sequence numbers (`HH:MM:SS,mmm --> HH:MM:SS,mmm`, the text, a blank line).
pub fn clip_range_text(entries: &[SubtitleEntry], start_ms: u64, end_ms: u64) -> (r: String)
    ensures
        r@ == clip_text(entries@, start_ms, end_ms),
{
    let mut out = String::new();
    let n = entries.len();
    let mut i: usize = 0;
    while i < n
        invariant
            n == entries@.len(),
            i <= n,
            out@ == clip_text(entries@.take(i as int), start_ms, end_ms),
        decreases n - i,
    {
        assert(entries@.take(i + 1).drop_last() =~= entries@.take(i as int));
        let e = &entries[i];
        if e.start_ms <= end_ms && e.end_ms >= start_ms {
            let ghost before = out@;
            let a = e.format_start_time();
            let b = e.format_end_time();
            out.append(a.as_str());
            push_chars(&mut out, &[' ', '-', '-', '>', ' ']);
            out.append(b.as_str());
            crate::text::push_char(&mut out, '\n');
            out.append(e.text.as_str());
            crate::text::push_char(&mut out, '\n');
            crate::text::push_char(&mut out, '\n');
            assert(out@ =~= before + cue_text(entries@[i as int]));
        } else {
            assert(clip_text(entries@.take(i + 1), start_ms, end_ms) =~= clip_text(
                entries@.take(i as int),
                start_ms,
                end_ms,
            ));
        }
        i = i + 1;
    }
    assert(entries@.take(n as int) =~= entries@);
    out
}

/// A block of the custom subtitle text whose first line holds a timing separator.
pub open spec fn block_has_timing(b: Seq<char>) -> bool {
    lines(b).len() > 0 && contains(lines(b)[0], timing_separator())
}

/// The trimmed blocks, among `bs`, that are cues: non-empty with a timing first line.
pub open spec fn timed_blocks(bs: Seq<Seq<char>>) -> Seq<Seq<char>>
    decreases bs.len(),
{
    if bs.len() == 0 {
        seq![]
    } else {
        let before = timed_blocks(bs.drop_last());
        let t = trim(bs.last());
        if t.len() > 0 && block_has_timing(t) {
            before.push(t)
        } else {
            before
        }
    }
}

/// The cues of a custom subtitle text: its blocks (separated by blank lines `"\n\n"`),
/// trimmed, that are cues.
pub open spec fn custom_cues(content: Seq<char>) -> Seq<Seq<char>> {
    timed_blocks(split(content, seq!['\n', '\n']))
}

/// Cues numbered from 1: each as its number, a line break, the cue, and a blank line.
pub open spec fn numbered_srt(cues: Seq<Seq<char>>) -> Seq<char>
    decreases cues.len(),
{
    if cues.len() == 0 {
        seq![]
    } else {
        numbered_srt(cues.drop_last()) + decimal_digits(cues.len()) + seq!['\n'] + cues.last()
            + seq!['\n', '\n']
    }
}

/// Converts a custom subtitle text to SRT: each block (separated by a blank line) whose
/// first line holds `" --> "` becomes a cue, trimmed and numbered from 1; other blocks are
/// dropped.
pub fn custom_text_to_srt(content: &str) -> (r: String)
    requires
        custom_cues(content@).len() < i32::MAX,
    ensures
        r@ == numbered_srt(custom_cues(content@)),
{
    let chars = chars_of(content);
    let sep = ['\n', '\n'];
    assert(sep@ =~= seq!['\n', '\n']);
    let blocks = split_exec(&chars, &sep);
    let ghost bv = blocks@.map_values(|x: Vec<char>| x@);
    let arrow = [' ', '-', '-', '>', ' '];
    assert(arrow@ =~= timing_separator());
    let mut out = String::new();
    let mut sequence: u64 = 1;
    let n = blocks.len();
    let mut i: usize = 0;
    while i < n
        invariant
            n == bv.len(),
            bv == blocks@.map_values(|x: Vec<char>| x@),
            bv == split(content@, seq!['\n', '\n']),
            arrow@ == timing_separator(),
            i <= n,
            sequence == timed_blocks(bv.take(i as int)).len() + 1,
            timed_blocks(bv).len() < i32::MAX,
            out@ == numbered_srt(timed_blocks(bv.take(i as int))),
        decreases n - i,
    {
        assert(bv.take(i + 1).drop_last() =~= bv.take(i as int));
        assert(bv[i as int] == blocks[i as int]@);
        proof {
            lemma_timed_blocks_prefix(bv, i + 1);
        }
        let block = trimmed(&blocks[i]);
        if block.len() > 0 {
            let ls = lines_exec(&block);
            if ls.len() > 0 {
                assert(ls@.map_values(|x: Vec<char>| x@)[0] == ls[0]@);
                if contains_exec(&ls[0], &arrow) {
                    let ghost before = timed_blocks(bv.take(i as int));
                    let mut digits: Vec<char> = Vec::new();
                    push_decimal(&mut digits, sequence);
                    push_chars(&mut out, &digits);
                    crate::text::push_char(&mut out, '\n');
                    push_chars(&mut out, &block);
                    crate::text::push_char(&mut out, '\n');
                    crate::text::push_char(&mut out, '\n');
                    assert(digits@ =~= decimal_digits(sequence as nat));
                    assert(timed_blocks(bv.take(i + 1)) == before.push(block@));
                    assert(out@ =~= numbered_srt(before.push(block@))) by {
                        assert(before.push(block@).drop_last() =~= before);
                    }
                    sequence = sequence + 1;
                }
            }
        }
        i = i + 1;
    }
    assert(bv.take(n as int) =~= bv);
    out
}

/// Splitting `s[from..]` gives at most one piece more than it has characters.
proof fn lemma_split_from_len(s: Seq<char>, p: Seq<char>, from: int)
    requires
        p.len() > 0,
        0 <= from <= s.len(),
    ensures
        split_from(s, p, from).len() <= s.len() - from + 1,
    decreases s.len() - from,
{
    lemma_find_from_bounds(s, p, from);
    match find_from(s, p, from) {
        None => {},
        Some(j) => {
            lemma_split_from_len(s, p, j + p.len());
        },
    }
}

/// There are no more cues than blocks.
proof fn lemma_timed_blocks_len(bs: Seq<Seq<char>>)
    ensures
        timed_blocks(bs).len() <= bs.len(),
    decreases bs.len(),
{
    if bs.len() > 0 {
        lemma_timed_blocks_len(bs.drop_last());
    }
}

/// A custom subtitle text holds at most one cue more than it has characters: its
/// conversion to SRT accepts every text of fewer than `i32::MAX - 1` characters.
pub proof fn lemma_custom_cues_bound(content: Seq<char>)
    ensures
        custom_cues(content).len() <= content.len() + 1,
{
    lemma_split_from_len(content, seq!['\n', '\n'], 0);
    lemma_timed_blocks_len(split(content, seq!['\n', '\n']));
}

/// The cues among a prefix of the blocks are no more than those among all of them.
proof fn lemma_timed_blocks_prefix(bs: Seq<Seq<char>>, k: int)
    requires
        0 <= k <= bs.len(),
    ensures
        timed_blocks(bs.take(k)).len() <= timed_blocks(bs).len(),
    decreases bs.len() - k,
{
    if k < bs.len() {
        lemma_timed_blocks_prefix(bs, k + 1);
        assert(bs.take(k + 1).drop_last() =~= bs.take(k));
    } else {
        assert(bs.take(k) =~= bs);
    }
}

/// `k` moves to the next result from `c` among `len` land on `(c + k) % len`; in
/// particular `len` moves come back to `c`.
pub open spec fn advance(c: usize, len: nat, k: nat) -> usize
    decreases k,
{
    if k == 0 {
        c
    } else {
        next_result(advance(c, len, (k - 1) as nat), len)
    }
}

/// Moving to the next result cycles through all results: after `k` moves from result `c`
/// the result shown is `(c + k) % len`, so after `len` moves it is `c` again.
pub proof fn lemma_search_next_cycles(c: usize, len: nat, k: nat)
    requires
        c < len,
        len <= usize::MAX,
    ensures
        advance(c, len, k) as int == (c + k) % (len as int),
        advance(c, len, len) == c,
{
    lemma_advance_mod(c, len, k);
    lemma_advance_mod(c, len, len);
    vstd::arithmetic::div_mod::lemma_mod_add_multiples_vanish(c as int, len as int);
    vstd::arithmetic::div_mod::lemma_small_mod(c as nat, len);
}

/// From any state of the search showing a result, `k` moves to the next result land on
/// `(c + k) % n` for `n` results, and `n` moves come back to the result shown.
pub proof fn lemma_search_state_cycles(s: SubtitleSearch, k: nat)
    requires
        s.wf(),
        s.current_spec() is Some,
    ensures
        advance(s.current_spec()->0, s.results_spec().len(), k) as int == (s.current_spec()->0 + k)
            % (s.results_spec().len() as int),
        advance(s.current_spec()->0, s.results_spec().len(), s.results_spec().len())
            == s.current_spec()->0,
{
    lemma_search_next_cycles(s.current_spec()->0, s.results_spec().len(), k);
}

proof fn lemma_advance_mod(c: usize, len: nat, k: nat)
    requires
        c < len,
        len <= usize::MAX,
    ensures
        advance(c, len, k) as int == (c + k) % (len as int),
    decreases k,
{
    if k > 0 {
        lemma_advance_mod(c, len, (k - 1) as nat);
        vstd::arithmetic::div_mod::lemma_add_mod_noop_right(1, (c + k - 1) as int, len as int);
    } else {
        vstd::arithmetic::div_mod::lemma_small_mod(c as nat, len);
    }
}

// ---------------------------------------------------------------------------
// Custom subtitles shown by the player
// ---------------------------------------------------------------------------

/// What the player is asked to do when the custom mode is switched.
pub enum CustomSubtitleAction {
    /// Load these SRT subtitles as a track.
    Load(String),
    /// Drop the custom track, and show the chosen track again if there is one.
    Unload { restore_track: Option<usize> },
    /// Nothing (the custom text is blank).
    Nothing,
}

/// Whether the custom clip subtitles replace the stream's, and which SRT text the player
/// was last given.
pub struct CustomSubtitleMode {
    enabled: bool,
    last_loaded: String,
}

impl CustomSubtitleMode {
    /// Whether the custom mode is on.
    pub closed spec fn is_on(&self) -> bool {
        self.enabled
    }

    /// The SRT text the player was last given.
    pub closed spec fn loaded_text(&self) -> Seq<char> {
        self.last_loaded@
    }

    /// Off, nothing given to the player.
    pub fn new() -> (r: Self)
        ensures
            !r.is_on(),
            r.loaded_text() == Seq::<char>::empty(),
    {
        CustomSubtitleMode { enabled: false, last_loaded: String::new() }
    }

    pub fn is_enabled(&self) -> (r: bool)
        ensures
            r == self.is_on(),
    {
        self.enabled
    }

    /// Ticking the box loads the custom SRT text unless it is blank; unticking drops the
    /// custom track, brings back the chosen one, and forgets what was loaded.
    pub fn toggle(&mut self, checked: bool, srt: String, selected_track: Option<usize>) -> (r:
        CustomSubtitleAction)
        ensures
            final(self).is_on() == checked,
            checked ==> final(self).loaded_text() == old(self).loaded_text(),
            checked && trim(srt@).len() > 0 ==> (r matches CustomSubtitleAction::Load(t) && t@
                == srt@),
            checked && trim(srt@).len() == 0 ==> (r is Nothing),
            !checked ==> final(self).loaded_text() == Seq::<char>::empty(),
            !checked ==> (r == (CustomSubtitleAction::Unload { restore_track: selected_track })),
    {
        self.enabled = checked;
        if checked {
            let c = chars_of(srt.as_str());
            let t = trimmed(&c);
            if t.len() > 0 {
                CustomSubtitleAction::Load(srt)
            } else {
                CustomSubtitleAction::Nothing
            }
        } else {
            self.last_loaded = String::new();
            CustomSubtitleAction::Unload { restore_track: selected_track }
        }
    }

    /// The player took `srt`.
    pub fn loaded(&mut self, srt: String)
        ensures
            final(self).loaded_text() == srt@,
            final(self).is_on() == old(self).is_on(),
    {
        self.last_loaded = srt;
    }

    /// Whether an edit of the custom text reloads it: in the custom mode with subtitles
    /// shown, when the SRT text is not blank and differs from what was last loaded.
    pub fn should_reload(&self, custom_mode: bool, display_subtitles: bool, srt: &String) -> (r:
        bool)
        ensures
            r == (custom_mode && display_subtitles && srt@ != self.loaded_text() && trim(
                srt@,
            ).len() > 0),
    {
        if custom_mode && display_subtitles && *srt != self.last_loaded {
            let c = chars_of(srt.as_str());
            let t = trimmed(&c);
            t.len() > 0
        } else {
            false
        }
    }
}

} // verus!

