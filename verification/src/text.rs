//! Character-level text primitives shared by the parsers and formatters.
//!
//! Strings are modelled by their sequence of Unicode scalar values (`Seq<char>`);
//! the parsers work on `Vec<char>` copies of their input.
use vstd::prelude::*;

verus! {

// ---------------------------------------------------------------------------
// Conversions between `&str` / `String` and character vectors
// ---------------------------------------------------------------------------

/// `String::push`: appends one character.
#[verifier::external_body]
pub(crate) fn push_char(s: &mut String, c: char)
    ensures
        final(s)@ == old(s)@.push(c),
{
    s.push(c);
}

/// The characters of `s`, in order.
pub fn chars_of(s: &str) -> (v: Vec<char>)
    ensures
        v@ == s@,
{
    let mut v: Vec<char> = Vec::new();
    for c in it: s.chars()
        invariant
            it.seq() == s@,
            v@ == it.seq().take(it.index() as int),
    {
        v.push(c);
    }
    v
}

/// A string made of the given characters.
pub fn string_of(v: &[char]) -> (s: String)
    ensures
        s@ == v@,
{
    let mut s = String::new();
    let n = v.len();
    let mut i: usize = 0;
    while i < n
        invariant
            n == v@.len(),
            i <= n,
            s@ == v@.take(i as int),
        decreases n - i,
    {
        push_char(&mut s, v[i]);
        assert(v@.take(i as int).push(v@[i as int]) =~= v@.take(i + 1));
        i = i + 1;
    }
    assert(v@.take(n as int) =~= v@);
    s
}

/// Appends the characters of `v` to `s`.
pub fn push_chars(s: &mut String, v: &[char])
    ensures
        final(s)@ == old(s)@ + v@,
{
    let n = v.len();
    let mut i: usize = 0;
    let ghost start = s@;
    while i < n
        invariant
            n == v@.len(),
            i <= n,
            s@ == start + v@.take(i as int),
        decreases n - i,
    {
        push_char(s, v[i]);
        assert(start + v@.take(i as int).push(v@[i as int]) =~= start + v@.take(i + 1));
        i = i + 1;
    }
    assert(v@.take(n as int) =~= v@);
}

// ---------------------------------------------------------------------------
// Whitespace and trimming
// ---------------------------------------------------------------------------

/// The Unicode `White_Space` property, the set that `char::is_whitespace` tests.
pub open spec fn is_white_space(c: char) -> bool {
    let u = c as u32;
    ||| (0x09 <= u && u <= 0x0D)
    ||| u == 0x20
    ||| u == 0x85
    ||| u == 0xA0
    ||| u == 0x1680
    ||| (0x2000 <= u && u <= 0x200A)
    ||| u == 0x2028
    ||| u == 0x2029
    ||| u == 0x202F
    ||| u == 0x205F
    ||| u == 0x3000
}

/// Whether `c` has the `White_Space` property, as `char::is_whitespace` tests it.
pub(crate) fn char_is_whitespace(c: char) -> (r: bool)
    ensures
        r == is_white_space(c),
{
    let u = c as u32;
    (0x09 <= u && u <= 0x0D) || u == 0x20 || u == 0x85 || u == 0xA0 || u == 0x1680 || (0x2000
        <= u && u <= 0x200A) || u == 0x2028 || u == 0x2029 || u == 0x202F || u == 0x205F || u
        == 0x3000
}

/// `char::is_alphanumeric`: the Unicode `Alphabetic` or `Numeric` property, a table.
pub uninterp spec fn alphanumeric(c: char) -> bool;

/// `char::is_alphanumeric`. Its result is named, not stated: the properties are tables.
#[verifier::external_body]
pub(crate) fn char_is_alphanumeric(c: char) -> (r: bool)
    ensures
        r == alphanumeric(c),
{
    c.is_alphanumeric()
}

/// `s` without its leading whitespace.
pub open spec fn trim_start(s: Seq<char>) -> Seq<char>
    decreases s.len(),
{
    if s.len() > 0 && is_white_space(s[0]) {
        trim_start(s.drop_first())
    } else {
        s
    }
}

/// `s` without its trailing whitespace.
pub open spec fn trim_end(s: Seq<char>) -> Seq<char>
    decreases s.len(),
{
    if s.len() > 0 && is_white_space(s.last()) {
        trim_end(s.drop_last())
    } else {
        s
    }
}

/// `s` without leading and trailing whitespace, as `str::trim` gives it.
pub open spec fn trim(s: Seq<char>) -> Seq<char> {
    trim_end(trim_start(s))
}

proof fn lemma_trim_start_skip(s: Seq<char>, i: int)
    requires
        0 <= i <= s.len(),
        forall|k: int| 0 <= k < i ==> is_white_space(#[trigger] s[k]),
    ensures
        trim_start(s) == trim_start(s.skip(i)),
    decreases i,
{
    if i > 0 {
        assert(s.skip(1) =~= s.drop_first());
        lemma_trim_start_skip(s.drop_first(), i - 1);
        assert(s.drop_first().skip(i - 1) =~= s.skip(i));
    } else {
        assert(s.skip(0) =~= s);
    }
}

proof fn lemma_trim_end_take(s: Seq<char>, j: int)
    requires
        0 <= j <= s.len(),
        forall|k: int| j <= k < s.len() ==> is_white_space(#[trigger] s[k]),
    ensures
        trim_end(s) == trim_end(s.take(j)),
    decreases s.len() - j,
{
    if j < s.len() {
        assert(s.take(s.len() - 1) =~= s.drop_last());
        lemma_trim_end_take(s.drop_last(), j);
        assert(s.drop_last().take(j) =~= s.take(j));
    } else {
        assert(s.take(j) =~= s);
    }
}

/// The bounds `(a, b)` of the trimmed part of `s`: `trim(s) == s[a..b]`.
pub fn trim_bounds(s: &[char]) -> (r: (usize, usize))
    ensures
        r.0 <= r.1 <= s@.len(),
        trim(s@) == s@.subrange(r.0 as int, r.1 as int),
{
    let n = s.len();
    let mut a: usize = 0;
    while a < n && char_is_whitespace(s[a])
        invariant
            n == s@.len(),
            a <= n,
            forall|k: int| 0 <= k < a ==> is_white_space(#[trigger] s@[k]),
        decreases n - a,
    {
        a = a + 1;
    }
    proof {
        lemma_trim_start_skip(s@, a as int);
        assert(trim_start(s@.skip(a as int)) == s@.skip(a as int));
    }
    let mut b: usize = n;
    while b > a && char_is_whitespace(s[b - 1])
        invariant
            n == s@.len(),
            a <= b <= n,
            forall|k: int| b <= k < n ==> is_white_space(#[trigger] s@[k]),
        decreases b,
    {
        b = b - 1;
    }
    proof {
        let t = s@.skip(a as int);
        assert forall|k: int| (b - a) <= k < t.len() implies is_white_space(#[trigger] t[k]) by {
            assert(t[k] == s@[k + a]);
        }
        lemma_trim_end_take(t, (b - a) as int);
        assert(t.take((b - a) as int) =~= s@.subrange(a as int, b as int));
        let u = s@.subrange(a as int, b as int);
        if u.len() > 0 {
            assert(u.last() == s@[b - 1]);
        }
    }
    (a, b)
}

/// The characters of `s` without leading and trailing whitespace.
pub fn trimmed(s: &[char]) -> (r: Vec<char>)
    ensures
        r@ == trim(s@),
{
    let (a, b) = trim_bounds(s);
    slice_to_vec(s, a, b)
}

/// A copy of `s[a..b]`.
pub fn slice_to_vec(s: &[char], a: usize, b: usize) -> (r: Vec<char>)
    requires
        a <= b <= s@.len(),
    ensures
        r@ == s@.subrange(a as int, b as int),
{
    let mut r: Vec<char> = Vec::new();
    let mut i = a;
    while i < b
        invariant
            a <= i <= b <= s@.len(),
            r@ == s@.subrange(a as int, i as int),
        decreases b - i,
    {
        r.push(s[i]);
        assert(s@.subrange(a as int, i as int).push(s@[i as int]) =~= s@.subrange(
            a as int,
            i + 1,
        ));
        i = i + 1;
    }
    r
}


// ---------------------------------------------------------------------------
// Searching and splitting
// ---------------------------------------------------------------------------

/// `p` occurs in `s` at position `k`.
pub open spec fn matches_at(s: Seq<char>, p: Seq<char>, k: int) -> bool {
    0 <= k && k + p.len() <= s.len() && s.subrange(k, k + p.len()) == p
}

/// The first position at or after `from` where `p` occurs in `s`.
pub open spec fn find_from(s: Seq<char>, p: Seq<char>, from: int) -> Option<int>
    decreases s.len() + 1 - from,
{
    if from < 0 || from + p.len() > s.len() {
        None
    } else if matches_at(s, p, from) {
        Some(from)
    } else {
        find_from(s, p, from + 1)
    }
}

/// `s` contains `p`, as `str::contains` tests it.
pub open spec fn contains(s: Seq<char>, p: Seq<char>) -> bool {
    find_from(s, p, 0) is Some
}

/// The pieces of `s[from..]` between the non-overlapping occurrences of `p`, found
/// left to right: what `str::split` yields for a non-empty pattern.
pub open spec fn split_from(s: Seq<char>, p: Seq<char>, from: int) -> Seq<Seq<char>>
    decreases s.len() - from,
{
    match find_from(s, p, from) {
        None => seq![s.subrange(from, s.len() as int)],
        Some(j) => if 0 <= from <= j && j + p.len() <= s.len() && p.len() > 0 {
            seq![s.subrange(from, j)] + split_from(s, p, j + p.len())
        } else {
            seq![]
        },
    }
}

/// `str::split` with a non-empty pattern.
pub open spec fn split(s: Seq<char>, p: Seq<char>) -> Seq<Seq<char>> {
    split_from(s, p, 0)
}

pub proof fn lemma_find_from_bounds(s: Seq<char>, p: Seq<char>, from: int)
    ensures
        find_from(s, p, from) matches Some(j) ==> from <= j && j + p.len() <= s.len()
            && matches_at(s, p, j),
        find_from(s, p, from) is None && 0 <= from ==> forall|k: int|
            from <= k ==> !#[trigger] matches_at(s, p, k),
    decreases s.len() + 1 - from,
{
    if from < 0 || from + p.len() > s.len() {
    } else if matches_at(s, p, from) {
    } else {
        lemma_find_from_bounds(s, p, from + 1);
    }
}

pub proof fn lemma_split_from_nonempty(s: Seq<char>, p: Seq<char>, from: int)
    requires
        p.len() > 0,
        0 <= from,
    ensures
        split_from(s, p, from).len() >= 1,
    decreases s.len() - from,
{
    lemma_find_from_bounds(s, p, from);
    match find_from(s, p, from) {
        None => {},
        Some(j) => {
            lemma_split_from_nonempty(s, p, j + p.len());
        },
    }
}

/// Whether `p` occurs in `s` at `k`.
pub fn matches_at_exec(s: &[char], p: &[char], k: usize) -> (r: bool)
    ensures
        r == matches_at(s@, p@, k as int),
{
    if k > s.len() || s.len() - k < p.len() {
        return false;
    }
    let m = p.len();
    let n = s.len();
    let mut i: usize = 0;
    while i < m
        invariant
            m == p@.len(),
            n == s@.len(),
            k + m <= s@.len(),
            i <= m,
            forall|t: int| 0 <= t < i ==> s@[k + t] == p@[t],
        decreases m - i,
    {
        if s[k + i] != p[i] {
            proof {
                assert(s@.subrange(k as int, k + m)[i as int] != p@[i as int]);
            }
            return false;
        }
        i = i + 1;
    }
    assert(s@.subrange(k as int, k + m) =~= p@);
    true
}

/// The first occurrence of `p` in `s` at or after `from`.
pub fn find_exec(s: &[char], p: &[char], from: usize) -> (r: Option<usize>)
    ensures
        match r {
            Some(j) => find_from(s@, p@, from as int) == Some(j as int),
            None => find_from(s@, p@, from as int) is None,
        },
{
    let n = s.len();
    let m = p.len();
    let mut k = from;
    while k <= n && n - k >= m
        invariant
            n == s@.len(),
            m == p@.len(),
            from <= k,
            find_from(s@, p@, from as int) == find_from(s@, p@, k as int),
        decreases n - k,
    {
        if matches_at_exec(s, p, k) {
            return Some(k);
        }
        proof {
            if m == 0 {
                assert(s@.subrange(k as int, k as int) =~= p@);
            }
        }
        k = k + 1;
    }
    None
}

/// Whether `s` contains `p` (`str::contains`).
pub fn contains_exec(s: &[char], p: &[char]) -> (r: bool)
    ensures
        r == contains(s@, p@),
{
    find_exec(s, p, 0).is_some()
}

/// The pieces of `s` between the occurrences of `p` (`str::split`).
pub fn split_exec(s: &[char], p: &[char]) -> (r: Vec<Vec<char>>)
    requires
        p@.len() > 0,
    ensures
        r@.map_values(|x: Vec<char>| x@) == split(s@, p@),
{
    let n = s.len();
    let m = p.len();
    let mut pieces: Vec<Vec<char>> = Vec::new();
    let mut start: usize = 0;
    loop
        invariant
            n == s@.len(),
            m == p@.len(),
            m > 0,
            start <= n,
            pieces@.map_values(|x: Vec<char>| x@) + split_from(s@, p@, start as int) == split(s@, p@),
        decreases n - start,
    {
        proof {
            lemma_find_from_bounds(s@, p@, start as int);
        }
        match find_exec(s, p, start) {
            None => {
                let last = slice_to_vec(s, start, n);
                let ghost old_pieces = pieces@.map_values(|x: Vec<char>| x@);
                pieces.push(last);
                assert(pieces@.map_values(|x: Vec<char>| x@) =~= old_pieces.push(last@));
                assert(old_pieces + split_from(s@, p@, start as int) =~= pieces@.map_values(|x: Vec<char>| x@));
                return pieces;
            },
            Some(j) => {
                let piece = slice_to_vec(s, start, j);
                let ghost old_pieces = pieces@.map_values(|x: Vec<char>| x@);
                pieces.push(piece);
                assert(pieces@.map_values(|x: Vec<char>| x@) =~= old_pieces.push(piece@));
                assert(old_pieces + split_from(s@, p@, start as int) =~= pieces@.map_values(|x: Vec<char>| x@)
                    + split_from(s@, p@, (j + m) as int));
                start = j + m;
            },
        }
    }
}

/// Searching for `p` from inside the second half of `pre + s` is searching in `s`.
pub proof fn lemma_find_from_shift(pre: Seq<char>, s: Seq<char>, p: Seq<char>, k: int)
    requires
        0 <= k,
    ensures
        find_from(pre + s, p, pre.len() + k) == (match find_from(s, p, k) {
            Some(j) => Some(j + pre.len()),
            None => None,
        }),
    decreases s.len() + 1 - k,
{
    let t = pre + s;
    let f = pre.len() + k;
    if f + p.len() > t.len() {
    } else {
        assert(t.subrange(f, f + p.len()) =~= s.subrange(k, k + p.len()));
        if !matches_at(s, p, k) {
            lemma_find_from_shift(pre, s, p, k + 1);
        }
    }
}

/// Splitting inside the second half of `pre + s` is splitting `s`.
pub proof fn lemma_split_from_shift(pre: Seq<char>, s: Seq<char>, p: Seq<char>, k: int)
    requires
        0 <= k <= s.len(),
        p.len() > 0,
    ensures
        split_from(pre + s, p, pre.len() + k) == split_from(s, p, k),
    decreases s.len() + 1 - k,
{
    let t = pre + s;
    lemma_find_from_shift(pre, s, p, k);
    lemma_find_from_bounds(s, p, k);
    match find_from(s, p, k) {
        None => {
            assert(t.subrange(pre.len() + k, t.len() as int) =~= s.subrange(k, s.len() as int));
        },
        Some(j) => {
            assert(t.subrange(pre.len() + k, j + pre.len()) =~= s.subrange(k, j));
            lemma_split_from_shift(pre, s, p, j + p.len());
            assert(pre.len() + (j + p.len()) == (j + pre.len()) + p.len());
        },
    }
}

/// A sequence none of whose characters is `c`.
pub open spec fn free_of(s: Seq<char>, c: char) -> bool {
    forall|i: int| 0 <= i < s.len() ==> s[i] != c
}

proof fn lemma_find_none_free(s: Seq<char>, c: char, k: int)
    requires
        free_of(s, c),
        0 <= k,
    ensures
        find_from(s, seq![c], k) is None,
    decreases s.len() + 1 - k,
{
    if k + 1 > s.len() {
    } else {
        assert(s.subrange(k, k + 1)[0] == s[k]);
        assert(s.subrange(k, k + 1) != seq![c]);
        lemma_find_none_free(s, c, k + 1);
    }
}

/// A piece free of the separator splits into itself.
pub proof fn lemma_split_free(s: Seq<char>, c: char)
    requires
        free_of(s, c),
    ensures
        split(s, seq![c]) == seq![s],
{
    lemma_find_none_free(s, c, 0);
    assert(s.subrange(0, s.len() as int) =~= s);
}

/// `a + [c] + b` with `a` free of `c` splits at that `c` first.
pub proof fn lemma_split_first(a: Seq<char>, c: char, b: Seq<char>)
    requires
        free_of(a, c),
    ensures
        split(a + seq![c] + b, seq![c]) == seq![a] + split(b, seq![c]),
{
    let s = a + seq![c] + b;
    let p = seq![c];
    assert forall|k: int| 0 <= k < a.len() implies !matches_at(s, p, k) by {
        assert(s.subrange(k, k + 1)[0] == a[k]);
    }
    assert(matches_at(s, p, a.len() as int)) by {
        assert(s.subrange(a.len() as int, a.len() + 1 as int) =~= p);
    }
    lemma_find_prefix(s, p, 0, a.len() as int);
    assert(s.subrange(0, a.len() as int) =~= a);
    let pre = a + seq![c];
    assert(s =~= pre + b);
    lemma_split_from_shift(pre, b, p, 0);
}

/// If no match lies in `[k, j)` and one lies at `j`, the search from `k` finds `j`.
pub proof fn lemma_find_prefix(s: Seq<char>, p: Seq<char>, k: int, j: int)
    requires
        0 <= k <= j,
        matches_at(s, p, j),
        forall|t: int| k <= t < j ==> !#[trigger] matches_at(s, p, t),
    ensures
        find_from(s, p, k) == Some(j),
    decreases j - k,
{
    if k < j {
        lemma_find_prefix(s, p, k + 1, j);
    }
}

// ---------------------------------------------------------------------------
// Lines
// ---------------------------------------------------------------------------

/// `l` without one trailing carriage return.
pub open spec fn strip_cr(l: Seq<char>) -> Seq<char> {
    if l.len() > 0 && l.last() == '\r' {
        l.drop_last()
    } else {
        l
    }
}

/// The lines of `s`, as `str::lines` yields them: split at `'\n'`, a `'\r'` just
/// before a `'\n'` removed, and no empty last line after a final line ending.
pub open spec fn lines(s: Seq<char>) -> Seq<Seq<char>> {
    let pieces = split(s, seq!['\n']);
    let k = pieces.len() - 1;
    let ended = pieces.take(k).map_values(|l: Seq<char>| strip_cr(l));
    if pieces[k].len() == 0 {
        ended
    } else {
        ended.push(pieces[k])
    }
}

/// `l` without one trailing carriage return.
pub fn strip_cr_exec(l: Vec<char>) -> (r: Vec<char>)
    ensures
        r@ == strip_cr(l@),
{
    let ghost orig = l@;
    let mut l = l;
    let n = l.len();
    if n > 0 && l[n - 1] == '\r' {
        l.pop();
        assert(l@ =~= orig.drop_last());
    }
    l
}

/// The lines of `s` (`str::lines`).
pub fn lines_exec(s: &[char]) -> (r: Vec<Vec<char>>)
    ensures
        r@.map_values(|x: Vec<char>| x@) == lines(s@),
{
    let nl = ['\n'];
    proof {
        assert(nl@ =~= seq!['\n']);
        lemma_split_from_nonempty(s@, seq!['\n'], 0);
    }
    let pieces = split_exec(s, &nl);
    let ghost all = pieces@.map_values(|x: Vec<char>| x@);
    let k = pieces.len() - 1;
    let mut out: Vec<Vec<char>> = Vec::new();
    let mut i: usize = 0;
    while i < k
        invariant
            all == pieces@.map_values(|x: Vec<char>| x@),
            all == split(s@, seq!['\n']),
            k == all.len() - 1,
            i <= k,
            out@.map_values(|x: Vec<char>| x@) =~= all.take(i as int).map_values(|l: Seq<char>| strip_cr(l)),
        decreases k - i,
    {
        let piece = slice_to_vec(&pieces[i], 0, pieces[i].len());
        assert(piece@ =~= all[i as int]);
        let line = strip_cr_exec(piece);
        let ghost before = out@.map_values(|x: Vec<char>| x@);
        out.push(line);
        assert(out@.map_values(|x: Vec<char>| x@) =~= before.push(line@));
        assert(all.take(i + 1).map_values(|l: Seq<char>| strip_cr(l)) =~= all.take(
            i as int,
        ).map_values(|l: Seq<char>| strip_cr(l)).push(strip_cr(all[i as int])));
        i = i + 1;
    }
    if pieces[k].len() > 0 {
        let last = slice_to_vec(&pieces[k], 0, pieces[k].len());
        assert(last@ =~= all[k as int]);
        let ghost before = out@.map_values(|x: Vec<char>| x@);
        out.push(last);
        assert(out@.map_values(|x: Vec<char>| x@) =~= before.push(last@));
    }
    out
}

// ---------------------------------------------------------------------------
// Counting and padding
// ---------------------------------------------------------------------------

/// The number of occurrences of `c` in `s`.
pub open spec fn count_char(s: Seq<char>, c: char) -> nat
    decreases s.len(),
{
    if s.len() == 0 {
        0
    } else {
        count_char(s.drop_last(), c) + if s.last() == c {
            1nat
        } else {
            0nat
        }
    }
}

/// The number of occurrences of `c` in `s` (`str::matches(c).count()`).
pub fn count_char_exec(s: &[char], c: char) -> (r: usize)
    ensures
        r == count_char(s@, c),
{
    let n = s.len();
    let mut k: usize = 0;
    let mut i: usize = 0;
    while i < n
        invariant
            n == s@.len(),
            i <= n,
            k <= i,
            k == count_char(s@.take(i as int), c),
        decreases n - i,
    {
        assert(s@.take(i + 1).drop_last() =~= s@.take(i as int));
        if s[i] == c {
            k = k + 1;
        }
        i = i + 1;
    }
    assert(s@.take(n as int) =~= s@);
    k
}

/// `s` followed by as many `'0'`s as bring it to `width` characters
/// (`format!("{:0<width$}", s)`).
pub open spec fn pad_right_zeros(s: Seq<char>, width: nat) -> Seq<char> {
    if s.len() < width {
        s + Seq::new((width - s.len()) as nat, |i: int| '0')
    } else {
        s
    }
}

/// `s` followed by as many `'0'`s as bring it to `width` characters.
pub fn pad_right_zeros_exec(s: &[char], width: usize) -> (r: Vec<char>)
    ensures
        r@ == pad_right_zeros(s@, width as nat),
{
    let mut r = slice_to_vec(s, 0, s.len());
    assert(r@ =~= s@);
    let n = s.len();
    if n < width {
        let k = width - n;
        let mut j: usize = 0;
        while j < k
            invariant
                j <= k,
                k == width - n,
                n == s@.len(),
                r@ == s@ + Seq::new(j as nat, |i: int| '0'),
            decreases k - j,
        {
            r.push('0');
            assert(s@ + Seq::new((j + 1) as nat, |i: int| '0') =~= (s@ + Seq::new(
                j as nat,
                |i: int| '0',
            )).push('0'));
            j = j + 1;
        }
    }
    r
}

/// Counting over a concatenation adds the counts.
pub proof fn lemma_count_char_concat(a: Seq<char>, b: Seq<char>, c: char)
    ensures
        count_char(a + b, c) == count_char(a, c) + count_char(b, c),
    decreases b.len(),
{
    if b.len() == 0 {
        assert(a + b =~= a);
    } else {
        assert((a + b).drop_last() =~= a + b.drop_last());
        lemma_count_char_concat(a, b.drop_last(), c);
    }
}

/// A sequence free of `c` holds no `c`.
pub proof fn lemma_count_char_free(s: Seq<char>, c: char)
    requires
        free_of(s, c),
    ensures
        count_char(s, c) == 0,
    decreases s.len(),
{
    if s.len() > 0 {
        lemma_count_char_free(s.drop_last(), c);
    }
}

/// Trimming leaves a text alone whose first and last characters are not whitespace.
pub proof fn lemma_trim_no_space(s: Seq<char>)
    requires
        s.len() > 0,
        !is_white_space(s[0]),
        !is_white_space(s.last()),
    ensures
        trim(s) == s,
{
}

// ---------------------------------------------------------------------------
// Case mapping and UTF-8 widths
// ---------------------------------------------------------------------------

/// `str::to_lowercase`: the lowercase mapping of every character, as Unicode defines it.
pub uninterp spec fn lowercase(s: Seq<char>) -> Seq<char>;

/// `str::to_lowercase`. Its result is named, not stated: Unicode's case mapping is a table.
#[verifier::external_body]
pub(crate) fn to_lowercase(s: &str) -> (r: String)
    ensures
        r@ == lowercase(s@),
{
    s.to_lowercase()
}

/// `str::to_uppercase`: the uppercase mapping of every character, as Unicode defines it.
pub uninterp spec fn uppercase(s: Seq<char>) -> Seq<char>;

/// `str::to_uppercase`. Its result is named, not stated: Unicode's case mapping is a table.
#[verifier::external_body]
pub(crate) fn to_uppercase(s: &str) -> (r: String)
    ensures
        r@ == uppercase(s@),
{
    s.to_uppercase()
}

/// The number of bytes of `c` in UTF-8.
pub open spec fn utf8_width(c: char) -> nat {
    let u = c as u32;
    if u < 0x80 {
        1
    } else if u < 0x800 {
        2
    } else if u < 0x10000 {
        3
    } else {
        4
    }
}

/// The number of UTF-8 bytes of `c`.
pub fn utf8_width_exec(c: char) -> (r: u64)
    ensures
        r == utf8_width(c),
{
    let u = c as u32;
    if u < 0x80 {
        1
    } else if u < 0x800 {
        2
    } else if u < 0x10000 {
        3
    } else {
        4
    }
}

/// The number of bytes of `s` in UTF-8.
pub open spec fn utf8_len(s: Seq<char>) -> nat
    decreases s.len(),
{
    if s.len() == 0 {
        0
    } else {
        utf8_len(s.drop_last()) + utf8_width(s.last())
    }
}

/// The number of UTF-8 bytes of `s`.
pub fn utf8_len_exec(s: &[char]) -> (r: u64)
    requires
        s@.len() < u64::MAX / 4,
    ensures
        r == utf8_len(s@),
{
    let n = s.len();
    let mut total: u64 = 0;
    let mut i: usize = 0;
    while i < n
        invariant
            n == s@.len(),
            n < u64::MAX / 4,
            i <= n,
            total == utf8_len(s@.take(i as int)),
            total <= 4 * i,
        decreases n - i,
    {
        assert(s@.take(i + 1).drop_last() =~= s@.take(i as int));
        total = total + utf8_width_exec(s[i]);
        i = i + 1;
    }
    assert(s@.take(n as int) =~= s@);
    total
}

pub proof fn lemma_utf8_len_cons(c: char, a: Seq<char>)
    ensures
        utf8_len(seq![c] + a) == utf8_width(c) + utf8_len(a),
    decreases a.len(),
{
    if a.len() == 0 {
        assert((seq![c] + a).drop_last() =~= Seq::<char>::empty());
        assert(seq![c] + a =~= seq![c]);
        assert(utf8_len(Seq::<char>::empty()) == 0);
        assert(utf8_len(a) == 0);
    } else {
        assert((seq![c] + a).drop_last() =~= seq![c] + a.drop_last());
        lemma_utf8_len_cons(c, a.drop_last());
    }
}

/// The UTF-8 length of a concatenation is the sum of the lengths.
pub proof fn lemma_utf8_len_concat(a: Seq<char>, b: Seq<char>)
    ensures
        utf8_len(a + b) == utf8_len(a) + utf8_len(b),
    decreases b.len(),
{
    if b.len() == 0 {
        assert(a + b =~= a);
        assert(utf8_len(b) == 0);
    } else {
        assert((a + b).drop_last() =~= a + b.drop_last());
        lemma_utf8_len_concat(a, b.drop_last());
    }
}

/// The bytes of a prefix grow with the prefix and stay within the whole.
pub proof fn lemma_utf8_len_take(s: Seq<char>, i: int, j: int)
    requires
        0 <= i <= j <= s.len(),
    ensures
        utf8_len(s.take(i)) + utf8_len(s.subrange(i, j)) == utf8_len(s.take(j)),
        utf8_len(s.take(i)) <= utf8_len(s.take(j)),
        utf8_len(s.take(j)) <= utf8_len(s),
        utf8_len(s.take(s.len() as int)) == utf8_len(s),
{
    assert(s.take(j) =~= s.take(i) + s.subrange(i, j));
    lemma_utf8_len_concat(s.take(i), s.subrange(i, j));
    assert(s =~= s.take(j) + s.skip(j));
    lemma_utf8_len_concat(s.take(j), s.skip(j));
    assert(s.take(s.len() as int) =~= s);
}

/// The UTF-8 encoding of a text is as long as its length in bytes.
pub proof fn lemma_encode_utf8_len(s: Seq<char>)
    ensures
        vstd::utf8::encode_utf8(s).len() == utf8_len(s),
    decreases s.len(),
{
    if s.len() > 0 {
        lemma_encode_utf8_len(s.drop_first());
        assert(s =~= seq![s[0]] + s.drop_first());
        lemma_utf8_len_cons(s[0], s.drop_first());
        vstd::utf8::char_is_scalar(s[0]);
    }
}

/// `str::len`: the length of `s` in bytes.
pub fn byte_len(s: &str) -> (n: usize)
    requires
        utf8_len(s@) <= usize::MAX,
    ensures
        n == utf8_len(s@),
{
    proof {
        lemma_encode_utf8_len(s@);
    }
    s.len()
}

/// A text has at least as many bytes as characters.
pub proof fn lemma_utf8_len_lower(s: Seq<char>)
    ensures
        utf8_len(s) >= s.len(),
    decreases s.len(),
{
    if s.len() > 0 {
        lemma_utf8_len_lower(s.drop_last());
    }
}

} // verus!
