//! The `ffmpeg` and `ffprobe` command lines of the exports and of subtitle extraction,
//! and the decisions taken on what those tools report.
use vstd::prelude::*;

use crate::decimal::{decimal_digits, parse_unsigned, parse_unsigned_exec, push_decimal};
use crate::text::{
    chars_of, find_exec, find_from, lemma_utf8_len_cons, lemma_utf8_len_lower, lowercase, utf8_len,
    utf8_len_exec, push_chars, slice_to_vec, string_of, to_lowercase,
    trim, trimmed, utf8_width, utf8_width_exec,
};
use crate::timestamp::signed_padded;

verus! {

/// The texts of a list of strings.
pub open spec fn texts(v: Seq<String>) -> Seq<Seq<char>> {
    v.map_values(|s: String| s@)
}

/// Appends a copy of `a` to the argument list.
fn push_arg(args: &mut Vec<String>, a: &str)
    ensures
        texts(final(args)@) == texts(old(args)@).push(a@),
{
    let ghost before = texts(args@);
    args.push(String::from_str(a));
    assert(texts(args@) =~= before.push(a@));
}

/// Appends the string `a` to the argument list.
fn push_arg_string(args: &mut Vec<String>, a: String)
    ensures
        texts(final(args)@) == texts(old(args)@).push(a@),
{
    let ghost before = texts(args@);
    let ghost av = a@;
    args.push(a);
    assert(texts(args@) =~= before.push(av));
}

/// Appends the strings of `more`.
fn push_args(args: &mut Vec<String>, more: Vec<String>)
    ensures
        texts(final(args)@) == texts(old(args)@) + texts(more@),
{
    let ghost start = texts(args@);
    let ghost mv = texts(more@);
    let mut more = more;
    let mut rest: Vec<String> = Vec::new();
    // take the strings off the back, then put them on in order
    while more.len() > 0
        invariant
            texts(more@) + texts(rest@).reverse() == mv,
            texts(args@) == start,
        decreases more.len(),
    {
        let ghost m0 = texts(more@);
        let ghost r0 = texts(rest@);
        let s = more.pop().unwrap();
        let ghost sv = s@;
        rest.push(s);
        assert(m0 =~= texts(more@).push(sv));
        assert(texts(rest@) =~= r0.push(sv));
        assert(texts(rest@).reverse() =~= seq![sv] + r0.reverse());
        assert(texts(more@) + texts(rest@).reverse() =~= m0 + r0.reverse());
    }
    assert(texts(more@) =~= Seq::<Seq<char>>::empty());
    while rest.len() > 0
        invariant
            texts(args@) + texts(rest@).reverse() == start + mv,
        decreases rest.len(),
    {
        let ghost a0 = texts(args@);
        let ghost r0 = texts(rest@);
        let s = rest.pop().unwrap();
        let ghost sv = s@;
        args.push(s);
        assert(r0 =~= texts(rest@).push(sv));
        assert(texts(args@) =~= a0.push(sv));
        assert(r0.reverse() =~= seq![sv] + texts(rest@).reverse());
        assert(texts(args@) + texts(rest@).reverse() =~= a0 + r0.reverse());
    }
    assert(texts(rest@).reverse() =~= Seq::<Seq<char>>::empty());
    assert(texts(args@) =~= start + mv);
}

// ---------------------------------------------------------------------------
// Lists of the application
// ---------------------------------------------------------------------------

/// The video file extensions the open dialog offers.
pub open spec fn video_extensions() -> Seq<Seq<char>> {
    seq!["mp4"@, "avi"@, "mov"@, "mkv"@, "wmv"@, "flv"@, "webm"@, "m4v"@, "ts"@]
}

/// Get list of supported video file extensions.
pub fn get_video_extensions() -> (r: Vec<&'static str>)
    ensures
        r@.map_values(|s: &str| s@) == video_extensions(),
{
    let r = vec!["mp4", "avi", "mov", "mkv", "wmv", "flv", "webm", "m4v", "ts"];
    assert(r@.map_values(|s: &str| s@) =~= video_extensions());
    r
}

/// Whether a (lower-case) extension is one of the supported video extensions.
pub fn is_supported_extension(ext: &str) -> (r: bool)
    ensures
        r == video_extensions().contains(ext@),
{
    let list = get_video_extensions();
    let e = chars_of(ext);
    let n = list.len();
    let mut i: usize = 0;
    while i < n
        invariant
            n == list@.len(),
            list@.map_values(|s: &str| s@) == video_extensions(),
            e@ == ext@,
            i <= n,
            forall|k: int| 0 <= k < i ==> video_extensions()[k] != e@,
        decreases n - i,
    {
        assert(list@.map_values(|s: &str| s@)[i as int] == list@[i as int]@);
        let item: &str = list[i];
        if use_text_eq(&e, item) {
            return true;
        }
        i = i + 1;
    }
    proof {
        if video_extensions().contains(ext@) {
            let k = choose|k: int| 0 <= k < video_extensions().len() && video_extensions()[k] == ext@;
            assert(video_extensions()[k] != e@);
        }
    }
    false
}

/// The fonts offered for subtitles.
pub open spec fn system_fonts() -> Seq<Seq<char>> {
    seq![
        "Arial"@,
        "Arial Black"@,
        "Calibri"@,
        "Cambria"@,
        "Comic Sans MS"@,
        "Consolas"@,
        "Courier New"@,
        "DejaVu Sans"@,
        "DejaVu Sans Mono"@,
        "DejaVu Serif"@,
        "Georgia"@,
        "Helvetica"@,
        "Impact"@,
        "Liberation Sans"@,
        "Liberation Serif"@,
        "Lucida Console"@,
        "Noto Sans"@,
        "Segoe UI"@,
        "Tahoma"@,
        "Times New Roman"@,
        "Trebuchet MS"@,
        "Verdana"@,
    ]
}

/// Get a list of common system fonts, available through the system font providers of
/// Windows, macOS and Linux.
pub fn get_system_fonts() -> (r: Vec<String>)
    ensures
        texts(r@) == system_fonts(),
{
    let mut r: Vec<String> = Vec::new();
    push_arg(&mut r, "Arial");
    push_arg(&mut r, "Arial Black");
    push_arg(&mut r, "Calibri");
    push_arg(&mut r, "Cambria");
    push_arg(&mut r, "Comic Sans MS");
    push_arg(&mut r, "Consolas");
    push_arg(&mut r, "Courier New");
    push_arg(&mut r, "DejaVu Sans");
    push_arg(&mut r, "DejaVu Sans Mono");
    push_arg(&mut r, "DejaVu Serif");
    push_arg(&mut r, "Georgia");
    push_arg(&mut r, "Helvetica");
    push_arg(&mut r, "Impact");
    push_arg(&mut r, "Liberation Sans");
    push_arg(&mut r, "Liberation Serif");
    push_arg(&mut r, "Lucida Console");
    push_arg(&mut r, "Noto Sans");
    push_arg(&mut r, "Segoe UI");
    push_arg(&mut r, "Tahoma");
    push_arg(&mut r, "Times New Roman");
    push_arg(&mut r, "Trebuchet MS");
    push_arg(&mut r, "Verdana");
    assert(texts(r@) =~= system_fonts());
    r
}

// ---------------------------------------------------------------------------
// Audio
// ---------------------------------------------------------------------------

/// Whether `s` starts with `p`.
pub open spec fn starts_with(s: Seq<char>, p: Seq<char>) -> bool {
    s.len() >= p.len() && s.take(p.len() as int) == p
}

/// Containers whose audio is re-encoded to AAC on export.
pub open spec fn reencoded_container(ext: Seq<char>) -> bool {
    ext == "mkv"@ || ext == "webm"@ || ext == "avi"@ || ext == "mov"@
}

/// The audio of a transport stream: AAC, 256 kbit/s, 48 kHz, stereo.
pub open spec fn ts_audio_args() -> Seq<Seq<char>> {
    seq!["-c:a"@, "aac"@, "-b:a"@, "256k"@, "-ar"@, "48000"@, "-ac"@, "2"@]
}

/// AAC at 256 kbit/s.
pub open spec fn aac_args() -> Seq<Seq<char>> {
    seq!["-c:a"@, "aac"@, "-b:a"@, "256k"@]
}

/// How a channel layout other than mono or stereo is carried over: 5.1 layouts are
/// mapped to 5.1, 7.1 layouts kept, anything else mixed down to stereo.
pub open spec fn layout_args(layout: Seq<char>) -> Seq<Seq<char>> {
    if layout == "5.1"@ || layout == "5.1(side)"@ {
        seq!["-af"@, "channelmap=channel_layout=5.1"@]
    } else if starts_with(layout, "7.1"@) {
        seq!["-af"@, "channelmap=channel_layout=7.1"@]
    } else {
        seq!["-ac"@, "2"@]
    }
}

/// The audio arguments for a file whose (lower-case) extension is `ext`, given the
/// channel layout reported for a re-encoded container when it is neither mono nor stereo.
pub open spec fn audio_args(ext: Seq<char>, layout: Option<Seq<char>>) -> Seq<Seq<char>> {
    if ext == "ts"@ {
        ts_audio_args()
    } else if reencoded_container(ext) {
        match layout {
            Some(l) => aac_args() + layout_args(l),
            None => aac_args(),
        }
    } else {
        seq!["-c:a"@, "copy"@]
    }
}

/// The channel layout `ffprobe` printed, when it calls for special handling: the trimmed
/// output unless empty, `stereo` or `mono`.
pub open spec fn special_layout(probe_output: Seq<char>) -> Option<Seq<char>> {
    let l = trim(probe_output);
    if l.len() == 0 || l == "stereo"@ || l == "mono"@ {
        None
    } else {
        Some(l)
    }
}

/// The extension of a file name in lower case (`str::to_lowercase`).
pub fn normalized_extension(extension: &str) -> (r: String)
    ensures
        r@ == lowercase(extension@),
{
    to_lowercase(extension)
}

/// Whether the audio of a file with this (lower-case) extension is re-encoded, so that its
/// channel layout must be probed.
pub fn needs_layout_probe(ext: &str) -> (r: bool)
    ensures
        r == (ext@ != "ts"@ && reencoded_container(ext@)),
{
    let e = chars_of(ext);
    use_text_eq(&e, "ts") == false && (use_text_eq(&e, "mkv") || use_text_eq(&e, "webm")
        || use_text_eq(&e, "avi") || use_text_eq(&e, "mov"))
}

fn use_text_eq(s: &[char], lit: &str) -> (r: bool)
    ensures
        r == (s@ == lit@),
{
    crate::probe::text_eq(s, lit)
}

/// The channel layout a re-encode must handle specially, from `ffprobe`'s output.
pub fn channel_layout_from_probe(probe_output: &str) -> (r: Option<String>)
    ensures
        match r {
            Some(l) => special_layout(probe_output@) == Some(l@),
            None => special_layout(probe_output@) is None,
        },
{
    let c = chars_of(probe_output);
    let l = trimmed(&c);
    if l.len() == 0 || use_text_eq(&l, "stereo") || use_text_eq(&l, "mono") {
        None
    } else {
        Some(string_of(&l))
    }
}

/// Gets the audio codec arguments for a file with (lower-case) extension `ext`: a fixed
/// AAC stereo encoding for transport streams, an AAC re-encoding for MKV, WebM, AVI and
/// MOV (with the channel `layout`, when one calls for special handling), and a plain copy
/// otherwise.
pub fn get_audio_codec_args(ext: &str, layout: Option<String>) -> (r: Result<Vec<String>, String>)
    ensures
        r matches Ok(v) && texts(v@) == audio_args(
            ext@,
            match layout {
                Some(l) => Some(l@),
                None => None,
            },
        ),
{
    let e = chars_of(ext);
    let mut args: Vec<String> = Vec::new();
    if use_text_eq(&e, "ts") {
        push_arg(&mut args, "-c:a");
        push_arg(&mut args, "aac");
        push_arg(&mut args, "-b:a");
        push_arg(&mut args, "256k");
        push_arg(&mut args, "-ar");
        push_arg(&mut args, "48000");
        push_arg(&mut args, "-ac");
        push_arg(&mut args, "2");
        assert(texts(args@) =~= ts_audio_args());
        return Ok(args);
    }
    if use_text_eq(&e, "mkv") || use_text_eq(&e, "webm") || use_text_eq(&e, "avi")
        || use_text_eq(&e, "mov") {
        push_arg(&mut args, "-c:a");
        push_arg(&mut args, "aac");
        push_arg(&mut args, "-b:a");
        push_arg(&mut args, "256k");
        assert(texts(args@) =~= aac_args());
        if let Some(layout) = layout {
            let l = chars_of(layout.as_str());
            let starts_seven = l.len() >= 3 && l[0] == '7' && l[1] == '.' && l[2] == '1';
            assert(starts_seven == starts_with(l@, "7.1"@)) by {
                reveal_strlit("7.1");
                let seven = seq!['7', '.', '1'];
                assert("7.1"@ =~= seven);
                if l@.len() >= 3 {
                    if starts_seven {
                        assert(l@.take(3) =~= seven);
                    } else if l@.take(3) == seven {
                        assert(l@.take(3)[0] == l@[0] && l@.take(3)[1] == l@[1] && l@.take(3)[2]
                            == l@[2]);
                    }
                }
            }
            if use_text_eq(&l, "5.1") || use_text_eq(&l, "5.1(side)") {
                push_arg(&mut args, "-af");
                push_arg(&mut args, "channelmap=channel_layout=5.1");
            } else if starts_seven {
                push_arg(&mut args, "-af");
                push_arg(&mut args, "channelmap=channel_layout=7.1");
            } else {
                push_arg(&mut args, "-ac");
                push_arg(&mut args, "2");
            }
            assert(texts(args@) =~= aac_args() + layout_args(l@));
        }
        return Ok(args);
    }
    push_arg(&mut args, "-c:a");
    push_arg(&mut args, "copy");
    assert(texts(args@) =~= seq!["-c:a"@, "copy"@]);
    Ok(args)
}

// ---------------------------------------------------------------------------
// Burned-in subtitles
// ---------------------------------------------------------------------------

/// Characters that a path in an `ffmpeg` filter argument must escape.
pub open spec fn filter_special(c: char) -> bool {
    c == '\\' || c == '\'' || c == ':' || c == '[' || c == ']' || c == ',' || c == ';'
}

/// `s` with a backslash before each of `\ ' : [ ] , ;`.
pub open spec fn escape_filter_path(s: Seq<char>) -> Seq<char>
    decreases s.len(),
{
    if s.len() == 0 {
        seq![]
    } else {
        escape_filter_path(s.drop_last()) + if filter_special(s.last()) {
            seq!['\\', s.last()]
        } else {
            seq![s.last()]
        }
    }
}

/// `s` without its leading `'#'`s (`str::trim_start_matches('#')`).
pub open spec fn strip_hashes(s: Seq<char>) -> Seq<char>
    decreases s.len(),
{
    if s.len() > 0 && s[0] == '#' {
        strip_hashes(s.drop_first())
    } else {
        s
    }
}

/// `s` cut after its first `n` bytes, when that is between two characters.
pub open spec fn split_bytes(s: Seq<char>, n: nat) -> Option<(Seq<char>, Seq<char>)>
    decreases s.len(),
{
    if n == 0 {
        Some((seq![], s))
    } else if s.len() == 0 || utf8_width(s[0]) > n {
        None
    } else {
        match split_bytes(s.drop_first(), (n - utf8_width(s[0])) as nat) {
            Some((a, b)) => Some((seq![s[0]] + a, b)),
            None => None,
        }
    }
}

/// A color `#RRGGBB` in the blue-green-red order of ASS styles: without its leading
/// `'#'`s, a six-byte text has its byte pairs reversed, any other text is kept; `None`
/// where a byte pair would cut a character (where the byte slicing panics).
pub open spec fn bgr_color(color: Seq<char>) -> Option<Seq<char>> {
    let c = strip_hashes(color);
    if utf8_len(c) == 6 {
        match split_bytes(c, 2) {
            Some((r, rest)) => match split_bytes(rest, 2) {
                Some((g, b)) => Some(b + g + r),
                None => None,
            },
            None => None,
        }
    } else {
        Some(c)
    }
}

/// How subtitles are styled when burned into an export.
pub struct SubtitleStyle {
    pub font_family: String,
    /// The font size, already scaled to the output's width.
    pub font_size: i32,
    pub bold: bool,
    pub italic: bool,
    /// `#RRGGBB`.
    pub color: String,
}

/// The `subtitles` filter that burns subtitle track `track_idx` (from 0) of `input_path`
/// into the video, styled; `bgr` is the style's color in ASS order.
pub open spec fn subtitle_filter_text(
    input_path: Seq<char>,
    track_idx: nat,
    style: SubtitleStyle,
    bgr: Seq<char>,
) -> Seq<char> {
    "subtitles="@ + escape_filter_path(input_path) + ":si="@ + decimal_digits(track_idx)
        + ":force_style=FontName="@ + style.font_family@ + "\\,FontSize="@ + signed_padded(
        style.font_size as int,
        0,
    ) + "\\,Bold="@ + (if style.bold {
        "-1"@
    } else {
        "0"@
    }) + "\\,Italic="@ + (if style.italic {
        "-1"@
    } else {
        "0"@
    }) + "\\,PrimaryColour=&H"@ + bgr
}

/// The filter that burns the subtitles into an export, when they are shown, a track is
/// selected and a style is given (tracks are numbered from 1, `ffmpeg`'s `si` from 0).
pub open spec fn subtitle_filter_for(
    input_path: Seq<char>,
    display_subtitles: bool,
    subtitle_track: Option<usize>,
    style: Option<SubtitleStyle>,
) -> Option<Seq<char>> {
    if display_subtitles && subtitle_track is Some && style is Some {
        let t = subtitle_track->0;
        let idx: nat = if t >= 1 {
            (t - 1) as nat
        } else {
            0
        };
        Some(subtitle_filter_text(input_path, idx, style->0, bgr_color(style->0.color@)->0))
    } else {
        None
    }
}

/// The filter can be built: the style's color does not make the byte slicing panic.
pub open spec fn style_color_ok(display_subtitles: bool, subtitle_track: Option<usize>, style: Option<SubtitleStyle>) -> bool {
    display_subtitles && subtitle_track is Some && style is Some ==> bgr_color(
        style->0.color@,
    ) is Some
}

/// `s` with a backslash before each of `\ ' : [ ] , ;`.
pub fn escape_filter_path_exec(s: &[char]) -> (r: Vec<char>)
    ensures
        r@ == escape_filter_path(s@),
{
    let mut out: Vec<char> = Vec::new();
    let n = s.len();
    let mut i: usize = 0;
    while i < n
        invariant
            n == s@.len(),
            i <= n,
            out@ == escape_filter_path(s@.take(i as int)),
        decreases n - i,
    {
        assert(s@.take(i + 1).drop_last() =~= s@.take(i as int));
        let c = s[i];
        let ghost before = out@;
        if c == '\\' || c == '\'' || c == ':' || c == '[' || c == ']' || c == ',' || c == ';' {
            out.push('\\');
            out.push(c);
            assert(out@ =~= before + seq!['\\', c]);
        } else {
            out.push(c);
            assert(out@ =~= before + seq![c]);
        }
        i = i + 1;
    }
    assert(s@.take(n as int) =~= s@);
    out
}

proof fn lemma_strip_hashes_skip(s: Seq<char>, i: int)
    requires
        0 <= i <= s.len(),
        forall|k: int| 0 <= k < i ==> s[k] == '#',
    ensures
        strip_hashes(s) == strip_hashes(s.skip(i)),
    decreases i,
{
    if i > 0 {
        assert(s.skip(1) =~= s.drop_first());
        lemma_strip_hashes_skip(s.drop_first(), i - 1);
        assert(s.drop_first().skip(i - 1) =~= s.skip(i));
    } else {
        assert(s.skip(0) =~= s);
    }
}

proof fn lemma_split_bytes_prefix(s: Seq<char>, n: nat)
    ensures
        split_bytes(s, n) matches Some((a, b)) ==> s == a + b && utf8_len(a) == n,
    decreases s.len(),
{
    if n == 0 {
        assert(s =~= Seq::<char>::empty() + s);
    } else if s.len() == 0 || utf8_width(s[0]) > n {
    } else {
        let m = (n - utf8_width(s[0])) as nat;
        lemma_split_bytes_prefix(s.drop_first(), m);
        if split_bytes(s.drop_first(), m) is Some {
            let (a, b) = split_bytes(s.drop_first(), m)->0;
            assert(s.drop_first() == a + b);
            assert(s =~= seq![s[0]] + s.drop_first());
            assert(seq![s[0]] + (a + b) =~= seq![s[0]] + a + b);
            lemma_utf8_len_cons(s[0], a);
        }
    }
}

/// The first `k` characters of `s` that make up exactly `n` bytes, if byte `n` is between
/// two characters.
fn split_bytes_exec(s: &[char], n: u64) -> (r: Option<usize>)
    ensures
        match r {
            Some(k) => k <= s@.len() && split_bytes(s@, n as nat) == Some(
                (s@.take(k as int), s@.skip(k as int)),
            ),
            None => split_bytes(s@, n as nat) is None,
        },
{
    let len = s.len();
    let mut k: usize = 0;
    let mut left: u64 = n;
    proof {
        assert(s@.skip(0) =~= s@);
        if split_bytes(s@, n as nat) is Some {
            let (a, b) = split_bytes(s@, n as nat)->0;
            assert(s@.take(0) + a =~= a);
        }
    }
    while left > 0
        invariant
            len == s@.len(),
            k <= len,
            left <= n,
            split_bytes(s@, n as nat) == match split_bytes(s@.skip(k as int), left as nat) {
                Some((a, b)) => Some((s@.take(k as int) + a, b)),
                None => None,
            },
        decreases left,
    {
        if k >= len {
            return None;
        }
        let w = utf8_width_exec(s[k]);
        if w > left {
            return None;
        }
        proof {
            let t = s@.skip(k as int);
            assert(t[0] == s@[k as int]);
            assert(t.drop_first() =~= s@.skip(k + 1));
            assert(s@.take(k as int) + seq![s@[k as int]] =~= s@.take(k + 1));
            match split_bytes(s@.skip(k + 1), (left - w) as nat) {
                Some((a, b)) => {
                    assert(s@.take(k as int) + (seq![s@[k as int]] + a) =~= s@.take(k + 1) + a);
                },
                None => {},
            }
        }
        k = k + 1;
        left = left - w;
    }
    assert(s@.take(k as int) + Seq::<char>::empty() =~= s@.take(k as int));
    Some(k)
}

/// The color in ASS order, or `None` where the byte slicing would panic.
pub fn bgr_color_checked(color: &str) -> (r: Option<String>)
    ensures
        match r {
            Some(c) => bgr_color(color@) == Some(c@),
            None => bgr_color(color@) is None,
        },
{
    let all = chars_of(color);
    let n = all.len();
    let mut i: usize = 0;
    while i < n && all[i] == '#'
        invariant
            n == all@.len(),
            i <= n,
            forall|k: int| 0 <= k < i ==> all@[k] == '#',
        decreases n - i,
    {
        i = i + 1;
    }
    proof {
        lemma_strip_hashes_skip(all@, i as int);
    }
    let c = slice_to_vec(&all, i, n);
    assert(c@ =~= all@.skip(i as int));
    assert(strip_hashes(c@) == c@);
    let six = if c.len() > 8 {
        proof {
            lemma_utf8_len_lower(c@);
        }
        false
    } else {
        utf8_len_exec(&c) == 6
    };
    if !six {
        return Some(string_of(&c));
    }
    match split_bytes_exec(&c, 2) {
        None => None,
        Some(k1) => {
            let rest = slice_to_vec(&c, k1, c.len());
            assert(rest@ =~= c@.skip(k1 as int));
            match split_bytes_exec(&rest, 2) {
                None => None,
                Some(_) => Some(bgr_color_exec(color)),
            }
        },
    }
}

/// The color in ASS order (see [`bgr_color`]).
pub fn bgr_color_exec(color: &str) -> (r: String)
    requires
        bgr_color(color@) is Some,
    ensures
        r@ == bgr_color(color@)->0,
{
    let all = chars_of(color);
    let n = all.len();
    let mut i: usize = 0;
    while i < n && all[i] == '#'
        invariant
            n == all@.len(),
            i <= n,
            forall|k: int| 0 <= k < i ==> all@[k] == '#',
        decreases n - i,
    {
        i = i + 1;
    }
    proof {
        lemma_strip_hashes_skip(all@, i as int);
    }
    let c = slice_to_vec(&all, i, n);
    assert(c@ =~= all@.skip(i as int));
    assert(strip_hashes(c@) == c@);
    let six = if c.len() > 8 {
        proof {
            lemma_utf8_len_lower(c@);
        }
        false
    } else {
        utf8_len_exec(&c) == 6
    };
    if !six {
        return string_of(&c);
    }
    let k1 = split_bytes_exec(&c, 2).unwrap();
    proof {
        lemma_split_bytes_prefix(c@, 2);
    }
    let rest = slice_to_vec(&c, k1, c.len());
    assert(rest@ =~= c@.skip(k1 as int));
    let k2 = split_bytes_exec(&rest, 2).unwrap();
    let mut out: Vec<char> = slice_to_vec(&rest, k2, rest.len());
    let g = slice_to_vec(&rest, 0, k2);
    let r = slice_to_vec(&c, 0, k1);
    let ghost bpart = out@;
    let mut j: usize = 0;
    while j < g.len()
        invariant
            j <= g@.len(),
            out@ == bpart + g@.take(j as int),
        decreases g.len() - j,
    {
        out.push(g[j]);
        assert(bpart + g@.take(j + 1) =~= (bpart + g@.take(j as int)).push(g@[j as int]));
        j = j + 1;
    }
    let ghost bg = out@;
    let mut j: usize = 0;
    while j < r.len()
        invariant
            j <= r@.len(),
            out@ == bg + r@.take(j as int),
        decreases r.len() - j,
    {
        out.push(r[j]);
        assert(bg + r@.take(j + 1) =~= (bg + r@.take(j as int)).push(r@[j as int]));
        j = j + 1;
    }
    assert(g@.take(g@.len() as int) =~= g@);
    assert(r@.take(r@.len() as int) =~= r@);
    assert(g@ =~= rest@.take(k2 as int));
    assert(r@ =~= c@.take(k1 as int));
    assert(out@ =~= rest@.skip(k2 as int) + rest@.take(k2 as int) + c@.take(k1 as int));
    string_of(&out)
}

/// The `subtitles` filter that burns a subtitle track into an export.
pub fn subtitle_filter(input_path: &str, subtitle_track: usize, style: &SubtitleStyle) -> (r:
    String)
    requires
        bgr_color(style.color@) is Some,
    ensures
        r@ == subtitle_filter_text(
            input_path@,
            if subtitle_track >= 1 {
                (subtitle_track - 1) as nat
            } else {
                0
            },
            *style,
            bgr_color(style.color@)->0,
        ),
{
    let track_idx = subtitle_track.saturating_sub(1);
    let path = chars_of(input_path);
    let escaped = escape_filter_path_exec(&path);
    let mut idx_digits: Vec<char> = Vec::new();
    push_decimal(&mut idx_digits, track_idx as u64);
    let mut size_text: Vec<char> = Vec::new();
    if style.font_size < 0 {
        size_text.push('-');
        push_decimal(&mut size_text, (-(style.font_size as i64)) as u64);
    } else {
        push_decimal(&mut size_text, style.font_size as u64);
    }
    assert(size_text@ =~= signed_padded(style.font_size as int, 0));
    let bgr = bgr_color_exec(style.color.as_str());
    let mut out = String::from_str("subtitles=");
    push_chars(&mut out, &escaped);
    out.append(":si=");
    push_chars(&mut out, &idx_digits);
    out.append(":force_style=FontName=");
    out.append(style.font_family.as_str());
    out.append("\\,FontSize=");
    push_chars(&mut out, &size_text);
    out.append("\\,Bold=");
    out.append(if style.bold {
        "-1"
    } else {
        "0"
    });
    out.append("\\,Italic=");
    out.append(if style.italic {
        "-1"
    } else {
        "0"
    });
    out.append("\\,PrimaryColour=&H");
    out.append(bgr.as_str());
    assert(idx_digits@ =~= decimal_digits(track_idx as nat));
    out
}

/// The burned-in subtitle filter of an export, if any.
pub fn subtitle_filter_for_export(
    input_path: &str,
    display_subtitles: bool,
    subtitle_track: Option<usize>,
    style: Option<&SubtitleStyle>,
) -> (r: Option<String>)
    requires
        style_color_ok(
            display_subtitles,
            subtitle_track,
            match style {
                Some(s) => Some(*s),
                None => None,
            },
        ),
    ensures
        match r {
            Some(f) => subtitle_filter_for(
                input_path@,
                display_subtitles,
                subtitle_track,
                match style {
                    Some(s) => Some(*s),
                    None => None,
                },
            ) == Some(f@),
            None => subtitle_filter_for(
                input_path@,
                display_subtitles,
                subtitle_track,
                match style {
                    Some(s) => Some(*s),
                    None => None,
                },
            ) is None,
        },
{
    if display_subtitles {
        match subtitle_track {
            Some(t) => match style {
                Some(s) => Some(subtitle_filter(input_path, t, s)),
                None => None,
            },
            None => None,
        }
    } else {
        None
    }
}

// ---------------------------------------------------------------------------
// Export command lines
// ---------------------------------------------------------------------------

/// The H.264 encoding every video export uses.
pub open spec fn h264_args() -> Seq<Seq<char>> {
    seq!["-c:v"@, "libx264"@, "-profile:v"@, "baseline"@, "-level"@, "3.1"@, "-pix_fmt"@, "yuv420p"@]
}

/// The `ffmpeg` arguments of a video clip export. `start`, `duration` and `end` are the
/// clip's times in seconds as the caller writes them, `frames` the frame count; a
/// transport stream keeps a constant frame rate and converts the pixel format in its
/// filter; burned-in subtitles need the original timestamps (`-copyts`) and an absolute
/// end (`-to`).
pub open spec fn clip_export_args(
    input: Seq<char>,
    output: Seq<char>,
    start: Seq<char>,
    duration: Seq<char>,
    end: Seq<char>,
    frames: Seq<char>,
    filter: Option<Seq<char>>,
    audio: Seq<Seq<char>>,
    is_ts: bool,
) -> Seq<Seq<char>> {
    let has_sub = filter is Some;
    let head = seq!["-ss"@, start, "-i"@, input] + if has_sub {
        seq!["-copyts"@]
    } else {
        seq![]
    };
    let video = if is_ts {
        (if has_sub {
            seq!["-to"@, end]
        } else {
            seq!["-t"@, duration]
        }) + seq![
            "-vf"@,
            match filter {
                Some(f) => f + ",format=yuv420p"@,
                None => "format=yuv420p"@,
            },
        ] + h264_args() + seq!["-vsync"@, "cfr"@]
    } else {
        (if has_sub {
            seq!["-to"@, end, "-frames:v"@, frames]
        } else {
            seq!["-ss"@, "00:00:00.001"@, "-t"@, duration, "-frames:v"@, frames]
        }) + (match filter {
            Some(f) => seq!["-vf"@, f],
            None => seq![],
        }) + h264_args()
    };
    head + video + audio + seq![
        "-crf"@,
        "28"@,
        "-preset"@,
        "ultrafast"@,
        "-movflags"@,
        "faststart+frag_keyframe+empty_moov"@,
    ] + (if has_sub {
        seq![]
    } else {
        seq!["-avoid_negative_ts"@, "make_zero"@]
    }) + seq!["-y"@, "-map_chapters"@, "-1"@, output]
}

/// Whether `s` ends with `p`.
pub open spec fn ends_with(s: Seq<char>, p: Seq<char>) -> bool {
    s.len() >= p.len() && s.skip(s.len() - p.len()) == p
}

/// Whether the input is a transport stream (its path ends with `.ts`).
pub fn is_ts_path(input_path: &str) -> (r: bool)
    ensures
        r == ends_with(input_path@, ".ts"@),
{
    let c = chars_of(input_path);
    let n = c.len();
    let r = n >= 3 && c[n - 3] == '.' && c[n - 2] == 't' && c[n - 1] == 's';
    proof {
        reveal_strlit(".ts");
        let p = seq!['.', 't', 's'];
        assert(".ts"@ =~= p);
        if n >= 3 {
            let tail = c@.skip(n - 3);
            if r {
                assert(tail =~= p);
            } else if tail == p {
                assert(tail[0] == c@[n - 3] && tail[1] == c@[n - 2] && tail[2] == c@[n - 1]);
            }
        }
    }
    r
}

fn push_h264(args: &mut Vec<String>)
    ensures
        texts(final(args)@) == texts(old(args)@) + h264_args(),
{
    let ghost before = texts(args@);
    push_arg(args, "-c:v");
    push_arg(args, "libx264");
    push_arg(args, "-profile:v");
    push_arg(args, "baseline");
    push_arg(args, "-level");
    push_arg(args, "3.1");
    push_arg(args, "-pix_fmt");
    push_arg(args, "yuv420p");
    assert(texts(args@) =~= before + h264_args());
}

/// Builds the `ffmpeg` arguments of a video clip export (see [`clip_export_args`]).
#[verifier::spinoff_prover]
#[verifier::rlimit(40)]
pub fn build_clip_export_args(
    input_path: &str,
    output_path: &str,
    start_time: &str,
    duration_time: &str,
    end_time: &str,
    frame_count: u32,
    subtitle_filter: Option<String>,
    audio_args: Vec<String>,
) -> (r: Vec<String>)
    ensures
        texts(r@) == clip_export_args(
            input_path@,
            output_path@,
            start_time@,
            duration_time@,
            end_time@,
            decimal_digits(frame_count as nat),
            match subtitle_filter {
                Some(f) => Some(f@),
                None => None,
            },
            texts(audio_args@),
            ends_with(input_path@, ".ts"@),
        ),
{
    let ghost filter_view = match subtitle_filter {
        Some(ref f) => Some(f@),
        None => None::<Seq<char>>,
    };
    let ghost audio_view = texts(audio_args@);
    let is_ts = is_ts_path(input_path);
    let has_sub = subtitle_filter.is_some();
    let mut frame_digits: Vec<char> = Vec::new();
    push_decimal(&mut frame_digits, frame_count as u64);
    assert(frame_digits@ =~= decimal_digits(frame_count as nat));
    let mut args: Vec<String> = Vec::new();
    push_arg(&mut args, "-ss");
    push_arg(&mut args, start_time);
    push_arg(&mut args, "-i");
    push_arg(&mut args, input_path);
    if has_sub {
        push_arg(&mut args, "-copyts");
    }
    let ghost head = texts(args@);
    if is_ts {
        if has_sub {
            push_arg(&mut args, "-to");
            push_arg(&mut args, end_time);
        } else {
            push_arg(&mut args, "-t");
            push_arg(&mut args, duration_time);
        }
        push_arg(&mut args, "-vf");
        match &subtitle_filter {
            Some(f) => {
                let mut v = String::from_str(f.as_str());
                v.append(",format=yuv420p");
                push_arg_string(&mut args, v);
            },
            None => {
                push_arg(&mut args, "format=yuv420p");
            },
        }
        push_h264(&mut args);
        push_arg(&mut args, "-vsync");
        push_arg(&mut args, "cfr");
    } else {
        if has_sub {
            push_arg(&mut args, "-to");
            push_arg(&mut args, end_time);
            push_arg(&mut args, "-frames:v");
            push_arg_string(&mut args, string_of(&frame_digits));
        } else {
            push_arg(&mut args, "-ss");
            push_arg(&mut args, "00:00:00.001");
            push_arg(&mut args, "-t");
            push_arg(&mut args, duration_time);
            push_arg(&mut args, "-frames:v");
            push_arg_string(&mut args, string_of(&frame_digits));
        }
        match &subtitle_filter {
            Some(f) => {
                push_arg(&mut args, "-vf");
                push_arg(&mut args, f.as_str());
            },
            None => {},
        }
        push_h264(&mut args);
    }
    let ghost with_video = texts(args@);
    push_args(&mut args, audio_args);
    push_arg(&mut args, "-crf");
    push_arg(&mut args, "28");
    push_arg(&mut args, "-preset");
    push_arg(&mut args, "ultrafast");
    push_arg(&mut args, "-movflags");
    push_arg(&mut args, "faststart+frag_keyframe+empty_moov");
    if !has_sub {
        push_arg(&mut args, "-avoid_negative_ts");
        push_arg(&mut args, "make_zero");
    }
    push_arg(&mut args, "-y");
    push_arg(&mut args, "-map_chapters");
    push_arg(&mut args, "-1");
    push_arg(&mut args, output_path);
    assert(texts(args@) =~= clip_export_args(
        input_path@,
        output_path@,
        start_time@,
        duration_time@,
        end_time@,
        decimal_digits(frame_count as nat),
        filter_view,
        audio_view,
        is_ts,
    ));
    args
}

/// The filter chain of a GIF export: the burned-in subtitles, if any, then 10 frames per
/// second, a 480 pixel wide Lanczos scaling, and a generated palette.
pub open spec fn gif_filter_text(filter: Option<Seq<char>>) -> Seq<char> {
    (match filter {
        Some(f) => f + ","@,
        None => seq![],
    }) + "fps=10"@ + ","@ + "scale=480:-1:flags=lanczos"@
        + ",split[s0][s1];[s0]palettegen[p];[s1][p]paletteuse"@
}

/// The `ffmpeg` arguments of a GIF export.
pub open spec fn gif_export_args(
    input: Seq<char>,
    output: Seq<char>,
    start: Seq<char>,
    duration: Seq<char>,
    filter: Option<Seq<char>>,
) -> Seq<Seq<char>> {
    seq![
        "-ss"@,
        start,
        "-t"@,
        duration,
        "-i"@,
        input,
        "-copyts"@,
        "-vf"@,
        gif_filter_text(filter),
        "-loop"@,
        "0"@,
        "-y"@,
        output,
    ]
}

/// Builds the `ffmpeg` arguments of a GIF export (see [`gif_export_args`]).
pub fn build_gif_export_args(
    input_path: &str,
    output_path: &str,
    start_time: &str,
    duration_time: &str,
    subtitle_filter: Option<String>,
) -> (r: Vec<String>)
    ensures
        texts(r@) == gif_export_args(
            input_path@,
            output_path@,
            start_time@,
            duration_time@,
            match subtitle_filter {
                Some(f) => Some(f@),
                None => None,
            },
        ),
{
    let mut vf = String::new();
    match &subtitle_filter {
        Some(f) => {
            vf.append(f.as_str());
            vf.append(",");
        },
        None => {},
    }
    vf.append("fps=10");
    vf.append(",");
    vf.append("scale=480:-1:flags=lanczos");
    vf.append(",split[s0][s1];[s0]palettegen[p];[s1][p]paletteuse");
    let mut args: Vec<String> = Vec::new();
    push_arg(&mut args, "-ss");
    push_arg(&mut args, start_time);
    push_arg(&mut args, "-t");
    push_arg(&mut args, duration_time);
    push_arg(&mut args, "-i");
    push_arg(&mut args, input_path);
    push_arg(&mut args, "-copyts");
    push_arg(&mut args, "-vf");
    push_arg_string(&mut args, vf);
    push_arg(&mut args, "-loop");
    push_arg(&mut args, "0");
    push_arg(&mut args, "-y");
    push_arg(&mut args, output_path);
    proof {
        let fv = match subtitle_filter {
            Some(ref f) => Some(f@),
            None => None::<Seq<char>>,
        };
        assert(texts(args@) =~= gif_export_args(
            input_path@,
            output_path@,
            start_time@,
            duration_time@,
            fv,
        ));
    }
    args
}

// ---------------------------------------------------------------------------
// Probing and subtitle extraction
// ---------------------------------------------------------------------------

/// The `ffmpeg` arguments that write subtitle stream `stream_index` of `path` as SRT to
/// standard output.
pub open spec fn extract_args(path: Seq<char>, stream_index: nat) -> Seq<Seq<char>> {
    seq!["-i"@, path, "-map"@, "0:s:"@ + decimal_digits(stream_index), "-f"@, "srt"@, "-"@]
}

/// Builds the `ffmpeg` arguments of a subtitle extraction.
pub fn build_extract_args(file_path: &str, stream_index: usize) -> (r: Vec<String>)
    ensures
        texts(r@) == extract_args(file_path@, stream_index as nat),
{
    let mut digits: Vec<char> = Vec::new();
    push_decimal(&mut digits, stream_index as u64);
    let mut map = String::from_str("0:s:");
    push_chars(&mut map, &digits);
    let mut args: Vec<String> = Vec::new();
    push_arg(&mut args, "-i");
    push_arg(&mut args, file_path);
    push_arg(&mut args, "-map");
    push_arg_string(&mut args, map);
    push_arg(&mut args, "-f");
    push_arg(&mut args, "srt");
    push_arg(&mut args, "-");
    assert(digits@ =~= decimal_digits(stream_index as nat));
    assert(texts(args@) =~= extract_args(file_path@, stream_index as nat));
    args
}

/// What an extraction's output gives: the SRT text, or an error when it is blank.
pub fn accept_extracted_srt(srt_content: String) -> (r: Result<String, String>)
    ensures
        match r {
            Ok(s) => trim(srt_content@).len() > 0 && s@ == srt_content@,
            Err(e) => trim(srt_content@).len() == 0 && e@ == "No subtitle content extracted"@,
        },
{
    let c = chars_of(srt_content.as_str());
    let t = trimmed(&c);
    if t.len() == 0 {
        Err(String::from_str("No subtitle content extracted"))
    } else {
        Ok(srt_content)
    }
}

/// The `ffprobe` arguments that list the subtitle streams of `path` with their codec and
/// language, as JSON.
pub open spec fn subtitle_probe_args(path: Seq<char>) -> Seq<Seq<char>> {
    seq![
        "-v"@,
        "error"@,
        "-select_streams"@,
        "s"@,
        "-show_entries"@,
        "stream=index,codec_name:stream_tags=language"@,
        "-of"@,
        "json"@,
        path,
    ]
}

/// Builds the `ffprobe` arguments that list the subtitle streams.
pub fn build_subtitle_probe_args(file_path: &str) -> (r: Vec<String>)
    ensures
        texts(r@) == subtitle_probe_args(file_path@),
{
    let mut args: Vec<String> = Vec::new();
    push_arg(&mut args, "-v");
    push_arg(&mut args, "error");
    push_arg(&mut args, "-select_streams");
    push_arg(&mut args, "s");
    push_arg(&mut args, "-show_entries");
    push_arg(&mut args, "stream=index,codec_name:stream_tags=language");
    push_arg(&mut args, "-of");
    push_arg(&mut args, "json");
    push_arg(&mut args, file_path);
    assert(texts(args@) =~= subtitle_probe_args(file_path@));
    args
}

/// The `ffprobe` arguments that print one entry of the first stream of a kind (`v:0`,
/// `a:0`) of `path` in the given output format.
pub open spec fn stream_probe_args(
    stream: Seq<char>,
    entries: Seq<char>,
    format: Seq<char>,
    path: Seq<char>,
) -> Seq<Seq<char>> {
    seq!["-v"@, "error"@, "-select_streams"@, stream, "-show_entries"@, entries, "-of"@, format, path]
}

/// Builds the `ffprobe` arguments that print the frame rate of the first video stream.
pub fn build_fps_probe_args(input_path: &str) -> (r: Vec<String>)
    ensures
        texts(r@) == stream_probe_args(
            "v:0"@,
            "stream=r_frame_rate"@,
            "default=noprint_wrappers=1:nokey=1"@,
            input_path@,
        ),
{
    build_stream_probe_args(
        "v:0",
        "stream=r_frame_rate",
        "default=noprint_wrappers=1:nokey=1",
        input_path,
    )
}

/// Builds the `ffprobe` arguments that print the size of the first video stream.
pub fn build_resolution_probe_args(input_path: &str) -> (r: Vec<String>)
    ensures
        texts(r@) == stream_probe_args("v:0"@, "stream=width,height"@, "csv=p=0"@, input_path@),
{
    build_stream_probe_args("v:0", "stream=width,height", "csv=p=0", input_path)
}

/// Builds the `ffprobe` arguments that print the channel layout of the first audio stream.
pub fn build_layout_probe_args(input_path: &str) -> (r: Vec<String>)
    ensures
        texts(r@) == stream_probe_args(
            "a:0"@,
            "stream=channel_layout"@,
            "default=noprint_wrappers=1:nokey=1"@,
            input_path@,
        ),
{
    build_stream_probe_args(
        "a:0",
        "stream=channel_layout",
        "default=noprint_wrappers=1:nokey=1",
        input_path,
    )
}

fn build_stream_probe_args(stream: &str, entries: &str, format: &str, path: &str) -> (r: Vec<
    String,
>)
    ensures
        texts(r@) == stream_probe_args(stream@, entries@, format@, path@),
{
    let mut args: Vec<String> = Vec::new();
    push_arg(&mut args, "-v");
    push_arg(&mut args, "error");
    push_arg(&mut args, "-select_streams");
    push_arg(&mut args, stream);
    push_arg(&mut args, "-show_entries");
    push_arg(&mut args, entries);
    push_arg(&mut args, "-of");
    push_arg(&mut args, format);
    push_arg(&mut args, path);
    assert(texts(args@) =~= stream_probe_args(stream@, entries@, format@, path@));
    args
}

/// The size `ffprobe` printed as `width,height`: the trimmed output cut at its first
/// comma, each side read as a `u32`; 1920x1080 when there is no comma; `None` where a side
/// is no `u32` (where reading it panics).
pub open spec fn resolution_reading(probe_output: Seq<char>) -> Option<(nat, nat)> {
    let t = trim(probe_output);
    match find_from(t, seq![','], 0) {
        None => Some((1920nat, 1080nat)),
        Some(j) => match (
            parse_unsigned(t.take(j), u32::MAX as nat),
            parse_unsigned(t.skip(j + 1), u32::MAX as nat),
        ) {
            (Some(w), Some(h)) => Some((w, h)),
            _ => None,
        },
    }
}

/// Reads the size `ffprobe` printed; `None` where a side is no `u32`.
pub fn video_resolution_from_probe_checked(probe_output: &str) -> (r: Option<(u32, u32)>)
    ensures
        match r {
            Some((w, h)) => resolution_reading(probe_output@) == Some((w as nat, h as nat)),
            None => resolution_reading(probe_output@) is None,
        },
{
    let c = chars_of(probe_output);
    let t = trimmed(&c);
    let comma = [','];
    assert(comma@ =~= seq![',']);
    match find_exec(&t, &comma, 0) {
        None => Some((1920, 1080)),
        Some(j) => {
            proof {
                crate::text::lemma_find_from_bounds(t@, comma@, 0);
            }
            let tl = t.len();
            assert(j + 1 <= tl);
            let w = slice_to_vec(&t, 0, j);
            let h = slice_to_vec(&t, j + 1, tl);
            assert(w@ =~= t@.take(j as int));
            assert(h@ =~= t@.skip(j + 1));
            match (parse_unsigned_exec(&w, u32::MAX as u64), parse_unsigned_exec(&h, u32::MAX as u64)) {
                (Some(a), Some(b)) => Some((a as u32, b as u32)),
                _ => None,
            }
        },
    }
}

/// Reads the size `ffprobe` printed as `width,height` (1920x1080 without a comma).
pub fn video_resolution_from_probe(probe_output: &str) -> (r: (u32, u32))
    requires
        resolution_reading(probe_output@) is Some,
    ensures
        resolution_reading(probe_output@) == Some((r.0 as nat, r.1 as nat)),
{
    match video_resolution_from_probe_checked(probe_output) {
        Some(r) => r,
        None => (1920, 1080),
    }
}

// ---------------------------------------------------------------------------
// Laws
// ---------------------------------------------------------------------------

/// Re-encoding MKV, WebM, AVI or MOV audio to AAC at 256 kbit/s keeps surround sound:
/// a probed layout of `5.1` or `5.1(side)` is mapped to 5.1, one starting with `7.1` to
/// 7.1, and only any other layout is mixed down to two channels.
pub proof fn lemma_reencoded_audio_layouts(ext: Seq<char>, layout: Seq<char>)
    requires
        ext == "mkv"@ || ext == "webm"@ || ext == "avi"@ || ext == "mov"@,
    ensures
        layout == "5.1"@ || layout == "5.1(side)"@ ==> audio_args(ext, Some(layout)) == seq![
            "-c:a"@,
            "aac"@,
            "-b:a"@,
            "256k"@,
            "-af"@,
            "channelmap=channel_layout=5.1"@,
        ],
        layout.len() >= 3 && layout.take(3) == "7.1"@ ==> audio_args(ext, Some(layout)) == seq![
            "-c:a"@,
            "aac"@,
            "-b:a"@,
            "256k"@,
            "-af"@,
            "channelmap=channel_layout=7.1"@,
        ],
        !(layout == "5.1"@ || layout == "5.1(side)"@) && !(layout.len() >= 3 && layout.take(3)
            == "7.1"@) ==> audio_args(ext, Some(layout)) == seq![
            "-c:a"@,
            "aac"@,
            "-b:a"@,
            "256k"@,
            "-ac"@,
            "2"@,
        ],
        audio_args(ext, None) == seq!["-c:a"@, "aac"@, "-b:a"@, "256k"@],
{
    reveal_strlit("ts");
    reveal_strlit("mkv");
    reveal_strlit("webm");
    reveal_strlit("avi");
    reveal_strlit("mov");
    reveal_strlit("5.1");
    reveal_strlit("7.1");
    reveal_strlit("5.1(side)");
    assert(ext != "ts"@) by {
        assert("ts"@.len() == 2);
        assert(ext.len() >= 3);
    }
    if layout == "5.1"@ {
        assert(!(layout.len() >= 3 && layout.take(3) == "7.1"@)) by {
            if layout.len() >= 3 && layout.take(3) == "7.1"@ {
                assert(layout.take(3)[0] == layout[0]);
            }
        }
    }
    if layout == "5.1(side)"@ {
        assert(!(layout.len() >= 3 && layout.take(3) == "7.1"@)) by {
            if layout.len() >= 3 && layout.take(3) == "7.1"@ {
                assert(layout.take(3)[0] == layout[0]);
            }
        }
    }
    assert(starts_with(layout, "7.1"@) == (layout.len() >= 3 && layout.take(3) == "7.1"@));
    assert(aac_args() + seq!["-af"@, "channelmap=channel_layout=5.1"@] =~= seq![
        "-c:a"@,
        "aac"@,
        "-b:a"@,
        "256k"@,
        "-af"@,
        "channelmap=channel_layout=5.1"@,
    ]);
    assert(aac_args() + seq!["-af"@, "channelmap=channel_layout=7.1"@] =~= seq![
        "-c:a"@,
        "aac"@,
        "-b:a"@,
        "256k"@,
        "-af"@,
        "channelmap=channel_layout=7.1"@,
    ]);
    assert(aac_args() + seq!["-ac"@, "2"@] =~= seq!["-c:a"@, "aac"@, "-b:a"@, "256k"@, "-ac"@, "2"@]);
}

/// A clip exported with a subtitle filter `f` burns the subtitles in: right after the
/// input it copies the input's timestamps and stops at the clip's end, and its arguments
/// hold `-vf` followed by the filter (`f` itself, or `f,format=yuv420p` for a transport
/// stream).
pub proof fn lemma_clip_export_burns_subtitles(
    input: Seq<char>,
    output: Seq<char>,
    start: Seq<char>,
    duration: Seq<char>,
    end: Seq<char>,
    frames: Seq<char>,
    f: Seq<char>,
    audio: Seq<Seq<char>>,
    is_ts: bool,
)
    ensures
        ({
            let a = clip_export_args(
                input,
                output,
                start,
                duration,
                end,
                frames,
                Some(f),
                audio,
                is_ts,
            );
            &&& a.len() > 6
            &&& a[0] == "-ss"@ && a[1] == start && a[2] == "-i"@ && a[3] == input
            &&& a[4] == "-copyts"@ && a[5] == "-to"@ && a[6] == end
            &&& exists|i: int|
                0 <= i && i + 1 < a.len() && #[trigger] a[i] == "-vf"@ && a[i + 1] == (if is_ts {
                    f + ",format=yuv420p"@
                } else {
                    f
                })
        }),
{
    let a = clip_export_args(input, output, start, duration, end, frames, Some(f), audio, is_ts);
    let head = seq!["-ss"@, start, "-i"@, input, "-copyts"@];
    let tail = audio + seq![
        "-crf"@,
        "28"@,
        "-preset"@,
        "ultrafast"@,
        "-movflags"@,
        "faststart+frag_keyframe+empty_moov"@,
    ] + seq!["-y"@, "-map_chapters"@, "-1"@, output];
    if is_ts {
        let video = seq!["-to"@, end, "-vf"@, f + ",format=yuv420p"@] + h264_args() + seq![
            "-vsync"@,
            "cfr"@,
        ];
        assert(a =~= head + video + tail);
        assert(a[7] == "-vf"@);
        assert(a[8] == f + ",format=yuv420p"@);
    } else {
        let video = seq!["-to"@, end, "-frames:v"@, frames, "-vf"@, f] + h264_args();
        assert(a =~= head + video + tail);
        assert(a[9] == "-vf"@);
        assert(a[10] == f);
    }
}

} // verus!

