//! Subtitle streams reported by `ffprobe`: which of them are text subtitles that can be
//! exported as SRT, and the titles they are listed under.
use vstd::prelude::*;

use crate::decimal::{decimal_digits, push_decimal};
use crate::text::{chars_of, push_chars, to_uppercase, uppercase};

verus! {

/// Information about a subtitle stream found in a video file.
#[derive(Debug, Clone)]
pub struct SubtitleStream {
    /// Human-readable display title for UI
    pub display_title: String,
}

/// One stream of `ffprobe`'s report: its codec and its tags (key, value), each key at
/// most once.
#[derive(Debug, Clone)]
pub struct ProbeStream {
    pub codec_name: String,
    pub tags: Vec<(String, String)>,
}

impl View for ProbeStream {
    type V = (Seq<char>, Seq<(Seq<char>, Seq<char>)>);

    open spec fn view(&self) -> (Seq<char>, Seq<(Seq<char>, Seq<char>)>) {
        (self.codec_name@, self.tags@.map_values(|t: (String, String)| (t.0@, t.1@)))
    }
}

/// Codecs of text subtitles, which can be exported as SRT.
pub open spec fn is_text_codec(codec: Seq<char>) -> bool {
    ||| codec == "subrip"@
    ||| codec == "ass"@
    ||| codec == "ssa"@
    ||| codec == "webvtt"@
    ||| codec == "mov_text"@
    ||| codec == "srt"@
    ||| codec == "text"@
}

/// The name a codec is shown under.
pub open spec fn codec_label(codec: Seq<char>) -> Seq<char> {
    if codec == "subrip"@ || codec == "srt"@ {
        "SRT"@
    } else if codec == "ass"@ || codec == "ssa"@ {
        "ASS"@
    } else if codec == "webvtt"@ {
        "WebVTT"@
    } else if codec == "mov_text"@ {
        "MOV Text"@
    } else {
        codec
    }
}

/// The title of the subtitle stream numbered `index` (from 0), given its language
/// already in upper case: `Subtitle {index + 1} - {LANGUAGE} ({codec})`, or
/// `Subtitle {index + 1} ({codec})` without a language.
pub open spec fn title_text(index: nat, codec: Seq<char>, upper_language: Option<Seq<char>>) -> Seq<
    char,
> {
    match upper_language {
        Some(l) => "Subtitle "@ + decimal_digits(index + 1) + " - "@ + l + " ("@ + codec_label(
            codec,
        ) + ")"@,
        None => "Subtitle "@ + decimal_digits(index + 1) + " ("@ + codec_label(codec) + ")"@,
    }
}

/// The value of the first tag with the given key.
pub open spec fn tag_value(tags: Seq<(Seq<char>, Seq<char>)>, key: Seq<char>) -> Option<Seq<char>>
    decreases tags.len(),
{
    if tags.len() == 0 {
        None
    } else if tags[0].0 == key {
        Some(tags[0].1)
    } else {
        tag_value(tags.drop_first(), key)
    }
}

/// The language of a stream: its `language` tag, unless empty or `und` (undetermined).
pub open spec fn stream_language(tags: Seq<(Seq<char>, Seq<char>)>) -> Option<Seq<char>> {
    match tag_value(tags, "language"@) {
        Some(l) => if l.len() > 0 && l != "und"@ {
            Some(l)
        } else {
            None
        },
        None => None,
    }
}

/// The titles of the text subtitle streams among `streams`, numbered in order.
pub open spec fn stream_titles(streams: Seq<(Seq<char>, Seq<(Seq<char>, Seq<char>)>)>) -> Seq<
    Seq<char>,
>
    decreases streams.len(),
{
    if streams.len() == 0 {
        seq![]
    } else {
        let before = stream_titles(streams.drop_last());
        let s = streams.last();
        if is_text_codec(s.0) {
            before.push(
                title_text(
                    before.len(),
                    s.0,
                    match stream_language(s.1) {
                        Some(l) => Some(uppercase(l)),
                        None => None,
                    },
                ),
            )
        } else {
            before
        }
    }
}

/// Whether the text `s` equals the literal `lit`.
pub fn text_eq(s: &[char], lit: &str) -> (r: bool)
    ensures
        r == (s@ == lit@),
{
    let l = chars_of(lit);
    if s.len() != l.len() {
        return false;
    }
    let n = s.len();
    let mut i: usize = 0;
    while i < n
        invariant
            n == s@.len(),
            n == l@.len(),
            l@ == lit@,
            i <= n,
            forall|k: int| 0 <= k < i ==> s@[k] == l@[k],
        decreases n - i,
    {
        if s[i] != l[i] {
            return false;
        }
        i = i + 1;
    }
    assert(s@ =~= l@);
    true
}

/// Whether the codec is a text subtitle codec.
pub fn is_text_codec_exec(codec: &[char]) -> (r: bool)
    ensures
        r == is_text_codec(codec@),
{
    text_eq(codec, "subrip") || text_eq(codec, "ass") || text_eq(codec, "ssa") || text_eq(
        codec,
        "webvtt",
    ) || text_eq(codec, "mov_text") || text_eq(codec, "srt") || text_eq(codec, "text")
}

/// Appends the name a codec is shown under.
fn push_codec_label(out: &mut String, codec: &[char])
    ensures
        final(out)@ == old(out)@ + codec_label(codec@),
{
    if text_eq(codec, "subrip") || text_eq(codec, "srt") {
        out.append("SRT");
    } else if text_eq(codec, "ass") || text_eq(codec, "ssa") {
        out.append("ASS");
    } else if text_eq(codec, "webvtt") {
        out.append("WebVTT");
    } else if text_eq(codec, "mov_text") {
        out.append("MOV Text");
    } else {
        push_chars(out, codec);
    }
}

/// The title of a subtitle stream, given its language already in upper case.
pub fn display_title_with(index: usize, codec_name: &str, upper_language: Option<&str>) -> (r:
    String)
    requires
        index < usize::MAX,
    ensures
        r@ == title_text(
            index as nat,
            codec_name@,
            match upper_language {
                Some(l) => Some(l@),
                None => None,
            },
        ),
{
    let codec = chars_of(codec_name);
    let mut number: Vec<char> = Vec::new();
    push_decimal(&mut number, (index + 1) as u64);
    let mut out = String::from_str("Subtitle ");
    push_chars(&mut out, &number);
    match upper_language {
        Some(l) => {
            out.append(" - ");
            out.append(l);
            out.append(" (");
        },
        None => {
            out.append(" (");
        },
    }
    push_codec_label(&mut out, &codec);
    out.append(")");
    assert(number@ =~= decimal_digits((index + 1) as nat));
    out
}

/// Formats a display title for the subtitle stream numbered `index` (from 0).
pub fn format_display_title(index: usize, codec_name: &str, language: &Option<String>) -> (r:
    String)
    requires
        index < usize::MAX,
    ensures
        r@ == title_text(
            index as nat,
            codec_name@,
            match language {
                Some(l) => Some(uppercase(l@)),
                None => None,
            },
        ),
{
    match language {
        Some(lang) => {
            let upper = to_uppercase(lang.as_str());
            display_title_with(index, codec_name, Some(upper.as_str()))
        },
        None => display_title_with(index, codec_name, None),
    }
}

/// The value of the first tag with the given key.
fn find_tag<'a>(tags: &'a Vec<(String, String)>, key: &str) -> (r: Option<&'a String>)
    ensures
        match r {
            Some(v) => tag_value(tags@.map_values(|t: (String, String)| (t.0@, t.1@)), key@) == Some(
                v@,
            ),
            None => tag_value(tags@.map_values(|t: (String, String)| (t.0@, t.1@)), key@) is None,
        },
{
    let ghost tv = tags@.map_values(|t: (String, String)| (t.0@, t.1@));
    let n = tags.len();
    let mut i: usize = 0;
    assert(tv.skip(0) =~= tv);
    while i < n
        invariant
            n == tags@.len(),
            tv == tags@.map_values(|t: (String, String)| (t.0@, t.1@)),
            i <= n,
            tag_value(tv, key@) == tag_value(tv.skip(i as int), key@),
        decreases n - i,
    {
        let k = chars_of(tags[i].0.as_str());
        assert(tv.skip(i as int)[0] == tv[i as int]);
        assert(tv.skip(i as int).drop_first() =~= tv.skip(i + 1));
        if text_eq(&k, key) {
            return Some(&tags[i].1);
        }
        i = i + 1;
    }
    assert(tv.skip(n as int).len() == 0);
    None
}

/// The language of a stream: its `language` tag, unless empty or `und`.
pub fn stream_language_exec(tags: &Vec<(String, String)>) -> (r: Option<String>)
    ensures
        match r {
            Some(l) => stream_language(tags@.map_values(|t: (String, String)| (t.0@, t.1@)))
                == Some(l@),
            None => stream_language(tags@.map_values(|t: (String, String)| (t.0@, t.1@))) is None,
        },
{
    match find_tag(tags, "language") {
        Some(l) => {
            let c = chars_of(l.as_str());
            if c.len() > 0 && !text_eq(&c, "und") {
                Some(String::from_str(l.as_str()))
            } else {
                None
            }
        },
        None => None,
    }
}

/// The subtitle streams, with their titles, of the text subtitle streams among the
/// streams `ffprobe` reported.
pub fn subtitle_streams_from_probe(streams: &Vec<ProbeStream>) -> (r: Vec<SubtitleStream>)
    ensures
        r@.map_values(|s: SubtitleStream| s.display_title@) == stream_titles(
            streams@.map_values(|p: ProbeStream| p@),
        ),
{
    let ghost sv = streams@.map_values(|p: ProbeStream| p@);
    let mut out: Vec<SubtitleStream> = Vec::new();
    let n = streams.len();
    let mut i: usize = 0;
    while i < n
        invariant
            n == streams@.len(),
            sv == streams@.map_values(|p: ProbeStream| p@),
            i <= n,
            out@.len() <= i,
            out@.map_values(|s: SubtitleStream| s.display_title@) == stream_titles(
                sv.take(i as int),
            ),
        decreases n - i,
    {
        let stream = &streams[i];
        let codec = chars_of(stream.codec_name.as_str());
        assert(sv.take(i + 1).drop_last() =~= sv.take(i as int));
        assert(sv.take(i + 1).last() == stream@);
        if is_text_codec_exec(&codec) {
            let language = stream_language_exec(&stream.tags);
            let title = format_display_title(out.len(), stream.codec_name.as_str(), &language);
            let ghost before = out@;
            out.push(SubtitleStream { display_title: title });
            assert(out@.map_values(|s: SubtitleStream| s.display_title@) =~= before.map_values(
                |s: SubtitleStream| s.display_title@,
            ).push(title@));
        }
        i = i + 1;
    }
    assert(sv.take(n as int) =~= sv);
    out
}

impl SubtitleStream {
    /// The title the stream is listed under.
    pub fn title(&self) -> (r: String)
        ensures
            r@ == self.display_title@,
    {
        String::from_str(self.display_title.as_str())
    }
}

/// Whether a stream reported with codec `codec` carries text subtitles: SubRip, ASS, SSA,
/// WebVTT, MOV text, SRT or plain text.
pub open spec fn listed_codec(codec: Seq<char>) -> bool {
    codec == "subrip"@ || codec == "ass"@ || codec == "ssa"@ || codec == "webvtt"@ || codec
        == "mov_text"@ || codec == "srt"@ || codec == "text"@
}

/// The streams, among those reported, that carry text subtitles, in order.
pub open spec fn text_streams(streams: Seq<(Seq<char>, Seq<(Seq<char>, Seq<char>)>)>) -> Seq<
    (Seq<char>, Seq<(Seq<char>, Seq<char>)>),
> {
    streams.filter(|s: (Seq<char>, Seq<(Seq<char>, Seq<char>)>)| listed_codec(s.0))
}

/// Every stream with a text subtitle codec is offered, and no other: there are as many
/// titles as such streams, the `i`-th title is that of the `i`-th such stream, numbered
/// `i + 1`, and SSA and ASS streams are both named `ASS`, SubRip and SRT ones `SRT`.
pub proof fn lemma_text_streams_listed(streams: Seq<(Seq<char>, Seq<(Seq<char>, Seq<char>)>)>)
    ensures
        stream_titles(streams).len() == text_streams(streams).len(),
        forall|i: int|
            0 <= i < stream_titles(streams).len() ==> #[trigger] stream_titles(streams)[i]
                == title_text(
                i as nat,
                text_streams(streams)[i].0,
                match stream_language(text_streams(streams)[i].1) {
                    Some(l) => Some(uppercase(l)),
                    None => None,
                },
            ),
        codec_label("ssa"@) == "ASS"@,
        codec_label("ass"@) == "ASS"@,
        codec_label("subrip"@) == "SRT"@,
        codec_label("srt"@) == "SRT"@,
    decreases streams.len(),
{
    reveal_strlit("ssa");
    reveal_strlit("ass");
    reveal_strlit("subrip");
    reveal_strlit("srt");
    reveal_strlit("webvtt");
    reveal_strlit("mov_text");
    assert("ssa"@.len() == 3 && "ass"@.len() == 3 && "subrip"@.len() == 6);
    assert("ssa"@ != "subrip"@ && "ass"@ != "subrip"@);
    assert("ssa"@[1] != "srt"@[1] && "ass"@[1] != "srt"@[1]);
    assert("ass"@[0] != "ssa"@[0]);
    reveal(Seq::filter);
    if streams.len() > 0 {
        lemma_text_streams_listed(streams.drop_last());
        assert(is_text_codec(streams.last().0) == listed_codec(streams.last().0));
        let before = stream_titles(streams.drop_last());
        let tb = text_streams(streams.drop_last());
        if listed_codec(streams.last().0) {
            assert(text_streams(streams) == tb.push(streams.last()));
        } else {
            assert(text_streams(streams) == tb);
        }
    }
}

} // verus!

