//! Clock-style timestamps: the clip-time field (`MM:SS.mmm`), the command-line clip
//! bounds (`MM:SS.mmm` and `HH:MM:SS.mmm`), and the clock texts shown in the controls.
use vstd::prelude::*;
use vstd::arithmetic::div_mod::lemma_fundamental_div_mod;

use crate::decimal::{
    decimal_digits, is_digit, lemma_padded, lemma_parse_padded, padded, parse_unsigned,
    parse_unsigned_exec, push_decimal, push_padded, zero_pad,
};
use crate::text::{
    chars_of, count_char, count_char_exec, contains, contains_exec, free_of, lemma_split_first,
    lemma_split_free, pad_right_zeros, pad_right_zeros_exec, push_chars, split, split_exec,
    string_of, trim, trimmed, utf8_width, utf8_width_exec,
};

verus! {

/// The largest `u64`, as a mathematical integer.
pub open spec fn u64_limit() -> nat {
    u64::MAX as nat
}

/// The largest `u32`, as a mathematical integer.
pub open spec fn u32_limit() -> nat {
    u32::MAX as nat
}

// ---------------------------------------------------------------------------
// The clip-time field: `M:SS` or `M:SS.f`
// ---------------------------------------------------------------------------

/// The milliseconds a clip-time text `M:S` or `M:S.f` denotes (unbounded): a non-empty
/// text with exactly one `':'`; the minutes and seconds readable as `u64`, the seconds
/// below 60; at most one `'.'` after the colon, followed by at most three characters that,
/// padded on the right with `'0'` to three, read as a `u64`.
pub open spec fn clip_time_total(text: Seq<char>) -> Option<int> {
    if text.len() == 0 {
        None
    } else {
        let parts = split(text, seq![':']);
        if parts.len() != 2 {
            None
        } else {
            let sp = split(parts[1], seq!['.']);
            match parse_unsigned(parts[0], u64_limit()) {
                None => None,
                Some(m) => if sp.len() > 2 {
                    None
                } else {
                    match parse_unsigned(sp[0], u64_limit()) {
                        None => None,
                        Some(s) => if s >= 60 {
                            None
                        } else {
                            let f = if sp.len() == 2 {
                                if sp[1].len() > 3 {
                                    None
                                } else {
                                    parse_unsigned(pad_right_zeros(sp[1], 3), u64_limit())
                                }
                            } else {
                                Some(0nat)
                            };
                            match f {
                                None => None,
                                Some(f) => Some((m * 60000 + s * 1000 + f) as int),
                            }
                        },
                    }
                },
            }
        }
    }
}

/// The clip-time total fits in a `u64` (or the text is no clip time).
pub open spec fn clip_time_fits(text: Seq<char>) -> bool {
    match clip_time_total(text) {
        Some(v) => v <= u64_limit(),
        None => true,
    }
}

/// The milliseconds of a clip-time text.
pub open spec fn clip_time_ms(text: Seq<char>) -> Option<u64> {
    match clip_time_total(text) {
        Some(v) => Some(v as u64),
        None => None,
    }
}

/// Reads a clip-time text; `Err(())` when its total exceeds `u64::MAX`.
fn read_clip_time(text: &[char]) -> (r: Result<Option<u64>, ()>)
    ensures
        match r {
            Ok(v) => clip_time_fits(text@) && v == clip_time_ms(text@),
            Err(()) => !clip_time_fits(text@),
        },
{
    if text.len() == 0 {
        return Ok(None);
    }
    let colon = [':'];
    let dot = ['.'];
    assert(colon@ =~= seq![':']);
    assert(dot@ =~= seq!['.']);
    let parts = split_exec(text, &colon);
    if parts.len() != 2 {
        return Ok(None);
    }
    let ghost pv = parts@.map_values(|x: Vec<char>| x@);
    assert(pv[0] == parts[0]@ && pv[1] == parts[1]@);
    let minutes = match parse_unsigned_exec(&parts[0], u64::MAX) {
        Some(v) => v,
        None => return Ok(None),
    };
    let sp = split_exec(&parts[1], &dot);
    let ghost sv = sp@.map_values(|x: Vec<char>| x@);
    if sp.len() > 2 {
        return Ok(None);
    }
    proof {
        crate::text::lemma_split_from_nonempty(pv[1], seq!['.'], 0);
    }
    assert(sv[0] == sp[0]@);
    let seconds = match parse_unsigned_exec(&sp[0], u64::MAX) {
        Some(v) => v,
        None => return Ok(None),
    };
    if seconds >= 60 {
        return Ok(None);
    }
    let millis: u64 = if sp.len() == 2 {
        assert(sv[1] == sp[1]@);
        if sp[1].len() > 3 {
            return Ok(None);
        }
        let padded_ms = pad_right_zeros_exec(&sp[1], 3);
        match parse_unsigned_exec(&padded_ms, u64::MAX) {
            Some(v) => v,
            None => return Ok(None),
        }
    } else {
        0
    };
    let a = match minutes.checked_mul(60000) {
        Some(v) => v,
        None => return Err(()),
    };
    let ab = match a.checked_add(seconds * 1000) {
        Some(v) => v,
        None => return Err(()),
    };
    match ab.checked_add(millis) {
        Some(v) => Ok(Some(v)),
        None => Err(()),
    }
}

/// Parses a clip-time text `MM:SS.mmm` (or `M:SS`, `M:SS.m`, ...) to milliseconds.
///
/// `None` when the text is empty or not of that form (see [`clip_time_total`]).
pub fn parse_time_ms(text: &str) -> (r: Option<u64>)
    requires
        clip_time_fits(text@),
    ensures
        r == clip_time_ms(text@),
{
    let chars = chars_of(text);
    match read_clip_time(&chars) {
        Ok(v) => v,
        Err(()) => None,
    }
}

/// Parses a clip-time text to milliseconds; the outer `None` when its total exceeds
/// `u64::MAX`.
pub fn parse_time_ms_checked(text: &str) -> (r: Option<Option<u64>>)
    ensures
        match r {
            Some(v) => clip_time_fits(text@) && v == clip_time_ms(text@),
            None => !clip_time_fits(text@),
        },
{
    let chars = chars_of(text);
    match read_clip_time(&chars) {
        Ok(v) => Some(v),
        Err(()) => None,
    }
}

/// Whether a clip-time field holds an acceptable value: empty, or a clip time.
pub fn is_valid_time(text: &str) -> (r: bool)
    requires
        clip_time_fits(text@),
    ensures
        r == (text@.len() == 0 || clip_time_ms(text@) is Some),
{
    let chars = chars_of(text);
    chars.len() == 0 || parse_time_ms(text).is_some()
}

// ---------------------------------------------------------------------------
// Clock texts
// ---------------------------------------------------------------------------

/// `ms` milliseconds as `MM:SS.mmm`, minutes taking as many digits as they need.
pub open spec fn clip_time_text(ms: nat) -> Seq<char> {
    padded((ms / 1000) / 60, 2) + seq![':'] + padded((ms / 1000) % 60, 2) + seq!['.']
        + padded(ms % 1000, 3)
}

/// Formats milliseconds as a clip time `MM:SS.mmm`.
pub fn format_time_ms(total_ms: u64) -> (r: String)
    ensures
        r@ == clip_time_text(total_ms as nat),
{
    let total_secs = total_ms / 1000;
    let ms = total_ms % 1000;
    let mins = total_secs / 60;
    let secs = total_secs % 60;
    let mut out: Vec<char> = Vec::new();
    push_padded(&mut out, mins, 2);
    out.push(':');
    push_padded(&mut out, secs, 2);
    out.push('.');
    push_padded(&mut out, ms, 3);
    assert(out@ =~= clip_time_text(total_ms as nat));
    string_of(&out)
}

/// `secs` seconds as `MM:SS`, minutes taking as many digits as they need.
pub open spec fn minutes_seconds_text(secs: nat) -> Seq<char> {
    padded(secs / 60, 2) + seq![':'] + padded(secs % 60, 2)
}

/// Formats whole seconds as `MM:SS`.
pub fn format_time(total_secs: u64) -> (r: String)
    ensures
        r@ == minutes_seconds_text(total_secs as nat),
{
    let mut out: Vec<char> = Vec::new();
    push_padded(&mut out, total_secs / 60, 2);
    out.push(':');
    push_padded(&mut out, total_secs % 60, 2);
    assert(out@ =~= minutes_seconds_text(total_secs as nat));
    string_of(&out)
}

/// `v` written as `format!("{:0w$}", v)` writes an integer: a `'-'` for a negative
/// value, then the digits of its magnitude zero-padded so that the whole has at least
/// `w` characters.
pub open spec fn signed_padded(v: int, w: nat) -> Seq<char> {
    if v < 0 {
        seq!['-'] + zero_pad(decimal_digits((-v) as nat), if w > 0 {
            (w - 1) as nat
        } else {
            0
        })
    } else {
        zero_pad(decimal_digits(v as nat), w)
    }
}

/// A signed whole number of seconds as the playback slider shows it: `H:MM:SS` when there
/// is at least one hour, `M:SS` otherwise, each field computed with Rust's truncating
/// `/` and `%` (so that the fields of a negative count are negative or zero).
pub open spec fn slider_time_text(v: int) -> Seq<char> {
    let a = if v < 0 {
        -v
    } else {
        v
    };
    let sign = if v < 0 {
        -1int
    } else {
        1int
    };
    let hours = sign * (a / 3600);
    let minutes = sign * ((a % 3600) / 60);
    let secs = sign * (a % 60);
    if hours > 0 {
        signed_padded(hours, 0) + seq![':'] + signed_padded(minutes, 2) + seq![':']
            + signed_padded(secs, 2)
    } else {
        signed_padded(minutes, 0) + seq![':'] + signed_padded(secs, 2)
    }
}

/// Appends `sign * magnitude` as `format!("{:0w$}", ...)` writes it.
fn push_signed_padded(out: &mut Vec<char>, negative: bool, magnitude: u64, w: usize)
    ensures
        final(out)@ == old(out)@ + signed_padded(
            if negative {
                -(magnitude as int)
            } else {
                magnitude as int
            },
            w as nat,
        ),
{
    if negative && magnitude > 0 {
        out.push('-');
        let ghost mid = out@;
        push_padded(out, magnitude, if w > 0 {
            w - 1
        } else {
            0
        });
        assert(final(out)@ =~= old(out)@ + signed_padded(-(magnitude as int), w as nat)) by {
            assert(out@ =~= mid + padded(magnitude as nat, if w > 0 {
                (w - 1) as nat
            } else {
                0
            }));
        }
    } else {
        push_padded(out, magnitude, w);
    }
}

/// Formats a whole number of seconds as the playback slider shows it (`H:MM:SS` or
/// `M:SS`).
pub fn format_slider_time(total_seconds: i32) -> (r: String)
    ensures
        r@ == slider_time_text(total_seconds as int),
{
    let negative = total_seconds < 0;
    let a: u64 = if negative {
        (-(total_seconds as i64)) as u64
    } else {
        total_seconds as u64
    };
    let hours = a / 3600;
    let minutes = (a % 3600) / 60;
    let secs = a % 60;
    let ghost v = total_seconds as int;
    let ghost sign: int = if v < 0 {
        -1
    } else {
        1
    };
    assert(a as int == if v < 0 {
        -v
    } else {
        v
    });
    assert(sign * (a / 3600) == if negative {
        -(hours as int)
    } else {
        hours as int
    });
    assert(sign * ((a % 3600) / 60) == if negative {
        -(minutes as int)
    } else {
        minutes as int
    });
    assert(sign * (a % 60) == if negative {
        -(secs as int)
    } else {
        secs as int
    });
    let mut out: Vec<char> = Vec::new();
    if !negative && hours > 0 {
        push_signed_padded(&mut out, false, hours, 0);
        out.push(':');
        push_signed_padded(&mut out, false, minutes, 2);
        out.push(':');
        push_signed_padded(&mut out, false, secs, 2);
    } else {
        push_signed_padded(&mut out, negative, minutes, 0);
        out.push(':');
        push_signed_padded(&mut out, negative, secs, 2);
    }
    assert(out@ =~= slider_time_text(total_seconds as int));
    string_of(&out)
}

// ---------------------------------------------------------------------------
// Command-line clip bounds: `MM:SS.mmm` and `HH:MM:SS.mmm`
// ---------------------------------------------------------------------------

/// The characters that make up the first three bytes of `s` in UTF-8 (what
/// `&s[..3]` gives), or `None` when byte 3 falls inside a character (where that slicing
/// panics). `s` has at least three characters.
pub open spec fn first_three_bytes(s: Seq<char>) -> Option<Seq<char>> {
    let w0 = utf8_width(s[0]);
    if w0 == 3 {
        Some(s.take(1))
    } else if w0 == 1 {
        let w1 = utf8_width(s[1]);
        if w1 == 2 {
            Some(s.take(2))
        } else if w1 == 1 {
            if utf8_width(s[2]) == 1 {
                Some(s.take(3))
            } else {
                None
            }
        } else {
            None
        }
    } else if w0 == 2 {
        if utf8_width(s[1]) == 1 {
            Some(s.take(2))
        } else {
            None
        }
    } else {
        None
    }
}

/// The seconds field `S` or `S.f` of a command-line timestamp: `Some(Ok((s, f)))`,
/// `Some(Err(message))`, or `None` where reading it panics (slicing the padded fraction
/// inside a character).
pub open spec fn seconds_field(field: Seq<char>) -> Option<Result<(nat, nat), Seq<char>>> {
    if contains(field, seq!['.']) {
        let sp = split(field, seq!['.']);
        if sp.len() != 2 {
            Some(Err("Invalid seconds format: "@ + field))
        } else {
            match parse_unsigned(sp[0], u32_limit()) {
                None => Some(Err("Invalid seconds: "@ + sp[0])),
                Some(s) => match first_three_bytes(pad_right_zeros(sp[1], 3)) {
                    None => None,
                    Some(p) => match parse_unsigned(p, u32_limit()) {
                        None => Some(Err("Invalid milliseconds: "@ + sp[1])),
                        Some(f) => Some(Ok((s, f))),
                    },
                },
            }
        }
    } else {
        match parse_unsigned(field, u32_limit()) {
            None => Some(Err("Invalid seconds: "@ + field)),
            Some(s) => Some(Ok((s, 0nat))),
        }
    }
}

/// What reading a command-line timestamp gives, for its colon forms:
/// `Some(Ok(None))` for a text without colons (a plain number, read by the caller),
/// `Some(Ok(Some(ms)))` for `MM:SS[.mmm]` and `HH:MM:SS[.mmm]`, `Some(Err(message))`
/// for a rejected text, and `None` where reading panics (a total beyond `u32::MAX`, or a
/// fraction sliced inside a character).
pub open spec fn timestamp_outcome(input: Seq<char>) -> Option<Result<Option<nat>, Seq<char>>> {
    let t = trim(input);
    let k = count_char(t, ':');
    let parts = split(t, seq![':']);
    if k == 0 {
        Some(Ok(None))
    } else if k == 1 {
        if parts.len() != 2 {
            Some(Err("Invalid MM:SS.mmm format: "@ + t))
        } else {
            match parse_unsigned(parts[0], u32_limit()) {
                None => Some(Err("Invalid minutes: "@ + parts[0])),
                Some(m) => match seconds_field(parts[1]) {
                    None => None,
                    Some(Err(e)) => Some(Err(e)),
                    Some(Ok((s, f))) => if s >= 60 {
                        Some(Err("Seconds must be less than 60: "@ + decimal_digits(s)))
                    } else if m * 60000 + s * 1000 + f > u32_limit() {
                        None
                    } else {
                        Some(Ok(Some((m * 60000 + s * 1000 + f) as nat)))
                    },
                },
            }
        }
    } else if k == 2 {
        if parts.len() != 3 {
            Some(Err("Invalid HH:MM:SS.mmm format: "@ + t))
        } else {
            match parse_unsigned(parts[0], u32_limit()) {
                None => Some(Err("Invalid hours: "@ + parts[0])),
                Some(h) => match parse_unsigned(parts[1], u32_limit()) {
                    None => Some(Err("Invalid minutes: "@ + parts[1])),
                    Some(m) => if m >= 60 {
                        Some(Err("Minutes must be less than 60: "@ + decimal_digits(m)))
                    } else {
                        match seconds_field(parts[2]) {
                            None => None,
                            Some(Err(e)) => Some(Err(e)),
                            Some(Ok((s, f))) => if s >= 60 {
                                Some(Err("Seconds must be less than 60: "@ + decimal_digits(s)))
                            } else if h * 3600000 + m * 60000 + s * 1000 + f > u32_limit() {
                                None
                            } else {
                                Some(Ok(Some((h * 3600000 + m * 60000 + s * 1000 + f) as nat)))
                            },
                        }
                    },
                },
            }
        }
    } else {
        Some(Err("Invalid timestamp format (too many colons): "@ + t))
    }
}

/// `r` is what reading gives when it does not panic.
pub open spec fn timestamp_result_is(
    r: Result<Option<u32>, String>,
    o: Result<Option<nat>, Seq<char>>,
) -> bool {
    match (r, o) {
        (Ok(None), Ok(None)) => true,
        (Ok(Some(x)), Ok(Some(v))) => x as nat == v,
        (Err(e), Err(m)) => e@ == m,
        _ => false,
    }
}

/// The characters of the first three UTF-8 bytes of `s`, if byte 3 is a boundary.
fn first_three_bytes_exec(s: &[char]) -> (r: Option<Vec<char>>)
    requires
        s@.len() >= 3,
    ensures
        match r {
            Some(v) => first_three_bytes(s@) == Some(v@),
            None => first_three_bytes(s@) is None,
        },
{
    let w0 = utf8_width_exec(s[0]);
    let w1 = utf8_width_exec(s[1]);
    let w2 = utf8_width_exec(s[2]);
    if w0 == 3 {
        Some(slice_prefix(s, 1))
    } else if w0 == 1 {
        if w1 == 2 {
            Some(slice_prefix(s, 2))
        } else if w1 == 1 {
            if w2 == 1 {
                Some(slice_prefix(s, 3))
            } else {
                None
            }
        } else {
            None
        }
    } else if w0 == 2 {
        if w1 == 1 {
            Some(slice_prefix(s, 2))
        } else {
            None
        }
    } else {
        None
    }
}

/// The first `k` characters of `s`.
fn slice_prefix(s: &[char], k: usize) -> (r: Vec<char>)
    requires
        k <= s@.len(),
    ensures
        r@ == s@.take(k as int),
{
    let r = crate::text::slice_to_vec(s, 0, k);
    assert(r@ =~= s@.take(k as int));
    r
}

/// `prefix` followed by `detail`.
fn message(prefix: &str, detail: &[char]) -> (r: String)
    ensures
        r@ == prefix@ + detail@,
{
    let mut m = String::from_str(prefix);
    push_chars(&mut m, detail);
    m
}

/// `prefix` followed by the decimal digits of `n`.
fn message_number(prefix: &str, n: u32) -> (r: String)
    ensures
        r@ == prefix@ + decimal_digits(n as nat),
{
    let mut digits: Vec<char> = Vec::new();
    push_decimal(&mut digits, n as u64);
    assert(digits@ =~= decimal_digits(n as nat));
    message(prefix, &digits)
}

/// Reads the seconds field `S` or `S.f`; `None` where slicing the padded fraction would
/// cut a character.
fn read_seconds_field(field: &[char]) -> (r: Option<Result<(u32, u32), String>>)
    ensures
        match (r, seconds_field(field@)) {
            (None, None) => true,
            (Some(Ok((s, f))), Some(Ok((s2, f2)))) => s as nat == s2 && f as nat == f2,
            (Some(Err(e)), Some(Err(m))) => e@ == m,
            _ => false,
        },
{
    let dot = ['.'];
    assert(dot@ =~= seq!['.']);
    if contains_exec(field, &dot) {
        let sp = split_exec(field, &dot);
        let ghost sv = sp@.map_values(|x: Vec<char>| x@);
        if sp.len() != 2 {
            return Some(Err(message("Invalid seconds format: ", field)));
        }
        assert(sv[0] == sp[0]@ && sv[1] == sp[1]@);
        let secs = match parse_unsigned_exec(&sp[0], u32::MAX as u64) {
            Some(v) => v as u32,
            None => return Some(Err(message("Invalid seconds: ", &sp[0]))),
        };
        let padded_ms = pad_right_zeros_exec(&sp[1], 3);
        let head = match first_three_bytes_exec(&padded_ms) {
            Some(h) => h,
            None => return None,
        };
        match parse_unsigned_exec(&head, u32::MAX as u64) {
            Some(f) => Some(Ok((secs, f as u32))),
            None => Some(Err(message("Invalid milliseconds: ", &sp[1]))),
        }
    } else {
        match parse_unsigned_exec(field, u32::MAX as u64) {
            Some(v) => Some(Ok((v as u32, 0))),
            None => Some(Err(message("Invalid seconds: ", field))),
        }
    }
}

/// Reads a command-line timestamp in its colon forms; `None` where reading it has no
/// value (a total beyond `u32::MAX`, or a fraction sliced inside a character).
pub fn parse_timestamp_ms_checked(input: &str) -> (r: Option<Result<Option<u32>, String>>)
    ensures
        match (r, timestamp_outcome(input@)) {
            (None, None) => true,
            (Some(x), Some(o)) => timestamp_result_is(x, o),
            _ => false,
        },
{
    let chars = chars_of(input);
    let t = trimmed(&chars);
    let k = count_char_exec(&t, ':');
    let colon = [':'];
    assert(colon@ =~= seq![':']);
    let parts = split_exec(&t, &colon);
    let ghost pv = parts@.map_values(|x: Vec<char>| x@);
    if k == 0 {
        Some(Ok(None))
    } else if k == 1 {
        if parts.len() != 2 {
            return Some(Err(message("Invalid MM:SS.mmm format: ", &t)));
        }
        assert(pv[0] == parts[0]@ && pv[1] == parts[1]@);
        let minutes = match parse_unsigned_exec(&parts[0], u32::MAX as u64) {
            Some(v) => v,
            None => return Some(Err(message("Invalid minutes: ", &parts[0]))),
        };
        let (secs, millis) = match read_seconds_field(&parts[1]) {
            None => return None,
            Some(Err(e)) => return Some(Err(e)),
            Some(Ok(sf)) => sf,
        };
        if secs >= 60 {
            return Some(Err(message_number("Seconds must be less than 60: ", secs)));
        }
        let total: u64 = match minutes.checked_mul(60000) {
            Some(a) => match a.checked_add(secs as u64 * 1000 + millis as u64) {
                Some(b) => b,
                None => return None,
            },
            None => return None,
        };
        if total > u32::MAX as u64 {
            return None;
        }
        Some(Ok(Some(total as u32)))
    } else if k == 2 {
        if parts.len() != 3 {
            return Some(Err(message("Invalid HH:MM:SS.mmm format: ", &t)));
        }
        assert(pv[0] == parts[0]@ && pv[1] == parts[1]@ && pv[2] == parts[2]@);
        let hours = match parse_unsigned_exec(&parts[0], u32::MAX as u64) {
            Some(v) => v,
            None => return Some(Err(message("Invalid hours: ", &parts[0]))),
        };
        let minutes = match parse_unsigned_exec(&parts[1], u32::MAX as u64) {
            Some(v) => v,
            None => return Some(Err(message("Invalid minutes: ", &parts[1]))),
        };
        if minutes >= 60 {
            return Some(Err(message_number("Minutes must be less than 60: ", minutes as u32)));
        }
        let (secs, millis) = match read_seconds_field(&parts[2]) {
            None => return None,
            Some(Err(e)) => return Some(Err(e)),
            Some(Ok(sf)) => sf,
        };
        if secs >= 60 {
            return Some(Err(message_number("Seconds must be less than 60: ", secs)));
        }
        let total: u64 = match hours.checked_mul(3600000) {
            Some(a) => match a.checked_add(minutes * 60000 + secs as u64 * 1000 + millis as u64) {
                Some(b) => b,
                None => return None,
            },
            None => return None,
        };
        if total > u32::MAX as u64 {
            return None;
        }
        Some(Ok(Some(total as u32)))
    } else {
        Some(Err(message("Invalid timestamp format (too many colons): ", &t)))
    }
}

/// Reads a command-line clip bound in its colon forms (`MM:SS.mmm`, `HH:MM:SS.mmm`) to
/// milliseconds; `Ok(None)` for a text without colons, which is a plain number; `Err`
/// with the message for a rejected text (see [`timestamp_outcome`]).
pub fn parse_timestamp_ms(input: &str) -> (r: Result<Option<u32>, String>)
    requires
        timestamp_outcome(input@) is Some,
    ensures
        timestamp_result_is(r, timestamp_outcome(input@)->0),
{
    match parse_timestamp_ms_checked(input) {
        Some(r) => r,
        None => Ok(None),
    }
}

// ---------------------------------------------------------------------------
// Laws
// ---------------------------------------------------------------------------

/// The minute, second and millisecond fields of a count add back up to it.
pub proof fn lemma_clip_fields(ms: nat)
    ensures
        ms == ((ms / 1000) / 60) * 60000 + ((ms / 1000) % 60) * 1000 + ms % 1000,
        (ms / 1000) % 60 < 60,
{
    lemma_fundamental_div_mod(ms as int, 1000);
    lemma_fundamental_div_mod((ms / 1000) as int, 60);
}

/// Reading a formatted clip time gives back the milliseconds it was made from.
pub proof fn lemma_clip_time_roundtrip(ms: u64)
    ensures
        clip_time_total(clip_time_text(ms as nat)) == Some(ms as int),
        clip_time_ms(clip_time_text(ms as nat)) == Some(ms),
{
    let n = ms as nat;
    let pm = padded((n / 1000) / 60, 2);
    let ps = padded((n / 1000) % 60, 2);
    let pf = padded(n % 1000, 3);
    lemma_padded((n / 1000) / 60, 2);
    lemma_padded((n / 1000) % 60, 2);
    lemma_padded(n % 1000, 3);
    lemma_clip_fields(n);
    assert(free_of(pm, ':'));
    assert(free_of(ps, '.'));
    assert(free_of(pf, '.'));
    let last = ps + seq!['.'] + pf;
    assert(free_of(last, ':')) by {
        assert forall|i: int| 0 <= i < last.len() implies last[i] != ':' by {
            if i < ps.len() {
                assert(last[i] == ps[i]);
            } else if i > ps.len() {
                assert(last[i] == pf[i - ps.len() - 1]);
            }
        }
    }
    let t = clip_time_text(n);
    assert(t =~= pm + seq![':'] + last);
    lemma_split_first(pm, ':', last);
    lemma_split_free(last, ':');
    assert(split(t, seq![':']) =~= seq![pm, last]);
    lemma_split_first(ps, '.', pf);
    lemma_split_free(pf, '.');
    assert(split(last, seq!['.']) =~= seq![ps, pf]);
    assert(pf.len() == 3) by {
        crate::decimal::lemma_decimal_digits_small(n % 1000);
    }
    assert(pad_right_zeros(pf, 3) == pf);
    lemma_parse_padded((n / 1000) / 60, 2, u64_limit());
    lemma_parse_padded((n / 1000) % 60, 2, u64_limit());
    lemma_parse_padded(n % 1000, 3, u64_limit());
}

/// A clip time written by [`format_time_ms`] reads back, as a command-line clip bound,
/// as the same milliseconds whenever they fit in a `u32`.
pub proof fn lemma_clip_time_as_timestamp(ms: u32)
    ensures
        timestamp_outcome(clip_time_text(ms as nat)) == Some(
            Ok::<Option<nat>, Seq<char>>(Some(ms as nat)),
        ),
{
    let n = ms as nat;
    let pm = padded((n / 1000) / 60, 2);
    let ps = padded((n / 1000) % 60, 2);
    let pf = padded(n % 1000, 3);
    lemma_padded((n / 1000) / 60, 2);
    lemma_padded((n / 1000) % 60, 2);
    lemma_padded(n % 1000, 3);
    lemma_clip_fields(n);
    crate::decimal::lemma_decimal_digits_small(n % 1000);
    let last = ps + seq!['.'] + pf;
    assert(free_of(last, ':')) by {
        assert forall|i: int| 0 <= i < last.len() implies last[i] != ':' by {
            if i < ps.len() {
                assert(last[i] == ps[i]);
            } else if i > ps.len() {
                assert(last[i] == pf[i - ps.len() - 1]);
            }
        }
    }
    let t = clip_time_text(n);
    assert(t =~= pm + seq![':'] + last);
    assert(is_digit(t[0]));
    assert(t.last() == pf.last());
    assert(is_digit(pf.last()));
    crate::text::lemma_trim_no_space(t);
    crate::text::lemma_count_char_free(pm, ':');
    crate::text::lemma_count_char_free(last, ':');
    crate::text::lemma_count_char_concat(pm, seq![':'], ':');
    crate::text::lemma_count_char_concat(pm + seq![':'], last, ':');
    assert(count_char(seq![':'], ':') == 1) by {
        assert(seq![':'].drop_last() =~= Seq::<char>::empty());
        assert(count_char(Seq::<char>::empty(), ':') == 0);
        assert(seq![':'].last() == ':');
    }
    lemma_split_first(pm, ':', last);
    lemma_split_free(last, ':');
    assert(split(t, seq![':']) =~= seq![pm, last]);
    // the seconds field `SS.mmm`
    assert(contains(last, seq!['.'])) by {
        lemma_split_first(ps, '.', pf);
        assert(crate::text::matches_at(last, seq!['.'], ps.len() as int)) by {
            assert(last.subrange(ps.len() as int, ps.len() + 1 as int) =~= seq!['.']);
        }
        assert forall|k: int| 0 <= k < ps.len() implies !#[trigger] crate::text::matches_at(
            last,
            seq!['.'],
            k,
        ) by {
            assert(last.subrange(k, k + 1)[0] == ps[k]);
        }
        crate::text::lemma_find_prefix(last, seq!['.'], 0, ps.len() as int);
    }
    lemma_split_first(ps, '.', pf);
    lemma_split_free(pf, '.');
    assert(split(last, seq!['.']) =~= seq![ps, pf]);
    assert(pad_right_zeros(pf, 3) == pf);
    assert(first_three_bytes(pf) == Some(pf.take(3))) by {
        assert(is_digit(pf[0]) && is_digit(pf[1]) && is_digit(pf[2]));
    }
    assert(pf.take(3) =~= pf);
    lemma_parse_padded((n / 1000) / 60, 2, u32_limit());
    lemma_parse_padded((n / 1000) % 60, 2, u32_limit());
    lemma_parse_padded(n % 1000, 3, u32_limit());
}

/// A seconds field `SS` reads as its seconds, with no milliseconds.
proof fn lemma_whole_seconds_field(sec: nat)
    requires
        sec <= u32::MAX,
    ensures
        seconds_field(padded(sec, 2)) == Some(Ok::<(nat, nat), Seq<char>>((sec, 0nat))),
{
    let ps = padded(sec, 2);
    lemma_padded(sec, 2);
    assert(free_of(ps, '.'));
    crate::text::lemma_find_from_bounds(ps, seq!['.'], 0);
    if contains(ps, seq!['.']) {
        let j = crate::text::find_from(ps, seq!['.'], 0)->0;
        assert(ps.subrange(j, j + 1)[0] == ps[j]);
    }
    lemma_parse_padded(sec, 2, u32_limit());
}

/// A seconds field `SS.mmm` reads as its seconds and milliseconds.
proof fn lemma_fraction_seconds_field(sec: nat, f: nat)
    requires
        sec <= u32::MAX,
        f < 1000,
    ensures
        seconds_field(padded(sec, 2) + seq!['.'] + padded(f, 3)) == Some(
            Ok::<(nat, nat), Seq<char>>((sec, f)),
        ),
{
    let ps = padded(sec, 2);
    let pf = padded(f, 3);
    lemma_padded(sec, 2);
    lemma_padded(f, 3);
    crate::decimal::lemma_decimal_digits_small(f);
    let field = ps + seq!['.'] + pf;
    assert(contains(field, seq!['.'])) by {
        assert(crate::text::matches_at(field, seq!['.'], ps.len() as int)) by {
            assert(field.subrange(ps.len() as int, ps.len() + 1 as int) =~= seq!['.']);
        }
        assert forall|k: int| 0 <= k < ps.len() implies !#[trigger] crate::text::matches_at(
            field,
            seq!['.'],
            k,
        ) by {
            assert(field.subrange(k, k + 1)[0] == ps[k]);
        }
        crate::text::lemma_find_prefix(field, seq!['.'], 0, ps.len() as int);
    }
    assert(free_of(ps, '.'));
    assert(free_of(pf, '.'));
    lemma_split_first(ps, '.', pf);
    lemma_split_free(pf, '.');
    assert(split(field, seq!['.']) =~= seq![ps, pf]);
    assert(pad_right_zeros(pf, 3) == pf);
    assert(first_three_bytes(pf) == Some(pf.take(3))) by {
        assert(is_digit(pf[0]) && is_digit(pf[1]) && is_digit(pf[2]));
    }
    assert(pf.take(3) =~= pf);
    lemma_parse_padded(sec, 2, u32_limit());
    lemma_parse_padded(f, 3, u32_limit());
}

/// Fields joined by colons, none holding one, starting and ending with a digit: the text
/// is its own trim, holds one colon fewer than fields, and splits back into the fields.
proof fn lemma_colon_fields(a: Seq<char>, b: Seq<char>, c: Seq<char>)
    requires
        a.len() > 0,
        c.len() > 0,
        is_digit(a[0]),
        is_digit(c.last()),
        free_of(a, ':'),
        free_of(b, ':'),
        free_of(c, ':'),
    ensures
        trim(a + seq![':'] + c) == a + seq![':'] + c,
        count_char(a + seq![':'] + c, ':') == 1,
        split(a + seq![':'] + c, seq![':']) == seq![a, c],
        trim(a + seq![':'] + b + seq![':'] + c) == a + seq![':'] + b + seq![':'] + c,
        count_char(a + seq![':'] + b + seq![':'] + c, ':') == 2,
        split(a + seq![':'] + b + seq![':'] + c, seq![':']) == seq![a, b, c],
{
    let one = seq![':'];
    assert(count_char(one, ':') == 1) by {
        assert(one.drop_last() =~= Seq::<char>::empty());
        assert(count_char(Seq::<char>::empty(), ':') == 0);
    }
    crate::text::lemma_count_char_free(a, ':');
    crate::text::lemma_count_char_free(b, ':');
    crate::text::lemma_count_char_free(c, ':');
    let t1 = a + one + c;
    assert(t1[0] == a[0]);
    assert(t1.last() == c.last());
    crate::text::lemma_trim_no_space(t1);
    crate::text::lemma_count_char_concat(a, one, ':');
    crate::text::lemma_count_char_concat(a + one, c, ':');
    lemma_split_first(a, ':', c);
    lemma_split_free(c, ':');
    let t2 = a + one + b + one + c;
    assert(t2[0] == a[0]);
    assert(t2.last() == c.last());
    crate::text::lemma_trim_no_space(t2);
    crate::text::lemma_count_char_concat(a, one, ':');
    crate::text::lemma_count_char_concat(a + one, b, ':');
    crate::text::lemma_count_char_concat(a + one + b, one, ':');
    crate::text::lemma_count_char_concat(a + one + b + one, c, ':');
    assert(t2 =~= a + one + (b + one + c));
    lemma_split_first(a, ':', b + one + c);
    lemma_split_first(b, ':', c);
    assert(split(t2, one) =~= seq![a, b, c]);
}

/// A numeral of at least two digits: digits only, starting and ending with one.
proof fn lemma_padded_field(n: nat, w: nat)
    requires
        w >= 1,
    ensures
        padded(n, w).len() > 0,
        is_digit(padded(n, w)[0]),
        is_digit(padded(n, w).last()),
        free_of(padded(n, w), ':'),
{
    lemma_padded(n, w);
}

/// Three fields that read as hours, minutes below 60, and seconds below 60 with
/// milliseconds give their total.
proof fn lemma_hms_outcome(t: Seq<char>, a: Seq<char>, b: Seq<char>, c: Seq<char>, h: nat, m: nat, sec: nat, f: nat)
    requires
        trim(t) == t,
        count_char(t, ':') == 2,
        split(t, seq![':']) == seq![a, b, c],
        parse_unsigned(a, u32_limit()) == Some(h),
        parse_unsigned(b, u32_limit()) == Some(m),
        m < 60,
        seconds_field(c) == Some(Ok::<(nat, nat), Seq<char>>((sec, f))),
        sec < 60,
        h * 3600000 + m * 60000 + sec * 1000 + f <= u32::MAX,
    ensures
        timestamp_outcome(t) == Some(Ok::<Option<nat>, Seq<char>>(Some(h * 3600000 + m * 60000 + sec * 1000 + f))),
{
}

/// Two fields that read as minutes, and seconds below 60 with milliseconds, give their
/// total.
proof fn lemma_ms_outcome(t: Seq<char>, a: Seq<char>, c: Seq<char>, m: nat, sec: nat, f: nat)
    requires
        trim(t) == t,
        count_char(t, ':') == 1,
        split(t, seq![':']) == seq![a, c],
        parse_unsigned(a, u32_limit()) == Some(m),
        seconds_field(c) == Some(Ok::<(nat, nat), Seq<char>>((sec, f))),
        sec < 60,
        m * 60000 + sec * 1000 + f <= u32::MAX,
    ensures
        timestamp_outcome(t) == Some(Ok::<Option<nat>, Seq<char>>(Some(m * 60000 + sec * 1000 + f))),
{
}

/// Command-line clip bounds read as the time they write: `HH:MM:SS` as
/// `h·3600000 + m·60000 + s·1000` milliseconds and `HH:MM:SS.mmm` with `f` more, for
/// minutes and seconds below 60; `MM:SS` as `m·60000 + s·1000` for any minutes. So an hour
/// written `01:00:00` and written `60:00` read the same, 3600000.
pub proof fn lemma_timestamp_fields(h: nat, m: nat, sec: nat, f: nat)
    requires
        m < 60,
        sec < 60,
        f < 1000,
        h * 3600000 + m * 60000 + sec * 1000 + f <= u32::MAX,
    ensures
        timestamp_outcome(padded(h, 2) + seq![':'] + padded(m, 2) + seq![':'] + padded(sec, 2))
            == Some(Ok::<Option<nat>, Seq<char>>(Some(h * 3600000 + m * 60000 + sec * 1000))),
        timestamp_outcome(
            padded(h, 2) + seq![':'] + padded(m, 2) + seq![':'] + (padded(sec, 2) + seq!['.']
                + padded(f, 3)),
        ) == Some(Ok::<Option<nat>, Seq<char>>(Some(h * 3600000 + m * 60000 + sec * 1000 + f))),
        timestamp_outcome(padded(60 * h + m, 2) + seq![':'] + padded(sec, 2)) == Some(
            Ok::<Option<nat>, Seq<char>>(Some(h * 3600000 + m * 60000 + sec * 1000)),
        ),
{
    let ph = padded(h, 2);
    let pm = padded(m, 2);
    let ps = padded(sec, 2);
    let pf = padded(f, 3);
    let pq = padded(60 * h + m, 2);
    let frac = ps + seq!['.'] + pf;
    lemma_padded_field(h, 2);
    lemma_padded_field(m, 2);
    lemma_padded_field(sec, 2);
    lemma_padded_field(f, 3);
    lemma_padded_field(60 * h + m, 2);
    assert(free_of(frac, ':')) by {
        assert forall|i: int| 0 <= i < frac.len() implies frac[i] != ':' by {
            if i < ps.len() {
                assert(frac[i] == ps[i]);
            } else if i > ps.len() {
                assert(frac[i] == pf[i - ps.len() - 1]);
            }
        }
    }
    assert(frac.len() > 0 && frac.last() == pf.last());
    lemma_colon_fields(ph, pm, ps);
    lemma_colon_fields(ph, pm, frac);
    lemma_colon_fields(pq, pm, ps);
    assert(h <= u32::MAX && m <= u32::MAX && sec <= u32::MAX) by (nonlinear_arith)
        requires
            h * 3600000 + m * 60000 + sec * 1000 + f <= u32::MAX,
            m < 60,
            sec < 60,
    ;
    assert(60 * h + m <= u32::MAX) by (nonlinear_arith)
        requires
            h * 3600000 + m * 60000 + sec * 1000 + f <= u32::MAX,
    ;
    lemma_parse_padded(h, 2, u32_limit());
    lemma_parse_padded(m, 2, u32_limit());
    lemma_parse_padded(60 * h + m, 2, u32_limit());
    lemma_whole_seconds_field(sec);
    lemma_fraction_seconds_field(sec, f);
    lemma_hms_outcome(ph + seq![':'] + pm + seq![':'] + ps, ph, pm, ps, h, m, sec, 0);
    lemma_hms_outcome(ph + seq![':'] + pm + seq![':'] + frac, ph, pm, frac, h, m, sec, f);
    assert((60 * h + m) * 60000 + sec * 1000 == h * 3600000 + m * 60000 + sec * 1000) by (nonlinear_arith);
    lemma_ms_outcome(pq + seq![':'] + ps, pq, ps, 60 * h + m, sec, 0);
}

} // verus!
