//! Unsigned decimal numbers: reading them as `str::parse` does for unsigned
//! integer types, and writing them as `format!("{:0w}", n)` does.
use vstd::prelude::*;

verus! {

/// Whether `c` is an ASCII decimal digit.
pub open spec fn is_digit(c: char) -> bool {
    '0' <= c && c <= '9'
}

/// The value of an ASCII decimal digit.
pub open spec fn digit_value(c: char) -> int {
    (c as int) - ('0' as int)
}

/// Every character of `s` is an ASCII decimal digit.
pub open spec fn all_digits(s: Seq<char>) -> bool {
    forall|i: int| 0 <= i < s.len() ==> is_digit(#[trigger] s[i])
}

/// The value of the decimal numeral `s` (most significant digit first).
pub open spec fn decimal_value(s: Seq<char>) -> nat
    decreases s.len(),
{
    if s.len() == 0 {
        0
    } else {
        (10 * decimal_value(s.drop_last()) + digit_value(s.last())) as nat
    }
}

/// The digits of an unsigned numeral: an optional leading `'+'` followed by at least
/// one ASCII digit, nothing else.
pub open spec fn unsigned_digits(s: Seq<char>) -> Option<Seq<char>> {
    let d = if s.len() > 0 && s[0] == '+' {
        s.drop_first()
    } else {
        s
    };
    if d.len() > 0 && all_digits(d) {
        Some(d)
    } else {
        None
    }
}

/// What `str::parse` gives for an unsigned integer type whose largest value is `max`:
/// the value of the numeral when `s` is one and the value is at most `max`.
pub open spec fn parse_unsigned(s: Seq<char>, max: nat) -> Option<nat> {
    match unsigned_digits(s) {
        Some(d) => if decimal_value(d) <= max {
            Some(decimal_value(d))
        } else {
            None
        },
        None => None,
    }
}

/// The character of a digit `0 <= d < 10`.
pub open spec fn digit_char(d: int) -> char {
    if d == 0 {
        '0'
    } else if d == 1 {
        '1'
    } else if d == 2 {
        '2'
    } else if d == 3 {
        '3'
    } else if d == 4 {
        '4'
    } else if d == 5 {
        '5'
    } else if d == 6 {
        '6'
    } else if d == 7 {
        '7'
    } else if d == 8 {
        '8'
    } else {
        '9'
    }
}

/// The shortest decimal numeral of `n` (`"0"` for zero).
pub open spec fn decimal_digits(n: nat) -> Seq<char>
    decreases n,
{
    if n < 10 {
        seq![digit_char(n as int)]
    } else {
        decimal_digits(n / 10).push(digit_char((n % 10) as int))
    }
}

/// `s` preceded by as many `'0'`s as bring it to `width` characters.
pub open spec fn zero_pad(s: Seq<char>, width: nat) -> Seq<char> {
    if s.len() < width {
        Seq::new((width - s.len()) as nat, |i: int| '0') + s
    } else {
        s
    }
}

/// `n` written with at least `width` digits, zero-padded: `format!("{:0width$}", n)`.
pub open spec fn padded(n: nat, width: nat) -> Seq<char> {
    zero_pad(decimal_digits(n), width)
}

// ---------------------------------------------------------------------------
// Lemmas
// ---------------------------------------------------------------------------

pub proof fn lemma_digit_char(d: int)
    requires
        0 <= d < 10,
    ensures
        is_digit(digit_char(d)),
        digit_value(digit_char(d)) == d,
{
}

pub proof fn lemma_decimal_digits(n: nat)
    ensures
        all_digits(decimal_digits(n)),
        decimal_value(decimal_digits(n)) == n,
        decimal_digits(n).len() >= 1,
    decreases n,
{
    if n < 10 {
        lemma_digit_char(n as int);
        let s = decimal_digits(n);
        assert(s.drop_last() =~= Seq::<char>::empty());
        assert(decimal_value(s.drop_last()) == 0);
        assert(s.last() == digit_char(n as int));
    } else {
        lemma_decimal_digits(n / 10);
        lemma_digit_char((n % 10) as int);
        let s = decimal_digits(n);
        assert(s.drop_last() =~= decimal_digits(n / 10));
        assert forall|i: int| 0 <= i < s.len() implies is_digit(#[trigger] s[i]) by {
            if i < s.len() - 1 {
                assert(s[i] == decimal_digits(n / 10)[i]);
            }
        }
    }
}

/// Numbers below 100 take at most two digits, below 1000 at most three.
pub proof fn lemma_decimal_digits_small(n: nat)
    ensures
        n < 100 ==> decimal_digits(n).len() <= 2 && padded(n, 2).len() == 2,
        n < 1000 ==> decimal_digits(n).len() <= 3 && padded(n, 3).len() == 3,
{
    if n >= 10 {
        assert(decimal_digits(n).len() == decimal_digits(n / 10).len() + 1);
        if n / 10 >= 10 {
            assert(decimal_digits(n / 10).len() == decimal_digits(n / 100).len() + 1) by {
                assert(n / 10 / 10 == n / 100);
            }
            if n < 1000 {
                assert(n / 100 < 10);
            }
        }
    }
}

/// Leading zeros do not change the value of a numeral.
pub proof fn lemma_value_leading_zeros(k: nat, s: Seq<char>)
    ensures
        decimal_value(Seq::new(k, |i: int| '0') + s) == decimal_value(s),
    decreases s.len() + k,
{
    let z = Seq::new(k, |i: int| '0');
    if s.len() == 0 {
        assert(z + s =~= z);
        if k > 0 {
            let z1 = Seq::new((k - 1) as nat, |i: int| '0');
            assert(z.drop_last() =~= z1 + s);
            lemma_value_leading_zeros((k - 1) as nat, s);
        }
    } else {
        assert((z + s).drop_last() =~= z + s.drop_last());
        lemma_value_leading_zeros(k, s.drop_last());
    }
}

pub proof fn lemma_padded(n: nat, width: nat)
    ensures
        all_digits(padded(n, width)),
        decimal_value(padded(n, width)) == n,
        padded(n, width).len() >= 1,
        padded(n, width).len() >= width,
{
    lemma_decimal_digits(n);
    let d = decimal_digits(n);
    if d.len() < width {
        let k = (width - d.len()) as nat;
        lemma_value_leading_zeros(k, d);
        let p = padded(n, width);
        assert forall|i: int| 0 <= i < p.len() implies is_digit(#[trigger] p[i]) by {
            if i >= k {
                assert(p[i] == d[i - k]);
            }
        }
    }
}

/// A zero-padded numeral reads back as the number it writes.
pub proof fn lemma_parse_padded(n: nat, width: nat, max: nat)
    requires
        n <= max,
    ensures
        parse_unsigned(padded(n, width), max) == Some(n),
{
    lemma_padded(n, width);
    let p = padded(n, width);
    assert(p[0] != '+') by {
        assert(is_digit(p[0]));
    }
}

/// The value of a prefix of a numeral is at most the value of the whole.
pub proof fn lemma_value_prefix(s: Seq<char>, i: int)
    requires
        0 <= i <= s.len(),
        all_digits(s),
    ensures
        decimal_value(s.take(i)) <= decimal_value(s),
    decreases s.len() - i,
{
    if i < s.len() {
        lemma_value_prefix(s, i + 1);
        assert(s.take(i + 1).drop_last() =~= s.take(i));
        assert(is_digit(s[i]));
    } else {
        assert(s.take(i) =~= s);
    }
}

// ---------------------------------------------------------------------------
// Executable reading and writing
// ---------------------------------------------------------------------------

/// The digit `d` as a character.
pub fn digit_to_char(d: u64) -> (c: char)
    requires
        d < 10,
    ensures
        c == digit_char(d as int),
{
    if d == 0 {
        '0'
    } else if d == 1 {
        '1'
    } else if d == 2 {
        '2'
    } else if d == 3 {
        '3'
    } else if d == 4 {
        '4'
    } else if d == 5 {
        '5'
    } else if d == 6 {
        '6'
    } else if d == 7 {
        '7'
    } else if d == 8 {
        '8'
    } else {
        '9'
    }
}

/// Reads `s` as an unsigned numeral whose value must not exceed `max`
/// (`str::parse` for the unsigned type whose largest value is `max`).
pub fn parse_unsigned_exec(s: &[char], max: u64) -> (r: Option<u64>)
    ensures
        match parse_unsigned(s@, max as nat) {
            Some(v) => r == Some(v as u64),
            None => r is None,
        },
{
    let n = s.len();
    let start: usize = if n > 0 && s[0] == '+' {
        1
    } else {
        0
    };
    let ghost d = if s@.len() > 0 && s@[0] == '+' {
        s@.drop_first()
    } else {
        s@
    };
    assert(d =~= s@.subrange(start as int, n as int));
    if start == n {
        return None;
    }
    let mut acc: u64 = 0;
    let mut i = start;
    while i < n
        invariant
            n == s@.len(),
            start <= i <= n,
            d =~= s@.subrange(start as int, n as int),
            d == (if s@.len() > 0 && s@[0] == '+' {
                s@.drop_first()
            } else {
                s@
            }),
            forall|t: int| start <= t < i ==> is_digit(#[trigger] s@[t]),
            acc as nat == decimal_value(d.take(i - start)),
            acc <= max,
        decreases n - i,
    {
        let c = s[i];
        assert(d[i - start] == c);
        if !('0' <= c && c <= '9') {
            proof {
                assert(!is_digit(d[i - start]));
                assert(!all_digits(d));
            }
            return None;
        }
        let dv: u64 = (c as u64) - ('0' as u64);
        proof {
            assert(d.take(i + 1 - start).drop_last() =~= d.take(i - start));
            assert(d.take(i + 1 - start).last() == c);
        }
        let next = match acc.checked_mul(10) {
            Some(m) => m.checked_add(dv),
            None => None,
        };
        match next {
            Some(v) if v <= max => {
                acc = v;
            },
            _ => {
                // the value of the numeral read so far already exceeds `max`; so does the whole
                proof {
                    assert(decimal_value(d.take(i + 1 - start)) == 10 * acc + dv);
                    assert(10 * acc + dv > max);
                    if all_digits(d) {
                        lemma_value_prefix(d, i + 1 - start);
                    }
                }
                return None;
            },
        }
        i = i + 1;
    }
    assert(d.take(n - start) =~= d);
    Some(acc)
}

/// Appends the shortest decimal numeral of `v` to `out`.
pub fn push_decimal(out: &mut Vec<char>, v: u64)
    ensures
        final(out)@ == old(out)@ + decimal_digits(v as nat),
    decreases v,
{
    if v < 10 {
        let c = digit_to_char(v);
        out.push(c);
        assert(old(out)@ + decimal_digits(v as nat) =~= old(out)@.push(c));
    } else {
        push_decimal(out, v / 10);
        let c = digit_to_char(v % 10);
        let ghost mid = out@;
        out.push(c);
        assert(old(out)@ + decimal_digits(v as nat) =~= mid.push(c));
    }
}

/// Appends `v` written with at least `width` digits, zero-padded.
pub fn push_padded(out: &mut Vec<char>, v: u64, width: usize)
    ensures
        final(out)@ == old(out)@ + padded(v as nat, width as nat),
{
    let mut digits: Vec<char> = Vec::new();
    push_decimal(&mut digits, v);
    assert(digits@ =~= decimal_digits(v as nat));
    let len = digits.len();
    let ghost before = out@;
    if len < width {
        let k = width - len;
        let mut j: usize = 0;
        while j < k
            invariant
                j <= k,
                out@ == before + Seq::new(j as nat, |i: int| '0'),
            decreases k - j,
        {
            out.push('0');
            assert(before + Seq::new((j + 1) as nat, |i: int| '0') =~= before + Seq::new(
                j as nat,
                |i: int| '0',
            ).push('0'));
            j = j + 1;
        }
    }
    let ghost mid = out@;
    let mut i: usize = 0;
    while i < len
        invariant
            len == digits@.len(),
            i <= len,
            out@ == mid + digits@.take(i as int),
        decreases len - i,
    {
        out.push(digits[i]);
        assert(mid + digits@.take(i + 1) =~= (mid + digits@.take(i as int)).push(digits@[i as int]));
        i = i + 1;
    }
    assert(digits@.take(len as int) =~= digits@);
    assert(out@ =~= before + padded(v as nat, width as nat));
}

} // verus!
