//! Locale-formatted numeric text: normalization and exact parsing.
//!
//! Decimal amounts (prices, areas) are held in hundredths of a unit, so that
//! `"419 000 zł"` is `41_900_000` and `"38.5 m²"` is `3_850`.

use vstd::prelude::*;
use vstd::string::*;

verus! {

/// A decimal digit `0`..`9`.
pub open spec fn is_digit(c: char) -> bool {
    '0' <= c && c <= '9'
}

pub open spec fn digit_value(c: char) -> nat {
    (c as nat - '0' as nat) as nat
}

/// A comma is read as a decimal separator.
pub open spec fn as_dot(c: char) -> char {
    if c == ',' {
        '.'
    } else {
        c
    }
}

/// The text with commas turned into dots and every character that is neither a
/// digit nor a dot removed.
pub open spec fn normalized(s: Seq<char>) -> Seq<char>
    decreases s.len(),
{
    if s.len() == 0 {
        Seq::empty()
    } else {
        let rest = normalized(s.drop_last());
        let c = as_dot(s.last());
        if is_digit(c) || c == '.' {
            rest.push(c)
        } else {
            rest
        }
    }
}

/// The digits of the text, in order, every other character removed.
pub open spec fn digits_only(s: Seq<char>) -> Seq<char>
    decreases s.len(),
{
    if s.len() == 0 {
        Seq::empty()
    } else if is_digit(s.last()) {
        digits_only(s.drop_last()).push(s.last())
    } else {
        digits_only(s.drop_last())
    }
}

/// The value of a string of digits read in base ten (0 for the empty string).
pub open spec fn digits_value(s: Seq<char>) -> nat
    decreases s.len(),
{
    if s.len() == 0 {
        0
    } else {
        digits_value(s.drop_last()) * 10 + digit_value(s.last())
    }
}

pub open spec fn all_digits(s: Seq<char>) -> bool {
    forall|i: int| 0 <= i < s.len() ==> is_digit(#[trigger] s[i])
}

/// Digits, at most one dot, and at least one digit.
pub open spec fn is_decimal(s: Seq<char>) -> bool {
    &&& forall|i: int| 0 <= i < s.len() ==> is_digit(#[trigger] s[i]) || s[i] == '.'
    &&& forall|i: int, j: int|
        #![trigger s[i], s[j]]
        0 <= i < j < s.len() && s[i] == '.' ==> s[j] != '.'
    &&& exists|i: int| 0 <= i < s.len() && is_digit(#[trigger] s[i])
}

/// The first two digits after the dot, as hundredths.
pub open spec fn hundredths_of_fraction(f: Seq<char>) -> nat {
    (if f.len() > 0 { digit_value(f[0]) * 10 } else { 0 }) + (if f.len() > 1 {
        digit_value(f[1])
    } else {
        0
    })
}

/// The value of a decimal text in hundredths; digits past the second after the
/// dot are dropped.
pub open spec fn decimal_hundredths(s: Seq<char>) -> nat {
    if exists|p: int| 0 <= p < s.len() && s[p] == '.' {
        let p = choose|p: int| 0 <= p < s.len() && s[p] == '.';
        digits_value(s.subrange(0, p)) * 100 + hundredths_of_fraction(s.subrange(p + 1, s.len() as int))
    } else {
        digits_value(s) * 100
    }
}

/// What a decimal amount text reads as, in hundredths, where it is a number
/// that fits in a `u64`.
pub open spec fn amount_of_text(t: Seq<char>) -> Option<u64> {
    let s = normalized(t);
    if is_decimal(s) && decimal_hundredths(s) <= u64::MAX {
        Some(decimal_hundredths(s) as u64)
    } else {
        None
    }
}

/// What a count text reads as: its digits, where there is at least one and
/// their value is at most `max`.
pub open spec fn count_of_text(t: Seq<char>, max: nat) -> Option<nat> {
    let d = digits_only(t);
    if d.len() > 0 && digits_value(d) <= max {
        Some(digits_value(d))
    } else {
        None
    }
}

proof fn lemma_digits_value_monotone(s: Seq<char>, i: int)
    requires
        0 <= i <= s.len(),
        all_digits(s),
    ensures
        digits_value(s.subrange(0, i)) <= digits_value(s),
    decreases s.len() - i,
{
    if i < s.len() {
        lemma_digits_value_monotone(s, i + 1);
        assert(s.subrange(0, i + 1).drop_last() =~= s.subrange(0, i));
    } else {
        assert(s.subrange(0, i) =~= s);
    }
}

/// The characters of a text, one by one.
pub fn chars_of(text: &str) -> (r: Vec<char>)
    ensures
        r@ == text@,
{
    let n = text.unicode_len();
    let mut out: Vec<char> = Vec::new();
    let mut i: usize = 0;
    while i < n
        invariant
            n == text@.len(),
            i <= n,
            out@ == text@.subrange(0, i as int),
        decreases n - i,
    {
        out.push(text.get_char(i));
        i += 1;
    }
    assert(out@ =~= text@);
    out
}

/// Normalizes locale-formatted numeric text: commas become dots, and every
/// character that is neither a digit nor a dot is dropped.
pub fn normalize_numeric_text(text: &str) -> (r: Vec<char>)
    ensures
        r@ == normalized(text@),
{
    let cs = chars_of(text);
    let mut out: Vec<char> = Vec::new();
    let mut i: usize = 0;
    while i < cs.len()
        invariant
            cs@ == text@,
            i <= cs.len(),
            out@ == normalized(cs@.subrange(0, i as int)),
        decreases cs.len() - i,
    {
        assert(cs@.subrange(0, i as int + 1).drop_last() =~= cs@.subrange(0, i as int));
        let c = if cs[i] == ',' {
            '.'
        } else {
            cs[i]
        };
        if ('0' <= c && c <= '9') || c == '.' {
            out.push(c);
        }
        i += 1;
    }
    assert(cs@.subrange(0, cs.len() as int) =~= cs@);
    out
}

/// The digits of `s`, in order.
pub fn keep_digits(s: &Vec<char>) -> (r: Vec<char>)
    ensures
        r@ == digits_only(s@),
        all_digits(r@),
{
    let mut out: Vec<char> = Vec::new();
    let mut i: usize = 0;
    while i < s.len()
        invariant
            i <= s.len(),
            out@ == digits_only(s@.subrange(0, i as int)),
            all_digits(out@),
        decreases s.len() - i,
    {
        assert(s@.subrange(0, i as int + 1).drop_last() =~= s@.subrange(0, i as int));
        if '0' <= s[i] && s[i] <= '9' {
            out.push(s[i]);
        }
        i += 1;
    }
    assert(s@.subrange(0, s.len() as int) =~= s@);
    out
}

/// Reads `s[from..to]`, all digits, as a number no greater than `max`.
pub fn digits_to_number(s: &Vec<char>, from: usize, to: usize, max: u64) -> (r: Option<u64>)
    requires
        from <= to <= s.len(),
        all_digits(s@.subrange(from as int, to as int)),
    ensures
        r == (if digits_value(s@.subrange(from as int, to as int)) <= max {
            Some(digits_value(s@.subrange(from as int, to as int)) as u64)
        } else {
            None
        }),
{
    let ghost d = s@.subrange(from as int, to as int);
    let mut acc: u64 = 0;
    let mut i: usize = from;
    while i < to
        invariant
            from <= i <= to <= s.len(),
            d == s@.subrange(from as int, to as int),
            all_digits(d),
            acc as nat == digits_value(d.subrange(0, i - from)),
            acc <= max,
        decreases to - i,
    {
        assert(d.subrange(0, i - from + 1).drop_last() =~= d.subrange(0, i - from));
        assert(is_digit(d[i - from]));
        assert(d[i - from] == s[i as int]);
        let dv = (s[i] as u32 - '0' as u32) as u64;
        if dv > max || acc > (max - dv) / 10 {
            proof {
                let v = digits_value(d.subrange(0, i - from + 1));
                assert(v > max) by (nonlinear_arith)
                    requires
                        v == acc * 10 + dv,
                        dv > max || acc > (max - dv) / 10,
                {
                }
                lemma_digits_value_monotone(d, i - from + 1);
            }
            return None;
        }
        assert(acc * 10 + dv <= max) by (nonlinear_arith)
            requires
                acc <= (max - dv) / 10,
                dv <= 9,
        {
        }
        acc = acc * 10 + dv;
        i += 1;
    }
    assert(d.subrange(0, to - from) =~= d);
    Some(acc)
}


/// Reads normalized decimal text (digits and dots) in hundredths.
pub fn decimal_to_hundredths(s: &Vec<char>) -> (r: Option<u64>)
    ensures
        r == (if is_decimal(s@) && decimal_hundredths(s@) <= u64::MAX {
            Some(decimal_hundredths(s@) as u64)
        } else {
            None
        }),
{
    let n = s.len();
    let mut dot: Option<usize> = None;
    let mut any_digit = false;
    let mut i: usize = 0;
    while i < n
        invariant
            n == s.len(),
            i <= n,
            forall|k: int| 0 <= k < i ==> is_digit(#[trigger] s@[k]) || s@[k] == '.',
            match dot {
                Some(p) => p < i && s@[p as int] == '.' && forall|k: int|
                    0 <= k < i && k != p ==> #[trigger] s@[k] != '.',
                None => forall|k: int| 0 <= k < i ==> #[trigger] s@[k] != '.',
            },
            any_digit <==> exists|k: int| 0 <= k < i && is_digit(#[trigger] s@[k]),
        decreases n - i,
    {
        let c = s[i];
        if c == '.' {
            if dot.is_some() {
                assert(!(forall|a: int, b: int|
                    #![trigger s@[a], s@[b]]
                    0 <= a < b < s.len() && s@[a] == '.' ==> s@[b] != '.'));
                return None;
            }
            dot = Some(i);
        } else if '0' <= c && c <= '9' {
            any_digit = true;
        } else {
            return None;
        }
        i += 1;
    }
    if !any_digit {
        return None;
    }
    assert(is_decimal(s@));
    match dot {
        None => {
            assert(!exists|p: int| 0 <= p < s.len() && s@[p] == '.');
            assert(s@.subrange(0, n as int) =~= s@);
            let ip = digits_to_number(s, 0, n, u64::MAX / 100);
            match ip {
                None => None,
                Some(v) => Some(v * 100),
            }
        },
        Some(p) => {
            assert(s@[p as int] == '.');
            let ghost q = choose|q: int| 0 <= q < s.len() && s@[q] == '.';
            assert(q == p);
            assert(all_digits(s@.subrange(0, p as int)));
            let ip = digits_to_number(s, 0, p, u64::MAX / 100);
            let ghost f = s@.subrange(p + 1, n as int);
            let mut frac: u64 = 0;
            if p + 1 < n {
                assert(f[0] == s@[p + 1]);
                frac = (s[p + 1] as u32 - '0' as u32) as u64 * 10;
            }
            if p + 1 < n && p + 2 < n {
                assert(f[1] == s@[p + 2]);
                frac = frac + (s[p + 2] as u32 - '0' as u32) as u64;
            }
            assert(frac == hundredths_of_fraction(f));
            match ip {
                None => None,
                Some(v) => (v * 100).checked_add(frac),
            }
        },
    }
}

/// Reads locale-formatted amount text (`"419 000 zł"`, `"38,5 m²"`) in
/// hundredths.
pub fn parse_amount(text: &str) -> (r: Option<u64>)
    ensures
        r == amount_of_text(text@),
{
    let s = normalize_numeric_text(text);
    decimal_to_hundredths(&s)
}

/// Reads the digits of a text (`"3 pokoje"` is 3) as a number no greater than
/// `max`.
pub fn parse_count(text: &str, max: u64) -> (r: Option<u64>)
    ensures
        r == (match count_of_text(text@, max as nat) {
            Some(v) => Some(v as u64),
            None => None,
        }),
{
    let cs = chars_of(text);
    let d = keep_digits(&cs);
    if d.len() == 0 {
        return None;
    }
    assert(d@.subrange(0, d.len() as int) =~= d@);
    digits_to_number(&d, 0, d.len(), max)
}


proof fn lemma_normalized_concat(x: Seq<char>, y: Seq<char>)
    ensures
        normalized(x + y) == normalized(x) + normalized(y),
    decreases y.len(),
{
    if y.len() == 0 {
        assert(x + y =~= x);
        assert(normalized(x) + normalized(y) =~= normalized(x));
    } else {
        lemma_normalized_concat(x, y.drop_last());
        assert((x + y).drop_last() =~= x + y.drop_last());
        assert((x + y).last() == y.last());
        let c = as_dot(y.last());
        if is_digit(c) || c == '.' {
            assert(normalized(x) + normalized(y.drop_last()).push(c) =~= (normalized(x)
                + normalized(y.drop_last())).push(c));
        }
    }
}

/// Reading an amount ignores every character that is neither a digit nor a
/// decimal separator (a dot or a comma): spaces, non-breaking spaces, currency
/// and unit suffixes can stand anywhere without changing the value read.
pub proof fn lemma_amount_ignores_noise(a: Seq<char>, c: char, b: Seq<char>)
    requires
        !is_digit(c),
        c != '.',
        c != ',',
    ensures
        amount_of_text(a + seq![c] + b) == amount_of_text(a + b),
{
    lemma_normalized_concat(a + seq![c], b);
    lemma_normalized_concat(a, seq![c]);
    lemma_normalized_concat(a, b);
    let one = seq![c];
    assert(one.drop_last() =~= Seq::<char>::empty());
    assert(one.last() == c);
    assert(as_dot(c) == c);
    assert(normalized(one.drop_last()) == Seq::<char>::empty());
    assert(normalized(one) =~= Seq::<char>::empty());
    assert(normalized(a) + normalized(seq![c]) =~= normalized(a));
}


proof fn lemma_normalized_without_separators(t: Seq<char>)
    requires
        forall|i: int| 0 <= i < t.len() ==> #[trigger] t[i] != '.' && t[i] != ',',
    ensures
        normalized(t) == digits_only(t),
        all_digits(digits_only(t)),
        (exists|i: int| 0 <= i < t.len() && is_digit(#[trigger] t[i])) ==> digits_only(t).len() > 0,
    decreases t.len(),
{
    if t.len() > 0 {
        let r = t.drop_last();
        assert forall|i: int| 0 <= i < r.len() implies #[trigger] r[i] != '.' && r[i] != ',' by {
            assert(r[i] == t[i]);
        }
        lemma_normalized_without_separators(r);
        assert(t[t.len() - 1] != '.' && t[t.len() - 1] != ',');
        if exists|i: int| 0 <= i < t.len() && is_digit(#[trigger] t[i]) {
            let i = choose|i: int| 0 <= i < t.len() && is_digit(#[trigger] t[i]);
            if i < r.len() {
                assert(is_digit(r[i]));
            }
        }
        let d = digits_only(t);
        assert forall|i: int| 0 <= i < d.len() implies is_digit(#[trigger] d[i]) by {
            if is_digit(t.last()) && i == d.len() - 1 {
            } else {
                assert(d[i] == digits_only(r)[i]);
            }
        }
    }
}

/// A price written as groups of digits with any separators that are neither
/// a dot nor a comma (spaces, non-breaking spaces) and any currency suffix
/// reads as the number formed by all its digits, in hundredths.
pub proof fn lemma_grouped_digits_amount(t: Seq<char>)
    requires
        forall|i: int| 0 <= i < t.len() ==> #[trigger] t[i] != '.' && t[i] != ',',
        exists|i: int| 0 <= i < t.len() && is_digit(#[trigger] t[i]),
    ensures
        amount_of_text(t) == (if digits_value(digits_only(t)) * 100 <= u64::MAX {
            Some((digits_value(digits_only(t)) * 100) as u64)
        } else {
            None
        }),
{
    lemma_normalized_without_separators(t);
    let d = digits_only(t);
    assert(is_digit(d[0]));
    assert(!exists|p: int| 0 <= p < d.len() && d[p] == '.') by {
        assert forall|p: int| 0 <= p < d.len() implies d[p] != '.' by {
            assert(is_digit(d[p]));
        }
    }
    assert(is_decimal(d)) by {
        assert forall|i: int| 0 <= i < d.len() implies is_digit(#[trigger] d[i]) || d[i] == '.' by {
        }
        assert forall|i: int, j: int|
            #![trigger d[i], d[j]]
            0 <= i < j < d.len() && d[i] == '.' implies d[j] != '.' by {
            assert(is_digit(d[i]));
        }
    }
}

} // verus!
