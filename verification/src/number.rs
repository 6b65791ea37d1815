//! Unsigned decimal numbers as `str::parse` reads them, and the words of a
//! line as `str::split_whitespace` yields them.

use vstd::prelude::*;

use crate::text::{is_white_space, is_whitespace_char, trim_start};

verus! {

/// Why a decimal number did not parse.
#[derive(Debug, Clone, Copy, PartialEq, Eq, Structural)]
pub enum NumberError {
    /// The text is empty.
    Empty,
    /// A character is not a decimal digit (a lone `+` counts as one).
    InvalidDigit,
    /// The value does not fit the target type.
    PosOverflow,
}

/// Whether `c` is a decimal digit.
pub open spec fn is_digit(c: char) -> bool {
    '0' <= c && c <= '9'
}

/// The value of a decimal digit.
pub open spec fn digit_value(c: char) -> int {
    c as int - '0' as int
}

/// Reading `digits` from the left: the value so far, or the first failure
/// (a non-digit, or a value above `max`).
pub open spec fn scan_digits(digits: Seq<char>, max: int) -> Result<int, NumberError>
    decreases digits.len(),
{
    if digits.len() == 0 {
        Ok(0)
    } else {
        match scan_digits(digits.drop_last(), max) {
            Err(e) => Err(e),
            Ok(v) => if !is_digit(digits.last()) {
                Err(NumberError::InvalidDigit)
            } else if v * 10 + digit_value(digits.last()) > max {
                Err(NumberError::PosOverflow)
            } else {
                Ok(v * 10 + digit_value(digits.last()))
            },
        }
    }
}

/// An unsigned decimal as `str::parse` reads it for a type whose largest
/// value is `max`: empty is an error; one leading `+` is allowed but not
/// alone; then only digits, and a value no larger than `max`.
pub open spec fn parse_unsigned(s: Seq<char>, max: int) -> Result<int, NumberError> {
    if s.len() == 0 {
        Err(NumberError::Empty)
    } else if s[0] == '+' {
        if s.len() == 1 {
            Err(NumberError::InvalidDigit)
        } else {
            scan_digits(s.drop_first(), max)
        }
    } else {
        scan_digits(s, max)
    }
}

/// Once a scan has gone above `max`, reading on keeps it there.
proof fn lemma_scan_step(digits: Seq<char>, max: int, n: int)
    requires
        0 <= n < digits.len(),
    ensures
        scan_digits(digits.take(n + 1), max) == match scan_digits(digits.take(n), max) {
            Err(e) => Err(e),
            Ok(v) => if !is_digit(digits[n]) {
                Err(NumberError::InvalidDigit)
            } else if v * 10 + digit_value(digits[n]) > max {
                Err(NumberError::PosOverflow)
            } else {
                Ok(v * 10 + digit_value(digits[n]))
            },
        },
{
    assert(digits.take(n + 1).drop_last() =~= digits.take(n));
}

/// A failure part-way through stays the result of the whole scan.
proof fn lemma_scan_failure_persists(digits: Seq<char>, max: int, n: int)
    requires
        0 <= n <= digits.len(),
        scan_digits(digits.take(n), max) is Err,
    ensures
        scan_digits(digits, max) == scan_digits(digits.take(n), max),
    decreases digits.len() - n,
{
    if n == digits.len() {
        assert(digits.take(n) =~= digits);
    } else {
        lemma_scan_step(digits, max, n);
        lemma_scan_failure_persists(digits, max, n + 1);
    }
}

/// Scan the digits `s[from..]` for a value no larger than `max`.
fn scan_from(s: &Vec<char>, from: usize, max: u64) -> (r: Result<u64, NumberError>)
    requires
        from <= s.len(),
    ensures
        match (r, scan_digits(s@.skip(from as int), max as int)) {
            (Ok(v), Ok(w)) => v == w,
            (Err(e), Err(f)) => e == f,
            _ => false,
        },
{
    let ghost d = s@.skip(from as int);
    let mut acc: u64 = 0;
    let mut i: usize = from;
    while i < s.len()
        invariant
            from <= i <= s.len(),
            d == s@.skip(from as int),
            scan_digits(d.take(i - from), max as int) == Ok::<int, NumberError>(acc as int),
            acc <= max,
        decreases s.len() - i,
    {
        proof {
            lemma_scan_step(d, max as int, i - from);
        }
        let c = s[i];
        if !('0' <= c && c <= '9') {
            proof {
                lemma_scan_failure_persists(d, max as int, i - from + 1);
            }
            return Err(NumberError::InvalidDigit);
        }
        let digit = (c as u32 - '0' as u32) as u64;
        assert(digit as int == digit_value(c));
        if digit > max || acc > (max - digit) / 10 {
            assert(acc * 10 + digit > max) by (nonlinear_arith)
                requires
                    digit > max || acc > (max - digit) / 10,
                    acc >= 0,
            ;
            proof {
                lemma_scan_failure_persists(d, max as int, i - from + 1);
            }
            return Err(NumberError::PosOverflow);
        }
        assert(acc * 10 + digit <= max) by (nonlinear_arith)
            requires
                acc <= (max - digit) / 10,
                max >= digit,
        ;
        acc = acc * 10 + digit;
        i = i + 1;
        assert(i - from == (i - 1 - from) + 1);
    }
    assert(d.take(i - from) =~= d);
    Ok(acc)
}

/// Parse an unsigned decimal no larger than `max`, as `str::parse` does.
pub fn parse_decimal(s: &Vec<char>, max: u64) -> (r: Result<u64, NumberError>)
    ensures
        match (r, parse_unsigned(s@, max as int)) {
            (Ok(v), Ok(w)) => v == w,
            (Err(e), Err(f)) => e == f,
            _ => false,
        },
{
    if s.len() == 0 {
        return Err(NumberError::Empty);
    }
    if s[0] == '+' {
        if s.len() == 1 {
            return Err(NumberError::InvalidDigit);
        }
        assert(s@.skip(1) =~= s@.drop_first());
        scan_from(s, 1, max)
    } else {
        assert(s@.skip(0) =~= s@);
        scan_from(s, 0, max)
    }
}

/// Length of the word at the start of `s`: the characters up to the first
/// whitespace.
pub open spec fn word_len(s: Seq<char>) -> int
    decreases s.len(),
{
    if s.len() == 0 || is_white_space(s[0]) {
        0
    } else {
        1 + word_len(s.drop_first())
    }
}

/// The first whitespace-separated word of `s` and the text after it, or
/// `None` when `s` is all whitespace.
pub open spec fn next_word(s: Seq<char>) -> Option<(Seq<char>, Seq<char>)> {
    let t = trim_start(s);
    if t.len() == 0 {
        None
    } else {
        Some((t.take(word_len(t)), t.skip(word_len(t))))
    }
}

/// The next word of `s[from..]`, as the range `(start, end)` of its
/// characters in `s`; `None` when only whitespace is left.
pub fn next_word_at(s: &Vec<char>, from: usize) -> (r: Option<(usize, usize)>)
    requires
        from <= s.len(),
    ensures
        match (r, next_word(s@.skip(from as int))) {
            (Some((a, b)), Some((w, rest))) => {
                &&& from <= a < b <= s.len()
                &&& s@.subrange(a as int, b as int) == w
                &&& s@.skip(b as int) == rest
            },
            (None, None) => true,
            _ => false,
        },
{
    let mut a: usize = from;
    while a < s.len() && is_whitespace_char(s[a])
        invariant
            from <= a <= s.len(),
            trim_start(s@.skip(from as int)) == trim_start(s@.skip(a as int)),
        decreases s.len() - a,
    {
        assert(s@.skip(a as int).drop_first() =~= s@.skip(a as int + 1));
        a = a + 1;
    }
    assert(trim_start(s@.skip(a as int)) == s@.skip(a as int));
    if a == s.len() {
        assert(s@.skip(a as int).len() == 0);
        return None;
    }
    let ghost t = s@.skip(a as int);
    let mut b: usize = a;
    while b < s.len() && !is_whitespace_char(s[b])
        invariant
            a <= b <= s.len(),
            t == s@.skip(a as int),
            word_len(t) == (b - a) + word_len(s@.skip(b as int)),
        decreases s.len() - b,
    {
        assert(s@.skip(b as int).drop_first() =~= s@.skip(b as int + 1));
        b = b + 1;
    }
    assert(word_len(s@.skip(b as int)) == 0);
    assert(t.take(b - a) =~= s@.subrange(a as int, b as int));
    assert(t.skip(b - a) =~= s@.skip(b as int));
    Some((a, b))
}

/// Whether `w` is a word: some characters, none of them whitespace.
pub open spec fn is_word(w: Seq<char>) -> bool {
    w.len() > 0 && forall|i: int| 0 <= i < w.len() ==> !is_white_space(#[trigger] w[i])
}

/// Whether every character of `s` is whitespace.
pub open spec fn is_blank(s: Seq<char>) -> bool {
    forall|i: int| 0 <= i < s.len() ==> is_white_space(#[trigger] s[i])
}

/// Leading whitespace is skipped.
pub proof fn lemma_trim_start_skips_blank(pad: Seq<char>, s: Seq<char>)
    requires
        is_blank(pad),
    ensures
        trim_start(pad + s) == trim_start(s),
    decreases pad.len(),
{
    if pad.len() > 0 {
        assert(is_white_space(pad[0]));
        assert((pad + s).drop_first() =~= pad.drop_first() + s);
        lemma_trim_start_skips_blank(pad.drop_first(), s);
    } else {
        assert(pad + s =~= s);
    }
}

/// A word followed by whitespace (or nothing) has the word's length.
proof fn lemma_word_len_of_word(w: Seq<char>, rest: Seq<char>)
    requires
        forall|i: int| 0 <= i < w.len() ==> !is_white_space(#[trigger] w[i]),
        rest.len() == 0 || is_white_space(rest[0]),
    ensures
        word_len(w + rest) == w.len(),
    decreases w.len(),
{
    if w.len() > 0 {
        assert((w + rest)[0] == w[0]);
        assert((w + rest).drop_first() =~= w.drop_first() + rest);
        assert forall|i: int| 0 <= i < w.drop_first().len() implies !is_white_space(
            #[trigger] w.drop_first()[i],
        ) by {
            assert(w.drop_first()[i] == w[i + 1]);
        }
        lemma_word_len_of_word(w.drop_first(), rest);
    } else {
        assert(w + rest =~= rest);
    }
}

/// Law: reading words. Leading whitespace never changes the next word; a
/// blank text has none; a word followed by whitespace (or by nothing) is
/// the next word, and what follows it is the rest.
pub proof fn law_next_word(pad: Seq<char>, w: Seq<char>, rest: Seq<char>, line: Seq<char>)
    requires
        is_blank(pad),
    ensures
        next_word(pad + line) == next_word(line),
        next_word(pad) is None,
        is_word(w) && (rest.len() == 0 || is_white_space(rest[0])) ==> next_word(pad + w + rest)
            == Some((w, rest)),
{
    lemma_trim_start_skips_blank(pad, line);
    lemma_trim_start_skips_blank(pad, Seq::<char>::empty());
    assert(pad + Seq::<char>::empty() =~= pad);
    if is_word(w) && (rest.len() == 0 || is_white_space(rest[0])) {
        assert(pad + w + rest =~= pad + (w + rest));
        lemma_trim_start_skips_blank(pad, w + rest);
        assert((w + rest)[0] == w[0]);
        lemma_word_len_of_word(w, rest);
        assert((w + rest).take(w.len() as int) =~= w);
        assert((w + rest).skip(w.len() as int) =~= rest);
    }
}

/// `10` to the power `n`.
pub open spec fn pow10(n: nat) -> int
    decreases n,
{
    if n == 0 {
        1
    } else {
        10 * pow10((n - 1) as nat)
    }
}

/// The value of a string of decimal digits written most significant first:
/// each digit weighted by the power of ten of its distance from the end.
pub open spec fn decimal_value(s: Seq<char>) -> int
    decreases s.len(),
{
    if s.len() == 0 {
        0
    } else {
        digit_value(s[0]) * pow10((s.len() - 1) as nat) + decimal_value(s.drop_first())
    }
}

/// Whether every character of `s` is a decimal digit.
pub open spec fn all_digits(s: Seq<char>) -> bool {
    forall|i: int| 0 <= i < s.len() ==> is_digit(#[trigger] s[i])
}

/// Read from the right, a decimal string is ten times its prefix plus its
/// last digit.
proof fn lemma_decimal_value_last(s: Seq<char>)
    requires
        s.len() > 0,
    ensures
        decimal_value(s) == 10 * decimal_value(s.drop_last()) + digit_value(s.last()),
    decreases s.len(),
{
    if s.len() == 1 {
        assert(s.drop_last().len() == 0);
        assert(s.drop_first().len() == 0);
        assert(s[0] == s.last());
        assert(decimal_value(s.drop_first()) == 0);
        assert(decimal_value(s.drop_last()) == 0);
        assert(pow10(0) == 1);
        assert(decimal_value(s) == digit_value(s[0]) * pow10(0) + decimal_value(s.drop_first()));
        let d = digit_value(s[0]);
        let one = pow10(0);
        assert(d * one == d) by (nonlinear_arith)
            requires
                one == 1,
        ;
        assert(decimal_value(s) == 10 * decimal_value(s.drop_last()) + digit_value(s.last()));
    } else {
        let df = s.drop_first();
        lemma_decimal_value_last(df);
        assert(df.drop_last() =~= s.drop_last().drop_first());
        assert(df.last() == s.last());
        assert(s.drop_last()[0] == s[0]);
        assert(pow10((s.len() - 1) as nat) == 10 * pow10((s.len() - 2) as nat));
        let d0 = digit_value(s[0]);
        let a = pow10((s.len() - 2) as nat);
        assert(decimal_value(s.drop_last()) == d0 * a + decimal_value(df.drop_last()));
        assert(decimal_value(s) == d0 * (10 * a) + decimal_value(df));
        assert(d0 * (10 * a) == 10 * (d0 * a)) by (nonlinear_arith);
        assert(decimal_value(df) == 10 * decimal_value(df.drop_last()) + digit_value(s.last()));
        assert(decimal_value(s) == 10 * decimal_value(s.drop_last()) + digit_value(s.last()));
    }
}

/// A digit string's value is never below that of its prefix.
proof fn lemma_decimal_value_grows(s: Seq<char>)
    requires
        s.len() > 0,
        all_digits(s),
        decimal_value(s.drop_last()) >= 0,
    ensures
        decimal_value(s) >= decimal_value(s.drop_last()),
{
    lemma_decimal_value_last(s);
    assert(is_digit(s[s.len() - 1]));
}

/// Law: unsigned decimals read as their value. A string of digits whose
/// value is at most `max` reads as that value, most significant digit
/// first; one whose value exceeds `max` overflows; a string holding any
/// non-digit never reads as a number.
pub proof fn law_decimal_digits(s: Seq<char>, max: int)
    requires
        max >= 0,
    ensures
        all_digits(s) ==> decimal_value(s) >= 0,
        all_digits(s) && decimal_value(s) <= max ==> scan_digits(s, max) == Ok::<int, NumberError>(
            decimal_value(s),
        ),
        all_digits(s) && decimal_value(s) > max ==> scan_digits(s, max) == Err::<int, NumberError>(
            NumberError::PosOverflow,
        ),
        !all_digits(s) ==> scan_digits(s, max) is Err,
    decreases s.len(),
{
    if s.len() > 0 {
        let p = s.drop_last();
        law_decimal_digits(p, max);
        lemma_decimal_value_last(s);
        if all_digits(s) {
            assert(all_digits(p)) by {
                assert forall|i: int| 0 <= i < p.len() implies is_digit(#[trigger] p[i]) by {
                    assert(p[i] == s[i]);
                }
            }
            assert(is_digit(s.last())) by {
                assert(s.last() == s[s.len() - 1]);
            }
            lemma_decimal_value_grows(s);
        } else {
            if all_digits(p) {
                assert(!is_digit(s.last())) by {
                    let j = choose|j: int| 0 <= j < s.len() && !is_digit(#[trigger] s[j]);
                    if j < s.len() - 1 {
                        assert(p[j] == s[j]);
                    }
                }
            }
        }
    }
}

/// Law: a single leading `+` is allowed and means nothing; the empty text
/// and a lone `+` are no number.
pub proof fn law_leading_plus(d: Seq<char>, max: int)
    ensures
        parse_unsigned(Seq::<char>::empty(), max) == Err::<int, NumberError>(NumberError::Empty),
        parse_unsigned(seq!['+'], max) == Err::<int, NumberError>(NumberError::InvalidDigit),
        d.len() > 0 && d[0] != '+' ==> parse_unsigned(seq!['+'] + d, max) == parse_unsigned(
            d,
            max,
        ),
{
    if d.len() > 0 {
        assert((seq!['+'] + d).drop_first() =~= d);
    }
}

} // verus!
