//! The texts of numeric literals: which of them denote a number, and which
//! number.

use vstd::prelude::*;
use vstd::string::*;
use crate::chars::{decode, digit, is_digit};
use crate::scan::{belongs, lemma_run_end, run_end, CharClass};

verus! {

/// The value of a decimal digit.
pub open spec fn digit_value(c: char) -> int {
    c as int - '0' as int
}

/// The number that a sequence of decimal digits denotes; the empty
/// sequence denotes 0.
pub open spec fn decimal_value(digits: Seq<char>) -> int
    decreases digits.len(),
{
    if digits.len() == 0 {
        0
    } else {
        10 * decimal_value(digits.drop_last()) + digit_value(digits.last())
    }
}

/// Whether every character of `s` is a decimal digit.
pub open spec fn all_digits(s: Seq<char>) -> bool {
    forall|i: int| 0 <= i < s.len() ==> is_digit(#[trigger] s[i])
}

/// Whether `text` begins with a sign.
pub open spec fn is_signed(text: Seq<char>) -> bool {
    text.len() > 0 && (text[0] == '-' || text[0] == '+')
}

/// `text` without its sign, if it has one.
pub open spec fn unsigned_part(text: Seq<char>) -> Seq<char> {
    if is_signed(text) {
        text.subrange(1, text.len() as int)
    } else {
        text
    }
}

/// The 64-bit signed integer that `text` denotes: an optional sign and at
/// least one decimal digit, of a value that fits. Any other text denotes
/// none.
pub open spec fn integer_value(text: Seq<char>) -> Option<i64> {
    let digits = unsigned_part(text);
    let value = if text.len() > 0 && text[0] == '-' {
        -decimal_value(digits)
    } else {
        decimal_value(digits)
    };
    if digits.len() > 0 && all_digits(digits) && i64::MIN <= value <= i64::MAX {
        Some(value as i64)
    } else {
        None
    }
}

/// Whether `body` spells a word in any mix of cases, where `lower` is the
/// word in lower case and `upper` the same word in upper case.
pub open spec fn spells_any_case(body: Seq<char>, lower: Seq<char>, upper: Seq<char>) -> bool
    recommends
        lower.len() == upper.len(),
{
    &&& body.len() == lower.len()
    &&& forall|i: int|
        0 <= i < lower.len() ==> #[trigger] body[i] == lower[i] || body[i] == upper[i]
}

/// Where the mantissa of the decimal number at the start of `body` ends:
/// after its digits, a point if there is one, and the digits after it.
pub open spec fn mantissa_end(body: Seq<char>) -> int {
    let whole = run_end(body, 0, CharClass::Digit);
    if whole < body.len() && body[whole] == '.' {
        run_end(body, whole + 1, CharClass::Digit)
    } else {
        whole
    }
}

/// The number of digits in the mantissa at the start of `body`.
pub open spec fn mantissa_digits(body: Seq<char>) -> int {
    let whole = run_end(body, 0, CharClass::Digit);
    if whole < body.len() && body[whole] == '.' {
        mantissa_end(body) - 1
    } else {
        whole
    }
}

/// Whether `tail` is an exponent: `e` or `E`, an optional sign, and at
/// least one decimal digit.
pub open spec fn is_exponent(tail: Seq<char>) -> bool {
    &&& tail.len() > 0
    &&& (tail[0] == 'e' || tail[0] == 'E')
    &&& {
        let digits = unsigned_part(tail.subrange(1, tail.len() as int));
        digits.len() > 0 && all_digits(digits)
    }
}

/// Whether `body` is a decimal number: digits with at most one point among
/// them, at least one digit, and an optional exponent.
pub open spec fn is_decimal_number(body: Seq<char>) -> bool {
    let end = mantissa_end(body);
    &&& mantissa_digits(body) > 0
    &&& (end == body.len() || is_exponent(body.subrange(end, body.len() as int)))
}

/// Whether `text` denotes a 64-bit floating-point number: an optional sign,
/// then a decimal number, `inf`, `infinity` or `nan`, the three words in
/// any mix of cases.
pub open spec fn is_float_text(text: Seq<char>) -> bool {
    let body = unsigned_part(text);
    ||| is_decimal_number(body)
    ||| spells_any_case(body, "inf"@, "INF"@)
    ||| spells_any_case(body, "nan"@, "NAN"@)
    ||| spells_any_case(body, "infinity"@, "INFINITY"@)
}

/// A longer sequence of digits denotes no smaller number than its prefix.
pub proof fn lemma_decimal_value_grows(digits: Seq<char>, k: int)
    requires
        all_digits(digits),
        0 <= k <= digits.len(),
    ensures
        0 <= decimal_value(digits.take(k)) <= decimal_value(digits),
    decreases digits.len() - k,
{
    lemma_decimal_value_nonnegative(digits.take(k));
    if k < digits.len() {
        lemma_decimal_value_grows(digits, k + 1);
        assert(digits.take(k + 1).drop_last() =~= digits.take(k));
        assert(digits.take(k + 1).last() == digits[k]);
    } else {
        assert(digits.take(k) =~= digits);
    }
}

pub proof fn lemma_decimal_value_nonnegative(digits: Seq<char>)
    requires
        all_digits(digits),
    ensures
        0 <= decimal_value(digits),
    decreases digits.len(),
{
    if digits.len() > 0 {
        lemma_decimal_value_nonnegative(digits.drop_last());
    }
}

/// The value of the decimal digit `c`.
fn digit_of(c: char) -> (d: u64)
    requires
        is_digit(c),
    ensures
        d == digit_value(c),
        d <= 9,
{
    (c as u32 - '0' as u32) as u64
}

/// The integer that `text` denotes, if it denotes one.
pub fn parse_integer(text: &str) -> (r: Option<i64>)
    ensures
        r == integer_value(text@),
{
    let chars = decode(text);
    let n: usize = chars.len();
    let negative: bool = n > 0 && chars[0] == '-';
    let start: usize = if n > 0 && (chars[0] == '-' || chars[0] == '+') {
        1
    } else {
        0
    };
    let ghost digits = unsigned_part(text@);
    assert(digits =~= chars@.subrange(start as int, n as int));
    if start == n {
        return None;
    }
    let limit: u64 = if negative {
        9223372036854775808
    } else {
        9223372036854775807
    };
    let mut acc: u64 = 0;
    let mut i: usize = start;
    while i < n
        invariant
            start <= i <= n,
            n == chars@.len(),
            digits == chars@.subrange(start as int, n as int),
            all_digits(digits.take(i - start)),
            acc == decimal_value(digits.take(i - start)),
            acc <= limit,
            9223372036854775807 <= limit <= 9223372036854775808,
            limit == if negative { 9223372036854775808u64 } else { 9223372036854775807u64 },
            negative == (text@.len() > 0 && text@[0] == '-'),
            digits == unsigned_part(text@),
        decreases n - i,
    {
        let c = chars[i];
        assert(digits[i - start] == c);
        if !digit(c) {
            return None;
        }
        let d = digit_of(c);
        proof {
            assert(digits.take(i - start + 1).drop_last() =~= digits.take(i - start));
            assert(digits.take(i - start + 1).last() == c);
            assert(all_digits(digits.take(i - start + 1))) by {
                assert forall|j: int| 0 <= j < i - start + 1 implies is_digit(
                    #[trigger] digits.take(i - start + 1)[j],
                ) by {
                    if j < i - start {
                        assert(digits.take(i - start + 1)[j] == digits.take(i - start)[j]);
                    }
                }
            }
        }
        if acc > (limit - d) / 10 {
            proof {
                assert(decimal_value(digits.take(i - start + 1)) == 10 * acc + d);
                assert(10 * acc + d > limit);
                if all_digits(digits) {
                    lemma_decimal_value_grows(digits, i - start + 1);
                }
            }
            return None;
        }
        acc = acc * 10 + d;
        i += 1;
    }
    assert(digits.take(n - start) =~= digits);
    if negative {
        if acc == 9223372036854775808 {
            Some(i64::MIN)
        } else {
            Some(-(acc as i64))
        }
    } else {
        Some(acc as i64)
    }
}

/// The characters of `v` from `from` on.
fn tail_of(v: &Vec<char>, from: usize) -> (r: Vec<char>)
    requires
        from <= v@.len(),
    ensures
        r@ == v@.subrange(from as int, v@.len() as int),
{
    let mut r: Vec<char> = Vec::new();
    let mut i: usize = from;
    while i < v.len()
        invariant
            from <= i <= v@.len(),
            r@ == v@.subrange(from as int, i as int),
        decreases v@.len() - i,
    {
        r.push(v[i]);
        assert(v@.subrange(from as int, i + 1) =~= v@.subrange(from as int, i as int).push(
            v@[i as int],
        ));
        i += 1;
    }
    r
}

/// Where the maximal run of characters of `class` that begins at `from`
/// ends.
fn run_from(v: &Vec<char>, from: usize, class: CharClass) -> (end: usize)
    requires
        from <= v@.len(),
    ensures
        end == run_end(v@, from as int, class),
        from <= end <= v@.len(),
{
    let mut i: usize = from;
    while i < v.len() && belongs(class, v[i])
        invariant
            from <= i <= v@.len(),
            run_end(v@, i as int, class) == run_end(v@, from as int, class),
        decreases v@.len() - i,
    {
        i += 1;
    }
    i
}

/// Whether `body` spells the word that is `lower` in lower case and
/// `upper` in upper case, in any mix of cases.
fn any_case(body: &Vec<char>, lower: &str, upper: &str) -> (r: bool)
    requires
        lower@.len() == upper@.len(),
    ensures
        r == spells_any_case(body@, lower@, upper@),
{
    let n: usize = lower.unicode_len();
    if body.len() != n {
        return false;
    }
    let mut i: usize = 0;
    while i < n
        invariant
            0 <= i <= n,
            n == body@.len(),
            n == lower@.len(),
            n == upper@.len(),
            forall|j: int| 0 <= j < i ==> #[trigger] body@[j] == lower@[j] || body@[j] == upper@[j],
        decreases n - i,
    {
        let b = body[i];
        if b != lower.get_char(i) && b != upper.get_char(i) {
            return false;
        }
        i += 1;
    }
    true
}

/// Whether the characters of `body` from `from` on are an exponent.
fn exponent_from(body: &Vec<char>, from: usize) -> (r: bool)
    requires
        from < body@.len(),
    ensures
        r == is_exponent(body@.subrange(from as int, body@.len() as int)),
{
    let n: usize = body.len();
    let ghost tail = body@.subrange(from as int, n as int);
    if body[from] != 'e' && body[from] != 'E' {
        return false;
    }
    let ghost rest = tail.subrange(1, tail.len() as int);
    assert(rest =~= body@.subrange(from + 1, n as int));
    let first: usize = if from + 1 < n && (body[from + 1] == '-' || body[from + 1] == '+') {
        from + 2
    } else {
        from + 1
    };
    let ghost digits = unsigned_part(rest);
    assert(digits =~= body@.subrange(first as int, n as int));
    let end = run_from(body, first, CharClass::Digit);
    proof {
        lemma_run_end(body@, first as int, CharClass::Digit);
        if end == n {
            assert forall|i: int| 0 <= i < digits.len() implies is_digit(#[trigger] digits[i]) by {
                assert(digits[i] == body@[first + i]);
            }
        } else {
            assert(digits[end - first] == body@[end as int]);
        }
    }
    first < n && end == n
}

/// Whether `text` denotes a floating-point number.
pub fn is_float(text: &str) -> (r: bool)
    ensures
        r == is_float_text(text@),
{
    let chars = decode(text);
    let n: usize = chars.len();
    let start: usize = if n > 0 && (chars[0] == '-' || chars[0] == '+') {
        1
    } else {
        0
    };
    let body = tail_of(&chars, start);
    assert(body@ =~= unsigned_part(text@));
    let m: usize = body.len();
    let whole = run_from(&body, 0, CharClass::Digit);
    let pointed: bool = whole < m && body[whole] == '.';
    let end: usize = if pointed {
        run_from(&body, whole + 1, CharClass::Digit)
    } else {
        whole
    };
    let digits: usize = if pointed {
        end - 1
    } else {
        whole
    };
    if digits > 0 && (end == m || exponent_from(&body, end)) {
        return true;
    }
    proof {
        reveal_strlit("inf");
        reveal_strlit("INF");
        reveal_strlit("nan");
        reveal_strlit("NAN");
        reveal_strlit("infinity");
        reveal_strlit("INFINITY");
    }
    any_case(&body, "inf", "INF") || any_case(&body, "nan", "NAN") || any_case(
        &body,
        "infinity",
        "INFINITY",
    )
}

/// The character of the decimal digit of value `d`.
pub open spec fn digit_char(d: nat) -> char
    recommends
        d < 10,
{
    ('0' as nat + d) as char
}

/// The decimal numeral of `n`, without leading zeros.
pub open spec fn decimal_text(n: nat) -> Seq<char>
    decreases n,
{
    if n < 10 {
        seq![digit_char(n)]
    } else {
        decimal_text(n / 10).push(digit_char(n % 10))
    }
}

/// The character of the decimal digit of value `d`.
fn char_of(d: usize) -> (c: char)
    requires
        d < 10,
    ensures
        c == digit_char(d as nat),
{
    (48u8 + d as u8) as char
}

/// Writes the decimal numeral of `n` at the end of `out`.
pub fn push_decimal(out: &mut String, n: usize)
    ensures
        final(out)@ == old(out)@ + decimal_text(n as nat),
    decreases n,
{
    if n < 10 {
        out.push(char_of(n));
        assert(out@ =~= old(out)@ + decimal_text(n as nat));
    } else {
        push_decimal(out, n / 10);
        out.push(char_of(n % 10));
        assert(out@ =~= old(out)@ + decimal_text(n as nat));
    }
}

} // verus!
