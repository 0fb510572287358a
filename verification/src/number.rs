//! Numbers as they are written: decimal integers, read to their value, and
//! decimal literals with a fraction or an exponent, which are recognised and
//! kept as text.

use crate::text::after;
use vstd::prelude::*;

verus! {

/// One of the ten decimal digits.
pub open spec fn is_digit(c: char) -> bool {
    '0' <= c <= '9'
}

/// The value of a digit.
pub open spec fn digit_value(c: char) -> nat {
    (c as u32 - '0' as u32) as nat
}

/// Every character of `text` is a digit.
pub open spec fn all_digits(text: Seq<char>) -> bool {
    forall|i: int| 0 <= i < text.len() ==> is_digit(#[trigger] text[i])
}

/// The number that the digits of `text` write in base ten.
pub open spec fn decimal_value(text: Seq<char>) -> nat
    decreases text.len(),
{
    if text.len() == 0 {
        0
    } else {
        10 * decimal_value(text.drop_last()) + digit_value(text.last())
    }
}

/// `text` without the plus sign that it may begin with.
pub open spec fn without_plus(text: Seq<char>) -> Seq<char> {
    if text.len() > 0 && text[0] == '+' {
        text.drop_first()
    } else {
        text
    }
}

/// The natural number that `text` writes: one or more digits, with or
/// without a plus sign in front; `None` for any other text.
pub open spec fn natural(text: Seq<char>) -> Option<nat> {
    let digits = without_plus(text);
    if digits.len() > 0 && all_digits(digits) {
        Some(decimal_value(digits))
    } else {
        None
    }
}

/// The integer that `text` writes: one or more digits, with or without one
/// sign in front; `None` for any other text.
pub open spec fn integer(text: Seq<char>) -> Option<int> {
    if text.len() > 0 && text[0] == '-' {
        let digits = text.drop_first();
        if digits.len() > 0 && all_digits(digits) {
            Some(-(decimal_value(digits) as int))
        } else {
            None
        }
    } else {
        match natural(text) {
            Some(n) => Some(n as int),
            None => None,
        }
    }
}

/// `value` where it is a number of at most `limit`.
pub open spec fn at_most(value: Option<nat>, limit: nat) -> Option<nat> {
    match value {
        Some(n) if n <= limit => Some(n),
        _ => None,
    }
}

/// A number does not get smaller when digits are written after it.
pub proof fn lemma_decimal_value_grows(text: Seq<char>, n: int)
    requires
        0 <= n <= text.len(),
    ensures
        decimal_value(text.take(n)) <= decimal_value(text),
    decreases text.len() - n,
{
    if n == text.len() {
        assert(text.take(n) =~= text);
    } else {
        lemma_decimal_value_grows(text.drop_last(), n);
        assert(text.drop_last().take(n) =~= text.take(n));
    }
}

/// Tells whether `c` is a digit.
pub fn digit(c: char) -> (yes: bool)
    ensures
        yes == is_digit(c),
{
    '0' <= c && c <= '9'
}

/// Reads a run of digits as a number of at most `limit`.
pub fn parse_digits(text: &[char], limit: u64) -> (value: Option<u64>)
    ensures
        value matches Some(n) ==> text@.len() > 0 && all_digits(text@) && decimal_value(text@)
            == n && n <= limit,
        value is None ==> !(text@.len() > 0 && all_digits(text@) && decimal_value(text@)
            <= limit),
{
    if text.len() == 0 {
        return None;
    }
    let mut value: u64 = 0;
    let mut i: usize = 0;
    while i < text.len()
        invariant
            i <= text.len(),
            all_digits(text@.take(i as int)),
            value == decimal_value(text@.take(i as int)),
            value <= limit,
        decreases text.len() - i,
    {
        let c: char = text[i];
        if !digit(c) {
            return None;
        }
        let d: u64 = (c as u32 - '0' as u32) as u64;
        proof {
            assert(text@.take(i + 1).drop_last() =~= text@.take(i as int));
            assert(text@.take(i + 1).last() == c);
            assert forall|j: int| 0 <= j < i + 1 implies is_digit(
                #[trigger] text@.take(i + 1)[j],
            ) by {
                if j < i {
                    assert(text@.take(i + 1)[j] == text@.take(i as int)[j]);
                }
            }
        }
        if d > limit || value > (limit - d) / 10 {
            proof {
                if all_digits(text@) {
                    lemma_decimal_value_grows(text@, i + 1);
                }
            }
            return None;
        }
        value = value * 10 + d;
        i += 1;
    }
    proof {
        assert(text@.take(text.len() as int) =~= text@);
    }
    Some(value)
}

/// Reads a natural number of at most `limit`.
pub fn parse_natural(text: &[char], limit: u64) -> (value: Option<u64>)
    ensures
        value matches Some(n) ==> at_most(natural(text@), limit as nat) == Some(n as nat),
        value is None ==> at_most(natural(text@), limit as nat) is None,
{
    if text.len() > 0 && text[0] == '+' {
        proof {
            assert(text@.skip(1) =~= text@.drop_first());
        }
        parse_digits(after(text, 1), limit)
    } else {
        parse_digits(text, limit)
    }
}

/// The 32-bit integer that `text` writes, `None` where it writes none or one
/// that 32 bits do not hold.
pub open spec fn integer_i32(text: Seq<char>) -> Option<i32> {
    match integer(text) {
        Some(v) if i32::MIN <= v <= i32::MAX => Some(v as i32),
        _ => None,
    }
}

/// The unsigned 32-bit integer that `text` writes.
pub open spec fn natural_u32(text: Seq<char>) -> Option<u32> {
    match natural(text) {
        Some(n) if n <= u32::MAX => Some(n as u32),
        _ => None,
    }
}

/// The count that `text` writes, as far as the machine's word holds it.
pub open spec fn natural_usize(text: Seq<char>) -> Option<usize> {
    match natural(text) {
        Some(n) if n <= usize::MAX => Some(n as usize),
        _ => None,
    }
}

/// Reads a signed 32-bit integer.
pub fn parse_i32(text: &[char]) -> (value: Option<i32>)
    ensures
        value == integer_i32(text@),
{
    if text.len() > 0 && text[0] == '-' {
        proof {
            assert(text@.skip(1) =~= text@.drop_first());
        }
        match parse_digits(after(text, 1), 0x8000_0000) {
            Some(n) => {
                let v: i64 = -(n as i64);
                Some(v as i32)
            },
            None => None,
        }
    } else {
        match parse_natural(text, 0x7fff_ffff) {
            Some(n) => Some(n as i32),
            None => None,
        }
    }
}

/// Reads an unsigned 32-bit integer.
pub fn parse_u32(text: &[char]) -> (value: Option<u32>)
    ensures
        value == natural_u32(text@),
{
    match parse_natural(text, 0xffff_ffff) {
        Some(n) => Some(n as u32),
        None => None,
    }
}

/// Reads a count.
pub fn parse_usize(text: &[char]) -> (value: Option<usize>)
    ensures
        value == natural_usize(text@),
{
    match parse_natural(text, usize::MAX as u64) {
        Some(n) => Some(n as usize),
        None => None,
    }
}

/// How many digits `text` begins with.
pub open spec fn digit_run(text: Seq<char>) -> int
    decreases text.len(),
{
    if text.len() > 0 && is_digit(text[0]) {
        1 + digit_run(text.drop_first())
    } else {
        0
    }
}

/// `text` without the sign, plus or minus, that it may begin with.
pub open spec fn without_sign(text: Seq<char>) -> Seq<char> {
    if text.len() > 0 && (text[0] == '+' || text[0] == '-') {
        text.drop_first()
    } else {
        text
    }
}

/// The small letter for a capital of the basic Latin alphabet, and any other
/// character as it is.
pub open spec fn lower(c: char) -> char {
    if 'A' <= c <= 'Z' {
        ((c as u8) + 32) as char
    } else {
        c
    }
}

/// `text` with its basic Latin capitals made small.
pub open spec fn lowered(text: Seq<char>) -> Seq<char> {
    Seq::new(text.len(), |i: int| lower(text[i]))
}

/// One of the three words for a value that is no number in the ordinary
/// sense, in capitals or small letters: `inf`, `infinity`, `nan`.
pub open spec fn is_special_value(text: Seq<char>) -> bool {
    ||| lowered(text) == "inf"@
    ||| lowered(text) == "infinity"@
    ||| lowered(text) == "nan"@
}

/// An exponent: the letter `e`, small or capital, then one or more digits
/// with or without a sign in front.
pub open spec fn is_exponent(text: Seq<char>) -> bool {
    &&& text.len() > 0
    &&& (text[0] == 'e' || text[0] == 'E')
    &&& without_sign(text.drop_first()).len() > 0
    &&& all_digits(without_sign(text.drop_first()))
}

/// A decimal number: digits with at most one point among them, and at least
/// one digit before or after it; then, if anything, an exponent.
pub open spec fn is_decimal_number(text: Seq<char>) -> bool {
    let whole = digit_run(text);
    let tail = text.skip(whole);
    if tail.len() > 0 && tail[0] == '.' {
        let fraction = digit_run(tail.drop_first());
        let rest = tail.drop_first().skip(fraction);
        whole + fraction > 0 && (rest.len() == 0 || is_exponent(rest))
    } else {
        whole > 0 && (tail.len() == 0 || is_exponent(tail))
    }
}

/// The literals that are read as a number with a fraction: a sign or none,
/// then a decimal number or one of the special words. This is the grammar
/// after which the standard library reads such a number from text.
pub open spec fn is_float_literal(text: Seq<char>) -> bool {
    is_special_value(without_sign(text)) || is_decimal_number(without_sign(text))
}

/// A run of digits is no longer than the text, and the text is all digits
/// where the run covers it.
pub proof fn lemma_digit_run(text: Seq<char>)
    ensures
        0 <= digit_run(text) <= text.len(),
        all_digits(text.take(digit_run(text))),
        digit_run(text) < text.len() ==> !is_digit(text[digit_run(text)]),
        all_digits(text) <==> digit_run(text) == text.len(),
    decreases text.len(),
{
    if text.len() > 0 && is_digit(text[0]) {
        let rest = text.drop_first();
        lemma_digit_run(rest);
        let run = digit_run(text);
        assert forall|i: int| 0 <= i < run implies is_digit(#[trigger] text.take(run)[i]) by {
            if i > 0 {
                assert(text.take(run)[i] == rest.take(run - 1)[i - 1]);
            }
        }
        if run < text.len() {
            assert(text[run] == rest[run - 1]);
        }
        if all_digits(text) {
            assert forall|i: int| 0 <= i < rest.len() implies is_digit(#[trigger] rest[i]) by {
                assert(rest[i] == text[i + 1]);
            }
        }
        if run == text.len() {
            assert(text.take(run) =~= text);
        }
    } else {
        if text.len() > 0 {
            assert(!is_digit(text[0]));
        }
    }
}

/// Counts the digits that stand in `text` from position `from` on.
fn skip_digits(text: &[char], from: usize) -> (to: usize)
    requires
        from <= text@.len(),
    ensures
        from <= to <= text@.len(),
        to == from + digit_run(text@.skip(from as int)),
{
    let mut i: usize = from;
    while i < text.len() && digit(text[i])
        invariant
            from <= i <= text.len(),
            from + digit_run(text@.skip(from as int)) == i + digit_run(text@.skip(i as int)),
        decreases text.len() - i,
    {
        proof {
            assert(text@.skip(i as int).drop_first() =~= text@.skip(i + 1));
        }
        i += 1;
    }
    i
}

/// The small letter for `c`.
fn to_lower(c: char) -> (small: char)
    ensures
        small == lower(c),
{
    if 'A' <= c && c <= 'Z' {
        let code: u8 = c as u8;
        (code + 32) as char
    } else {
        c
    }
}

/// Tells whether `text`, with capitals made small, is `word`.
fn is_word(text: &[char], word: &str) -> (yes: bool)
    ensures
        yes == (lowered(text@) == word@),
{
    let mut i: usize = 0;
    for c in it: word.chars()
        invariant
            it.seq() == word@,
            i == it.index(),
            i <= text.len(),
            lowered(text@).take(i as int) == it.seq().take(i as int),
    {
        if i >= text.len() || to_lower(text[i]) != c {
            proof {
                if i < text.len() {
                    assert(lowered(text@)[i as int] != word@[i as int]);
                }
            }
            return false;
        }
        proof {
            assert(lowered(text@).take(i + 1) =~= lowered(text@).take(i as int).push(c));
            assert(it.seq().take(i + 1) =~= it.seq().take(i as int).push(c));
        }
        i += 1;
    }
    proof {
        assert(word@.take(word@.len() as int) =~= word@);
        if i == text.len() {
            assert(lowered(text@).take(i as int) =~= lowered(text@));
        }
    }
    i == text.len()
}

/// Tells whether `text` is an exponent.
fn exponent(text: &[char]) -> (yes: bool)
    ensures
        yes == is_exponent(text@),
{
    if text.len() == 0 || !(text[0] == 'e' || text[0] == 'E') {
        return false;
    }
    let signed = after(text, 1);
    proof {
        assert(text@.skip(1) =~= text@.drop_first());
    }
    let digits = if signed.len() > 0 && (signed[0] == '+' || signed[0] == '-') {
        proof {
            assert(signed@.skip(1) =~= signed@.drop_first());
        }
        after(signed, 1)
    } else {
        signed
    };
    let end = skip_digits(digits, 0);
    proof {
        assert(digits@.skip(0) =~= digits@);
        lemma_digit_run(digits@);
    }
    digits.len() > 0 && end == digits.len()
}

/// Tells whether `text` is a decimal number.
fn decimal_number(text: &[char]) -> (yes: bool)
    ensures
        yes == is_decimal_number(text@),
{
    let whole = skip_digits(text, 0);
    proof {
        assert(text@.skip(0) =~= text@);
    }
    let tail = after(text, whole);
    if tail.len() > 0 && tail[0] == '.' {
        let fraction_text = after(tail, 1);
        proof {
            assert(tail@.skip(1) =~= tail@.drop_first());
            assert(fraction_text@.skip(0) =~= fraction_text@);
        }
        let fraction = skip_digits(fraction_text, 0);
        let rest = after(fraction_text, fraction);
        (whole > 0 || fraction > 0) && (rest.len() == 0 || exponent(rest))
    } else {
        whole > 0 && (tail.len() == 0 || exponent(tail))
    }
}

/// Tells whether `text` is a literal for a number with a fraction.
pub fn is_float(text: &[char]) -> (yes: bool)
    ensures
        yes == is_float_literal(text@),
{
    let body = if text.len() > 0 && (text[0] == '+' || text[0] == '-') {
        proof {
            assert(text@.skip(1) =~= text@.drop_first());
        }
        after(text, 1)
    } else {
        text
    };
    is_word(body, "inf") || is_word(body, "infinity") || is_word(body, "nan") || decimal_number(
        body,
    )
}

} // verus!
