//! Numbers as decimal text, and text as numbers.

use vstd::prelude::*;
use crate::text::{chars_of, is_white_space, is_whitespace, text_of};

verus! {

/// The character of a digit.
pub open spec fn digit_char(d: int) -> char {
    (d + 0x30) as char
}

/// A number in decimal notation.
pub open spec fn decimal(n: int) -> Seq<char>
    decreases n,
{
    if n < 10 {
        seq![digit_char(n)]
    } else {
        decimal(n / 10).push(digit_char(n % 10))
    }
}

/// A digit as a character.
fn char_of_digit(d: u8) -> (r: char)
    requires
        d < 10,
    ensures
        r == digit_char(d as int),
{
    (d + 0x30) as char
}

/// A number in decimal notation.
pub fn number_text(n: usize) -> (r: String)
    ensures
        r@ == decimal(n as int),
    decreases n,
{
    let mut out = if n < 10 {
        String::new()
    } else {
        number_text(n / 10)
    };
    out.push(char_of_digit((n % 10) as u8));
    assert(out@ =~= decimal(n as int));
    out
}

/// How many digits a number has.
pub fn digit_count(n: usize) -> (r: usize)
    ensures
        r == decimal(n as int).len(),
        1 <= r <= 20,
{
    let mut left: usize = n;
    let mut count: usize = 1;
    let ghost mut bound: int = 18446744073709551615;
    while left >= 10
        invariant
            count + decimal(left as int).len() == decimal(n as int).len() + 1,
            1 <= count <= 20,
            0 <= left <= bound,
            count == 1 ==> bound == 18446744073709551615,
            count == 2 ==> bound == 1844674407370955161,
            count == 3 ==> bound == 184467440737095516,
            count == 4 ==> bound == 18446744073709551,
            count == 5 ==> bound == 1844674407370955,
            count == 6 ==> bound == 184467440737095,
            count == 7 ==> bound == 18446744073709,
            count == 8 ==> bound == 1844674407370,
            count == 9 ==> bound == 184467440737,
            count == 10 ==> bound == 18446744073,
            count == 11 ==> bound == 1844674407,
            count == 12 ==> bound == 184467440,
            count == 13 ==> bound == 18446744,
            count == 14 ==> bound == 1844674,
            count == 15 ==> bound == 184467,
            count == 16 ==> bound == 18446,
            count == 17 ==> bound == 1844,
            count == 18 ==> bound == 184,
            count == 19 ==> bound == 18,
            count == 20 ==> bound == 1,
        decreases left,
    {
        left = left / 10;
        count += 1;
        proof {
            bound = bound / 10;
        }
    }
    count
}

/// The value of a decimal digit.
pub open spec fn digit_value(c: char) -> Option<int> {
    if '0' <= c <= '9' {
        Some(c as int - '0' as int)
    } else {
        None
    }
}

/// The number that the first `n` digits stand for, or `None` where one of them is no digit.
pub open spec fn digits_value(text: Seq<char>, n: int) -> Option<int>
    decreases n,
{
    if n <= 0 {
        Some(0)
    } else {
        match (digits_value(text, n - 1), digit_value(text[n - 1])) {
            (Some(v), Some(d)) => Some(10 * v + d),
            _ => None,
        }
    }
}

/// The number that a text stands for: at least one decimal digit, with or without a plus sign in
/// front, and no more than fits into a `usize`.
pub open spec fn parsed_number(text: Seq<char>) -> Option<usize> {
    let digits = if text.len() > 0 && text[0] == '+' {
        text.skip(1)
    } else {
        text
    };
    match digits_value(digits, digits.len() as int) {
        Some(v) if digits.len() > 0 && v <= usize::MAX => Some(v as usize),
        _ => None,
    }
}

/// What comes behind digits only makes the number larger.
proof fn lemma_digits_grow(text: Seq<char>, i: int, n: int)
    requires
        0 <= i <= n,
    ensures
        digits_value(text, n) is Some ==> digits_value(text, i) is Some && digits_value(text, i)->0
            <= digits_value(text, n)->0,
        digits_value(text, i) is Some ==> digits_value(text, i)->0 >= 0,
    decreases n,
{
    if i < n {
        lemma_digits_grow(text, i, n - 1);
    } else if n > 0 {
        lemma_digits_grow(text, n - 1, n - 1);
    }
}

/// Reads a number.
pub fn parse_number(text: &str) -> (r: Option<usize>)
    ensures
        r == parsed_number(text@),
{
    let chars = chars_of(text);
    let from: usize = if chars.len() > 0 && chars[0] == '+' {
        1
    } else {
        0
    };
    let ghost digits = if from == 1 {
        text@.skip(1)
    } else {
        text@
    };
    if chars.len() == from {
        return None;
    }
    let mut value: usize = 0;
    let mut i: usize = from;
    while i < chars.len()
        invariant
            from <= i <= chars@.len(),
            digits == if text@.len() > 0 && text@[0] == '+' {
                text@.skip(1)
            } else {
                text@
            },
            chars@.len() == from + digits.len(),
            forall|j: int| 0 <= j < digits.len() ==> digits[j] == chars@[from + j],
            digits_value(digits, i - from) == Some(value as int),
        decreases chars@.len() - i,
    {
        let c = chars[i];
        proof {
            lemma_digits_grow(digits, i - from + 1, digits.len() as int);
        }
        if !('0' <= c && c <= '9') {
            return None;
        }
        let d: usize = (c as u32 - 0x30) as usize;
        if value > (usize::MAX - d) / 10 {
            assert(10 * value + d > usize::MAX);
            return None;
        }
        value = 10 * value + d;
        i += 1;
    }
    Some(value)
}

/// How many of the first `n` characters are white space at their start.
pub open spec fn leading_space(text: Seq<char>, i: int) -> int
    decreases text.len() - i,
{
    if i < text.len() && is_white_space(text[i]) {
        leading_space(text, i + 1)
    } else {
        i
    }
}

/// Where the first `n` characters end without the white space at their end, not before `from`.
pub open spec fn trailing_end(text: Seq<char>, from: int, n: int) -> int
    decreases n - from,
{
    if n > from && is_white_space(text[n - 1]) {
        trailing_end(text, from, n - 1)
    } else {
        n
    }
}

/// A text without the white space around it.
pub open spec fn trimmed(text: Seq<char>) -> Seq<char> {
    let from = leading_space(text, 0);
    text.subrange(from, trailing_end(text, from, text.len() as int))
}

/// The characters from `from` up to `to` without the white space around them.
pub fn trim_part(chars: &Vec<char>, from: usize, to: usize) -> (r: String)
    requires
        from <= to <= chars@.len(),
    ensures
        r@ == trimmed(chars@.subrange(from as int, to as int)),
{
    let ghost part = chars@.subrange(from as int, to as int);
    let mut a: usize = from;
    while a < to && is_whitespace(chars[a])
        invariant
            from <= a <= to <= chars@.len(),
            part == chars@.subrange(from as int, to as int),
            leading_space(part, a - from) == leading_space(part, 0),
        decreases to - a,
    {
        a += 1;
    }
    let mut b: usize = to;
    while b > a && is_whitespace(chars[b - 1])
        invariant
            from <= a <= b <= to <= chars@.len(),
            part == chars@.subrange(from as int, to as int),
            trailing_end(part, a - from, b - from) == trailing_end(
                part,
                a - from,
                part.len() as int,
            ),
        decreases b,
    {
        b -= 1;
    }
    let r = text_of(chars, a, b);
    assert(r@ =~= trimmed(part));
    r
}

/// Ten to the power of `k`.
pub open spec fn ten_to(k: int) -> int
    decreases k,
{
    if k <= 0 {
        1
    } else {
        10 * ten_to(k - 1)
    }
}

/// A number below ten to the power of `k` has no more than `k` digits.
pub proof fn lemma_decimal_len(n: int, k: int)
    requires
        0 <= n < ten_to(k),
        1 <= k,
    ensures
        decimal(n).len() <= k,
    decreases n,
{
    if n >= 10 {
        assert(ten_to(0) == 1);
        assert(k > 1);
        assert(n / 10 < ten_to(k - 1));
        lemma_decimal_len(n / 10, k - 1);
    }
}

/// A number that fits in a word of 64 bits has no more than 20 digits.
pub proof fn lemma_decimal_short(n: int)
    requires
        0 <= n <= u64::MAX,
    ensures
        decimal(n).len() <= 20,
{
    reveal_with_fuel(ten_to, 21);
    assert(ten_to(20) == 100_000_000_000_000_000_000);
    lemma_decimal_len(n, 20);
}

/// A number reads back as what was written.
pub proof fn law_written_number_reads_back(n: usize)
    ensures
        parsed_number(decimal(n as int)) == Some(n),
{
    lemma_decimal_digits(n as int);
    assert(decimal(n as int)[0] != '+') by {
        assert(digit_value(decimal(n as int)[0]) is Some);
    }
}

/// The digits of a number are digits, and stand for it.
pub proof fn lemma_decimal_digits(n: int)
    requires
        0 <= n,
    ensures
        decimal(n).len() >= 1,
        digits_value(decimal(n), decimal(n).len() as int) == Some(n),
        forall|i: int| 0 <= i < decimal(n).len() ==> digit_value(#[trigger] decimal(n)[i]) is Some,
    decreases n,
{
    let d = decimal(n);
    if n >= 10 {
        lemma_decimal_digits(n / 10);
        let rest = decimal(n / 10);
        lemma_digits_prefix(rest, d, rest.len() as int);
        assert(digit_value(digit_char(n % 10)) == Some(n % 10));
    } else {
        assert(digits_value(d, 0) == Some(0int));
        assert(digit_value(digit_char(n)) == Some(n));
    }
}

proof fn lemma_digits_prefix(a: Seq<char>, b: Seq<char>, n: int)
    requires
        0 <= n <= a.len(),
        n <= b.len(),
        forall|i: int| 0 <= i < n ==> a[i] == b[i],
    ensures
        digits_value(a, n) == digits_value(b, n),
    decreases n,
{
    if n > 0 {
        lemma_digits_prefix(a, b, n - 1);
    }
}

} // verus!
