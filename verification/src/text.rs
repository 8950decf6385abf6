//! Small text utilities that the lexer, the code generator and the
//! diagnostics share: character sequences of strings, decimal numerals and
//! UTF-8 widths.

use vstd::prelude::*;
use vstd::string::*;
use vstd::utf8::*;

verus! {

/// `String::push` appends the character to the end of the string and leaves
/// the rest of it as it was.
pub assume_specification[ std::string::String::push ](s: &mut std::string::String, ch: char)
    ensures
        final(s)@ == old(s)@.push(ch),
;

/// The characters of `s`, in order, as a vector. There are fewer than
/// `usize::MAX` of them, as the vector shows by taking one more for a
/// moment.
pub fn chars_of(s: &str) -> (out: Vec<char>)
    ensures
        out@ == s@,
        out.len() < usize::MAX,
{
    let mut out: Vec<char> = Vec::new();
    for c in it: s.chars()
        invariant
            out@ == it.seq().take(it.index()),
            it.seq() == s@,
    {
        out.push(c);
    }
    out.push(' ');
    assert(out.len() <= usize::MAX);
    out.pop();
    assert(out@ =~= s@);
    out
}

/// Appends the characters `chars[from..to]` to `out`.
pub fn push_chars(out: &mut String, chars: &Vec<char>, from: usize, to: usize)
    requires
        from <= to <= chars.len(),
    ensures
        final(out)@ == old(out)@ + chars@.subrange(from as int, to as int),
{
    let mut i: usize = from;
    while i < to
        invariant
            from <= i <= to <= chars.len(),
            out@ == old(out)@ + chars@.subrange(from as int, i as int),
        decreases to - i,
    {
        out.push(chars[i]);
        i += 1;
    }
}

/// The decimal digit character of a value below ten.
pub open spec fn digit_char(d: nat) -> char {
    if d == 0 {
        '0'
    } else if d == 1 {
        '1'
    } else if d == 2 {
        '2'
    } else if d == 3 {
        '3'
    } else if d == 4 {
        '4'
    } else if d == 5 {
        '5'
    } else if d == 6 {
        '6'
    } else if d == 7 {
        '7'
    } else if d == 8 {
        '8'
    } else {
        '9'
    }
}

/// The decimal numeral of `n`, without sign or leading zeros.
pub open spec fn decimal(n: nat) -> Seq<char>
    decreases n,
{
    if n < 10 {
        seq![digit_char(n)]
    } else {
        decimal(n / 10).push(digit_char(n % 10))
    }
}

fn digit_of(d: usize) -> (c: char)
    requires
        d < 10,
    ensures
        c == digit_char(d as nat),
{
    if d == 0 {
        '0'
    } else if d == 1 {
        '1'
    } else if d == 2 {
        '2'
    } else if d == 3 {
        '3'
    } else if d == 4 {
        '4'
    } else if d == 5 {
        '5'
    } else if d == 6 {
        '6'
    } else if d == 7 {
        '7'
    } else if d == 8 {
        '8'
    } else {
        '9'
    }
}

/// Appends the decimal numeral of `n` to `out`.
pub fn push_decimal(out: &mut String, n: usize)
    ensures
        final(out)@ == old(out)@ + decimal(n as nat),
    decreases n,
{
    if n >= 10 {
        push_decimal(out, n / 10);
    }
    out.push(digit_of(n % 10));
}

/// A decimal digit.
pub open spec fn is_digit(c: char) -> bool {
    '0' <= c <= '9'
}

/// Whether `digits` is a decimal numeral: one digit or more.
pub open spec fn is_numeral(digits: Seq<char>) -> bool {
    digits.len() > 0 && forall|i: int| 0 <= i < digits.len() ==> is_digit(#[trigger] digits[i])
}

/// The value of a decimal digit.
pub open spec fn digit_value(c: char) -> nat {
    (c as nat - '0' as nat) as nat
}

/// The number that the decimal numeral `digits` denotes.
pub open spec fn numeral_value(digits: Seq<char>) -> nat
    decreases digits.len(),
{
    if digits.len() == 0 {
        0
    } else {
        numeral_value(digits.drop_last()) * 10 + digit_value(digits.last())
    }
}

/// A numeral that does not start with zero denotes a number above zero.
proof fn lemma_value_positive(digits: Seq<char>)
    requires
        is_numeral(digits),
        digits[0] != '0',
    ensures
        numeral_value(digits) >= 1,
    decreases digits.len(),
{
    let front = digits.drop_last();
    if digits.len() == 1 {
        assert(front.len() == 0);
        assert(numeral_value(front) == 0);
    } else {
        assert(front[0] == digits[0]);
        lemma_value_positive(front);
    }
}

/// A numeral without needless leading zeros is the decimal numeral of the
/// number it denotes.
pub proof fn lemma_decimal_of_value(digits: Seq<char>)
    requires
        is_numeral(digits),
        digits.len() == 1 || digits[0] != '0',
    ensures
        decimal(numeral_value(digits)) == digits,
    decreases digits.len(),
{
    let front = digits.drop_last();
    let last = digits.last();
    assert(is_digit(last));
    assert(digit_char(digit_value(last)) == last);
    if digits.len() == 1 {
        assert(front.len() == 0);
        assert(numeral_value(front) == 0);
        assert(decimal(numeral_value(digits)) =~= digits);
    } else {
        assert(front[0] == digits[0]);
        lemma_value_positive(front);
        lemma_decimal_of_value(front);
        let v = numeral_value(digits);
        assert(v == numeral_value(front) * 10 + digit_value(last));
        assert(v >= 10);
        assert(v / 10 == numeral_value(front));
        assert(v % 10 == digit_value(last));
        assert(front.push(last) =~= digits);
    }
}

/// A zero in front of a numeral does not change the number it denotes.
pub proof fn lemma_leading_zero(digits: Seq<char>)
    requires
        digits.len() > 0,
        digits[0] == '0',
    ensures
        numeral_value(digits) == numeral_value(digits.drop_first()),
    decreases digits.len(),
{
    let rest = digits.drop_first();
    if digits.len() == 1 {
        assert(numeral_value(digits.drop_last()) == 0);
    } else {
        lemma_leading_zero(digits.drop_last());
        assert(digits.drop_last().drop_first() =~= rest.drop_last());
        assert(rest.last() == digits.last());
    }
}

/// The number of bytes that the UTF-8 encoding of `c` takes.
pub open spec fn utf8_width(c: char) -> nat {
    encode_scalar(c as u32).len()
}

/// The number of bytes that the UTF-8 encoding of `s` takes.
pub open spec fn utf8_len(s: Seq<char>) -> nat {
    encode_utf8(s).len()
}

/// The encoding of a sequence extended by one character is longer by that
/// character's width.
pub proof fn lemma_utf8_len_push(s: Seq<char>, c: char)
    ensures
        utf8_len(s.push(c)) == utf8_len(s) + utf8_width(c),
        1 <= utf8_width(c) <= 4,
    decreases s.len(),
{
    if s.len() == 0 {
        assert(s.push(c).drop_first() =~= s);
        assert(encode_utf8(s) =~= Seq::<u8>::empty());
    } else {
        assert(s.push(c).drop_first() =~= s.drop_first().push(c));
        lemma_utf8_len_push(s.drop_first(), c);
    }
}

/// A longer prefix takes at least one byte more for every character that it
/// holds more.
pub proof fn lemma_utf8_len_prefix(s: Seq<char>, i: int, j: int)
    requires
        0 <= i <= j <= s.len(),
    ensures
        utf8_len(s.take(i)) + (j - i) <= utf8_len(s.take(j)),
    decreases j - i,
{
    if i < j {
        lemma_utf8_len_prefix(s, i, j - 1);
        assert(s.take(j) =~= s.take(j - 1).push(s[j - 1]));
        lemma_utf8_len_push(s.take(j - 1), s[j - 1]);
    }
}

/// A character of the ASCII range takes one byte.
pub proof fn lemma_ascii_width(c: char)
    requires
        c <= '\u{7f}',
    ensures
        utf8_width(c) == 1,
{
    assert(has_width_1_encoding(c as u32));
}

/// The UTF-8 width of `c`.
pub fn width_of(c: char) -> (w: usize)
    ensures
        w == utf8_width(c),
        1 <= w <= 4,
{
    let v: u32 = c as u32;
    proof {
        char_is_scalar(c);
    }
    if v < 0x80 {
        1
    } else if v < 0x800 {
        2
    } else if v < 0x10000 {
        3
    } else {
        4
    }
}

} // verus!
