//! Numbers as ASCII figures: decimal digits, zero padding, hexadecimal
//! bytes, and the way back from digits to a number.

use crate::check_digit::{all_digits, digit_value, is_digit};
use vstd::prelude::*;

verus! {

/// `String::push` of std: the character is appended to the end of the text.
pub assume_specification[ String::push ](text: &mut String, ch: char)
    ensures
        final(text)@ == old(text)@.push(ch),
;

/// The decimal digits of `n` as ASCII, most significant first, with no
/// leading zero but for `n == 0`.
pub open spec fn decimal_digits(n: nat) -> Seq<u8>
    decreases n,
{
    if n < 10 {
        seq![(0x30 + n) as u8]
    } else {
        decimal_digits(n / 10).push((0x30 + n % 10) as u8)
    }
}

/// The number that a run of ASCII digits stands for; leading zeros count
/// for nothing, and the empty run for zero.
pub open spec fn decimal_value(s: Seq<u8>) -> nat
    decreases s.len(),
{
    if s.len() == 0 {
        0
    } else {
        10 * decimal_value(s.drop_last()) + digit_value(s.last()) as nat
    }
}

/// `k` ASCII zeros.
pub open spec fn zeros(k: nat) -> Seq<u8> {
    Seq::new(k, |i: int| 0x30u8)
}

/// The decimal digits of `n`, with zeros in front up to `width` figures.
/// A number with more figures than `width` keeps them all.
pub open spec fn padded_digits(n: nat, width: nat) -> Seq<u8> {
    let digits = decimal_digits(n);
    if digits.len() < width {
        zeros((width - digits.len()) as nat) + digits
    } else {
        digits
    }
}

/// The upper-case hexadecimal figure for `d`, which is below sixteen.
pub open spec fn hex_figure(d: nat) -> u8 {
    if d < 10 {
        (0x30 + d) as u8
    } else {
        (0x41 + d - 10) as u8
    }
}

/// The two hexadecimal figures of the byte `b`.
pub open spec fn hex_of_byte(b: nat) -> Seq<u8> {
    seq![hex_figure(b / 16), hex_figure(b % 16)]
}

/// The four bytes of `n` in hexadecimal, the least significant byte first.
pub open spec fn flipped_hex(n: u32) -> Seq<u8> {
    hex_of_byte((n % 256) as nat) + hex_of_byte((n / 0x100 % 256) as nat) + hex_of_byte(
        (n / 0x1_0000 % 256) as nat,
    ) + hex_of_byte((n / 0x100_0000 % 256) as nat)
}

/// The text whose characters have the code points given by `bytes`.
pub open spec fn byte_text(bytes: Seq<u8>) -> Seq<char> {
    Seq::new(bytes.len(), |i: int| bytes[i] as char)
}

/// What a line of decimal text stands for as an unsigned 32-bit number: one
/// or more ASCII digits, a single `+` allowed before them, the value within
/// 32 bits. Anything else stands for nothing.
pub open spec fn parsed_u32(line: Seq<u8>) -> Option<u32> {
    let figures = if line.len() > 0 && line[0] == 0x2b {
        line.drop_first()
    } else {
        line
    };
    if figures.len() > 0 && all_digits(figures) && decimal_value(figures) <= u32::MAX {
        Some(decimal_value(figures) as u32)
    } else {
        None
    }
}

/// The decimal digits of a number are ASCII digits, and at least one.
pub proof fn lemma_decimal_digits_are_digits(n: nat)
    ensures
        decimal_digits(n).len() >= 1,
        all_digits(decimal_digits(n)),
    decreases n,
{
    if n >= 10 {
        lemma_decimal_digits_are_digits(n / 10);
    }
}

/// Reading the decimal digits of a number gives the number back.
pub proof fn lemma_decimal_value_of_digits(n: nat)
    ensures
        decimal_value(decimal_digits(n)) == n,
    decreases n,
{
    let s = decimal_digits(n);
    if n >= 10 {
        lemma_decimal_value_of_digits(n / 10);
        assert(s.drop_last() =~= decimal_digits(n / 10));
    } else {
        assert(decimal_value(s.drop_last()) == 0);
    }
}

/// Zeros in front of a run of digits leave its value as it is.
pub proof fn lemma_leading_zeros_keep_value(k: nat, s: Seq<u8>)
    ensures
        decimal_value(zeros(k) + s) == decimal_value(s),
    decreases s.len(),
{
    if s.len() == 0 {
        lemma_zeros_are_worth_nothing(k);
    } else {
        lemma_leading_zeros_keep_value(k, s.drop_last());
        assert((zeros(k) + s).drop_last() =~= zeros(k) + s.drop_last());
    }
}

proof fn lemma_zeros_are_worth_nothing(k: nat)
    ensures
        decimal_value(zeros(k)) == 0,
    decreases k,
{
    if k > 0 {
        lemma_zeros_are_worth_nothing((k - 1) as nat);
        assert(zeros(k).drop_last() =~= zeros((k - 1) as nat));
    }
}

/// A run of digits is worth no less than any run it starts with.
pub proof fn lemma_value_grows_with_length(s: Seq<u8>, k: int)
    requires
        0 <= k <= s.len(),
        all_digits(s),
    ensures
        decimal_value(s.subrange(0, k)) <= decimal_value(s),
    decreases s.len() - k,
{
    if k < s.len() {
        lemma_value_grows_with_length(s.drop_last(), k);
        assert(s.drop_last().subrange(0, k) =~= s.subrange(0, k));
    } else {
        assert(s.subrange(0, k) =~= s);
    }
}

/// Appends the decimal digits of `n` to `out`.
pub fn push_decimal(out: &mut Vec<u8>, n: u128)
    ensures
        final(out)@ == old(out)@ + decimal_digits(n as nat),
    decreases n,
{
    if n >= 10 {
        push_decimal(out, n / 10);
    }
    out.push(0x30u8 + (n % 10) as u8);
}

/// The decimal digits of `n`.
pub fn decimal_bytes(n: u128) -> (digits: Vec<u8>)
    ensures
        digits@ == decimal_digits(n as nat),
{
    let mut digits = Vec::new();
    push_decimal(&mut digits, n);
    digits
}

/// The decimal digits of `n`, zero-padded to `width` figures.
pub fn padded_bytes(n: u128, width: usize) -> (digits: Vec<u8>)
    ensures
        digits@ == padded_digits(n as nat, width as nat),
{
    let figures = decimal_bytes(n);
    let mut digits: Vec<u8> = Vec::new();
    let mut i: usize = figures.len();
    while i < width
        invariant
            figures@.len() <= i,
            i <= width || i == figures@.len(),
            i - figures@.len() == digits@.len(),
            digits@ =~= zeros(digits@.len()),
        decreases width - i,
    {
        digits.push(0x30u8);
        i += 1;
    }
    let mut figures = figures;
    digits.append(&mut figures);
    digits
}

fn hex_figure_of(d: u8) -> (figure: u8)
    requires
        d < 16,
    ensures
        figure == hex_figure(d as nat),
{
    if d < 10 {
        0x30u8 + d
    } else {
        0x41u8 + (d - 10)
    }
}

/// The four bytes of `n` in hexadecimal, the least significant byte first.
pub fn flipped_hex_bytes(n: u32) -> (figures: Vec<u8>)
    ensures
        figures@ == flipped_hex(n),
{
    let b0 = (n % 256) as u8;
    let b1 = (n / 0x100 % 256) as u8;
    let b2 = (n / 0x1_0000 % 256) as u8;
    let b3 = (n / 0x100_0000 % 256) as u8;
    let mut figures: Vec<u8> = Vec::new();
    figures.push(hex_figure_of(b0 / 16));
    figures.push(hex_figure_of(b0 % 16));
    figures.push(hex_figure_of(b1 / 16));
    figures.push(hex_figure_of(b1 % 16));
    figures.push(hex_figure_of(b2 / 16));
    figures.push(hex_figure_of(b2 % 16));
    figures.push(hex_figure_of(b3 / 16));
    figures.push(hex_figure_of(b3 % 16));
    figures
}

/// Appends to `text` the characters whose code points `bytes` gives.
pub fn push_bytes(text: &mut String, bytes: &[u8])
    ensures
        final(text)@ == old(text)@ + byte_text(bytes@),
{
    let mut i: usize = 0;
    while i < bytes.len()
        invariant
            i <= bytes@.len(),
            text@ =~= old(text)@ + byte_text(bytes@.subrange(0, i as int)),
        decreases bytes@.len() - i,
    {
        text.push(bytes[i] as char);
        i += 1;
    }
}

/// Reads a line of decimal text as an unsigned 32-bit number.
pub fn parse_u32(line: &[u8]) -> (value: Option<u32>)
    ensures
        value == parsed_u32(line@),
{
    let n = line.len();
    let start: usize = if n > 0 && line[0] == 0x2b {
        1
    } else {
        0
    };
    if start == n {
        return None;
    }
    let ghost figures = if line@[0] == 0x2b {
        line@.drop_first()
    } else {
        line@
    };
    let mut value: u64 = 0;
    let mut i: usize = start;
    while i < n
        invariant
            start <= i <= n,
            n == line@.len(),
            figures == line@.subrange(start as int, n as int),
            parsed_u32(line@) == if all_digits(figures) && decimal_value(figures) <= u32::MAX {
                Some(decimal_value(figures) as u32)
            } else {
                None
            },
            all_digits(figures.subrange(0, i - start)),
            value == decimal_value(figures.subrange(0, i - start)),
            value <= u32::MAX,
        decreases n - i,
    {
        let b = line[i];
        if b < 0x30 || b > 0x39 {
            assert(!is_digit(figures[i - start]));
            return None;
        }
        value = value * 10 + (b - 0x30) as u64;
        i += 1;
        proof {
            let now = figures.subrange(0, i - start);
            let before = figures.subrange(0, i - 1 - start);
            assert(now.drop_last() =~= before);
            assert forall|j: int| 0 <= j < now.len() implies is_digit(#[trigger] now[j]) by {
                if j < now.len() - 1 {
                    assert(is_digit(before[j]));
                }
            }
        }
        if value > u32::MAX as u64 {
            proof {
                if all_digits(figures) {
                    lemma_value_grows_with_length(figures, i - start);
                }
            }
            return None;
        }
    }
    assert(figures.subrange(0, i - start) =~= figures);
    Some(value as u32)
}

} // verus!
