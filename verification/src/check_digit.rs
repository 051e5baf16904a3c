//! Check digits over decimal ASCII, eight digits to a machine word.

use vstd::bytes::{
    lemma_auto_spec_u64_to_from_le_bytes, spec_u64_from_le_bytes, spec_u64_to_le_bytes_to_open,
    u64_from_le_bytes,
};
use vstd::prelude::*;
use vstd::slice::slice_subrange;
use vstd::wrapping::u64_specs::{wrapping_add, wrapping_mul, wrapping_sub};

verus! {

/// The byte `0x30` in each of the eight lanes of a word.
pub const ASCII_ZEROS: u64 = 0x3030_3030_3030_3030;

/// Added to a lane, sets its top bit exactly when the lane holds more than `0x39`.
pub const ABOVE_NINE: u64 = 0x4646_4646_4646_4646;

/// The top bit of each lane.
pub const HIGH_BITS: u64 = 0x8080_8080_8080_8080;

/// Weight two for every second lane, counted from the most significant one, weight one between.
pub const WEIGHTS: u64 = 0x0102_0102_0102_0102;

/// Subtracting a digit lane from a `0x04` lane borrows exactly when the digit is five or more.
pub const CARRY_THRESHOLDS: u64 = 0x047f_047f_047f_047f;

/// Whether `b` is one of the ASCII digits `'0'` to `'9'`.
pub open spec fn is_digit(b: u8) -> bool {
    0x30 <= b <= 0x39
}

/// Whether every byte of `s` is an ASCII digit.
pub open spec fn all_digits(s: Seq<u8>) -> bool {
    forall|i: int| 0 <= i < s.len() ==> is_digit(#[trigger] s[i])
}

/// The number that the ASCII digit `b` stands for.
pub open spec fn digit_value(b: u8) -> int {
    b - 0x30
}

/// What a digit `d` adds to the sum when `place` digits stand to its right.
/// Digits at even places count twice, and once more when twice the digit
/// runs into two figures; digits at odd places count as they are.
pub open spec fn place_worth(place: int, d: int) -> int {
    if place % 2 == 0 {
        2 * d + if d >= 5 { 1int } else { 0int }
    } else {
        d
    }
}

/// The weighted sum of the last `n` digits of `s`, taken one digit at a time
/// from the right end.
pub open spec fn weighted_sum_of_last(s: Seq<u8>, n: nat) -> int
    decreases n,
{
    if n == 0 {
        0
    } else {
        weighted_sum_of_last(s, (n - 1) as nat) + place_worth(
            n - 1,
            digit_value(s[s.len() - n]),
        )
    }
}

/// The weighted sum of all digits of `s`.
pub open spec fn weighted_sum(s: Seq<u8>) -> int {
    weighted_sum_of_last(s, s.len())
}

/// The ASCII digit that brings the weighted sum of `s` up to a multiple of ten.
pub open spec fn check_digit_of(s: Seq<u8>) -> u8 {
    (0x30 + (10 - weighted_sum(s) % 10) % 10) as u8
}

/// How many of the lowest `n` bits of `x` are set.
pub open spec fn ones_below(x: u64, n: nat) -> nat
    decreases n,
{
    if n == 0 {
        0
    } else {
        ones_below(x, (n - 1) as nat) + if (x >> ((n - 1) as u64)) & 1 == 1 {
            1nat
        } else {
            0nat
        }
    }
}

/// `u64::count_ones` of std: the number of bits that are set in the binary
/// form of the word, all sixty-four places counted.
pub assume_specification[ u64::count_ones ](x: u64) -> (n: u32)
    ensures
        n == ones_below(x, 64),
;

/// The byte in lane `i` of `v`, lane zero being the least significant.
pub open spec fn lane(v: u64, i: u64) -> u64 {
    (v >> (8 * i)) & 0xff
}

/// The two wrapping steps leave every top bit clear exactly where every
/// lane holds an ASCII digit.
proof fn lemma_lanes_are_digits(v: u64)
    by (bit_vector)
    ensures
        ((wrapping_add(v, ABOVE_NINE) | wrapping_sub(v, ASCII_ZEROS)) & HIGH_BITS == 0) <==> (
            0x30 <= lane(v, 0) <= 0x39 && 0x30 <= lane(v, 1) <= 0x39
            && 0x30 <= lane(v, 2) <= 0x39 && 0x30 <= lane(v, 3) <= 0x39
            && 0x30 <= lane(v, 4) <= 0x39 && 0x30 <= lane(v, 5) <= 0x39
            && 0x30 <= lane(v, 6) <= 0x39 && 0x30 <= lane(v, 7) <= 0x39),
{
}

/// The top byte of the product is the sum of the digits, those in every
/// second lane taken twice.
proof fn lemma_weighted_lanes(v: u64)
    by (bit_vector)
    requires
        0x30 <= lane(v, 0) <= 0x39 && 0x30 <= lane(v, 1) <= 0x39
        && 0x30 <= lane(v, 2) <= 0x39 && 0x30 <= lane(v, 3) <= 0x39
        && 0x30 <= lane(v, 4) <= 0x39 && 0x30 <= lane(v, 5) <= 0x39
        && 0x30 <= lane(v, 6) <= 0x39 && 0x30 <= lane(v, 7) <= 0x39,
    ensures
        wrapping_mul(wrapping_sub(v, ASCII_ZEROS), WEIGHTS) >> 56
            == (lane(v, 0) - 0x30) + 2 * (lane(v, 1) - 0x30)
             + (lane(v, 2) - 0x30) + 2 * (lane(v, 3) - 0x30)
             + (lane(v, 4) - 0x30) + 2 * (lane(v, 5) - 0x30)
             + (lane(v, 6) - 0x30) + 2 * (lane(v, 7) - 0x30),
{
}

/// The subtraction from the thresholds sets the top bit of a doubled lane
/// exactly where its digit is five or more, and no other bit that is kept.
proof fn lemma_carry_lanes(v: u64)
    by (bit_vector)
    requires
        0x30 <= lane(v, 0) <= 0x39 && 0x30 <= lane(v, 1) <= 0x39
        && 0x30 <= lane(v, 2) <= 0x39 && 0x30 <= lane(v, 3) <= 0x39
        && 0x30 <= lane(v, 4) <= 0x39 && 0x30 <= lane(v, 5) <= 0x39
        && 0x30 <= lane(v, 6) <= 0x39 && 0x30 <= lane(v, 7) <= 0x39,
    ensures
        ({
            let c = wrapping_sub(CARRY_THRESHOLDS, wrapping_sub(v, ASCII_ZEROS)) & HIGH_BITS;
            &&& c & 0x7fff_7fff_7fff_7fff == 0
            &&& ((c >> 15) & 1 == 1 <==> lane(v, 1) >= 0x35)
            &&& ((c >> 31) & 1 == 1 <==> lane(v, 3) >= 0x35)
            &&& ((c >> 47) & 1 == 1 <==> lane(v, 5) >= 0x35)
            &&& ((c >> 63) & 1 == 1 <==> lane(v, 7) >= 0x35)
        }),
{
}

/// The bit at place `i` of `x`, as a number.
pub open spec fn bit_at(x: u64, i: u64) -> nat {
    if (x >> i) & 1 == 1 {
        1
    } else {
        0
    }
}

/// A word with bits only at the tops of the doubled lanes has no other bit set.
proof fn lemma_only_lane_tops(c: u64)
    by (bit_vector)
    requires
        c & 0x7fff_7fff_7fff_7fff == 0,
    ensures
        forall|i: u64|
            i < 64 && i != 15 && i != 31 && i != 47 && i != 63 ==> (#[trigger] (c >> i)) & 1 == 0,
{
}

/// The number of bits set in such a word is the number of lane tops set.
proof fn lemma_ones_of_lane_tops(c: u64)
    requires
        c & 0x7fff_7fff_7fff_7fff == 0,
    ensures
        ones_below(c, 64) == bit_at(c, 15) + bit_at(c, 31) + bit_at(c, 47) + bit_at(c, 63),
{
    lemma_only_lane_tops(c);
    reveal_with_fuel(ones_below, 65);
}

/// A lane is a byte, and is reached by shifting and masking.
proof fn lemma_lane_fits_a_byte(v: u64)
    by (bit_vector)
    ensures
        lane(v, 0) < 256 && lane(v, 1) < 256 && lane(v, 2) < 256 && lane(v, 3) < 256,
        lane(v, 4) < 256 && lane(v, 5) < 256 && lane(v, 6) < 256 && lane(v, 7) < 256,
        lane(v, 0) == v & 0xff,
        lane(v, 1) == (v >> 8) & 0xff,
        lane(v, 2) == (v >> 16) & 0xff,
        lane(v, 3) == (v >> 24) & 0xff,
        lane(v, 4) == (v >> 32) & 0xff,
        lane(v, 5) == (v >> 40) & 0xff,
        lane(v, 6) == (v >> 48) & 0xff,
        lane(v, 7) == (v >> 56) & 0xff,
{
}

/// The weighted sum of the last `n` digits reads no other digit.
proof fn lemma_sum_reads_the_tail(a: Seq<u8>, b: Seq<u8>, n: nat)
    requires
        n <= a.len(),
        n <= b.len(),
        forall|i: int| a.len() - n <= i < a.len() ==> #[trigger] a[i] == b[i - a.len() + b.len()],
    ensures
        weighted_sum_of_last(a, n) == weighted_sum_of_last(b, n),
    decreases n,
{
    if n > 0 {
        lemma_sum_reads_the_tail(a, b, (n - 1) as nat);
    }
}

/// Zeros in front of the last `k` digits add nothing, whatever their place.
proof fn lemma_leading_zeros_add_nothing(s: Seq<u8>, k: nat, n: nat)
    requires
        k <= n <= s.len(),
        forall|i: int| s.len() - n <= i < s.len() - k ==> #[trigger] s[i] == 0x30,
    ensures
        weighted_sum_of_last(s, n) == weighted_sum_of_last(s, k),
    decreases n,
{
    if n > k {
        lemma_leading_zeros_add_nothing(s, k, (n - 1) as nat);
    }
}

/// After an even number of digits the weights start over: the sum of the last
/// `n + k` digits is that of the last `n` plus that of the `k` before them,
/// taken by themselves.
proof fn lemma_sum_splits(s: Seq<u8>, n: nat, k: nat)
    requires
        n % 2 == 0,
        n + k <= s.len(),
    ensures
        weighted_sum_of_last(s, n + k) == weighted_sum_of_last(s, n) + weighted_sum_of_last(
            s.subrange(0, s.len() - n),
            k,
        ),
    decreases k,
{
    if k > 0 {
        lemma_sum_splits(s, n, (k - 1) as nat);
        let t = s.subrange(0, s.len() - n);
    }
}

/// Each digit adds at most nineteen.
proof fn lemma_sum_bounds(s: Seq<u8>, n: nat)
    requires
        n <= s.len(),
        forall|j: int| s.len() - n <= j < s.len() ==> is_digit(#[trigger] s[j]),
    ensures
        0 <= weighted_sum_of_last(s, n) <= 19 * n,
    decreases n,
{
    if n > 0 {
        lemma_sum_bounds(s, (n - 1) as nat);
    }
}

/// What the word-wide test and sum say of the eight bytes that the word was
/// loaded from.
proof fn lemma_group(buf: Seq<u8>, v: u64)
    requires
        buf.len() == 8,
        v == spec_u64_from_le_bytes(buf),
    ensures
        ((wrapping_add(v, ABOVE_NINE) | wrapping_sub(v, ASCII_ZEROS)) & HIGH_BITS == 0)
            <==> all_digits(buf),
        all_digits(buf) ==> ones_below(
            wrapping_sub(CARRY_THRESHOLDS, wrapping_sub(v, ASCII_ZEROS)) & HIGH_BITS,
            64,
        ) + (wrapping_mul(wrapping_sub(v, ASCII_ZEROS), WEIGHTS) >> 56) == weighted_sum_of_last(
            buf,
            8,
        ),
{
    lemma_auto_spec_u64_to_from_le_bytes();
    spec_u64_to_le_bytes_to_open(v);
    lemma_lane_fits_a_byte(v);
    assert(buf[4] == lane(v, 4) && buf[5] == lane(v, 5) && buf[6] == lane(v, 6) && buf[7] == lane(
        v,
        7,
    ));
    lemma_lanes_are_digits(v);
    if all_digits(buf) {
        lemma_weighted_lanes(v);
        lemma_carry_lanes(v);
        lemma_ones_of_lane_tops(
            wrapping_sub(CARRY_THRESHOLDS, wrapping_sub(v, ASCII_ZEROS)) & HIGH_BITS,
        );
        reveal_with_fuel(weighted_sum_of_last, 9);
    }
}

/// Writes the bytes of `c` into the right end of `buf` and leaves the bytes
/// in front of them as they were.
pub fn copy_from_small_slice(buf: &mut [u8; 8], c: &[u8])
    requires
        1 <= c@.len() <= 8,
    ensures
        final(buf)@ == old(buf)@.subrange(0, 8 - c@.len()) + c@,
{
    let n = c.len();
    let pad = 8 - n;
    let mut i: usize = 0;
    while i < n
        invariant
            n == c@.len(),
            1 <= n <= 8,
            pad == 8 - n,
            i <= n,
            buf@.len() == 8,
            forall|j: int| 0 <= j < pad ==> buf@[j] == old(buf)@[j],
            forall|j: int| 0 <= j < i ==> buf@[pad + j] == c@[j],
        decreases n - i,
    {
        buf[pad + i] = c[i];
        i += 1;
    }
}

/// Adds up the weighted digits of `raw`, eight digits to a step, from the
/// right end. Gives nothing as soon as one byte is no digit.
pub fn fold10_swar(raw: &[u8]) -> (total: Option<u128>)
    ensures
        total is Some <==> all_digits(raw@),
        total matches Some(sum) ==> sum == weighted_sum(raw@),
{
    let mut sum: u128 = 0;
    let mut end: usize = raw.len();
    while end > 0
        invariant
            end <= raw@.len() <= usize::MAX,
            end == 0 || (raw@.len() - end) % 8 == 0,
            forall|j: int| end <= j < raw@.len() ==> is_digit(#[trigger] raw@[j]),
            sum == weighted_sum_of_last(raw@, (raw@.len() - end) as nat),
            0 <= sum <= 19 * (raw@.len() - end),
        decreases end,
    {
        let start: usize = if end >= 8 {
            end - 8
        } else {
            0
        };
        let c = slice_subrange(raw, start, end);
        let mut buf = [0x30u8;8];
        copy_from_small_slice(&mut buf, c);
        let mut v = u64_from_le_bytes(buf.as_slice());
        let a = v.wrapping_add(ABOVE_NINE);
        let ghost loaded = v;
        v = v.wrapping_sub(ASCII_ZEROS);
        proof {
            lemma_group(buf@, loaded);
        }
        if (a | v) & HIGH_BITS == 0 {
            let carries = (CARRY_THRESHOLDS.wrapping_sub(v) & HIGH_BITS).count_ones();
            let weighted = v.wrapping_mul(WEIGHTS) >> 56;
            proof {
                let n = (raw@.len() - end) as nat;
                let k = (end - start) as nat;
                let front = raw@.subrange(0, end as int);
                lemma_sum_splits(raw@, n, k);
                lemma_sum_reads_the_tail(front, buf@, k);
                lemma_leading_zeros_add_nothing(buf@, k, 8);
                assert forall|j: int| start <= j < raw@.len() implies is_digit(
                    #[trigger] raw@[j],
                ) by {
                    if j < end {
                        assert(is_digit(buf@[8 - k + (j - start)]));
                    }
                }
                lemma_sum_bounds(raw@, n + k);
            }
            sum = sum + carries as u128 + weighted as u128;
        } else {
            proof {
                let k = (end - start) as nat;
                let j = choose|j: int| 0 <= j < 8 && !is_digit(#[trigger] buf@[j]);
                assert(!is_digit(raw@[start + (j - (8 - k))]));
            }
            return None;
        }
        end = start;
    }
    Some(sum)
}

/// The check digit makes up the sum: the weighted sum of a number and the
/// value of its check digit add up to a multiple of ten.
pub proof fn lemma_check_digit_completes_the_sum(s: Seq<u8>)
    ensures
        is_digit(check_digit_of(s)),
        (weighted_sum(s) + digit_value(check_digit_of(s))) % 10 == 0,
{
}

/// In the sum, a digit at an even place counts for as much as the figures
/// of its double added up, but for a multiple of ten.
pub proof fn lemma_double_counts_by_its_figures(place: int, d: int)
    requires
        0 <= d <= 9,
        place % 2 == 0,
    ensures
        place_worth(place, d) % 10 == ((2 * d) / 10 + (2 * d) % 10) % 10,
{
}

/// The check digit of a decimal number given as ASCII digits, or nothing
/// where a byte of `digits` is no digit.
pub fn digit_checksum(digits: &[u8]) -> (digit: Option<u8>)
    ensures
        digit is Some <==> all_digits(digits@),
        digit matches Some(c) ==> c == check_digit_of(digits@),
{
    match fold10_swar(digits) {
        Some(sum) => {
            proof {
                lemma_sum_bounds(digits@, digits@.len());
            }
            Some(0x30u8 + ((10 - (sum % 10)) % 10) as u8)
        },
        None => None,
    }
}

} // verus!
