//! How stored numbers of several kinds become a dimension: an unsigned number of
//! 64 bits.

use vstd::arithmetic::power2::{
    lemma2_to64, lemma2_to64_rest, lemma_pow2_adds, lemma_pow2_pos, pow2,
};
use vstd::prelude::*;

verus! {

/// A signed number as a dimension: what is below zero counts as zero.
pub open spec fn clamped(x: int) -> int {
    if x < 0 {
        0
    } else {
        x
    }
}

/// A ratio of unsigned numbers as a dimension: the quotient without its
/// remainder. There is none where the denominator is zero.
pub open spec fn unsigned_ratio(numerator: int, denominator: int) -> Option<int> {
    if denominator == 0 {
        None
    } else {
        Some(numerator / denominator)
    }
}

/// A ratio of signed numbers as a dimension: the quotient rounded towards
/// zero, and zero where that is negative. There is none where the denominator
/// is zero.
pub open spec fn signed_ratio(numerator: int, denominator: int) -> Option<int> {
    if denominator == 0 {
        None
    } else if (numerator < 0) == (denominator < 0) {
        Some((if numerator < 0 {
            -numerator
        } else {
            numerator
        }) / (if denominator < 0 {
            -denominator
        } else {
            denominator
        }))
    } else {
        Some(0)
    }
}

/// A binary floating-point number as a dimension. The number is given by its
/// sign, its biased exponent and its fraction of `width` bits; `bias` is what
/// the exponent of 1 is stored as, and `top` the stored exponent that marks
/// infinities and what is not a number.
///
/// What is not a number, what is negative and what is below one count as
/// zero; what does not fit counts as the largest number there is; everything
/// else loses what stands behind the point.
pub open spec fn truncated(
    negative: bool,
    exponent: int,
    fraction: int,
    width: int,
    bias: int,
    top: int,
) -> int {
    let significand = pow2(width as nat) + fraction;
    if exponent == top && fraction != 0 {
        0
    } else if negative || exponent < bias {
        0
    } else if exponent >= bias + 64 {
        u64::MAX as int
    } else if exponent >= bias + width {
        significand * pow2((exponent - bias - width) as nat)
    } else {
        significand / (pow2((bias + width - exponent) as nat) as int)
    }
}

/// The dimension that the 32 bits of a single-precision number stand for.
pub open spec fn single_to_u64(bits: int) -> int {
    truncated(bits >= 0x8000_0000, (bits / 0x80_0000) % 0x100, bits % 0x80_0000, 23, 127, 0xFF)
}

/// The dimension that the 64 bits of a double-precision number stand for.
pub open spec fn double_to_u64(bits: int) -> int {
    truncated(
        bits >= 0x8000_0000_0000_0000,
        (bits / 0x10_0000_0000_0000) % 0x800,
        bits % 0x10_0000_0000_0000,
        52,
        1023,
        0x7FF,
    )
}

/// A signed number as a dimension.
pub fn clamp(x: i32) -> (r: u64)
    ensures
        r == clamped(x as int),
{
    if x < 0 {
        0
    } else {
        x as u64
    }
}

/// The quotient of two unsigned numbers, if the second is not zero.
pub fn uratio(numerator: u32, denominator: u32) -> (r: Option<u64>)
    ensures
        r == (match unsigned_ratio(numerator as int, denominator as int) {
            Some(q) => Some(q as u64),
            None => None,
        }),
        r matches Some(q) ==> q == numerator as int / denominator as int,
{
    if denominator == 0 {
        None
    } else {
        Some((numerator as u64) / (denominator as u64))
    }
}

/// The quotient of two signed numbers, rounded towards zero and not below
/// zero, if the second is not zero.
pub fn iratio(numerator: i32, denominator: i32) -> (r: Option<u64>)
    ensures
        signed_ratio(numerator as int, denominator as int) matches Some(q) ==> r == Some(
            q as u64,
        ) && 0 <= q <= 0x8000_0000,
        signed_ratio(numerator as int, denominator as int) is None ==> r is None,
{
    if denominator == 0 {
        return None;
    }
    if (numerator < 0) != (denominator < 0) {
        return Some(0);
    }
    let n: u64 = if numerator < 0 {
        (-(numerator as i64)) as u64
    } else {
        numerator as u64
    };
    let d: u64 = if denominator < 0 {
        (-(denominator as i64)) as u64
    } else {
        denominator as u64
    };
    let q = n / d;
    assert(q <= n) by (nonlinear_arith)
        requires
            q == n / d,
            d >= 1,
    ;
    Some(q)
}

/// Twice as much for each step up.
proof fn lemma_pow2_step(k: nat)
    ensures
        pow2(k + 1) == 2 * pow2(k),
        pow2(k) >= 1,
{
    lemma_pow2_adds(k, 1);
    lemma_pow2_pos(k);
    lemma2_to64();
    assert(pow2(k) * pow2(1) == 2 * pow2(k)) by (nonlinear_arith)
        requires
            pow2(1) == 2,
    ;
}

/// `x` times two to the `k`, where that fits.
fn scaled_up(x: u64, k: u32, Ghost(room): Ghost<nat>) -> (r: u64)
    requires
        x < pow2(room),
        room + k <= 64,
    ensures
        r == x * pow2(k as nat),
{
    let mut r: u64 = x;
    let mut i: u32 = 0;
    proof {
        lemma2_to64();
    }
    while i < k
        invariant
            i <= k,
            room + k <= 64,
            r == x * pow2(i as nat),
            r < pow2(room + i as nat),
        decreases k - i,
    {
        proof {
            lemma_pow2_step(i as nat);
            lemma_pow2_step(room + i as nat);
            lemma_pow2_bound(room + i as nat + 1);
            assert(x * (2 * pow2(i as nat)) == 2 * (x * pow2(i as nat))) by (nonlinear_arith);
        }
        r = r * 2;
        i = i + 1;
    }
    r
}

/// Two to the `k` is at most two to the 64 for `k` up to 64.
proof fn lemma_pow2_bound(k: nat)
    requires
        k <= 64,
    ensures
        pow2(k) <= 0x1_0000_0000_0000_0000,
    decreases 64 - k,
{
    lemma2_to64();
    lemma2_to64_rest();
    if k < 64 {
        lemma_pow2_bound(k + 1);
        lemma_pow2_step(k);
    }
}

/// `x` divided by two to the `k`.
fn scaled_down(x: u64, k: u32) -> (r: u64)
    ensures
        r == x as int / (pow2(k as nat) as int),
{
    let mut r: u64 = x;
    let mut i: u32 = 0;
    proof {
        lemma2_to64();
    }
    while i < k
        invariant
            i <= k,
            r == x as int / (pow2(i as nat) as int),
        decreases k - i,
    {
        proof {
            lemma_pow2_step(i as nat);
            let d = pow2(i as nat) as int;
            vstd::arithmetic::div_mod::lemma_div_denominator(x as int, d, 2);
        }
        r = r / 2;
        i = i + 1;
    }
    r
}

/// A binary floating-point number, given by its parts, as a dimension.
fn truncate(
    negative: bool,
    exponent: u32,
    fraction: u64,
    width: u32,
    bias: u32,
    top: u32,
) -> (r: u64)
    requires
        width == 23 || width == 52,
        bias < 0x400,
        exponent <= top < 0x800,
        fraction < pow2(width as nat),
    ensures
        r == truncated(
            negative,
            exponent as int,
            fraction as int,
            width as int,
            bias as int,
            top as int,
        ),
{
    proof {
        lemma2_to64();
        lemma2_to64_rest();
    }
    if exponent == top && fraction != 0 {
        0
    } else if negative || exponent < bias {
        0
    } else if exponent >= bias + 64 {
        u64::MAX
    } else {
        let one: u64 = if width == 23 {
            0x80_0000
        } else {
            0x10_0000_0000_0000
        };
        let significand: u64 = one + fraction;
        proof {
            lemma_pow2_step(width as nat);
        }
        if exponent >= bias + width {
            scaled_up(significand, exponent - bias - width, Ghost((width + 1) as nat))
        } else {
            scaled_down(significand, bias + width - exponent)
        }
    }
}

/// The dimension that the 32 bits of a single-precision number stand for.
pub fn single(bits: u32) -> (r: u64)
    ensures
        r == single_to_u64(bits as int),
{
    proof {
        lemma2_to64();
    }
    truncate(
        bits >= 0x8000_0000,
        (bits / 0x80_0000) % 0x100,
        (bits % 0x80_0000) as u64,
        23,
        127,
        0xFF,
    )
}

/// The dimension that the 64 bits of a double-precision number stand for.
pub fn double(bits: u64) -> (r: u64)
    ensures
        r == double_to_u64(bits as int),
{
    proof {
        lemma2_to64();
        lemma2_to64_rest();
    }
    truncate(
        bits >= 0x8000_0000_0000_0000,
        ((bits / 0x10_0000_0000_0000) % 0x800) as u32,
        bits % 0x10_0000_0000_0000,
        52,
        1023,
        0x7FF,
    )
}

} // verus!
