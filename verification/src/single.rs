//! Ratios of whole numbers, rounded as single-precision arithmetic rounds them.
//!
//! A single-precision number above zero is a significand of 24 bits, from two
//! to the power 23 up to but not including two to the power 24, times a power
//! of two. Turning a whole number into such a number, and dividing one such
//! number by another, both come to rounding a ratio of whole numbers to the
//! nearest number of that form, and to the one with the even significand
//! where two are equally near. That rounding is done here. The exponent is
//! not bounded: where single precision would overflow or lose bits to a small
//! exponent, this arithmetic goes on, so it is single-precision arithmetic
//! only for ratios from two to the power -126 up to two to the power 127.

use vstd::arithmetic::div_mod::{lemma_basic_div, lemma_fundamental_div_mod};
use vstd::arithmetic::power2::{
    lemma2_to64, lemma_pow2_adds, lemma_pow2_pos, lemma_pow2_strictly_increases,
    lemma_pow2_unfold, pow2,
};
use vstd::bits::lemma_u64_shr_is_div;
use vstd::prelude::*;

verus! {

/// Two to the power 24: every significand lies below it.
pub const SIGNIFICAND_LIMIT: u128 = 0x100_0000;

/// Two to the power 23: no significand lies below it.
pub const SIGNIFICAND_FLOOR: u128 = 0x80_0000;

/// A single-precision number above zero: `significand` times two to the power `exponent`.
#[derive(Clone, Copy, Debug)]
pub struct Single {
    pub significand: u32,
    pub exponent: i128,
}

impl Single {
    /// The significand and the exponent.
    pub open spec fn parts(self) -> (nat, int) {
        (self.significand as nat, self.exponent as int)
    }
}

/// The number `n / d` times two to the power `e`, written with a larger
/// divisor and a larger exponent, so that `n / d` lies below two to the power 24.
pub open spec fn settled_down(n: nat, d: nat, e: int) -> (nat, nat, int)
    decreases
        (if n >= d * 0x100_0000 {
            n - d * 0x100_0000 + 1
        } else {
            0
        }),
{
    if d > 0 && n >= d * 0x100_0000 {
        settled_down(n, 2 * d, e + 1)
    } else {
        (n, d, e)
    }
}

/// The number `n / d` times two to the power `e`, written with a larger
/// dividend and a smaller exponent, so that `n / d` is at least two to the
/// power 23.
pub open spec fn settled_up(n: nat, d: nat, e: int) -> (nat, nat, int)
    decreases
        (if n < d * 0x80_0000 {
            d * 0x80_0000 - n
        } else {
            0
        }),
{
    if n > 0 && n < d * 0x80_0000 {
        settled_up(2 * n, d, e - 1)
    } else {
        (n, d, e)
    }
}

/// The quotient of `n` by `d`, rounded to the nearest whole number, and to
/// the even one where two are equally near.
pub open spec fn nearest_even(n: nat, d: nat) -> nat {
    let q = n / d;
    let r = n % d;
    if 2 * r > d || (2 * r == d && q % 2 == 1) {
        q + 1
    } else {
        q
    }
}

/// The number `n / d` times two to the power `e`, rounded to 24 significant
/// bits, ties to even: the significand and the exponent of the result.
pub open spec fn rounded(n: nat, d: nat, e: int) -> (nat, int) {
    let (n1, d1, e1) = settled_down(n, d, e);
    let (n2, d2, e2) = settled_up(n1, d1, e1);
    let significand = nearest_even(n2, d2);
    if significand == 0x100_0000 {
        (0x80_0000, e2 + 1)
    } else {
        (significand, e2)
    }
}

/// The whole part of `significand` times two to the power `exponent`, but at
/// most the largest number of the machine's word.
pub open spec fn truncated(significand: nat, exponent: int) -> nat {
    let whole = if exponent >= 0 {
        significand * pow2(exponent as nat)
    } else {
        significand / pow2((-exponent) as nat)
    };
    if whole > usize::MAX {
        usize::MAX as nat
    } else {
        whole
    }
}

/// Single precision holds the number in full: the significand has 24 bits,
/// and the exponent is one that a single-precision number of that many bits
/// can have, from -149 to 104.
pub open spec fn held_in_full(parts: (nat, int)) -> bool {
    0x80_0000 <= parts.0 < 0x100_0000 && -149 <= parts.1 <= 104
}

/// The exponents that `round` takes: far more than any ratio of machine
/// numbers needs.
pub open spec fn exponent_fits(e: int) -> bool {
    -0x1000_0000_0000_0000_0000_0000_0000_0000 <= e <= 0x1000_0000_0000_0000_0000_0000_0000_0000
}

/// Rounds `n / d` times two to the power `e` to 24 significant bits.
pub fn round(n: u128, d: u32, e: i128) -> (single: Single)
    requires
        0 < n < 0x100_0000_0000_0000_0000_0000_0000_0000,
        0 < d <= 0x100_0000,
        exponent_fits(e as int),
    ensures
        single.parts() == rounded(n as nat, d as nat, e as int),
        0x80_0000 <= single.significand < 0x100_0000,
        e - 0x400_0000_0000_0000_0000_0000_0000_0000 <= single.exponent <= e
            + 0x400_0000_0000_0000_0000_0000_0000_0000,
{
    let mut dividend: u128 = n;
    let mut divisor: u128 = d as u128;
    let mut exponent: i128 = e;
    while dividend >= divisor * SIGNIFICAND_LIMIT
        invariant
            dividend == n,
            0 < divisor < 0x2_0000_0000_0000_0000_0000_0000,
            dividend < 0x100_0000_0000_0000_0000_0000_0000_0000,
            exponent_fits(e as int),
            e <= exponent,
            exponent - e < divisor,
            divisor == d || dividend >= divisor * 0x80_0000,
            settled_down(n as nat, d as nat, e as int) == settled_down(
                dividend as nat,
                divisor as nat,
                exponent as int,
            ),
        decreases
            (if dividend >= divisor * 0x100_0000 {
                dividend - divisor * 0x100_0000 + 1
            } else {
                0
            }),
    {
        divisor = 2 * divisor;
        exponent = exponent + 1;
    }
    let ghost (n1, d1, e1) = (dividend as nat, divisor as nat, exponent as int);
    assert(settled_down(n as nat, d as nat, e as int) == (n1, d1, e1));
    while dividend < divisor * SIGNIFICAND_FLOOR
        invariant
            0 < dividend < 0x200_0000_0000_0000_0000_0000_0000_0000,
            divisor == d1,
            0 < divisor < 0x2_0000_0000_0000_0000_0000_0000,
            dividend < divisor * 0x100_0000,
            exponent <= e1,
            e1 - exponent < dividend,
            e <= e1 < e + 0x2_0000_0000_0000_0000_0000_0000,
            exponent_fits(e as int),
            settled_up(n1, d1, e1) == settled_up(
                dividend as nat,
                divisor as nat,
                exponent as int,
            ),
        decreases
            (if dividend < divisor * 0x80_0000 {
                divisor * 0x80_0000 - dividend
            } else {
                0
            }),
    {
        dividend = 2 * dividend;
        exponent = exponent - 1;
    }
    assert(settled_up(n1, d1, e1) == (dividend as nat, divisor as nat, exponent as int));
    let quotient = dividend / divisor;
    let rest = dividend % divisor;
    proof {
        lemma_fundamental_div_mod(dividend as int, divisor as int);
        lemma_quotient_has_24_bits(dividend as int, divisor as int, quotient as int, rest as int);
    }
    let significand = if 2 * rest > divisor || (2 * rest == divisor && quotient % 2 == 1) {
        quotient + 1
    } else {
        quotient
    };
    if significand == SIGNIFICAND_LIMIT {
        Single { significand: SIGNIFICAND_FLOOR as u32, exponent: exponent + 1 }
    } else {
        Single { significand: significand as u32, exponent }
    }
}

/// Cuts a single-precision number down to a whole number of the machine's word.
pub fn truncate(single: Single) -> (whole: usize)
    requires
        0x80_0000 <= single.significand < 0x100_0000,
    ensures
        whole == truncated(single.significand as nat, single.exponent as int),
{
    let significand = single.significand;
    let exponent = single.exponent;
    if exponent >= 64 {
        proof {
            lemma2_to64();
            lemma_pow2_pos(exponent as nat);
            if exponent > 64 {
                lemma_pow2_strictly_increases(64, exponent as nat);
            }
            assert(significand * pow2(exponent as nat) >= pow2(exponent as nat))
                by (nonlinear_arith)
                requires
                    significand >= 1,
                    pow2(exponent as nat) > 0,
            ;
        }
        usize::MAX
    } else if exponent >= 0 {
        let mut whole: u128 = significand as u128;
        let mut done: i128 = 0;
        proof {
            lemma2_to64();
            assert(significand * pow2(0) == significand) by (nonlinear_arith)
                requires
                    pow2(0) == 1,
            ;
        }
        while done < exponent
            invariant
                0 <= done <= exponent < 64,
                significand < 0x100_0000,
                whole == significand * pow2(done as nat),
                whole < 0x100_0000 * pow2(done as nat),
            decreases exponent - done,
        {
            proof {
                lemma2_to64();
                lemma_pow2_unfold((done + 1) as nat);
                lemma_pow2_strictly_increases(done as nat, 64);
                assert(significand * (2 * pow2(done as nat)) == 2 * (significand * pow2(
                    done as nat,
                ))) by (nonlinear_arith);
            }
            whole = 2 * whole;
            done = done + 1;
        }
        if whole > usize::MAX as u128 {
            usize::MAX
        } else {
            whole as usize
        }
    } else if exponent <= -24 {
        proof {
            lemma2_to64();
            if exponent < -24 {
                lemma_pow2_strictly_increases(24, (-exponent) as nat);
            }
            lemma_basic_div(significand as int, pow2((-exponent) as nat) as int);
        }
        0
    } else {
        let shift = (-exponent) as u64;
        proof {
            lemma_u64_shr_is_div(significand as u64, shift);
            lemma_pow2_pos(shift as nat);
            assert(significand as int / pow2(shift as nat) as int <= significand)
                by (nonlinear_arith)
                requires
                    pow2(shift as nat) >= 1,
                    significand >= 0,
            ;
        }
        ((significand as u64) >> shift) as usize
    }
}

/// How far two whole numbers lie apart.
pub open spec fn distance(a: int, b: int) -> int {
    if a >= b {
        a - b
    } else {
        b - a
    }
}

/// What `rounded` gives is the nearest number of 24 significant bits. The
/// proof names two shifts, `down` and `up`, of which at most one is not 0.
/// With them the number `n / d` times two to the power `e` is `n` times two
/// to the power `up`, divided by `d` times two to the power `down`, in units
/// of two to the power `e + down - up`; and that quotient lies from two to
/// the power 23 up to two to the power 24. The result, counted in the same
/// units, is a whole number at most half a unit away from the quotient, and
/// where it is exactly half a unit away it is even. Where rounding up
/// reaches two to the power 24, the result is written with the significand
/// two to the power 23 and the next exponent.
pub proof fn lemma_rounded_is_nearest(n: nat, d: nat, e: int) -> (shifts: (nat, nat))
    requires
        n > 0,
        d > 0,
    ensures
        ({
            let (down, up) = shifts;
            let (significand, exponent) = rounded(n, d, e);
            let dividend = n * pow2(up);
            let divisor = d * pow2(down);
            let place = e + down - up;
            let units = if exponent == place {
                significand
            } else {
                2 * significand
            };
            &&& down == 0 || up == 0
            &&& divisor * 0x80_0000 <= dividend < divisor * 0x100_0000
            &&& 0x80_0000 <= significand < 0x100_0000
            &&& exponent == place || (exponent == place + 1 && significand == 0x80_0000)
            &&& 2 * distance(dividend as int, (units * divisor) as int) <= divisor
            &&& 2 * distance(dividend as int, (units * divisor) as int) == divisor ==> units % 2 == 0
        }),
{
    lemma2_to64();
    let down = lemma_settled_down(n, d, e);
    let divisor = d * pow2(down);
    let up = if down > 0 {
        assert(n * pow2(0) == n) by (nonlinear_arith)
            requires
                pow2(0) == 1,
        ;
        0nat
    } else {
        assert(d * pow2(0) == d) by (nonlinear_arith)
            requires
                pow2(0) == 1,
        ;
        lemma_settled_up(n, d, e)
    };
    let dividend = n * pow2(up);
    assert(settled_up(n, divisor, e + down) == (dividend, divisor, e + down - up));
    lemma_pow2_pos(down);
    assert(divisor > 0) by (nonlinear_arith)
        requires
            divisor == d * pow2(down),
            d > 0,
            pow2(down) > 0,
    ;
    let quotient = dividend / divisor;
    let rest = dividend % divisor;
    lemma_fundamental_div_mod(dividend as int, divisor as int);
    lemma_quotient_has_24_bits(dividend as int, divisor as int, quotient as int, rest as int);
    let units = nearest_even(dividend, divisor);
    assert(units * divisor == divisor * quotient + (units - quotient) * divisor)
        by (nonlinear_arith);
    assert((units - quotient) * divisor == if units == quotient {
        0
    } else {
        divisor as int
    }) by (nonlinear_arith)
        requires
            units == quotient || units == quotient + 1,
    ;
    (down, up)
}

/// Where the dividend and the divisor are known between powers of two, so is
/// the exponent of the rounded quotient: a dividend from two to the power
/// `n_low` to below two to the power `n_high`, over a divisor from two to the
/// power `d_low` to below two to the power `d_high`, gives an exponent from
/// `e + n_low - d_high - 23` to `e + n_high - d_low - 23`.
pub proof fn lemma_rounded_exponent(
    n: nat,
    d: nat,
    e: int,
    n_low: nat,
    n_high: nat,
    d_low: nat,
    d_high: nat,
)
    requires
        pow2(n_low) <= n < pow2(n_high),
        pow2(d_low) <= d < pow2(d_high),
    ensures
        e + n_low - d_high - 23 <= rounded(n, d, e).1 <= e + n_high - d_low - 23,
        0x80_0000 <= rounded(n, d, e).0 < 0x100_0000,
{
    lemma2_to64();
    lemma_pow2_pos(n_low);
    lemma_pow2_pos(d_low);
    let (down, up) = lemma_rounded_is_nearest(n, d, e);
    let dividend = n * pow2(up);
    let divisor = d * pow2(down);
    lemma_pow2_pos(up);
    lemma_pow2_pos(down);
    // The dividend and the divisor between powers of two, shifts counted in.
    lemma_pow2_adds(n_low, up);
    lemma_pow2_adds(n_high, up);
    assert(pow2(n_low + up) <= dividend < pow2(n_high + up)) by (nonlinear_arith)
        requires
            pow2(n_low) <= n < pow2(n_high),
            pow2(up) > 0,
            dividend == n * pow2(up),
            pow2(n_low + up) == pow2(n_low) * pow2(up),
            pow2(n_high + up) == pow2(n_high) * pow2(up),
    ;
    lemma_pow2_adds(d_low, down);
    lemma_pow2_adds(d_high, down);
    lemma_pow2_adds(d_low + down, 23);
    lemma_pow2_adds(d_high + down, 24);
    assert(pow2(d_low + down + 23) <= divisor * 0x80_0000 && divisor * 0x100_0000 < pow2(
        d_high + down + 24,
    )) by (nonlinear_arith)
        requires
            pow2(d_low) <= d < pow2(d_high),
            pow2(down) > 0,
            divisor == d * pow2(down),
            pow2(d_low + down) == pow2(d_low) * pow2(down),
            pow2(d_high + down) == pow2(d_high) * pow2(down),
            pow2(d_low + down + 23) == pow2(d_low + down) * 0x80_0000,
            pow2(d_high + down + 24) == pow2(d_high + down) * 0x100_0000,
    ;
    // So the exponents are in order.
    lemma_pow2_orders(d_low + down + 23, n_high + up);
    lemma_pow2_orders(n_low + up, d_high + down + 24);
}

/// A smaller power of two has the smaller exponent.
proof fn lemma_pow2_orders(smaller: nat, larger: nat)
    requires
        pow2(smaller) < pow2(larger),
    ensures
        smaller < larger,
{
    if smaller > larger {
        lemma_pow2_strictly_increases(larger, smaller);
    }
}

/// What `settled_down` gives: the divisor doubled `shift` times and the
/// exponent raised as often, so that the quotient lies below two to the
/// power 24, and not below two to the power 23 if anything was done.
proof fn lemma_settled_down(n: nat, d: nat, e: int) -> (shift: nat)
    requires
        d > 0,
    ensures
        settled_down(n, d, e) == (n, d * pow2(shift), e + shift),
        n < d * pow2(shift) * 0x100_0000,
        shift > 0 ==> n >= d * pow2(shift) * 0x80_0000,
    decreases
        (if n >= d * 0x100_0000 {
            n - d * 0x100_0000 + 1
        } else {
            0
        }),
{
    lemma2_to64();
    if n >= d * 0x100_0000 {
        let rest = lemma_settled_down(n, 2 * d, e + 1);
        lemma_pow2_unfold(rest + 1);
        assert(d * pow2(rest + 1) == (2 * d) * pow2(rest)) by (nonlinear_arith)
            requires
                pow2(rest + 1) == 2 * pow2(rest),
        ;
        if rest == 0 {
            assert((2 * d) * pow2(0) == 2 * d) by (nonlinear_arith)
                requires
                    pow2(0) == 1,
            ;
        }
        rest + 1
    } else {
        assert(d * pow2(0) == d) by (nonlinear_arith)
            requires
                pow2(0) == 1,
        ;
        0
    }
}

/// What `settled_up` gives: the dividend doubled `shift` times and the
/// exponent lowered as often, so that the quotient is at least two to the
/// power 23, and below two to the power 24 if anything was done.
proof fn lemma_settled_up(n: nat, d: nat, e: int) -> (shift: nat)
    requires
        n > 0,
    ensures
        settled_up(n, d, e) == (n * pow2(shift), d, e - shift),
        n * pow2(shift) >= d * 0x80_0000,
        shift > 0 ==> n * pow2(shift) < d * 0x100_0000,
    decreases
        (if n < d * 0x80_0000 {
            d * 0x80_0000 - n
        } else {
            0
        }),
{
    lemma2_to64();
    if n < d * 0x80_0000 {
        let rest = lemma_settled_up(2 * n, d, e - 1);
        lemma_pow2_unfold(rest + 1);
        assert(n * pow2(rest + 1) == (2 * n) * pow2(rest)) by (nonlinear_arith)
            requires
                pow2(rest + 1) == 2 * pow2(rest),
        ;
        if rest == 0 {
            assert((2 * n) * pow2(0) == 2 * n) by (nonlinear_arith)
                requires
                    pow2(0) == 1,
            ;
        }
        rest + 1
    } else {
        assert(n * pow2(0) == n) by (nonlinear_arith)
            requires
                pow2(0) == 1,
        ;
        0
    }
}

/// A dividend from two to the power 23 times the divisor up to two to the
/// power 24 times the divisor has a quotient of 24 bits.
proof fn lemma_quotient_has_24_bits(dividend: int, divisor: int, quotient: int, rest: int)
    by (nonlinear_arith)
    requires
        divisor > 0,
        dividend == divisor * quotient + rest,
        0 <= rest < divisor,
        divisor * 0x80_0000 <= dividend < divisor * 0x100_0000,
    ensures
        0x80_0000 <= quotient < 0x100_0000,
{
}

} // verus!
