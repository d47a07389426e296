//! Double-precision numbers, held by their encoding.
//!
//! A `Scalar` is the 64-bit IEEE 754 binary64 encoding of a number: one sign
//! bit, eleven exponent bits, fifty-two fraction bits. The arithmetic on such
//! numbers is done elsewhere; what is decided here is how two of them compare,
//! what sign one has, and what its negation and its half are. All of that can
//! be read off the encoding with integer arithmetic alone.
//!
//! What an encoding stands for is given by `scaled_value`: the number times
//! two to the power 1074, which is an integer for every finite number. The
//! laws at the end of this file tie the order, the negation and the halving
//! of encodings to that value.

use vstd::arithmetic::power2::{
    lemma_pow2_pos, lemma_pow2_strictly_increases, lemma_pow2_unfold, pow2,
};
use vstd::prelude::*;

verus! {

/// The sign bit of an encoding.
pub const SIGN_BIT: u64 = 0x8000_0000_0000_0000;

/// The encoding of positive infinity. Any larger magnitude is not a number.
pub const INFINITY_BITS: u64 = 0x7FF0_0000_0000_0000;

/// The weight of the lowest exponent bit, two to the power 52.
pub const FRACTION_RANGE: u64 = 0x0010_0000_0000_0000;

/// The bit that marks what is not a number as quiet.
pub const QUIET_BIT: u64 = 0x0008_0000_0000_0000;

/// The encoding of 1.
pub const ONE_BITS: u64 = 0x3FF0_0000_0000_0000;

/// The encoding of the largest finite number.
pub const MAX_BITS: u64 = 0x7FEF_FFFF_FFFF_FFFF;

/// A double-precision number.
#[derive(Clone, Copy, Debug)]
pub struct Scalar {
    pub bits: u64,
}

impl Scalar {
    /// The encoding without its sign bit.
    pub open spec fn magnitude(self) -> int {
        if self.bits >= SIGN_BIT {
            self.bits - SIGN_BIT
        } else {
            self.bits as int
        }
    }

    /// The sign bit is set. This holds of negative numbers, of negative zero,
    /// and of some encodings that are not a number.
    pub open spec fn spec_is_sign_negative(self) -> bool {
        self.bits >= SIGN_BIT
    }

    /// The encoding is not a number.
    pub open spec fn spec_is_nan(self) -> bool {
        self.magnitude() > INFINITY_BITS
    }

    /// The encoding is a number that is not infinite.
    pub open spec fn is_finite(self) -> bool {
        self.magnitude() < INFINITY_BITS
    }

    /// An integer that orders the numbers as their values do: the magnitude
    /// with the sign in front. Both zeros have rank 0.
    pub open spec fn rank(self) -> int {
        if self.spec_is_sign_negative() {
            -self.magnitude()
        } else {
            self.magnitude()
        }
    }

    /// `self < other` as IEEE 754 has it: false where either is not a number.
    pub open spec fn spec_lt(self, other: Scalar) -> bool {
        !self.spec_is_nan() && !other.spec_is_nan() && self.rank() < other.rank()
    }

    /// `self <= other` as IEEE 754 has it: false where either is not a number.
    pub open spec fn spec_le(self, other: Scalar) -> bool {
        !self.spec_is_nan() && !other.spec_is_nan() && self.rank() <= other.rank()
    }

    /// The encoding with the sign bit flipped.
    pub open spec fn spec_neg(self) -> Scalar {
        if self.bits >= SIGN_BIT {
            Scalar { bits: (self.bits - SIGN_BIT) as u64 }
        } else {
            Scalar { bits: (self.bits + SIGN_BIT) as u64 }
        }
    }

    /// The exponent field of the encoding, from 0 to 2047.
    pub open spec fn exponent_field(self) -> int {
        self.magnitude() / (FRACTION_RANGE as int)
    }

    /// The fraction field of the encoding, below two to the power 52.
    pub open spec fn fraction_field(self) -> int {
        self.magnitude() % (FRACTION_RANGE as int)
    }

    /// The absolute value of a finite number, times two to the power 1074, which
    /// makes it an integer: the fraction alone where the exponent field is 0,
    /// and else the fraction with a leading one, doubled once for each step of
    /// the exponent above 1. For infinity this is a number above all finite ones.
    pub open spec fn scaled_abs(self) -> int {
        if self.exponent_field() == 0 {
            self.fraction_field()
        } else {
            (FRACTION_RANGE + self.fraction_field()) * pow2((self.exponent_field() - 1) as nat)
        }
    }

    /// The value of a finite number, times two to the power 1074.
    pub open spec fn scaled_value(self) -> int {
        if self.spec_is_sign_negative() {
            -self.scaled_abs()
        } else {
            self.scaled_abs()
        }
    }

    /// The magnitude of half a number of the magnitude `magnitude`. Infinity
    /// stays infinity. A number with an exponent to spare loses one step of
    /// it, which halves it exactly. Any smaller number is halved in its
    /// fraction, and where that leaves a half over, the fraction is rounded
    /// to the even neighbour. What is not a number stays so, and is quiet.
    pub open spec fn half_magnitude(magnitude: int) -> int {
        if magnitude > INFINITY_BITS {
            if (magnitude / (QUIET_BIT as int)) % 2 == 1 {
                magnitude
            } else {
                magnitude + QUIET_BIT
            }
        } else if magnitude == INFINITY_BITS {
            magnitude
        } else if magnitude >= 2 * FRACTION_RANGE {
            magnitude - FRACTION_RANGE
        } else if magnitude % 2 == 1 && (magnitude / 2) % 2 == 1 {
            magnitude / 2 + 1
        } else {
            magnitude / 2
        }
    }

    /// Half the number: the product of 0.5 and the number as IEEE 754 rounds it.
    pub open spec fn spec_half(self) -> Scalar {
        if self.spec_is_sign_negative() {
            Scalar { bits: (Self::half_magnitude(self.magnitude()) + SIGN_BIT) as u64 }
        } else {
            Scalar { bits: Self::half_magnitude(self.magnitude()) as u64 }
        }
    }

    /// The number halved `times` times over.
    pub open spec fn spec_halved(self, times: nat) -> Scalar
        decreases times,
    {
        if times == 0 {
            self
        } else {
            self.spec_halved((times - 1) as nat).spec_half()
        }
    }

    /// The number with the encoding `bits`.
    pub fn from_bits(bits: u64) -> (scalar: Scalar)
        ensures
            scalar.bits == bits,
    {
        Scalar { bits }
    }

    /// The encoding of the number.
    pub fn to_bits(self) -> (bits: u64)
        ensures
            bits == self.bits,
    {
        self.bits
    }

    /// Positive zero.
    pub fn zero() -> (scalar: Scalar)
        ensures
            scalar.bits == 0,
    {
        Scalar { bits: 0 }
    }

    /// The number 1.
    pub fn one() -> (scalar: Scalar)
        ensures
            scalar.bits == ONE_BITS,
    {
        Scalar { bits: ONE_BITS }
    }

    /// The encoding without its sign bit.
    fn abs_bits(self) -> (magnitude: u64)
        ensures
            magnitude == self.magnitude(),
    {
        if self.bits >= SIGN_BIT {
            self.bits - SIGN_BIT
        } else {
            self.bits
        }
    }

    /// Whether the sign bit is set.
    #[verifier::when_used_as_spec(spec_is_sign_negative)]
    pub fn is_sign_negative(self) -> (negative: bool)
        ensures
            negative == self.spec_is_sign_negative(),
    {
        self.bits >= SIGN_BIT
    }

    /// Whether the encoding is not a number.
    #[verifier::when_used_as_spec(spec_is_nan)]
    pub fn is_nan(self) -> (nan: bool)
        ensures
            nan == self.spec_is_nan(),
    {
        self.abs_bits() > INFINITY_BITS
    }

    /// Whether `self < other`.
    #[verifier::when_used_as_spec(spec_lt)]
    pub fn lt(self, other: Scalar) -> (less: bool)
        ensures
            less == self.spec_lt(other),
    {
        if self.is_nan() || other.is_nan() {
            false
        } else if self.is_sign_negative() {
            if other.is_sign_negative() {
                other.abs_bits() < self.abs_bits()
            } else {
                self.abs_bits() > 0 || other.abs_bits() > 0
            }
        } else {
            !other.is_sign_negative() && self.abs_bits() < other.abs_bits()
        }
    }

    /// Whether `self <= other`.
    #[verifier::when_used_as_spec(spec_le)]
    pub fn le(self, other: Scalar) -> (at_most: bool)
        ensures
            at_most == self.spec_le(other),
    {
        if self.is_nan() || other.is_nan() {
            false
        } else if self.is_sign_negative() {
            if other.is_sign_negative() {
                other.abs_bits() <= self.abs_bits()
            } else {
                true
            }
        } else if other.is_sign_negative() {
            self.abs_bits() == 0 && other.abs_bits() == 0
        } else {
            self.abs_bits() <= other.abs_bits()
        }
    }

    /// Half the number.
    #[verifier::when_used_as_spec(spec_half)]
    pub fn half(self) -> (halved: Scalar)
        ensures
            halved == self.spec_half(),
    {
        let magnitude = self.abs_bits();
        let halved = if magnitude > INFINITY_BITS {
            if (magnitude / QUIET_BIT) % 2 == 1 {
                magnitude
            } else {
                magnitude + QUIET_BIT
            }
        } else if magnitude == INFINITY_BITS {
            magnitude
        } else if magnitude >= 2 * FRACTION_RANGE {
            magnitude - FRACTION_RANGE
        } else if magnitude % 2 == 1 && (magnitude / 2) % 2 == 1 {
            magnitude / 2 + 1
        } else {
            magnitude / 2
        };
        if self.is_sign_negative() {
            Scalar { bits: halved + SIGN_BIT }
        } else {
            Scalar { bits: halved }
        }
    }

    /// The number halved `times` times over.
    pub fn halved(self, times: u32) -> (halved: Scalar)
        ensures
            halved == self.spec_halved(times as nat),
    {
        let mut halved = self;
        let mut done: u32 = 0;
        while done < times
            invariant
                done <= times,
                halved == self.spec_halved(done as nat),
            decreases times - done,
        {
            halved = halved.half();
            done += 1;
        }
        halved
    }

    /// The negation: the same magnitude with the other sign.
    #[verifier::when_used_as_spec(spec_neg)]
    pub fn neg(self) -> (negated: Scalar)
        ensures
            negated == self.spec_neg(),
    {
        if self.bits >= SIGN_BIT {
            Scalar { bits: self.bits - SIGN_BIT }
        } else {
            Scalar { bits: self.bits + SIGN_BIT }
        }
    }
}

/// Negating twice gives the number back, and negating neither makes nor
/// unmakes a number; the rank and the value change their sign.
pub proof fn lemma_neg(a: Scalar)
    ensures
        a.spec_neg().spec_neg() == a,
        a.spec_neg().magnitude() == a.magnitude(),
        a.spec_neg().spec_is_nan() == a.spec_is_nan(),
        a.spec_neg().rank() == -a.rank(),
        a.spec_neg().scaled_value() == -a.scaled_value(),
{
}

/// Negation turns the order round.
pub proof fn lemma_neg_reverses(a: Scalar, b: Scalar)
    ensures
        a.spec_neg().spec_lt(b.spec_neg()) == b.spec_lt(a),
        a.spec_neg().spec_le(b.spec_neg()) == b.spec_le(a),
{
}

/// Among numbers, `<` is a strict total order up to the two zeros, and `<=`
/// is `<` or equal rank.
pub proof fn lemma_order(a: Scalar, b: Scalar, c: Scalar)
    ensures
        !a.spec_lt(a),
        a.spec_lt(b) && b.spec_lt(c) ==> a.spec_lt(c),
        a.spec_le(b) && b.spec_lt(c) ==> a.spec_lt(c),
        a.spec_lt(b) && b.spec_le(c) ==> a.spec_lt(c),
        a.spec_le(b) && b.spec_le(c) ==> a.spec_le(c),
        a.spec_lt(b) ==> a.spec_le(b) && !b.spec_le(a),
        !a.spec_is_nan() && !b.spec_is_nan() ==> a.spec_lt(b) || b.spec_le(a),
{
}

/// Halving keeps the sign, keeps numbers numbers, and keeps what is not a
/// number so.
pub proof fn lemma_half_kind(a: Scalar)
    ensures
        a.spec_half().spec_is_sign_negative() == a.spec_is_sign_negative(),
        a.spec_half().spec_is_nan() == a.spec_is_nan(),
        a.spec_half().is_finite() == a.is_finite(),
        a.spec_half().magnitude() == Scalar::half_magnitude(a.magnitude()),
{
}

/// Half a finite number has half its value. That is exact where the number
/// has an exponent to spare or an even encoding. Else the exact half lies
/// midway between two numbers, and what is taken is the one of them with the
/// even encoding.
pub proof fn lemma_half_value(a: Scalar)
    requires
        a.is_finite(),
    ensures
        a.exponent_field() >= 2 || a.magnitude() % 2 == 0 ==> 2 * a.spec_half().scaled_value()
            == a.scaled_value(),
        a.exponent_field() < 2 && a.magnitude() % 2 == 1 ==> a.spec_half().magnitude() % 2 == 0 && (
        2 * a.spec_half().scaled_abs() == a.scaled_abs() + 1 || 2 * a.spec_half().scaled_abs()
            == a.scaled_abs() - 1),
{
    let halved = a.spec_half();
    lemma_half_kind(a);
    vstd::arithmetic::power2::lemma2_to64();
    if a.exponent_field() >= 2 {
        let exponent = a.exponent_field();
        let fraction = a.fraction_field();
        assert(halved.magnitude() == (exponent - 1) * FRACTION_RANGE + fraction);
        assert(halved.exponent_field() == exponent - 1 && halved.fraction_field() == fraction) by {
            vstd::arithmetic::div_mod::lemma_fundamental_div_mod_converse(
                halved.magnitude(),
                FRACTION_RANGE as int,
                exponent - 1,
                fraction,
            );
        }
        lemma_pow2_unfold((exponent - 1) as nat);
        let power = pow2((exponent - 2) as nat) as int;
        assert(2 * ((FRACTION_RANGE + fraction) * power) == (FRACTION_RANGE + fraction) * (2
            * power)) by (nonlinear_arith);
    } else {
        lemma_scaled_abs_of_small(a);
        lemma_scaled_abs_of_small(halved);
    }
}

/// A finite number with an exponent field above `times` is divided by two to
/// the power `times` exactly when it is halved that often.
pub proof fn lemma_halved_value(a: Scalar, times: nat)
    requires
        a.is_finite(),
        a.exponent_field() > times,
    ensures
        a.spec_halved(times).is_finite(),
        a.spec_halved(times).exponent_field() == a.exponent_field() - times,
        a.spec_halved(times).fraction_field() == a.fraction_field(),
        a.spec_halved(times).scaled_value() * pow2(times) == a.scaled_value(),
    decreases times,
{
    vstd::arithmetic::power2::lemma2_to64();
    if times > 0 {
        let before = a.spec_halved((times - 1) as nat);
        lemma_halved_value(a, (times - 1) as nat);
        lemma_half_kind(before);
        lemma_half_value(before);
        let exponent = before.exponent_field();
        let fraction = before.fraction_field();
        assert(before.spec_half().magnitude() == (exponent - 1) * FRACTION_RANGE + fraction);
        vstd::arithmetic::div_mod::lemma_fundamental_div_mod_converse(
            before.spec_half().magnitude(),
            FRACTION_RANGE as int,
            exponent - 1,
            fraction,
        );
        lemma_pow2_unfold(times);
        let after = before.spec_half().scaled_value();
        let power = pow2((times - 1) as nat) as int;
        assert(after * (2 * power) == (2 * after) * power) by (nonlinear_arith);
    }
}

/// A number from 0 to 1 stays there however often it is halved, and after
/// the first halving it is at most a half.
pub proof fn lemma_halved_stays_within(a: Scalar, times: nat)
    requires
        (Scalar { bits: 0 }).spec_le(a),
        a.spec_le(Scalar { bits: ONE_BITS }),
    ensures
        (Scalar { bits: 0 }).spec_le(a.spec_halved(times)),
        a.spec_halved(times).spec_le(Scalar { bits: ONE_BITS }),
        times >= 1 ==> a.spec_halved(times).spec_le(Scalar { bits: 0x3FE0_0000_0000_0000 }),
    decreases times,
{
    if times > 0 {
        lemma_halved_stays_within(a, (times - 1) as nat);
        lemma_half_kind(a.spec_halved((times - 1) as nat));
    }
}

/// A number whose exponent field is 0 or 1 has its magnitude for its scaled
/// absolute value.
proof fn lemma_scaled_abs_of_small(a: Scalar)
    requires
        a.magnitude() < 2 * FRACTION_RANGE,
    ensures
        a.scaled_abs() == a.magnitude(),
{
    vstd::arithmetic::power2::lemma2_to64();
    if a.exponent_field() != 0 {
        assert(a.exponent_field() == 1);
        assert((FRACTION_RANGE + a.fraction_field()) * 1 == FRACTION_RANGE + a.fraction_field());
    }
}

/// The scale of `scaled_value` is such that 1 has the value two to the power
/// 1074, a half has half of that, and the smallest number above zero has 1.
pub proof fn lemma_scaled_value_of_one()
    ensures
        (Scalar { bits: ONE_BITS }).scaled_value() == pow2(1074),
        2 * (Scalar { bits: 0x3FE0_0000_0000_0000 }).scaled_value() == pow2(1074),
        (Scalar { bits: 1 }).scaled_value() == 1,
        (Scalar { bits: 0 }).scaled_value() == 0,
{
    vstd::arithmetic::power2::lemma2_to64_rest();
    vstd::arithmetic::power2::lemma_pow2_adds(52, 1022);
    vstd::arithmetic::power2::lemma_pow2_adds(52, 1021);
    lemma_pow2_unfold(1074);
    lemma_pow2_unfold(1073);
    assert((Scalar { bits: ONE_BITS }).exponent_field() == 1023);
    assert((Scalar { bits: 0x3FE0_0000_0000_0000 }).exponent_field() == 1022);
}

/// The larger magnitude encodes the larger absolute value.
pub proof fn lemma_scaled_abs_increases(a: Scalar, b: Scalar)
    requires
        a.magnitude() < b.magnitude(),
    ensures
        a.scaled_abs() < b.scaled_abs(),
{
    let range = FRACTION_RANGE as int;
    let (ea, fa) = (a.exponent_field(), a.fraction_field());
    let (eb, fb) = (b.exponent_field(), b.fraction_field());
    assert(a.magnitude() == ea * range + fa && 0 <= fa < range && 0 <= ea);
    assert(b.magnitude() == eb * range + fb && 0 <= fb < range && 0 <= eb);
    if ea == eb {
        if ea > 0 {
            let power = pow2((ea - 1) as nat) as int;
            lemma_pow2_pos((ea - 1) as nat);
            assert((range + fa) * power < (range + fb) * power) by (nonlinear_arith)
                requires
                    fa < fb,
                    power > 0,
            ;
        }
    } else {
        assert(ea < eb);
        // The value of `a` is below two to the power `ea`, scaled.
        let ceiling = range * pow2(ea as nat);
        if ea == 0 {
            assert(pow2(0) == 1) by {
                lemma_pow2_pos(0);
                vstd::arithmetic::power2::lemma2_to64();
            }
            assert(a.scaled_abs() < ceiling);
        } else {
            let power = pow2((ea - 1) as nat) as int;
            lemma_pow2_pos((ea - 1) as nat);
            lemma_pow2_unfold(ea as nat);
            assert((range + fa) * power < range * (2 * power)) by (nonlinear_arith)
                requires
                    0 <= fa < range,
                    power > 0,
            ;
        }
        // The value of `b` is at least two to the power `eb - 1`, scaled.
        let floor = pow2((eb - 1) as nat) as int;
        lemma_pow2_pos((eb - 1) as nat);
        if ea < eb - 1 {
            lemma_pow2_strictly_increases(ea as nat, (eb - 1) as nat);
        }
        assert(range * pow2(ea as nat) <= (range + fb) * floor) by (nonlinear_arith)
            requires
                pow2(ea as nat) <= floor,
                0 <= fb,
                range > 0,
        ;
    }
}

/// Numbers compare as their values do: the rank is larger exactly where the
/// value is, and equal exactly where the value is.
pub proof fn lemma_rank_orders_values(a: Scalar, b: Scalar)
    ensures
        a.rank() < b.rank() <==> a.scaled_value() < b.scaled_value(),
        a.rank() == b.rank() <==> a.scaled_value() == b.scaled_value(),
{
    let zero = Scalar { bits: 0 };
    assert(zero.scaled_abs() == 0);
    if a.magnitude() > 0 {
        lemma_scaled_abs_increases(zero, a);
    } else {
        assert(a.scaled_abs() == 0);
    }
    if b.magnitude() > 0 {
        lemma_scaled_abs_increases(zero, b);
    } else {
        assert(b.scaled_abs() == 0);
    }
    if a.magnitude() < b.magnitude() {
        lemma_scaled_abs_increases(a, b);
    } else if b.magnitude() < a.magnitude() {
        lemma_scaled_abs_increases(b, a);
    } else {
        assert(a.scaled_abs() == b.scaled_abs());
    }
}

} // verus!
