//! The picture: its size, the order of its pixels, and how a colour channel
//! becomes a byte.

use crate::interval::Interval;
use crate::scalar::{Scalar, FRACTION_RANGE};
use vstd::arithmetic::div_mod::{
    lemma_basic_div, lemma_div_denominator, lemma_div_is_ordered, lemma_div_multiples_vanish,
    lemma_fundamental_div_mod_converse,
};
use vstd::arithmetic::power2::{
    lemma2_to64, lemma2_to64_rest, lemma_pow2_adds, lemma_pow2_pos, lemma_pow2_strictly_increases,
    pow2,
};
use vstd::bits::lemma_u64_shr_is_div;
use vstd::prelude::*;

verus! {

/// The width of the picture, in pixels.
pub const IMAGE_WIDTH: u32 = 400;

/// The sides of the picture are as `ASPECT_WIDTH` to `ASPECT_HEIGHT`.
pub const ASPECT_WIDTH: u32 = 16;

/// The sides of the picture are as `ASPECT_WIDTH` to `ASPECT_HEIGHT`.
pub const ASPECT_HEIGHT: u32 = 9;

/// The number of rays that are averaged for one pixel.
pub const SAMPLES_PER_PIXEL: u32 = 50;

/// The depth of a light path that starts at the camera.
pub const MAX_DEPTH: u32 = 50;

/// The encoding of 0.999, the brightest that a channel gets.
pub const BRIGHTEST_BITS: u64 = 0x3FEF_F7CE_D916_872B;

/// The height of a picture of the given width whose sides are as
/// `aspect_width` to `aspect_height`: the width divided by that ratio,
/// rounded down, but at least 1 and at most the largest 32-bit number.
pub open spec fn spec_image_height(width: nat, aspect_width: nat, aspect_height: nat) -> nat {
    let height = width * aspect_height / aspect_width;
    if height < 1 {
        1
    } else if height > u32::MAX {
        u32::MAX as nat
    } else {
        height
    }
}

/// Computes the height of a picture from its width and the ratio of its sides.
pub fn image_height(width: u32, aspect_width: u32, aspect_height: u32) -> (height: u32)
    requires
        aspect_width > 0,
    ensures
        height == spec_image_height(width as nat, aspect_width as nat, aspect_height as nat),
{
    assert(width * aspect_height <= 0xFFFF_FFFF * 0xFFFF_FFFF) by (nonlinear_arith)
        requires
            width <= 0xFFFF_FFFF,
            aspect_height <= 0xFFFF_FFFF,
    ;
    let height: u64 = width as u64 * aspect_height as u64 / aspect_width as u64;
    if height < 1 {
        1
    } else if height > u32::MAX as u64 {
        u32::MAX
    } else {
        height as u32
    }
}

/// The place of the pixel `(x, y)` when the pixels are counted row by row,
/// each row from the left.
pub open spec fn spec_pixel_index(width: nat, x: nat, y: nat) -> nat {
    y * width + x
}

/// Counts the pixels before `(x, y)` in row order.
pub fn pixel_index(width: u32, x: u32, y: u32) -> (index: u64)
    requires
        x < width,
    ensures
        index == spec_pixel_index(width as nat, x as nat, y as nat),
{
    assert(y * width <= 0xFFFF_FFFF * 0xFFFF_FFFF) by (nonlinear_arith)
        requires
            width <= 0xFFFF_FFFF,
            y <= 0xFFFF_FFFF,
    ;
    y as u64 * width as u64 + x as u64
}

/// Row order counts every pixel once: the pixel of an index is the only one
/// that has this index.
pub proof fn lemma_pixel_order(width: nat, x: nat, y: nat)
    requires
        x < width,
    ensures
        x == spec_pixel_index(width, x, y) % width,
        y == spec_pixel_index(width, x, y) / width,
{
    lemma_fundamental_div_mod_converse(
        spec_pixel_index(width, x, y) as int,
        width as int,
        y as int,
        x as int,
    );
}

/// The range of a colour channel, from 0 to 0.999.
pub open spec fn spec_intensity() -> Interval {
    Interval { min: Scalar { bits: 0 }, max: Scalar { bits: BRIGHTEST_BITS } }
}

/// The range of a colour channel.
#[verifier::when_used_as_spec(spec_intensity)]
pub fn intensity() -> (range: Interval)
    ensures
        range == spec_intensity(),
        range.inhabited(),
{
    Interval::new(Scalar::zero(), Scalar::from_bits(BRIGHTEST_BITS))
}

/// 256 times the number, rounded down to a whole byte: 0 for what is not a
/// number and for what is below zero, 255 for what would be above.
pub open spec fn spec_quantize(channel: Scalar) -> int {
    if channel.spec_is_nan() || channel.spec_is_sign_negative() {
        0
    } else if channel.scaled_abs() * 256 / (pow2(1074) as int) > 255 {
        255
    } else {
        channel.scaled_abs() * 256 / (pow2(1074) as int)
    }
}

/// The byte of a colour channel: the channel clamped to the range from 0 to
/// 0.999, then 256 times that, rounded down.
pub open spec fn spec_encode_channel(channel: Scalar) -> int {
    spec_quantize(spec_intensity().spec_clamp(channel))
}

/// What `spec_quantize` gives is a byte.
pub proof fn lemma_quantize_is_a_byte(channel: Scalar)
    ensures
        0 <= spec_quantize(channel) <= 255,
        0 <= spec_encode_channel(channel) <= 255,
{
    lemma_scaled_abs_is_not_negative(channel);
    lemma_scaled_abs_is_not_negative(spec_intensity().spec_clamp(channel));
    lemma_pow2_pos(1074);
    vstd::arithmetic::div_mod::lemma_div_pos_is_pos(
        channel.scaled_abs() * 256,
        pow2(1074) as int,
    );
    vstd::arithmetic::div_mod::lemma_div_pos_is_pos(
        spec_intensity().spec_clamp(channel).scaled_abs() * 256,
        pow2(1074) as int,
    );
}

/// An absolute value is not below zero.
proof fn lemma_scaled_abs_is_not_negative(channel: Scalar)
    ensures
        0 <= channel.scaled_abs(),
{
    if channel.exponent_field() > 0 {
        let power = pow2((channel.exponent_field() - 1) as nat) as int;
        lemma_pow2_pos((channel.exponent_field() - 1) as nat);
        assert(0 <= (FRACTION_RANGE + channel.fraction_field()) * power) by (nonlinear_arith)
            requires
                0 <= channel.fraction_field(),
                0 < power,
        ;
    }
}

/// Computes `spec_quantize`.
pub fn quantize(channel: Scalar) -> (level: u8)
    ensures
        level == spec_quantize(channel),
{
    if channel.is_nan() || channel.is_sign_negative() {
        return 0;
    }
    let exponent = channel.bits / FRACTION_RANGE;
    let fraction = channel.bits % FRACTION_RANGE;
    if exponent >= 1023 {
        proof {
            lemma_one_or_more(channel);
        }
        return 255;
    }
    let significand = if exponent == 0 {
        fraction
    } else {
        FRACTION_RANGE + fraction
    };
    let doublings = if exponent == 0 {
        0
    } else {
        exponent - 1
    };
    let shift = 1066 - doublings;
    proof {
        lemma_below_one(channel, significand as int, doublings as nat);
    }
    if shift >= 64 {
        proof {
            lemma2_to64();
            lemma_pow2_pos(shift as nat);
            if shift > 64 {
                lemma_pow2_strictly_increases(64, shift as nat);
            }
            lemma_basic_div(significand as int, pow2(shift as nat) as int);
        }
        0
    } else {
        proof {
            lemma_u64_shr_is_div(significand, shift);
        }
        (significand >> shift) as u8
    }
}

/// Turns a colour channel into a byte.
pub fn encode_channel(channel: Scalar) -> (level: u8)
    ensures
        level == spec_encode_channel(channel),
{
    quantize(intensity().clamp(channel))
}

/// A number that is 1 or more, infinity too, has 256 or more 256ths.
proof fn lemma_one_or_more(channel: Scalar)
    requires
        !channel.spec_is_sign_negative(),
        channel.exponent_field() >= 1023,
    ensures
        channel.scaled_abs() * 256 / (pow2(1074) as int) >= 256,
{
    let exponent = channel.exponent_field();
    let fraction = channel.fraction_field();
    let unit = pow2(1074) as int;
    let power = pow2((exponent - 1) as nat) as int;
    lemma_pow2_pos(1074);
    lemma2_to64_rest();
    lemma_pow2_adds(52, 1022);
    if exponent - 1 > 1022 {
        lemma_pow2_strictly_increases(1022, (exponent - 1) as nat);
    }
    assert(unit <= (FRACTION_RANGE + fraction) * power) by (nonlinear_arith)
        requires
            unit == FRACTION_RANGE * pow2(1022),
            pow2(1022) <= power,
            0 <= fraction,
    ;
    assert(unit * 256 <= channel.scaled_abs() * 256);
    lemma_div_is_ordered(unit * 256, channel.scaled_abs() * 256, unit);
    lemma_div_multiples_vanish(256, unit);
}

/// The 256ths of a number below 1 are its significand without its lowest
/// `1066 - doublings` bits, where the number is its significand times two to
/// the power `doublings - 1074`. There are fewer than 256 of them.
proof fn lemma_below_one(channel: Scalar, significand: int, doublings: nat)
    requires
        !channel.spec_is_sign_negative(),
        channel.exponent_field() <= 1022,
        significand == if channel.exponent_field() == 0 {
            channel.fraction_field()
        } else {
            FRACTION_RANGE + channel.fraction_field()
        },
        doublings == if channel.exponent_field() == 0 {
            0
        } else {
            channel.exponent_field() - 1
        },
    ensures
        0 <= significand < 0x20_0000_0000_0000,
        channel.scaled_abs() * 256 / (pow2(1074) as int) == significand / (pow2(
            (1066 - doublings) as nat,
        ) as int),
        significand / (pow2((1066 - doublings) as nat) as int) < 256,
{
    let shift = (1066 - doublings) as nat;
    let kept = pow2(doublings + 8) as int;
    let dropped = pow2(shift) as int;
    lemma2_to64();
    lemma2_to64_rest();
    lemma_pow2_pos(doublings + 8);
    lemma_pow2_pos(shift);
    lemma_pow2_adds(doublings, 8);
    lemma_pow2_adds(doublings + 8, shift);
    assert(pow2(1074) == kept * dropped);
    assert(channel.scaled_abs() == significand * pow2(doublings)) by {
        if channel.exponent_field() == 0 {
            assert(pow2(0) == 1);
        }
    }
    assert(channel.scaled_abs() * 256 == kept * significand) by (nonlinear_arith)
        requires
            channel.scaled_abs() == significand * pow2(doublings),
            kept == pow2(doublings) * 256,
    ;
    lemma_div_multiples_vanish(significand, kept);
    lemma_div_denominator(kept * significand, kept, dropped);
    // Fewer than 256: the significand has 53 bits, and at least 45 are dropped.
    if shift > 45 {
        lemma_pow2_strictly_increases(45, shift);
    }
    assert(significand < 256 * dropped);
    lemma_div_is_ordered(significand, 256 * dropped - 1, dropped);
    assert((256 * dropped - 1) / dropped < 256) by {
        lemma_fundamental_div_mod_converse(256 * dropped - 1, dropped, 255, dropped - 1);
    }
}

} // verus!
