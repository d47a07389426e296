//! Ranges of numbers, for containment tests and for clamping.

use crate::scalar::{Scalar, MAX_BITS, SIGN_BIT};
use vstd::prelude::*;

verus! {

/// The numbers from `min` to `max`. Whether the ends belong to it is up to
/// the test that is made: `contains` counts them in, `surrounds` does not.
#[derive(Clone, Copy, Debug)]
pub struct Interval {
    pub min: Scalar,
    pub max: Scalar,
}

impl Interval {
    /// `min <= value <= max`.
    pub open spec fn spec_contains(&self, value: Scalar) -> bool {
        self.min.spec_le(value) && value.spec_le(self.max)
    }

    /// `min < value < max`.
    pub open spec fn spec_surrounds(&self, value: Scalar) -> bool {
        self.min.spec_lt(value) && value.spec_lt(self.max)
    }

    /// Both ends are numbers and `min <= max`: the interval holds at least one number.
    pub open spec fn inhabited(&self) -> bool {
        self.min.spec_le(self.max)
    }

    /// `value` moved to the nearer end where it lies outside; what is not a
    /// number stays as it is. On an interval that holds no number, where
    /// `min` lies above `max` or an end is not a number, this is `min` for
    /// what lies below `min`, else `max` for what lies above `max`, else
    /// `value`.
    pub open spec fn spec_clamp(&self, value: Scalar) -> Scalar {
        if value.spec_lt(self.min) {
            self.min
        } else if self.max.spec_lt(value) {
            self.max
        } else {
            value
        }
    }

    /// The interval that holds nothing: it runs from the largest finite
    /// number down to the smallest.
    pub open spec fn spec_empty() -> Interval {
        Interval {
            min: Scalar { bits: MAX_BITS },
            max: Scalar { bits: (MAX_BITS + SIGN_BIT) as u64 },
        }
    }

    /// The interval of all finite numbers.
    pub open spec fn spec_universe() -> Interval {
        Interval {
            min: Scalar { bits: (MAX_BITS + SIGN_BIT) as u64 },
            max: Scalar { bits: MAX_BITS },
        }
    }

    /// The interval from `min` to `max`.
    pub fn new(min: Scalar, max: Scalar) -> (interval: Self)
        ensures
            interval.min == min,
            interval.max == max,
    {
        Self { min, max }
    }

    /// The interval that holds nothing.
    #[verifier::when_used_as_spec(spec_empty)]
    pub fn empty() -> (interval: Self)
        ensures
            interval == Self::spec_empty(),
    {
        Self { min: Scalar { bits: MAX_BITS }, max: Scalar { bits: MAX_BITS + SIGN_BIT } }
    }

    /// The interval of all finite numbers.
    #[verifier::when_used_as_spec(spec_universe)]
    pub fn universe() -> (interval: Self)
        ensures
            interval == Self::spec_universe(),
    {
        Self { min: Scalar { bits: MAX_BITS + SIGN_BIT }, max: Scalar { bits: MAX_BITS } }
    }

    /// Whether `value` lies in the interval, the ends counted in.
    #[verifier::when_used_as_spec(spec_contains)]
    pub fn contains(&self, value: Scalar) -> (inside: bool)
        ensures
            inside == self.spec_contains(value),
    {
        self.min.le(value) && value.le(self.max)
    }

    /// Whether `value` lies strictly between the ends.
    #[verifier::when_used_as_spec(spec_surrounds)]
    pub fn surrounds(&self, value: Scalar) -> (inside: bool)
        ensures
            inside == self.spec_surrounds(value),
    {
        self.min.lt(value) && value.lt(self.max)
    }

    /// Saturates `value` into the interval.
    #[verifier::when_used_as_spec(spec_clamp)]
    pub fn clamp(&self, value: Scalar) -> (clamped: Scalar)
        ensures
            clamped == self.spec_clamp(value),
    {
        if value.lt(self.min) {
            self.min
        } else if self.max.lt(value) {
            self.max
        } else {
            value
        }
    }
}

/// Clamping a second time changes nothing.
pub proof fn lemma_clamp_idempotent(interval: Interval, value: Scalar)
    requires
        interval.inhabited(),
    ensures
        interval.spec_clamp(interval.spec_clamp(value)) == interval.spec_clamp(value),
{
}

/// A number is clamped into the interval, and a number of the interval is
/// left where it is.
pub proof fn lemma_clamp_contained(interval: Interval, value: Scalar)
    requires
        interval.inhabited(),
        !value.spec_is_nan(),
    ensures
        interval.spec_contains(interval.spec_clamp(value)),
        interval.spec_contains(value) ==> interval.spec_clamp(value) == value,
{
}

/// What an interval surrounds it contains, and it surrounds neither of its ends.
pub proof fn lemma_surrounds_contains(interval: Interval, value: Scalar)
    ensures
        interval.spec_surrounds(value) ==> interval.spec_contains(value),
        !interval.spec_surrounds(interval.min),
        !interval.spec_surrounds(interval.max),
{
}

/// The empty interval contains nothing, and the universe contains every
/// finite number.
pub proof fn lemma_empty_and_universe(value: Scalar)
    ensures
        !Interval::spec_empty().spec_contains(value),
        !Interval::spec_empty().spec_surrounds(value),
        value.is_finite() ==> Interval::spec_universe().spec_contains(value),
{
}

} // verus!
