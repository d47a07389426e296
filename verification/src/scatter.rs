//! The choices made while a scattered direction is drawn at random.

use crate::scalar::Scalar;
use crate::vector::Vector3;
use vstd::prelude::*;

verus! {

/// The seed of the random stream. It is the same for every picture, so that
/// the same scene gives the same picture.
pub const SEED: u128 = 42;

/// A point drawn from the cube round the unit sphere is kept where its
/// distance from the centre is below 1.
pub open spec fn spec_in_unit_sphere(magnitude: Scalar) -> bool {
    magnitude.spec_lt(Scalar { bits: crate::scalar::ONE_BITS })
}

/// Whether a point at the distance `magnitude` from the centre lies inside
/// the unit sphere.
#[verifier::when_used_as_spec(spec_in_unit_sphere)]
pub fn in_unit_sphere(magnitude: Scalar) -> (inside: bool)
    ensures
        inside == spec_in_unit_sphere(magnitude),
{
    magnitude.lt(Scalar::one())
}

/// The one of `direction` and its negation that lies on the side of a
/// normal, where `facing` is the dot product of `direction` with that normal:
/// `direction` itself where `facing` is above zero, and else its negation.
pub open spec fn spec_on_hemisphere(direction: Vector3, facing: Scalar) -> Vector3 {
    if (Scalar { bits: 0 }).spec_lt(facing) {
        direction
    } else {
        direction.spec_neg()
    }
}

/// Turns `direction` to the side of a normal.
#[verifier::when_used_as_spec(spec_on_hemisphere)]
pub fn on_hemisphere(direction: Vector3, facing: Scalar) -> (turned: Vector3)
    ensures
        turned == spec_on_hemisphere(direction, facing),
{
    if Scalar::zero().lt(facing) {
        direction
    } else {
        direction.neg()
    }
}

} // verus!
