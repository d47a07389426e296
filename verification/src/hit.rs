//! The record of a ray meeting a surface.

use crate::scalar::Scalar;
use crate::vector::Vector3;
use vstd::prelude::*;

verus! {

/// Where a ray met a surface: the point, the normal there turned against the
/// ray, the ray parameter, and whether the ray came from outside.
#[derive(Clone, Copy, Debug)]
pub struct Hit {
    pub p: Vector3,
    pub n: Vector3,
    pub t: Scalar,
    pub front_face: bool,
}

impl Hit {
    /// The ray comes from outside where it runs against the outward normal:
    /// where `facing`, the dot product of its direction with that normal, is
    /// below zero.
    pub open spec fn from_outside(facing: Scalar) -> bool {
        facing.spec_lt(Scalar { bits: 0 })
    }

    /// The normal turned against the ray: the outward normal where the ray
    /// comes from outside, and else its negation.
    pub open spec fn against_ray(facing: Scalar, outward: Vector3) -> Vector3 {
        if Self::from_outside(facing) {
            outward
        } else {
            outward.spec_neg()
        }
    }

    /// The hit at the point `p` and the ray parameter `t`, on a surface whose
    /// outward normal there is `n`. `facing` is the dot product of the ray's
    /// direction with `n`.
    pub fn new(facing: Scalar, p: Vector3, n: Vector3, t: Scalar) -> (hit: Self)
        ensures
            hit.p == p,
            hit.t == t,
            hit.front_face == Self::from_outside(facing),
            hit.n == Self::against_ray(facing, n),
    {
        let front_face = facing.lt(Scalar::zero());
        let n = if front_face {
            n
        } else {
            n.neg()
        };
        Self { p, n, t, front_face }
    }
}

} // verus!
