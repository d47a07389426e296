//! Points and directions in space, held by the encodings of their coordinates.

use crate::scalar::Scalar;
use vstd::prelude::*;

verus! {

/// Three coordinates.
#[derive(Clone, Copy, Debug)]
pub struct Vector3 {
    pub x: Scalar,
    pub y: Scalar,
    pub z: Scalar,
}

impl Vector3 {
    /// The vector with every coordinate negated.
    pub open spec fn spec_neg(self) -> Vector3 {
        Vector3 { x: self.x.spec_neg(), y: self.y.spec_neg(), z: self.z.spec_neg() }
    }

    /// The vector with every coordinate halved `times` times over.
    pub open spec fn spec_halved(self, times: nat) -> Vector3 {
        Vector3 {
            x: self.x.spec_halved(times),
            y: self.y.spec_halved(times),
            z: self.z.spec_halved(times),
        }
    }

    /// The vector with the given coordinates.
    pub fn new(x: Scalar, y: Scalar, z: Scalar) -> (vector: Self)
        ensures
            vector.x == x,
            vector.y == y,
            vector.z == z,
    {
        Self { x, y, z }
    }

    /// The vector halved `times` times over.
    pub fn halved(self, times: u32) -> (halved: Self)
        ensures
            halved == self.spec_halved(times as nat),
    {
        Self { x: self.x.halved(times), y: self.y.halved(times), z: self.z.halved(times) }
    }

    /// The vector that points the other way.
    #[verifier::when_used_as_spec(spec_neg)]
    pub fn neg(self) -> (negated: Self)
        ensures
            negated == self.spec_neg(),
    {
        Self { x: self.x.neg(), y: self.y.neg(), z: self.z.neg() }
    }
}

} // verus!
