//! Which point of which surface a ray meets first.
//!
//! A ray meets a sphere where a quadratic in the ray parameter has a root.
//! The arithmetic that gives the discriminant and the two roots is done
//! elsewhere; here the root that counts is chosen, for one sphere and over a
//! whole scene.

use crate::hit::Hit;
use crate::interval::Interval;
use crate::scalar::{lemma_order, Scalar, MAX_BITS};
use crate::vector::Vector3;
use vstd::prelude::*;

verus! {

/// The encoding of 0.001, below which a ray parameter counts as the ray's own
/// starting point.
pub const SELF_HIT_BITS: u64 = 0x3F50_624D_D2F1_A9FC;

/// What the quadratic of a ray and a sphere gave: the discriminant, and the
/// roots `(h - sqrt(d)) / a` and `(h + sqrt(d)) / a`.
#[derive(Clone, Copy, Debug)]
pub struct Crossing {
    pub discriminant: Scalar,
    pub near: Scalar,
    pub far: Scalar,
}

impl Crossing {
    /// The ray parameter at which the ray meets the sphere within `ray_t`:
    /// none where the discriminant is below zero; else the near root where
    /// `ray_t` surrounds it, else the far root where `ray_t` surrounds that.
    pub open spec fn spec_root(&self, ray_t: Interval) -> Option<Scalar> {
        if self.discriminant.spec_lt(Scalar { bits: 0 }) {
            None
        } else if ray_t.spec_surrounds(self.near) {
            Some(self.near)
        } else if ray_t.spec_surrounds(self.far) {
            Some(self.far)
        } else {
            None
        }
    }

    /// `t` is a root of a quadratic that has roots, and `ray_t` surrounds it.
    pub open spec fn admits(&self, t: Scalar, ray_t: Interval) -> bool {
        &&& !self.discriminant.spec_lt(Scalar { bits: 0 })
        &&& t == self.near || t == self.far
        &&& ray_t.spec_surrounds(t)
    }

    /// The near root is not above the far one, as far as both are numbers.
    pub open spec fn ordered(&self) -> bool {
        self.near.spec_is_nan() || self.far.spec_is_nan() || self.near.spec_le(self.far)
    }

    /// `t` is at most every root that `ray_t` admits; below every one, if `strictly`.
    pub open spec fn not_before(&self, t: Scalar, ray_t: Interval, strictly: bool) -> bool {
        &&& self.admits(self.near, ray_t) ==> t.spec_le(self.near) && (strictly ==> t.spec_lt(
            self.near,
        ))
        &&& self.admits(self.far, ray_t) ==> t.spec_le(self.far) && (strictly ==> t.spec_lt(
            self.far,
        ))
    }

    /// The crossing with the given discriminant and roots.
    pub fn new(discriminant: Scalar, near: Scalar, far: Scalar) -> (crossing: Self)
        ensures
            crossing.discriminant == discriminant,
            crossing.near == near,
            crossing.far == far,
    {
        Self { discriminant, near, far }
    }

    /// The ray parameter at which the ray meets the sphere within `ray_t`, if it does.
    #[verifier::when_used_as_spec(spec_root)]
    pub fn root(&self, ray_t: Interval) -> (root: Option<Scalar>)
        ensures
            root == self.spec_root(ray_t),
    {
        if self.discriminant.lt(Scalar::zero()) {
            return None;
        }
        if ray_t.surrounds(self.near) {
            Some(self.near)
        } else if ray_t.surrounds(self.far) {
            Some(self.far)
        } else {
            None
        }
    }
}

/// A root that is found is one of the two roots, and the window surrounds
/// it. Within `spec_reach` that makes it a finite number above zero: the
/// meeting lies ahead on the ray.
pub proof fn lemma_root_lies_ahead(crossing: Crossing, ray_t: Interval)
    ensures
        crossing.spec_root(ray_t) matches Some(t) ==> crossing.admits(t, ray_t),
        crossing.spec_root(spec_reach()) matches Some(t) ==> (Scalar { bits: 0 }).spec_lt(t)
            && t.is_finite(),
        crossing.discriminant.spec_lt(Scalar { bits: 0 }) ==> crossing.spec_root(ray_t) is None,
{
}

/// A ray that is aimed at a sphere from outside meets it at the near root
/// and from outside. The quadratic has roots, the window surrounds the near
/// one, and the ray runs against the outward normal at the meeting, which is
/// to say that `facing`, the dot product of its direction with that normal,
/// is below zero. Then the near root is the one that counts, the hit faces
/// front, and it keeps the outward normal, which points back at the ray.
/// Within `spec_reach` the meeting lies ahead of the ray's start.
pub proof fn lemma_aimed_ray_hits_front(
    crossing: Crossing,
    ray_t: Interval,
    facing: Scalar,
    outward: Vector3,
)
    requires
        !crossing.discriminant.spec_lt(Scalar { bits: 0 }),
        ray_t.spec_surrounds(crossing.near),
        facing.spec_lt(Scalar { bits: 0 }),
    ensures
        crossing.spec_root(ray_t) == Some(crossing.near),
        ray_t == spec_reach() ==> (Scalar { bits: 0 }).spec_lt(crossing.near),
        Hit::from_outside(facing),
        Hit::against_ray(facing, outward) == outward,
{
}

/// The window of ray parameters in which the search goes on after `found`:
/// it ends at the parameter that was found, if one was.
pub open spec fn narrowed(ray_t: Interval, found: Option<(int, Scalar)>) -> Interval {
    match found {
        Some((_, t)) => Interval { min: ray_t.min, max: t },
        None => ray_t,
    }
}

/// The surface that a ray meets first within `ray_t`, by its place in
/// `crossings`, and the ray parameter there. The surfaces are asked one after
/// the other, each within a window that ends at the nearest meeting so far.
pub open spec fn spec_closest(crossings: Seq<Crossing>, ray_t: Interval) -> Option<(int, Scalar)>
    decreases crossings.len(),
{
    if crossings.len() == 0 {
        None
    } else {
        let before = spec_closest(crossings.drop_last(), ray_t);
        match crossings.last().spec_root(narrowed(ray_t, before)) {
            Some(t) => Some((crossings.len() - 1, t)),
            None => before,
        }
    }
}

/// The window in which a ray is traced: from just after its start to the
/// largest finite number.
pub open spec fn spec_reach() -> Interval {
    Interval { min: Scalar { bits: SELF_HIT_BITS }, max: Scalar { bits: MAX_BITS } }
}

/// The window in which a ray is traced.
#[verifier::when_used_as_spec(spec_reach)]
pub fn reach() -> (ray_t: Interval)
    ensures
        ray_t == spec_reach(),
{
    Interval::new(Scalar::from_bits(SELF_HIT_BITS), Scalar::from_bits(MAX_BITS))
}

/// Finds the surface that a ray meets first within `ray_t`.
pub fn closest(crossings: &Vec<Crossing>, ray_t: Interval) -> (found: Option<(usize, Scalar)>)
    ensures
        match found {
            Some((i, t)) => spec_closest(crossings@, ray_t) == Some((i as int, t)),
            None => spec_closest(crossings@, ray_t) is None,
        },
{
    let mut found: Option<(usize, Scalar)> = None;
    let mut window = ray_t;
    let mut k: usize = 0;
    while k < crossings.len()
        invariant
            k <= crossings.len(),
            match found {
                Some((i, t)) => spec_closest(crossings@.take(k as int), ray_t) == Some(
                    (i as int, t),
                ),
                None => spec_closest(crossings@.take(k as int), ray_t) is None,
            },
            window == narrowed(ray_t, spec_closest(crossings@.take(k as int), ray_t)),
        decreases crossings.len() - k,
    {
        proof {
            assert(crossings@.take(k + 1).drop_last() =~= crossings@.take(k as int));
            assert(crossings@.take(k + 1).last() == crossings@[k as int]);
        }
        if let Some(t) = crossings[k].root(window) {
            found = Some((k, t));
            window = Interval::new(ray_t.min, t);
        }
        k += 1;
    }
    proof {
        assert(crossings@.take(k as int) =~= crossings@);
    }
    found
}

/// What `spec_closest` finds is the nearest meeting there is. If it finds
/// nothing, no surface has a root that `ray_t` admits. If it finds surface
/// `i` at `t`, then `t` is such a root of that surface, no surface has one
/// below `t`, and the surfaces before `i` have none as low as `t`.
pub proof fn lemma_closest_is_nearest(crossings: Seq<Crossing>, ray_t: Interval)
    requires
        forall|j: int| 0 <= j < crossings.len() ==> (#[trigger] crossings[j]).ordered(),
    ensures
        match spec_closest(crossings, ray_t) {
            Some((i, t)) => {
                &&& 0 <= i < crossings.len()
                &&& crossings[i].admits(t, ray_t)
                &&& forall|j: int|
                    0 <= j < crossings.len() ==> (#[trigger] crossings[j]).not_before(
                        t,
                        ray_t,
                        j < i,
                    )
            },
            None => forall|j: int|
                0 <= j < crossings.len() ==> !(#[trigger] crossings[j]).admits(
                    crossings[j].near,
                    ray_t,
                ) && !crossings[j].admits(crossings[j].far, ray_t),
        },
    decreases crossings.len(),
{
    if crossings.len() > 0 {
        let earlier = crossings.drop_last();
        let last = crossings.last();
        let before = spec_closest(earlier, ray_t);
        let window = narrowed(ray_t, before);
        assert forall|j: int| 0 <= j < earlier.len() implies (#[trigger] earlier[j]).ordered() by {
            assert(earlier[j] == crossings[j]);
        }
        lemma_closest_is_nearest(earlier, ray_t);
        assert(last.ordered());
        match last.spec_root(window) {
            Some(r) => {
                let i = crossings.len() - 1;
                assert forall|j: int| 0 <= j < crossings.len() implies (
                #[trigger] crossings[j]).not_before(r, ray_t, j < i) by {
                    if j < i {
                        assert(earlier[j] == crossings[j]);
                        if let Some((_, t)) = before {
                            assert(earlier[j].not_before(t, ray_t, false));
                            lemma_order(r, t, crossings[j].near);
                            lemma_order(r, t, crossings[j].far);
                        }
                    } else {
                        lemma_order(r, window.max, last.near);
                        lemma_order(last.near, last.far, r);
                    }
                }
                if let Some((_, t)) = before {
                    lemma_order(r, t, ray_t.max);
                }
            },
            None => {
                match before {
                    Some((i, t)) => {
                        assert forall|j: int| 0 <= j < crossings.len() implies (
                        #[trigger] crossings[j]).not_before(t, ray_t, j < i) by {
                            if j < earlier.len() {
                                assert(earlier[j] == crossings[j]);
                            } else {
                                lemma_order(t, last.near, last.far);
                            }
                        }
                        assert(crossings[i] == earlier[i]);
                    },
                    None => {
                        assert forall|j: int| 0 <= j < crossings.len() implies !(
                        #[trigger] crossings[j]).admits(crossings[j].near, ray_t)
                            && !crossings[j].admits(crossings[j].far, ray_t) by {
                            if j < earlier.len() {
                                assert(earlier[j] == crossings[j]);
                            }
                        }
                    },
                }
            },
        }
    }
}

} // verus!
