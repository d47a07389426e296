//! How deep a light path goes and how much of the sky it brings back.
//!
//! A path starts at the camera with a depth. Each ray of the path either
//! meets a surface, where the path bounces on with one less depth and half
//! of what the next ray gathers, or it escapes to the sky. A path whose depth
//! is used up gathers nothing. So a path brings back either nothing, or the
//! sky as its last ray sees it, halved once for each bounce.

use crate::scalar::{lemma_halved_stays_within, Scalar, ONE_BITS};
use crate::surface::{closest, reach, spec_closest, spec_reach, Crossing};
use crate::vector::Vector3;
use vstd::prelude::*;

verus! {

/// What a path gathers.
#[derive(Clone, Copy, Debug, PartialEq, Eq, Structural)]
pub enum Radiance {
    /// No light at all.
    Black,
    /// The sky in the direction of the last ray, halved `halvings` times.
    Sky { halvings: u32 },
}

impl Radiance {
    /// The colour of what was gathered, where the sky in the direction of the
    /// last ray has the colour `sky`: pure black, or `sky` halved once for
    /// each bounce.
    pub open spec fn spec_colour(self, sky: Vector3) -> Vector3 {
        match self {
            Radiance::Black => Vector3 {
                x: Scalar { bits: 0 },
                y: Scalar { bits: 0 },
                z: Scalar { bits: 0 },
            },
            Radiance::Sky { halvings } => sky.spec_halved(halvings as nat),
        }
    }

    /// Computes the colour of what was gathered.
    #[verifier::when_used_as_spec(spec_colour)]
    pub fn colour(self, sky: Vector3) -> (colour: Vector3)
        ensures
            colour == self.spec_colour(sky),
    {
        match self {
            Radiance::Black => Vector3::new(Scalar::zero(), Scalar::zero(), Scalar::zero()),
            Radiance::Sky { halvings } => sky.halved(halvings),
        }
    }
}

/// What a path of depth `depth` gathers, where `meets[i]` says whether its
/// `i`-th ray meets a surface, as the numbers of bounces before the sky. A
/// ray that `meets` does not speak of escapes.
pub open spec fn spec_gathered(depth: nat, meets: Seq<bool>) -> Option<nat>
    decreases depth,
{
    if depth == 0 {
        None
    } else if meets.len() == 0 || !meets[0] {
        Some(0)
    } else {
        match spec_gathered((depth - 1) as nat, meets.skip(1)) {
            None => None,
            Some(halvings) => Some(halvings + 1),
        }
    }
}

/// `spec_gathered` as a radiance.
pub open spec fn spec_radiance(depth: nat, meets: Seq<bool>) -> Radiance {
    match spec_gathered(depth, meets) {
        None => Radiance::Black,
        Some(halvings) => Radiance::Sky { halvings: halvings as u32 },
    }
}

/// What becomes of a path at one of its rays.
#[derive(Clone, Copy, Debug)]
pub enum Step {
    /// The path has ended and has gathered this.
    Gathered(Radiance),
    /// The ray meets the surface at the place `surface` of the scene, at the
    /// ray parameter `t`, and the path bounces on from there.
    Scattered { surface: usize, t: Scalar },
}

/// The state of a path between two of its rays.
#[derive(Clone, Copy, Debug)]
pub struct Path {
    remaining: u32,
    bounces: u32,
}

impl Path {
    /// The depth that is left.
    pub closed spec fn remaining(&self) -> nat {
        self.remaining as nat
    }

    /// The bounces made so far.
    pub closed spec fn spec_bounces(&self) -> nat {
        self.bounces as nat
    }

    /// The depth that the path started with fits the counter.
    pub open spec fn wf(&self) -> bool {
        self.remaining() + self.spec_bounces() <= u32::MAX
    }

    /// No depth is left: the path gathers nothing, whatever lies ahead.
    pub open spec fn spec_spent(&self) -> bool {
        self.remaining() == 0
    }

    /// A path at the camera.
    pub fn new(depth: u32) -> (path: Self)
        ensures
            path.wf(),
            path.remaining() == depth,
            path.spec_bounces() == 0,
    {
        Self { remaining: depth, bounces: 0 }
    }

    /// Whether the depth is used up.
    #[verifier::when_used_as_spec(spec_spent)]
    pub fn spent(&self) -> (spent: bool)
        ensures
            spent == self.spec_spent(),
    {
        self.remaining == 0
    }

    /// The bounces made so far: the number of times that the sky is to be halved.
    pub fn bounces(&self) -> (bounces: u32)
        ensures
            bounces == self.spec_bounces(),
    {
        self.bounces
    }

    /// The path goes on from a surface.
    pub fn bounce(&mut self)
        requires
            old(self).wf(),
            !old(self).spec_spent(),
        ensures
            final(self).wf(),
            final(self).remaining() == old(self).remaining() - 1,
            final(self).spec_bounces() == old(self).spec_bounces() + 1,
    {
        self.remaining = self.remaining - 1;
        self.bounces = self.bounces + 1;
    }

    /// What becomes of the path at its next ray, where `crossings` holds what
    /// the ray's quadratic with each surface of the scene gave. A path whose
    /// depth is used up has gathered nothing, whatever `crossings` holds.
    /// Else the ray meets the surface that `spec_closest` finds within
    /// `spec_reach`, and the path bounces; or it finds none, and the path has
    /// gathered the sky, halved once for each bounce so far.
    pub open spec fn spec_advance(&self, crossings: Seq<Crossing>) -> Step {
        if self.spec_spent() {
            Step::Gathered(Radiance::Black)
        } else {
            match spec_closest(crossings, spec_reach()) {
                Some((surface, t)) => Step::Scattered { surface: surface as usize, t },
                None => Step::Gathered(Radiance::Sky { halvings: self.spec_bounces() as u32 }),
            }
        }
    }

    /// Takes the path one ray further.
    pub fn advance(&mut self, crossings: &Vec<Crossing>) -> (step: Step)
        requires
            old(self).wf(),
        ensures
            final(self).wf(),
            step == old(self).spec_advance(crossings@),
            step is Scattered ==> final(self).remaining() == old(self).remaining() - 1
                && final(self).spec_bounces() == old(self).spec_bounces() + 1,
            step is Gathered ==> *final(self) == *old(self),
    {
        if self.spent() {
            return Step::Gathered(Radiance::Black);
        }
        match closest(crossings, reach()) {
            Some((surface, t)) => {
                self.bounce();
                Step::Scattered { surface, t }
            },
            None => Step::Gathered(self.escape()),
        }
    }

    /// What the path gathers if its next ray escapes: nothing where the depth
    /// is used up, else the sky halved once for each bounce.
    pub fn escape(&self) -> (radiance: Radiance)
        ensures
            radiance == if self.spec_spent() {
                Radiance::Black
            } else {
                Radiance::Sky { halvings: self.spec_bounces() as u32 }
            },
    {
        if self.remaining == 0 {
            Radiance::Black
        } else {
            Radiance::Sky { halvings: self.bounces }
        }
    }
}

/// Whether each ray of a path in turn meets a surface, where `rays[i]` holds
/// what the quadratics of the `i`-th ray with the surfaces of the scene gave.
pub open spec fn spec_meets(rays: Seq<Vec<Crossing>>) -> Seq<bool> {
    Seq::new(rays.len(), |i: int| spec_closest(rays[i]@, spec_reach()) is Some)
}

/// What a path of depth `depth` gathers, where `rays` holds for each of its
/// rays in turn what the quadratics with the surfaces of the scene gave.
pub fn radiance(depth: u32, rays: &Vec<Vec<Crossing>>) -> (gathered: Radiance)
    ensures
        gathered == spec_radiance(depth as nat, spec_meets(rays@)),
{
    let mut path = Path::new(depth);
    let mut i: usize = 0;
    while i < rays.len()
        invariant
            path.wf(),
            i <= rays.len(),
            path.spec_bounces() == i,
            path.remaining() + i == depth,
            forall|k: int| 0 <= k < i ==> spec_meets(rays@)[k],
        decreases rays.len() - i,
    {
        match path.advance(&rays[i]) {
            Step::Gathered(gathered) => {
                proof {
                    lemma_gathered_after_bounces(depth as nat, spec_meets(rays@), i as nat);
                    assert(spec_meets(rays@).skip(i as int)[0] == spec_meets(rays@)[i as int]);
                }
                return gathered;
            },
            Step::Scattered { .. } => {
                i += 1;
            },
        }
    }
    proof {
        lemma_gathered_after_bounces(depth as nat, spec_meets(rays@), i as nat);
    }
    path.escape()
}

/// A path whose first `bounces` rays all meet a surface gathers what the
/// rest of it gathers, halved `bounces` times.
pub proof fn lemma_gathered_after_bounces(depth: nat, meets: Seq<bool>, bounces: nat)
    requires
        bounces <= depth,
        bounces <= meets.len(),
        forall|k: int| 0 <= k < bounces ==> meets[k],
    ensures
        spec_gathered(depth, meets) == match spec_gathered(
            (depth - bounces) as nat,
            meets.skip(bounces as int),
        ) {
            None => None::<nat>,
            Some(halvings) => Some(halvings + bounces),
        },
    decreases bounces,
{
    if bounces == 0 {
        assert(meets.skip(0) =~= meets);
    } else {
        let rest = meets.skip(1);
        assert forall|k: int| 0 <= k < bounces - 1 implies rest[k] by {
            assert(meets[k + 1]);
        }
        lemma_gathered_after_bounces((depth - 1) as nat, rest, (bounces - 1) as nat);
        assert(rest.skip(bounces - 1) =~= meets.skip(bounces as int));
        assert(meets[0]);
    }
}

/// A path of depth 0 is pure black, whatever its rays meet and whatever
/// colour the sky has.
pub proof fn lemma_no_depth_is_black(meets: Seq<bool>, sky: Vector3)
    ensures
        spec_radiance(0, meets) == Radiance::Black,
        spec_radiance(0, meets).spec_colour(sky) == (Vector3 {
            x: Scalar { bits: 0 },
            y: Scalar { bits: 0 },
            z: Scalar { bits: 0 },
        }),
{
}

/// The channel lies between 0 and `most`, both counted in.
pub open spec fn channel_within(channel: Scalar, most: Scalar) -> bool {
    (Scalar { bits: 0 }).spec_le(channel) && channel.spec_le(most)
}

/// A path whose first ray meets a surface is darker than the sky: where
/// every channel of the sky lies between 0 and 1, every channel of what the
/// path brings back lies between 0 and a half.
pub proof fn lemma_bounced_path_is_dimmed(depth: nat, meets: Seq<bool>, sky: Vector3)
    requires
        depth <= u32::MAX,
        meets.len() > 0,
        meets[0],
        channel_within(sky.x, Scalar { bits: ONE_BITS }),
        channel_within(sky.y, Scalar { bits: ONE_BITS }),
        channel_within(sky.z, Scalar { bits: ONE_BITS }),
    ensures
        ({
            let colour = spec_radiance(depth, meets).spec_colour(sky);
            let half = Scalar { bits: 0x3FE0_0000_0000_0000 };
            &&& channel_within(colour.x, half)
            &&& channel_within(colour.y, half)
            &&& channel_within(colour.z, half)
        }),
{
    if depth > 0 {
        lemma_bounces_below_depth((depth - 1) as nat, meets.skip(1));
        match spec_gathered(depth, meets) {
            Some(halvings) => {
                lemma_halved_stays_within(sky.x, halvings);
                lemma_halved_stays_within(sky.y, halvings);
                lemma_halved_stays_within(sky.z, halvings);
            },
            None => {},
        }
    }
}

/// A path never bounces as often as it has depth: the sky is halved fewer
/// than `depth` times.
pub proof fn lemma_bounces_below_depth(depth: nat, meets: Seq<bool>)
    ensures
        spec_gathered(depth, meets) matches Some(halvings) ==> halvings < depth && halvings
            <= meets.len(),
    decreases depth,
{
    if depth > 0 && meets.len() > 0 && meets[0] {
        lemma_bounces_below_depth((depth - 1) as nat, meets.skip(1));
    }
}

} // verus!
