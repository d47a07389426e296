//! A ray's walk through a grid of unit cells, cell by cell.
//!
//! The walk keeps, for each axis, the distance along the ray to the next cell
//! wall across that axis. It crosses the nearest wall, which moves it one
//! cell along that axis, and it ends at the marked cell or where it leaves
//! the grid.

use crate::scalar::Scalar;
use vstd::prelude::*;

verus! {

/// The cells from `-GRID_LIMIT` to `GRID_LIMIT` along each axis belong to the grid.
pub const GRID_LIMIT: i32 = 100;

/// An axis of the grid.
#[derive(Clone, Copy, Debug, PartialEq, Eq, Structural)]
pub enum Axis {
    X,
    Y,
    Z,
}

/// A cell of the grid, by its lowest corner.
#[derive(Clone, Copy, Debug, PartialEq, Eq, Structural)]
pub struct Cell {
    pub x: i32,
    pub y: i32,
    pub z: i32,
}

/// How a walk stands after a step.
#[derive(Clone, Copy, Debug, PartialEq, Eq, Structural)]
pub enum Walk {
    /// Neither at the marked cell nor outside the grid.
    Underway,
    /// At the marked cell.
    Arrived,
    /// Outside the grid.
    Lost,
}

impl Cell {
    /// The one cell that is marked.
    pub open spec fn marked(self) -> bool {
        self.x == 0 && self.y == 0 && self.z == -4
    }

    /// The cell lies in the grid.
    pub open spec fn in_grid(self) -> bool {
        &&& -GRID_LIMIT <= self.x <= GRID_LIMIT
        &&& -GRID_LIMIT <= self.y <= GRID_LIMIT
        &&& -GRID_LIMIT <= self.z <= GRID_LIMIT
    }

    /// The cell one step of `by` along `axis`.
    pub open spec fn spec_moved(self, axis: Axis, by: int) -> Cell {
        match axis {
            Axis::X => Cell { x: (self.x + by) as i32, ..self },
            Axis::Y => Cell { y: (self.y + by) as i32, ..self },
            Axis::Z => Cell { z: (self.z + by) as i32, ..self },
        }
    }

    /// How a walk stands that has come to this cell.
    pub open spec fn spec_standing(self) -> Walk {
        if self.marked() {
            Walk::Arrived
        } else if !self.in_grid() {
            Walk::Lost
        } else {
            Walk::Underway
        }
    }

    /// The coordinate along `axis`.
    pub open spec fn along(self, axis: Axis) -> int {
        match axis {
            Axis::X => self.x as int,
            Axis::Y => self.y as int,
            Axis::Z => self.z as int,
        }
    }

    /// The cell with the given lowest corner.
    pub fn new(x: i32, y: i32, z: i32) -> (cell: Self)
        ensures
            cell == (Cell { x, y, z }),
    {
        Self { x, y, z }
    }

    /// Moves one cell along `axis`: forwards if `forwards`, else backwards.
    pub fn moved(self, axis: Axis, forwards: bool) -> (cell: Self)
        requires
            forwards ==> self.along(axis) < i32::MAX,
            !forwards ==> i32::MIN < self.along(axis),
        ensures
            cell == self.spec_moved(axis, spec_stride(forwards)),
    {
        let by = stride(forwards);
        match axis {
            Axis::X => Self { x: self.x + by, y: self.y, z: self.z },
            Axis::Y => Self { x: self.x, y: self.y + by, z: self.z },
            Axis::Z => Self { x: self.x, y: self.y, z: self.z + by },
        }
    }

    /// Says how a walk stands that has come to this cell.
    #[verifier::when_used_as_spec(spec_standing)]
    pub fn standing(self) -> (walk: Walk)
        ensures
            walk == self.spec_standing(),
    {
        if self.x == 0 && self.y == 0 && self.z == -4 {
            Walk::Arrived
        } else if self.x < -GRID_LIMIT || self.x > GRID_LIMIT || self.y < -GRID_LIMIT || self.y
            > GRID_LIMIT || self.z < -GRID_LIMIT || self.z > GRID_LIMIT {
            Walk::Lost
        } else {
            Walk::Underway
        }
    }
}

/// One cell forwards or one cell backwards.
pub open spec fn spec_stride(forwards: bool) -> int {
    if forwards {
        1
    } else {
        -1
    }
}

/// The step along an axis.
fn stride(forwards: bool) -> (by: i32)
    ensures
        by == spec_stride(forwards),
{
    if forwards {
        1
    } else {
        -1
    }
}

/// A ray walks forwards along an axis unless its direction along that axis
/// is below zero.
pub open spec fn spec_heads_forwards(direction: Scalar) -> bool {
    !direction.spec_lt(Scalar { bits: 0 })
}

/// Whether a ray with the given direction along an axis walks forwards along it.
#[verifier::when_used_as_spec(spec_heads_forwards)]
pub fn heads_forwards(direction: Scalar) -> (forwards: bool)
    ensures
        forwards == spec_heads_forwards(direction),
{
    !direction.lt(Scalar::zero())
}

/// The axis whose wall is nearest: x if its distance is below both others,
/// else y if its distance is below that of z, else z.
pub open spec fn spec_nearest_wall(side_x: Scalar, side_y: Scalar, side_z: Scalar) -> Axis {
    if side_x.spec_lt(side_y) {
        if side_x.spec_lt(side_z) {
            Axis::X
        } else {
            Axis::Z
        }
    } else if side_y.spec_lt(side_z) {
        Axis::Y
    } else {
        Axis::Z
    }
}

/// Picks the axis across which the next cell wall lies.
#[verifier::when_used_as_spec(spec_nearest_wall)]
pub fn nearest_wall(side_x: Scalar, side_y: Scalar, side_z: Scalar) -> (axis: Axis)
    ensures
        axis == spec_nearest_wall(side_x, side_y, side_z),
{
    if side_x.lt(side_y) {
        if side_x.lt(side_z) {
            Axis::X
        } else {
            Axis::Z
        }
    } else if side_y.lt(side_z) {
        Axis::Y
    } else {
        Axis::Z
    }
}

/// A walk that is underway can always take its next step: it stands in the
/// grid, so no coordinate is at the end of the machine's range, and after the
/// step it is at most one cell outside the grid.
pub proof fn lemma_underway_can_step(cell: Cell, axis: Axis, forwards: bool)
    requires
        cell.spec_standing() == Walk::Underway,
    ensures
        i32::MIN < cell.along(axis) < i32::MAX,
        -GRID_LIMIT - 1 <= cell.spec_moved(axis, spec_stride(forwards)).along(axis) <= GRID_LIMIT
            + 1,
{
}

/// The nearest wall is as near as any, where all three distances are numbers.
pub proof fn lemma_nearest_wall_is_nearest(side_x: Scalar, side_y: Scalar, side_z: Scalar)
    requires
        !side_x.spec_is_nan(),
        !side_y.spec_is_nan(),
        !side_z.spec_is_nan(),
    ensures
        ({
            let nearest = match spec_nearest_wall(side_x, side_y, side_z) {
                Axis::X => side_x,
                Axis::Y => side_y,
                Axis::Z => side_z,
            };
            nearest.spec_le(side_x) && nearest.spec_le(side_y) && nearest.spec_le(side_z)
        }),
{
}

} // verus!
