//! The faces of the unit cube as triangle lists.
//!
//! A face is the unit square in the plane through the origin that is
//! perpendicular to one axis. It has four corners and is drawn as two
//! triangles, that is six vertices. The order in which the corners are
//! visited is the winding; it decides to which side the face looks.

use vstd::prelude::*;

verus! {

/// The corners of the unit square perpendicular to the x axis.
pub const PLANE_VERTICES_X: [[u32; 3]; 4] = [[0, 0, 0], [0, 0, 1], [0, 1, 0], [0, 1, 1]];

/// The corners of the unit square perpendicular to the y axis.
pub const PLANE_VERTICES_Y: [[u32; 3]; 4] = [[0, 0, 0], [1, 0, 0], [0, 0, 1], [1, 0, 1]];

/// The corners of the unit square perpendicular to the z axis.
pub const PLANE_VERTICES_Z: [[u32; 3]; 4] = [[1, 0, 0], [0, 0, 0], [1, 1, 0], [0, 1, 0]];

/// Corner order of a face that looks along its axis.
pub const PLUS_WINDING: [usize; 6] = [1, 2, 3, 0, 2, 1];

/// Corner order of a face that looks against its axis.
pub const MIN_WINDING: [usize; 6] = [0, 1, 2, 1, 3, 2];

/// Corner `corner` of the unit square perpendicular to axis `axis`
/// (0 is x, 1 is y, 2 is z), as `[x, y, z]`.
pub open spec fn corner(axis: int, corner: int) -> Seq<u32> {
    if axis == 0 {
        PLANE_VERTICES_X@[corner]@
    } else if axis == 1 {
        PLANE_VERTICES_Y@[corner]@
    } else {
        PLANE_VERTICES_Z@[corner]@
    }
}

/// The vertex list of the face perpendicular to `axis` whose corners are
/// visited in the order `winding`.
pub open spec fn face_vertices(axis: int, winding: Seq<usize>) -> Seq<Seq<u32>> {
    Seq::new(winding.len(), |i: int| corner(axis, winding[i] as int))
}

/// What a triangle list of six vertices holds, as plain sequences.
pub open spec fn face_view(face: [[u32; 3]; 6]) -> Seq<Seq<u32>> {
    Seq::new(6, |i: int| face@[i]@)
}

/// The six vertices of the face perpendicular to `axis`, its corners taken in
/// the order `indices`.
pub fn cube_face(axis: usize, indices: &[usize; 6]) -> (face: [[u32; 3]; 6])
    requires
        axis < 3,
        forall|i: int| 0 <= i < 6 ==> indices@[i] < 4,
    ensures
        face_view(face) == face_vertices(axis as int, indices@),
{
    let plane = if axis == 0 {
        PLANE_VERTICES_X
    } else if axis == 1 {
        PLANE_VERTICES_Y
    } else {
        PLANE_VERTICES_Z
    };
    let face = [
        plane[indices[0]],
        plane[indices[1]],
        plane[indices[2]],
        plane[indices[3]],
        plane[indices[4]],
        plane[indices[5]],
    ];
    assert(face_view(face) =~= face_vertices(axis as int, indices@));
    face
}

/// The face at the low end of the x axis; it looks towards negative x.
pub fn cube_x_min() -> (face: [[u32; 3]; 6])
    ensures
        face_view(face) == face_vertices(0, MIN_WINDING@),
{
    cube_face(0, &MIN_WINDING)
}

/// The face at the high end of the x axis; it looks towards positive x.
pub fn cube_x_plus() -> (face: [[u32; 3]; 6])
    ensures
        face_view(face) == face_vertices(0, PLUS_WINDING@),
{
    cube_face(0, &PLUS_WINDING)
}

/// The face at the low end of the y axis; it looks towards negative y.
pub fn cube_y_min() -> (face: [[u32; 3]; 6])
    ensures
        face_view(face) == face_vertices(1, MIN_WINDING@),
{
    cube_face(1, &MIN_WINDING)
}

/// The face at the high end of the y axis; it looks towards positive y.
pub fn cube_y_plus() -> (face: [[u32; 3]; 6])
    ensures
        face_view(face) == face_vertices(1, PLUS_WINDING@),
{
    cube_face(1, &PLUS_WINDING)
}

/// The face at the low end of the z axis; it looks towards negative z.
pub fn cube_z_min() -> (face: [[u32; 3]; 6])
    ensures
        face_view(face) == face_vertices(2, MIN_WINDING@),
{
    cube_face(2, &MIN_WINDING)
}

/// The face at the high end of the z axis; it looks towards positive z.
pub fn cube_z_plus() -> (face: [[u32; 3]; 6])
    ensures
        face_view(face) == face_vertices(2, PLUS_WINDING@),
{
    cube_face(2, &PLUS_WINDING)
}

/// Stretches a vertex by `scale`, coordinate by coordinate.
pub fn cube_scale(input: [u32; 3], scale: [u32; 3]) -> (scaled: [u32; 3])
    requires
        forall|i: int| 0 <= i < 3 ==> input@[i] * scale@[i] <= u32::MAX,
    ensures
        forall|i: int| 0 <= i < 3 ==> scaled@[i] == input@[i] * scale@[i],
{
    [input[0] * scale[0], input[1] * scale[1], input[2] * scale[2]]
}

/// Moves a vertex by `offset`, coordinate by coordinate.
pub fn cube_offset(input: [u32; 3], offset: [u32; 3]) -> (moved: [u32; 3])
    requires
        forall|i: int| 0 <= i < 3 ==> input@[i] + offset@[i] <= u32::MAX,
    ensures
        forall|i: int| 0 <= i < 3 ==> moved@[i] == input@[i] + offset@[i],
{
    [input[0] + offset[0], input[1] + offset[1], input[2] + offset[2]]
}

/// The layer that the `k`-th face of a stack of `layers` faces lies in: the
/// stack is walked upwards from layer 0, or downwards from layer `layers`.
pub open spec fn stack_layer(layers: int, k: int, downwards: bool) -> int {
    if downwards {
        layers - k
    } else {
        k
    }
}

/// The highest layer that a stack of `layers` faces reaches: layer `layers`
/// where it is walked downwards, and layer `layers - 1` where upwards.
pub open spec fn top_layer(layers: int, downwards: bool) -> int {
    if downwards {
        layers
    } else {
        layers - 1
    }
}

/// Every coordinate of every vertex of the stack fits 32 bits: off the axis
/// the stretched coordinate, along the axis the stretched coordinate moved to
/// the highest layer. A stack without layers has no vertices.
pub open spec fn stack_fits(face: [[u32; 3]; 6], sizes: [u32; 3], axis: int, downwards: bool) -> bool {
    sizes@[axis] > 0 ==> forall|i: int, j: int|
        0 <= i < 6 && 0 <= j < 3 ==> #[trigger] stacked_coordinate(
            face@[i]@,
            sizes@,
            axis,
            top_layer(sizes@[axis] as int, downwards),
            j,
        ) <= u32::MAX
}

/// Coordinate `j` of a face vertex after it was stretched by `sizes` and moved
/// to `layer` along `axis`.
pub open spec fn stacked_coordinate(
    vertex: Seq<u32>,
    sizes: Seq<u32>,
    axis: int,
    layer: int,
    j: int,
) -> int {
    vertex[j] * sizes[j] + if j == axis {
        layer
    } else {
        0
    }
}

/// The triangle list of a stack of faces through a box with edge lengths
/// `sizes`: one copy of `face`, stretched over the whole box, for each layer
/// along `axis`. Six vertices per layer, layer after layer.
pub fn cube_stack(face: &[[u32; 3]; 6], sizes: [u32; 3], axis: usize, downwards: bool) -> (vertices:
    Vec<[u32; 3]>)
    requires
        axis < 3,
        stack_fits(*face, sizes, axis as int, downwards),
    ensures
        vertices@.len() == 6 * sizes@[axis as int],
        forall|k: int, i: int, j: int|
            0 <= k < sizes@[axis as int] && 0 <= i < 6 && 0 <= j < 3 ==> (
            #[trigger] vertices@[6 * k + i]@[j]) == stacked_coordinate(
                face@[i]@,
                sizes@,
                axis as int,
                stack_layer(sizes@[axis as int] as int, k, downwards),
                j,
            ),
{
    let layers = sizes[axis];
    let mut vertices: Vec<[u32; 3]> = Vec::new();
    let mut k: u32 = 0;
    while k < layers
        invariant
            axis < 3,
            layers == sizes@[axis as int],
            k <= layers,
            stack_fits(*face, sizes, axis as int, downwards),
            vertices@.len() == 6 * k,
            forall|m: int, i: int, j: int|
                0 <= m < k && 0 <= i < 6 && 0 <= j < 3 ==> (#[trigger] vertices@[6 * m + i]@[j])
                    == stacked_coordinate(
                    face@[i]@,
                    sizes@,
                    axis as int,
                    stack_layer(layers as int, m, downwards),
                    j,
                ),
        decreases layers - k,
    {
        let layer = if downwards {
            layers - k
        } else {
            k
        };
        let mut offset: [u32; 3] = [0, 0, 0];
        offset[axis] = layer;
        let mut i: usize = 0;
        while i < 6
            invariant
                axis < 3,
                layers == sizes@[axis as int],
                k < layers,
                i <= 6,
                layer == stack_layer(layers as int, k as int, downwards),
                forall|j: int| 0 <= j < 3 ==> offset@[j] == if j == axis { layer } else { 0 },
                stack_fits(*face, sizes, axis as int, downwards),
                vertices@.len() == 6 * k + i,
                forall|m: int, n: int, j: int|
                    0 <= m < k && 0 <= n < 6 && 0 <= j < 3 ==> (#[trigger] vertices@[6 * m
                        + n]@[j]) == stacked_coordinate(
                        face@[n]@,
                        sizes@,
                        axis as int,
                        stack_layer(layers as int, m, downwards),
                        j,
                    ),
                forall|n: int, j: int|
                    0 <= n < i && 0 <= j < 3 ==> (#[trigger] vertices@[6 * k + n]@[j])
                        == stacked_coordinate(face@[n]@, sizes@, axis as int, layer as int, j),
            decreases 6 - i,
        {
            let corner = face[i];
            assert forall|j: int| 0 <= j < 3 implies corner@[j] * sizes@[j] + offset@[j]
                <= u32::MAX && corner@[j] * sizes@[j] <= u32::MAX by {
                assert(stacked_coordinate(
                    face@[i as int]@,
                    sizes@,
                    axis as int,
                    top_layer(layers as int, downwards),
                    j,
                ) <= u32::MAX);
                assert(0 <= corner@[j] * sizes@[j]) by (nonlinear_arith);
            }
            let scaled = cube_scale(corner, sizes);
            let moved = cube_offset(scaled, offset);
            let ghost earlier = vertices@;
            vertices.push(moved);
            proof {
                assert forall|m: int, n: int, j: int|
                    0 <= m < k && 0 <= n < 6 && 0 <= j < 3 implies (#[trigger] vertices@[6 * m
                    + n]@[j]) == stacked_coordinate(
                    face@[n]@,
                    sizes@,
                    axis as int,
                    stack_layer(layers as int, m, downwards),
                    j,
                ) by {
                    assert(vertices@[6 * m + n] == earlier[6 * m + n]);
                }
                assert forall|n: int, j: int| 0 <= n < i + 1 && 0 <= j < 3 implies (
                #[trigger] vertices@[6 * k + n]@[j]) == stacked_coordinate(
                    face@[n]@,
                    sizes@,
                    axis as int,
                    layer as int,
                    j,
                ) by {
                    if n < i {
                        assert(vertices@[6 * k + n] == earlier[6 * k + n]);
                    }
                }
            }
            i += 1;
        }
        k += 1;
    }
    vertices
}

/// The cross product `(b - a) x (c - a)`: it is perpendicular to the triangle
/// `a`, `b`, `c` and points to the side from which the three are seen
/// counter-clockwise.
pub open spec fn triangle_normal(a: Seq<u32>, b: Seq<u32>, c: Seq<u32>) -> (int, int, int) {
    let u = (b[0] - a[0], b[1] - a[1], b[2] - a[2]);
    let v = (c[0] - a[0], c[1] - a[1], c[2] - a[2]);
    (u.1 * v.2 - u.2 * v.1, u.2 * v.0 - u.0 * v.2, u.0 * v.1 - u.1 * v.0)
}

/// The vector of length one along `axis`, times `sign`.
pub open spec fn along(axis: int, sign: int) -> (int, int, int) {
    if axis == 0 {
        (sign, 0, 0)
    } else if axis == 1 {
        (0, sign, 0)
    } else {
        (0, 0, sign)
    }
}

/// Every vertex of a face lies in the plane through the origin that is
/// perpendicular to the face's axis.
pub proof fn lemma_face_in_plane(axis: int, winding: Seq<usize>, i: int)
    requires
        0 <= axis < 3,
        0 <= i < winding.len(),
        winding[i] < 4,
    ensures
        face_vertices(axis, winding)[i].len() == 3,
        face_vertices(axis, winding)[i][axis] == 0,
{
}

/// Both triangles of a face wound by `MIN_WINDING` look against the axis, and
/// both triangles of a face wound by `PLUS_WINDING` look along it.
pub proof fn lemma_face_orientation(axis: int)
    requires
        0 <= axis < 3,
    ensures
        ({
            let low = face_vertices(axis, MIN_WINDING@);
            let high = face_vertices(axis, PLUS_WINDING@);
            &&& triangle_normal(low[0], low[1], low[2]) == along(axis, -1)
            &&& triangle_normal(low[3], low[4], low[5]) == along(axis, -1)
            &&& triangle_normal(high[0], high[1], high[2]) == along(axis, 1)
            &&& triangle_normal(high[3], high[4], high[5]) == along(axis, 1)
        }),
{
    let low = face_vertices(axis, MIN_WINDING@);
    let high = face_vertices(axis, PLUS_WINDING@);
    let c0 = corner(axis, 0);
    let c1 = corner(axis, 1);
    let c2 = corner(axis, 2);
    let c3 = corner(axis, 3);
    assert(low[0] == c0 && low[1] == c1 && low[2] == c2);
    assert(low[3] == c1 && low[4] == c3 && low[5] == c2);
    assert(high[0] == c1 && high[1] == c2 && high[2] == c3);
    assert(high[3] == c0 && high[4] == c2 && high[5] == c1);
    if axis == 0 {
        assert(triangle_normal(c0, c1, c2) == along(axis, -1) && triangle_normal(c1, c3, c2) == along(
            axis,
            -1,
        ) && triangle_normal(c1, c2, c3) == along(axis, 1) && triangle_normal(c0, c2, c1) == along(
            axis,
            1,
        )) by (nonlinear_arith)
            requires
                axis == 0,
                c0[0] == 0 && c0[1] == 0 && c0[2] == 0,
                c1[0] == 0 && c1[1] == 0 && c1[2] == 1,
                c2[0] == 0 && c2[1] == 1 && c2[2] == 0,
                c3[0] == 0 && c3[1] == 1 && c3[2] == 1,
        ;
    } else if axis == 1 {
        assert(triangle_normal(c0, c1, c2) == along(axis, -1) && triangle_normal(c1, c3, c2) == along(
            axis,
            -1,
        ) && triangle_normal(c1, c2, c3) == along(axis, 1) && triangle_normal(c0, c2, c1) == along(
            axis,
            1,
        )) by (nonlinear_arith)
            requires
                axis == 1,
                c0[0] == 0 && c0[1] == 0 && c0[2] == 0,
                c1[0] == 1 && c1[1] == 0 && c1[2] == 0,
                c2[0] == 0 && c2[1] == 0 && c2[2] == 1,
                c3[0] == 1 && c3[1] == 0 && c3[2] == 1,
        ;
    } else {
        assert(triangle_normal(c0, c1, c2) == along(axis, -1) && triangle_normal(c1, c3, c2) == along(
            axis,
            -1,
        ) && triangle_normal(c1, c2, c3) == along(axis, 1) && triangle_normal(c0, c2, c1) == along(
            axis,
            1,
        )) by (nonlinear_arith)
            requires
                axis == 2,
                c0[0] == 1 && c0[1] == 0 && c0[2] == 0,
                c1[0] == 0 && c1[1] == 0 && c1[2] == 0,
                c2[0] == 1 && c2[1] == 1 && c2[2] == 0,
                c3[0] == 0 && c3[1] == 1 && c3[2] == 0,
        ;
    }
}

} // verus!
