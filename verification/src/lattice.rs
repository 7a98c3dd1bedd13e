//! Which lattice vertices contribute to a sample.
//!
//! A sample falls into one cell of the skewed lattice. Comparing the
//! fractional parts of its skewed coordinates tells which simplex of that cell
//! holds it, and so which vertices lie near enough to count. The comparisons
//! are the caller's; the decisions that follow from them are made here, as
//! offsets from the cell's origin.

use vstd::prelude::*;

verus! {

/// The corner of the cell that the sample's triangle hangs on: the origin
/// `(0, 0)` for the lower triangle, the far corner `(1, 1)` for the upper one.
pub open spec fn base_vertex_2d_of(lower: bool) -> (int, int) {
    if lower {
        (0, 0)
    } else {
        (1, 1)
    }
}

/// The fourth vertex that contributes in the plane, beside `(1, 0)`, `(0, 1)`
/// and the base corner.
///
/// Where the base corner is among the two vertices nearest to the sample, the
/// fourth vertex lies one diagonal step beyond the base corner, towards the
/// axis along which the sample reaches further. Otherwise it is the corner
/// opposite the base.
pub open spec fn extra_vertex_2d_of(lower: bool, base_near: bool, x_major: bool) -> (int, int) {
    let (bx, by) = base_vertex_2d_of(lower);
    if base_near {
        if x_major {
            (bx + 1, by - 1)
        } else {
            (bx - 1, by + 1)
        }
    } else {
        (1 - bx, 1 - by)
    }
}

/// The base corner of the triangle that holds the sample; `lower` says that
/// the fractional coordinates sum to at most one.
pub fn base_vertex_2d(lower: bool) -> (vertex: (i8, i8))
    ensures
        (vertex.0 as int, vertex.1 as int) == base_vertex_2d_of(lower),
{
    if lower {
        (0, 0)
    } else {
        (1, 1)
    }
}

/// The fourth contributing vertex of the plane.
///
/// `lower` says that the fractional coordinates sum to at most one, `base_near`
/// that the base corner is among the two vertices nearest to the sample, and
/// `x_major` that the fractional `x` exceeds the fractional `y`.
pub fn extra_vertex_2d(lower: bool, base_near: bool, x_major: bool) -> (vertex: (i8, i8))
    ensures
        (vertex.0 as int, vertex.1 as int) == extra_vertex_2d_of(lower, base_near, x_major),
{
    if lower {
        if base_near {
            if x_major {
                (1, -1)
            } else {
                (-1, 1)
            }
        } else {
            (1, 1)
        }
    } else {
        if base_near {
            if x_major {
                (2, 0)
            } else {
                (0, 2)
            }
        } else {
            (0, 0)
        }
    }
}

/// No vertex contributes twice to a sample of the plane: `(1, 0)`, `(0, 1)`,
/// the base corner and the fourth vertex are four different lattice points.
pub proof fn lemma_vertices_2d_distinct(lower: bool, base_near: bool, x_major: bool)
    ensures
        ({
            let base = base_vertex_2d_of(lower);
            let extra = extra_vertex_2d_of(lower, base_near, x_major);
            &&& base != (1int, 0int)
            &&& base != (0int, 1int)
            &&& extra != (1int, 0int)
            &&& extra != (0int, 1int)
            &&& extra != base
        }),
{
}

/// The two middle corners of the tetrahedron that holds a sample of space.
///
/// The walk from the cell's origin `(0, 0, 0)` to its far corner `(1, 1, 1)`
/// takes one unit step along each axis; the axes are taken in the order of the
/// sample's fractional coordinates, greatest first. The result is the point
/// reached after one step and the point reached after two.
pub open spec fn corner_order_3d_of(x_ge_y: bool, y_ge_z: bool, x_ge_z: bool) -> (
    (int, int, int),
    (int, int, int),
) {
    if x_ge_y {
        if y_ge_z {
            ((1, 0, 0), (1, 1, 0))
        } else if x_ge_z {
            ((1, 0, 0), (1, 0, 1))
        } else {
            ((0, 0, 1), (1, 0, 1))
        }
    } else {
        if !y_ge_z {
            ((0, 0, 1), (0, 1, 1))
        } else if !x_ge_z {
            ((0, 1, 0), (0, 1, 1))
        } else {
            ((0, 1, 0), (1, 1, 0))
        }
    }
}

/// The second and third corner of the tetrahedron that holds the sample, given
/// how its fractional coordinates compare: `x >= y`, `y >= z` and `x >= z`.
pub fn corner_order_3d(x_ge_y: bool, y_ge_z: bool, x_ge_z: bool) -> (corners: (
    (i8, i8, i8),
    (i8, i8, i8),
))
    ensures
        ({
            let (first, second) = corners;
            (
                (first.0 as int, first.1 as int, first.2 as int),
                (second.0 as int, second.1 as int, second.2 as int),
            ) == corner_order_3d_of(x_ge_y, y_ge_z, x_ge_z)
        }),
{
    if x_ge_y {
        if y_ge_z {
            ((1, 0, 0), (1, 1, 0))
        } else if x_ge_z {
            ((1, 0, 0), (1, 0, 1))
        } else {
            ((0, 0, 1), (1, 0, 1))
        }
    } else {
        if !y_ge_z {
            ((0, 0, 1), (0, 1, 1))
        } else if !x_ge_z {
            ((0, 1, 0), (0, 1, 1))
        } else {
            ((0, 1, 0), (1, 1, 0))
        }
    }
}

/// The corners form a walk: the first lies one unit step from the origin, the
/// second one further unit step along another axis, whatever the comparisons say.
pub proof fn lemma_corner_order_3d_is_walk(x_ge_y: bool, y_ge_z: bool, x_ge_z: bool)
    ensures
        ({
            let (first, second) = corner_order_3d_of(x_ge_y, y_ge_z, x_ge_z);
            &&& 0 <= first.0 <= second.0 <= 1
            &&& 0 <= first.1 <= second.1 <= 1
            &&& 0 <= first.2 <= second.2 <= 1
            &&& first.0 + first.1 + first.2 == 1
            &&& second.0 + second.1 + second.2 == 2
        }),
{
}

/// The three comparisons agree with one order of the coordinates: they do
/// not claim `x >= y >= z` beside `x < z`, nor `x < y < z` beside `x >= z`.
pub open spec fn comparisons_agree(x_ge_y: bool, y_ge_z: bool, x_ge_z: bool) -> bool {
    &&& x_ge_y && y_ge_z ==> x_ge_z
    &&& !x_ge_y && !y_ge_z ==> !x_ge_z
}

/// Where the comparisons agree with one order, the walk takes the axis of the
/// greatest coordinate first and that of the least coordinate last; of equal
/// coordinates `x` goes before `y`, and `y` before `z`.
pub proof fn lemma_corner_order_3d_sorts(x_ge_y: bool, y_ge_z: bool, x_ge_z: bool)
    requires
        comparisons_agree(x_ge_y, y_ge_z, x_ge_z),
    ensures
        ({
            let (first, second) = corner_order_3d_of(x_ge_y, y_ge_z, x_ge_z);
            &&& first.0 == 1 <==> x_ge_y && x_ge_z
            &&& first.1 == 1 <==> !x_ge_y && y_ge_z
            &&& first.2 == 1 <==> !x_ge_z && !y_ge_z
            &&& second.0 == 0 <==> !x_ge_y && !x_ge_z
            &&& second.1 == 0 <==> x_ge_y && !y_ge_z
            &&& second.2 == 0 <==> x_ge_z && y_ge_z
        }),
{
}

} // verus!
