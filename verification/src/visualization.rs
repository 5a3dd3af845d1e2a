//! What to draw of a selected plane: a grid of lines that spans it, and an
//! arrow along its normal.

use vstd::prelude::*;
use crate::fixed::{
    abs, int_sqrt, lemma_mul_bound, lemma_sqrt_exists, lemma_trunc_div_bounds, scaled, trunc_div,
    SCALE,
};
use crate::ground_plane::GroundPlane;
use crate::unit::{
    cross_term, is_unit, lemma_cross_length, lemma_normalized_is_unit, lemma_sqrt_dominates,
    normalized, unit_of, unit_vector, MIN_CROSS_SQ,
};
use crate::vec3::{to_vec3, Int3, Vec3, COORD_MAX};

verus! {

/// How far the grid reaches from the plane's origin, along each tangent.
pub const GRID_SIZE: i64 = 20_000_000;

/// The distance between two neighbouring lines of the grid.
pub const GRID_SPACING: i64 = 2_000_000;

/// The number of lines on either side of the one through the origin.
pub const GRID_STEPS: i64 = 10;

/// The number of lines of the grid: along each of the two tangents, one
/// through the origin and [`GRID_STEPS`] on either side.
pub const GRID_LINES: usize = 42;

/// The length of the arrow along the normal.
pub const ARROW_LENGTH: i64 = 3_000_000;

/// A normal whose vertical coordinate reaches this is too steep for the
/// vertical axis to give a tangent: the first horizontal axis gives it.
pub const STEEP_NORMAL: i64 = 900_000;

/// A straight line from one point to another.
#[derive(Clone, Copy, Debug, PartialEq, Eq, Structural)]
pub struct Segment {
    pub start: Vec3,
    pub end: Vec3,
}

/// The drawing of a plane.
#[derive(Debug, PartialEq, Eq)]
pub struct PlaneGrid {
    /// The lines of the grid: for each step from the lowest to the highest,
    /// the line across the first tangent and then that across the second.
    pub lines: Vec<Segment>,
    /// The arrow from the origin along the normal.
    pub arrow: Segment,
}

/// Two unit vectors that span a plane.
pub struct Tangents {
    pub first: Int3,
    pub second: Int3,
}

/// The first tangent of a plane with normal `n`: the cross product of the
/// normal and the vertical axis, or the first horizontal axis where the
/// normal is steep, at unit length.
pub open spec fn first_tangent(n: Int3) -> Option<Int3> {
    if abs(n.y) < STEEP_NORMAL {
        unit_of(n.cross(Int3 { x: 0, y: SCALE as int, z: 0 }))
    } else {
        unit_of(n.cross(Int3 { x: SCALE as int, y: 0, z: 0 }))
    }
}

/// The second tangent: the cross product of the normal and the first
/// tangent, at unit length.
pub open spec fn second_tangent(n: Int3, first: Int3) -> Option<Int3> {
    unit_of(n.cross(first))
}

/// The two tangents of a plane, if it has them.
pub open spec fn tangents(plane: GroundPlane) -> Option<Tangents> {
    match first_tangent(plane.normal@) {
        None => None,
        Some(first) => match second_tangent(plane.normal@, first) {
            None => None,
            Some(second) => Some(Tangents { first, second }),
        },
    }
}

/// The plane is drawn: it was selected, and it has two tangents.
pub open spec fn is_drawn(plane: GroundPlane) -> bool {
    plane.is_selected && tangents(plane) is Some
}

/// The line of the grid at step `i` from the origin along `along`; it runs
/// along `across`, as far as [`GRID_SIZE`] to either side.
pub open spec fn grid_segment(origin: Int3, along: Int3, across: Int3, i: int) -> Segment {
    let base = origin.plus(along.scaled_by(i * GRID_SPACING));
    Segment {
        start: to_vec3(base.minus(across.scaled_by(GRID_SIZE as int))),
        end: to_vec3(base.plus(across.scaled_by(GRID_SIZE as int))),
    }
}

/// The `k`-th line of the grid.
pub open spec fn grid_line(origin: Int3, first: Int3, second: Int3, k: int) -> Segment {
    if k % 2 == 0 {
        grid_segment(origin, first, second, k / 2 - GRID_STEPS)
    } else {
        grid_segment(origin, second, first, k / 2 - GRID_STEPS)
    }
}

/// The arrow from the plane's origin along its normal.
pub open spec fn normal_arrow(plane: GroundPlane) -> Segment {
    Segment {
        start: plane.origin,
        end: to_vec3(plane.origin@.plus(plane.normal@.scaled_by(ARROW_LENGTH as int))),
    }
}

/// Tells what to draw of the plane: nothing unless it was selected; else
/// the lines of a grid along its two tangents and an arrow along its
/// normal.
pub fn visualize_ground_plane(plane: &GroundPlane) -> (drawing: Option<PlaneGrid>)
    requires
        plane.wf(),
    ensures
        match drawing {
            Some(grid) => {
                &&& is_drawn(*plane)
                &&& grid.lines@.len() == GRID_LINES
                &&& forall|k: int|
                    0 <= k < GRID_LINES ==> #[trigger] grid.lines@[k] == grid_line(
                        plane.origin@,
                        tangents(*plane).unwrap().first,
                        tangents(*plane).unwrap().second,
                        k,
                    )
                &&& grid.arrow == normal_arrow(*plane)
            },
            None => !is_drawn(*plane),
        },
        drawing is Some <==> plane.is_selected,
{
    proof {
        lemma_tangents_exist(*plane);
    }
    if !plane.is_selected {
        return None;
    }
    let n = plane.normal;
    let axis = if -STEEP_NORMAL < n.y && n.y < STEEP_NORMAL {
        Vec3 { x: 0, y: SCALE, z: 0 }
    } else {
        Vec3 { x: SCALE, y: 0, z: 0 }
    };
    let first = match unit_cross(n, axis) {
        Some(first) => first,
        None => {
            return None;
        },
    };
    let second = match unit_cross(n, first) {
        Some(second) => second,
        None => {
            return None;
        },
    };
    let mut lines: Vec<Segment> = Vec::new();
    let mut i: i64 = -GRID_STEPS;
    while i <= GRID_STEPS
        invariant
            plane.origin.in_range(),
            first.is_direction(),
            second.is_direction(),
            -GRID_STEPS <= i <= GRID_STEPS + 1,
            lines@.len() == 2 * (i + GRID_STEPS),
            forall|k: int|
                0 <= k < lines@.len() ==> #[trigger] lines@[k] == grid_line(
                    plane.origin@,
                    first@,
                    second@,
                    k,
                ),
        decreases GRID_STEPS + 1 - i,
    {
        lines.push(grid_segment_at(plane.origin, first, second, i));
        lines.push(grid_segment_at(plane.origin, second, first, i));
        i = i + 1;
    }
    proof {
        lemma_mul_bound(n.x as int, ARROW_LENGTH as int, 1_000_000, 3_000_000);
        lemma_mul_bound(n.y as int, ARROW_LENGTH as int, 1_000_000, 3_000_000);
        lemma_mul_bound(n.z as int, ARROW_LENGTH as int, 1_000_000, 3_000_000);
    }
    let scale: i128 = SCALE as i128;
    let length: i128 = ARROW_LENGTH as i128;
    let tip = Vec3 {
        x: ((plane.origin.x as i128) + ((n.x as i128) * length) / scale) as i64,
        y: ((plane.origin.y as i128) + ((n.y as i128) * length) / scale) as i64,
        z: ((plane.origin.z as i128) + ((n.z as i128) * length) / scale) as i64,
    };
    Some(PlaneGrid { lines, arrow: Segment { start: plane.origin, end: tip } })
}

/// The cross product of two directions, at unit length.
fn unit_cross(a: Vec3, b: Vec3) -> (unit: Option<Vec3>)
    requires
        a.is_direction(),
        b.is_direction(),
    ensures
        match unit {
            Some(t) => unit_of(a@.cross(b@)) == Some(t@) && t.is_direction(),
            None => unit_of(a@.cross(b@)) is None,
        },
{
    let cx: i128 = cross_term(a.y, b.z, a.z, b.y);
    let cy: i128 = cross_term(a.z, b.x, a.x, b.z);
    let cz: i128 = cross_term(a.x, b.y, a.y, b.x);
    unit_vector(cx, cy, cz)
}

/// The line of the grid at step `i` from the origin along `along`.
fn grid_segment_at(origin: Vec3, along: Vec3, across: Vec3, i: i64) -> (segment: Segment)
    requires
        origin.in_range(),
        along.is_direction(),
        across.is_direction(),
        -GRID_STEPS <= i <= GRID_STEPS,
    ensures
        segment == grid_segment(origin@, along@, across@, i as int),
{
    let offset: i64 = i * GRID_SPACING;
    proof {
        crate::fixed::lemma_trunc_div_neg(across.x * GRID_SIZE, SCALE as int);
        crate::fixed::lemma_trunc_div_neg(across.y * GRID_SIZE, SCALE as int);
        crate::fixed::lemma_trunc_div_neg(across.z * GRID_SIZE, SCALE as int);
        assert(across.x * (-GRID_SIZE) == -(across.x * GRID_SIZE)) by (nonlinear_arith);
        assert(across.y * (-GRID_SIZE) == -(across.y * GRID_SIZE)) by (nonlinear_arith);
        assert(across.z * (-GRID_SIZE) == -(across.z * GRID_SIZE)) by (nonlinear_arith);
    }
    Segment {
        start: Vec3 {
            x: grid_term(origin.x, along.x, across.x, offset, -GRID_SIZE),
            y: grid_term(origin.y, along.y, across.y, offset, -GRID_SIZE),
            z: grid_term(origin.z, along.z, across.z, offset, -GRID_SIZE),
        },
        end: Vec3 {
            x: grid_term(origin.x, along.x, across.x, offset, GRID_SIZE),
            y: grid_term(origin.y, along.y, across.y, offset, GRID_SIZE),
            z: grid_term(origin.z, along.z, across.z, offset, GRID_SIZE),
        },
    }
}

/// One coordinate of an end of a grid line.
fn grid_term(origin: i64, along: i64, across: i64, offset: i64, reach: i64) -> (r: i64)
    requires
        -COORD_MAX <= origin <= COORD_MAX,
        -SCALE <= along <= SCALE,
        -SCALE <= across <= SCALE,
        -GRID_SIZE <= offset <= GRID_SIZE,
        -GRID_SIZE <= reach <= GRID_SIZE,
    ensures
        r == origin + scaled(along as int, offset as int) + scaled(across as int, reach as int),
{
    proof {
        lemma_mul_bound(along as int, offset as int, 1_000_000, 20_000_000);
        lemma_mul_bound(across as int, reach as int, 1_000_000, 20_000_000);
    }
    let scale: i128 = SCALE as i128;
    ((origin as i128) + ((along as i128) * (offset as i128)) / scale + ((across as i128) * (
    reach as i128)) / scale) as i64
}

/// Every well-formed plane has two tangents, so that every selected plane
/// is drawn. The tangents have unit length, and they are at right angles
/// to the normal and to each other, nearly: each of the three dot products
/// is at most three millionths.
pub proof fn lemma_tangents_exist(plane: GroundPlane)
    requires
        plane.wf(),
    ensures
        tangents(plane) is Some,
        plane.is_selected ==> is_drawn(plane),
        ({
            let t = tangents(plane).unwrap();
            let n = plane.normal@;
            &&& is_unit(t.first)
            &&& is_unit(t.second)
            &&& abs(n.dot(t.first)) <= 3 * SCALE
            &&& abs(n.dot(t.second)) <= 3 * SCALE
            &&& abs(t.first.dot(t.second)) <= 3 * SCALE
        }),
{
    let n = plane.normal@;
    let nn = n.dot(n);
    let axis = if abs(n.y) < STEEP_NORMAL {
        Int3 { x: 0, y: SCALE as int, z: 0 }
    } else {
        Int3 { x: SCALE as int, y: 0, z: 0 }
    };
    let c = n.cross(axis);
    let q = c.dot(c);
    // The first cross product is long enough.
    lemma_cross_length(n.x, n.y, n.z, axis.x, axis.y, axis.z);
    let na = n.dot(axis);
    assert(axis.dot(axis) == 1_000_000_000_000) by (nonlinear_arith)
        requires
            axis.dot(axis) == axis.x * axis.x + axis.y * axis.y + axis.z * axis.z,
            (axis.x == 0 && axis.y == 1_000_000 && axis.z == 0) || (axis.x == 1_000_000 && axis.y
                == 0 && axis.z == 0),
    ;
    assert(q == nn * 1_000_000_000_000 - na * na);
    if abs(n.y) < STEEP_NORMAL {
        assert(na == n.y * 1_000_000) by (nonlinear_arith)
            requires
                na == n.x * axis.x + n.y * axis.y + n.z * axis.z,
                axis.x == 0 && axis.y == 1_000_000 && axis.z == 0,
        ;
        assert(na * na <= 810_000_000_000 * 1_000_000_000_000) by (nonlinear_arith)
            requires
                na == n.y * 1_000_000,
                -900_000 < n.y < 900_000,
        ;
    } else {
        assert(na == n.x * 1_000_000) by (nonlinear_arith)
            requires
                na == n.x * axis.x + n.y * axis.y + n.z * axis.z,
                axis.x == 1_000_000 && axis.y == 0 && axis.z == 0,
        ;
        assert(n.y * n.y >= 810_000_000_000) by (nonlinear_arith)
            requires
                n.y >= 900_000 || n.y <= -900_000,
        ;
        assert(n.z * n.z >= 0) by (nonlinear_arith);
        assert(n.x * n.x <= 190_002_000_000);
        assert(na * na == (n.x * n.x) * 1_000_000_000_000) by (nonlinear_arith)
            requires
                na == n.x * 1_000_000,
        ;
    }
    assert(q >= 1_000_000_000_000);
    lemma_sqrt_exists(q);
    let norm = int_sqrt(q);
    lemma_sqrt_dominates(c, norm);
    lemma_normalized_is_unit(c, norm);
    let first = normalized(c);
    assert(first_tangent(n) == Some(first));
    // The first tangent is nearly at right angles to the normal.
    lemma_cross_orthogonal(n.x, n.y, n.z, axis.x, axis.y, axis.z);
    lemma_tangent_term(n.x, c.x, norm, first.x);
    lemma_tangent_term(n.y, c.y, norm, first.y);
    lemma_tangent_term(n.z, c.z, norm, first.z);
    let nt = n.dot(first);
    assert(norm * nt == norm * (n.x * first.x) + norm * (n.y * first.y) + norm * (n.z * first.z))
        by (nonlinear_arith)
        requires
            nt == n.x * first.x + n.y * first.y + n.z * first.z,
    ;
    assert(-(3_000_000 * norm) <= norm * nt <= 3_000_000 * norm);
    assert(-3_000_000 <= nt <= 3_000_000) by (nonlinear_arith)
        requires
            -(3_000_000 * norm) <= norm * nt <= 3_000_000 * norm,
            norm > 0,
    ;
    // So the second cross product is long enough too.
    let c2 = n.cross(first);
    lemma_cross_length(n.x, n.y, n.z, first.x, first.y, first.z);
    let ff = first.dot(first);
    assert(c2.dot(c2) == nn * ff - nt * nt);
    assert(nt * nt <= 9_000_000_000_000) by (nonlinear_arith)
        requires
            -3_000_000 <= nt <= 3_000_000,
    ;
    assert(nn * ff >= 999_994_000_000 * 999_994_000_000) by (nonlinear_arith)
        requires
            nn >= 999_994_000_000,
            ff >= 999_994_000_000,
    ;
    assert(c2.dot(c2) >= 1_000_000_000_000);
    lemma_sqrt_exists(c2.dot(c2));
    lemma_sqrt_dominates(c2, int_sqrt(c2.dot(c2)));
    lemma_normalized_is_unit(c2, int_sqrt(c2.dot(c2)));
    lemma_cross_orthogonal(n.x, n.y, n.z, first.x, first.y, first.z);
    lemma_cross_orthogonal_second(n.x, n.y, n.z, first.x, first.y, first.z);
    lemma_unit_orthogonal(n, c2);
    lemma_unit_orthogonal(first, c2);
}

/// A direction at right angles to a vector is nearly at right angles to
/// that vector at unit length.
proof fn lemma_unit_orthogonal(e: Int3, c: Int3)
    requires
        e.within(SCALE as int),
        e.dot(c) == 0,
        c.dot(c) >= MIN_CROSS_SQ,
    ensures
        -3_000_000 <= e.dot(normalized(c)) <= 3_000_000,
{
    let q = c.dot(c);
    lemma_sqrt_exists(q);
    let norm = int_sqrt(q);
    lemma_sqrt_dominates(c, norm);
    let m = normalized(c);
    lemma_tangent_term(e.x, c.x, norm, m.x);
    lemma_tangent_term(e.y, c.y, norm, m.y);
    lemma_tangent_term(e.z, c.z, norm, m.z);
    let em = e.dot(m);
    assert(norm * em == norm * (e.x * m.x) + norm * (e.y * m.y) + norm * (e.z * m.z))
        by (nonlinear_arith)
        requires
            em == e.x * m.x + e.y * m.y + e.z * m.z,
    ;
    assert(-(3_000_000 * norm) <= norm * em <= 3_000_000 * norm);
    assert(-3_000_000 <= em <= 3_000_000) by (nonlinear_arith)
        requires
            -(3_000_000 * norm) <= norm * em <= 3_000_000 * norm,
            norm > 0,
    ;
}

/// A cross product is at right angles to its second factor.
proof fn lemma_cross_orthogonal_second(ax: int, ay: int, az: int, bx: int, by: int, bz: int)
    by (nonlinear_arith)
    ensures
        bx * (ay * bz - az * by) + by * (az * bx - ax * bz) + bz * (ax * by - ay * bx) == 0,
{
}

/// What rounding leaves of one coordinate of a normalized vector: `t` is
/// the quotient of `c` whole units by `norm`, rounded toward zero.
proof fn lemma_tangent_term(n: int, c: int, norm: int, t: int)
    requires
        -SCALE <= n <= SCALE,
        norm > 0,
        t == trunc_div(c * SCALE, norm),
    ensures
        -(1_000_000 * norm) <= norm * (n * t) - 1_000_000 * (n * c) <= 1_000_000 * norm,
{
    lemma_trunc_div_bounds(c * SCALE, norm);
    let e = c * 1_000_000 - t * norm;
    assert(-norm < e < norm);
    assert(norm * (n * t) - 1_000_000 * (n * c) == -(n * e)) by (nonlinear_arith)
        requires
            e == c * 1_000_000 - t * norm,
    ;
    lemma_mul_bound(n, e, 1_000_000, norm);
}

/// A cross product is at right angles to its first factor.
proof fn lemma_cross_orthogonal(ax: int, ay: int, az: int, bx: int, by: int, bz: int)
    by (nonlinear_arith)
    ensures
        ax * (ay * bz - az * by) + ay * (az * bx - ax * bz) + az * (ax * by - ay * bx) == 0,
{
}

} // verus!
