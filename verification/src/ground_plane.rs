//! The ground plane: a point on it and its unit normal.

use vstd::prelude::*;
use crate::fixed::{
    abs, int_sqrt, lemma_mul_bound, lemma_sqrt_exists, lemma_trunc_div_bounds, lemma_trunc_div_neg,
    trunc_div, SCALE,
};
use crate::unit::{
    is_unit, lemma_dot_bound, lemma_negated_same_length, lemma_normalized_is_unit, lemma_sqrt_dominates,
    normalized, unit_of, unit_vector, CROSS_MAX, MIN_CROSS_SQ,
};
use crate::vec3::{to_vec3, Int3, Vec3, COORD_MAX};

verus! {

/// The plane that the vehicle drives on.
#[derive(Clone, Copy, Debug, PartialEq, Eq, Structural)]
pub struct GroundPlane {
    /// A point on the plane.
    pub origin: Vec3,
    /// The unit normal, which never points downward.
    pub normal: Vec3,
    /// The plane's up direction: the normal.
    pub up: Vec3,
    /// Whether the plane was defined by picked points.
    pub is_selected: bool,
}

/// Why three points define no plane.
#[derive(Clone, Copy, Debug, PartialEq, Eq, Structural)]
pub enum PlaneFitError {
    /// The points coincide or lie on one line, or nearly so: the cross
    /// product of the two edges that leave the first point is shorter than
    /// [`MIN_CROSS`](crate::unit::MIN_CROSS).
    Degenerate,
}

/// The largest magnitude of a coordinate of an edge between two points in
/// range: twice [`COORD_MAX`](crate::vec3::COORD_MAX).
pub const EDGE_MAX: i64 = 2_000_000_000_000_000;

/// The largest magnitude of a coordinate of the cross product of two edges:
/// twice the square of [`EDGE_MAX`].
pub const EDGE_CROSS_MAX: i128 = 8_000_000_000_000_000_000_000_000_000_000;

/// The divisor by which a cross product with a coordinate beyond
/// [`CROSS_MAX`](crate::unit::CROSS_MAX) is shortened before it is brought
/// to unit length.
pub const REDUCTION: i128 = 1_000_000_000_000;

/// The largest magnitude of a coordinate of a point between two steps of
/// one computation.
pub const WIDE_MAX: i128 = 100_000_000_000_000_000_000_000;

impl GroundPlane {
    /// The origin is in range, the normal has unit length and does not
    /// point downward, and the up direction is the normal.
    pub open spec fn wf(self) -> bool {
        &&& self.origin.in_range()
        &&& self.normal.is_direction()
        &&& is_unit(self.normal@)
        &&& self.normal.y >= 0
        &&& self.up == self.normal
    }

    /// The signed distance of `p` from the plane, positive on the side of
    /// the normal.
    pub open spec fn height(self, p: Int3) -> int {
        trunc_div(p.minus(self.origin@).dot(self.normal@), SCALE as int)
    }

    /// The point `p` moved along the normal onto the plane.
    pub open spec fn projected(self, p: Int3) -> Int3 {
        p.minus(self.normal@.scaled_by(self.height(p)))
    }
}

/// The horizontal plane through the origin, not selected by anyone.
pub open spec fn horizontal() -> GroundPlane {
    GroundPlane {
        origin: Vec3 { x: 0, y: 0, z: 0 },
        normal: Vec3 { x: 0, y: SCALE, z: 0 },
        up: Vec3 { x: 0, y: SCALE, z: 0 },
        is_selected: false,
    }
}

/// The cross product of the two edges that leave `p1`.
pub open spec fn edge_cross(p1: Int3, p2: Int3, p3: Int3) -> Int3 {
    p2.minus(p1).cross(p3.minus(p1))
}

/// The cross product `c` of two edges, shortened where it is too long to
/// be brought to unit length as it is. The shortened vector points where
/// `c` points, as nearly as whole coordinates allow.
pub open spec fn reduced(c: Int3) -> Int3 {
    if c.within(CROSS_MAX as int) {
        c
    } else {
        Int3 {
            x: trunc_div(c.x, REDUCTION as int),
            y: trunc_div(c.y, REDUCTION as int),
            z: trunc_div(c.z, REDUCTION as int),
        }
    }
}

/// The reason for which no plane is fitted to the three points, if there
/// is one: the cross product of the two edges is shorter than
/// [`MIN_CROSS`](crate::unit::MIN_CROSS).
pub open spec fn fit_error(p1: Int3, p2: Int3, p3: Int3) -> Option<PlaneFitError> {
    let c = edge_cross(p1, p2, p3);
    if c.dot(c) < MIN_CROSS_SQ {
        Some(PlaneFitError::Degenerate)
    } else {
        None
    }
}

/// The upward unit normal of the plane through the three points: the cross
/// product of the two edges at unit length, or its opposite where the cross
/// product points downward.
pub open spec fn fit_normal(p1: Int3, p2: Int3, p3: Int3) -> Int3 {
    let c = edge_cross(p1, p2, p3);
    let n = normalized(reduced(c));
    if c.y < 0 {
        n.negated()
    } else {
        n
    }
}

/// The plane through three points, or the reason for which there is none.
/// The plane's origin is the first point.
pub open spec fn fitted(p1: Vec3, p2: Vec3, p3: Vec3) -> Result<GroundPlane, PlaneFitError> {
    match fit_error(p1@, p2@, p3@) {
        Some(e) => Err(e),
        None => {
            let normal = to_vec3(fit_normal(p1@, p2@, p3@));
            Ok(GroundPlane { origin: p1, normal, up: normal, is_selected: true })
        },
    }
}

/// The three points lie on one line, or coincide: some multiple of the
/// edge from the first to the second equals some multiple of the edge from
/// the first to the third, and not both factors are zero.
pub open spec fn collinear(p1: Int3, p2: Int3, p3: Int3) -> bool {
    exists|a: int, b: int| #[trigger] parallel_by(p2.minus(p1), p3.minus(p1), a, b)
}

/// `a` times `u` is `b` times `v`, and not both factors are zero.
pub open spec fn parallel_by(u: Int3, v: Int3, a: int, b: int) -> bool {
    (a != 0 || b != 0) && u.times(a) == v.times(b)
}

impl Default for GroundPlane {
    /// The horizontal plane through the origin, not yet selected.
    fn default() -> (plane: GroundPlane)
        ensures
            plane == horizontal(),
            plane.wf(),
    {
        proof {
            lemma_horizontal_wf();
        }
        GroundPlane {
            origin: Vec3::zero(),
            normal: Vec3::unit_y(),
            up: Vec3::unit_y(),
            is_selected: false,
        }
    }
}

impl GroundPlane {
    /// The height of a point whose coordinates may exceed the usual reach.
    pub(crate) fn height_wide(&self, x: i128, y: i128, z: i128) -> (h: i128)
        requires
            self.origin.in_range(),
            self.normal.is_direction(),
            is_unit(self.normal@),
            -WIDE_MAX <= x <= WIDE_MAX,
            -WIDE_MAX <= y <= WIDE_MAX,
            -WIDE_MAX <= z <= WIDE_MAX,
        ensures
            h == self.height(Int3 { x: x as int, y: y as int, z: z as int }),
            abs(h as int) <= 2 * ((Int3 { x: x as int, y: y as int, z: z as int }).max_abs()
                + COORD_MAX),
    {
        let ghost m = (Int3 { x: x as int, y: y as int, z: z as int }).max_abs() + COORD_MAX;
        let dx: i128 = x - (self.origin.x as i128);
        let dy: i128 = y - (self.origin.y as i128);
        let dz: i128 = z - (self.origin.z as i128);
        proof {
            lemma_mul_bound(dx as int, self.normal.x as int, m, 1_000_000);
            lemma_mul_bound(dy as int, self.normal.y as int, m, 1_000_000);
            lemma_mul_bound(dz as int, self.normal.z as int, m, 1_000_000);
            lemma_dot_bound(Int3 { x: dx as int, y: dy as int, z: dz as int }, self.normal@, m);
        }
        let d: i128 = dx * (self.normal.x as i128) + dy * (self.normal.y as i128) + dz * (
        self.normal.z as i128);
        d / (SCALE as i128)
    }

    /// The projection of a point whose coordinates may exceed the usual
    /// reach.
    pub(crate) fn project_wide(&self, x: i128, y: i128, z: i128) -> (r: (i128, i128, i128))
        requires
            self.origin.in_range(),
            self.normal.is_direction(),
            is_unit(self.normal@),
            -WIDE_MAX <= x <= WIDE_MAX,
            -WIDE_MAX <= y <= WIDE_MAX,
            -WIDE_MAX <= z <= WIDE_MAX,
        ensures
            (Int3 { x: r.0 as int, y: r.1 as int, z: r.2 as int }) == self.projected(
                Int3 { x: x as int, y: y as int, z: z as int },
            ),
            (Int3 { x: r.0 as int, y: r.1 as int, z: r.2 as int }).within(
                3 * (Int3 { x: x as int, y: y as int, z: z as int }).max_abs() + 2 * COORD_MAX,
            ),
    {
        let h: i128 = self.height_wide(x, y, z);
        let ghost m = 2 * ((Int3 { x: x as int, y: y as int, z: z as int }).max_abs() + COORD_MAX);
        proof {
            lemma_mul_bound(self.normal.x as int, h as int, 1_000_000, m);
            lemma_mul_bound(self.normal.y as int, h as int, 1_000_000, m);
            lemma_mul_bound(self.normal.z as int, h as int, 1_000_000, m);
        }
        let scale: i128 = SCALE as i128;
        let px: i128 = x - ((self.normal.x as i128) * h) / scale;
        let py: i128 = y - ((self.normal.y as i128) * h) / scale;
        let pz: i128 = z - ((self.normal.z as i128) * h) / scale;
        (px, py, pz)
    }

    /// Projects a point onto the plane, along the normal. The projection
    /// of a point within reach is in sight, so that it can be projected
    /// again and its height taken.
    pub fn project_point(&self, point: Vec3) -> (r: Vec3)
        requires
            self.wf(),
            point.in_sight(),
        ensures
            r@ == self.projected(point@),
            r@.within(3 * point@.max_abs() + 2 * COORD_MAX),
            point.in_reach() ==> r.in_sight(),
            point.in_range() ==> r.in_reach(),
    {
        let (x, y, z) = self.project_wide(point.x as i128, point.y as i128, point.z as i128);
        Vec3 { x: x as i64, y: y as i64, z: z as i64 }
    }

    /// The signed distance of a point from the plane, positive on the side
    /// of the normal.
    pub fn height_at(&self, point: Vec3) -> (h: i64)
        requires
            self.wf(),
            point.in_sight(),
        ensures
            h == self.height(point@),
            abs(h as int) <= 2 * (point@.max_abs() + COORD_MAX),
    {
        self.height_wide(point.x as i128, point.y as i128, point.z as i128) as i64
    }

    /// Fits the plane through three points. Its origin is the first point;
    /// its normal is the cross product of the two edges that leave the
    /// first point, at unit length, and turned upward where the cross
    /// product points downward. Only points that coincide or lie on one
    /// line, or nearly so, define no plane.
    pub fn from_three_points(p1: Vec3, p2: Vec3, p3: Vec3) -> (fit: Result<GroundPlane, PlaneFitError>)
        requires
            p1.in_range(),
            p2.in_range(),
            p3.in_range(),
        ensures
            fit == fitted(p1, p2, p3),
            fit matches Ok(plane) ==> plane.wf() && plane.normal@ == fit_normal(p1@, p2@, p3@)
                && plane.normal.y >= 0,
    {
        let ax: i64 = p2.x - p1.x;
        let ay: i64 = p2.y - p1.y;
        let az: i64 = p2.z - p1.z;
        let bx: i64 = p3.x - p1.x;
        let by: i64 = p3.y - p1.y;
        let bz: i64 = p3.z - p1.z;
        let cx: i128 = edge_cross_term(ay, bz, az, by);
        let cy: i128 = edge_cross_term(az, bx, ax, bz);
        let cz: i128 = edge_cross_term(ax, by, ay, bx);
        let ghost c = Int3 { x: cx as int, y: cy as int, z: cz as int };
        assert(c == edge_cross(p1@, p2@, p3@));
        proof {
            lemma_reduced(c);
            if fit_error(p1@, p2@, p3@) is None {
                lemma_fitted_normal_faces_up(p1, p2, p3);
            }
        }
        let unit = if short_enough(cx) && short_enough(cy) && short_enough(cz) {
            unit_vector(cx, cy, cz)
        } else {
            unit_vector(cx / REDUCTION, cy / REDUCTION, cz / REDUCTION)
        };
        let unit = match unit {
            Some(unit) => unit,
            None => {
                return Err(PlaneFitError::Degenerate);
            },
        };
        let normal = if cy < 0 {
            Vec3 { x: -unit.x, y: -unit.y, z: -unit.z }
        } else {
            unit
        };
        Ok(GroundPlane { origin: p1, normal, up: normal, is_selected: true })
    }
}

/// One coordinate of the cross product of two edges.
fn edge_cross_term(a: i64, b: i64, c: i64, d: i64) -> (r: i128)
    requires
        -EDGE_MAX <= a <= EDGE_MAX,
        -EDGE_MAX <= b <= EDGE_MAX,
        -EDGE_MAX <= c <= EDGE_MAX,
        -EDGE_MAX <= d <= EDGE_MAX,
    ensures
        r == a * b - c * d,
        -EDGE_CROSS_MAX <= r <= EDGE_CROSS_MAX,
{
    proof {
        lemma_mul_bound(a as int, b as int, 2_000_000_000_000_000, 2_000_000_000_000_000);
        lemma_mul_bound(c as int, d as int, 2_000_000_000_000_000, 2_000_000_000_000_000);
    }
    (a as i128) * (b as i128) - (c as i128) * (d as i128)
}

/// Tells whether a coordinate of a cross product is short enough for the
/// vector to be brought to unit length as it is.
fn short_enough(c: i128) -> (ok: bool)
    ensures
        ok == (-CROSS_MAX <= c <= CROSS_MAX),
{
    -CROSS_MAX <= c && c <= CROSS_MAX
}

/// The horizontal plane is well formed.
pub proof fn lemma_horizontal_wf()
    ensures
        horizontal().wf(),
{
    let n = horizontal().normal@;
    assert(n.x * n.x == 0 && n.z * n.z == 0);
    assert(n.y * n.y == 1_000_000_000_000) by (nonlinear_arith)
        requires
            n.y == 1_000_000,
    ;
}

/// A plane is fitted to three points exactly where the cross product of
/// the two edges that leave the first point is no shorter than
/// [`MIN_CROSS`](crate::unit::MIN_CROSS); its origin is the first point,
/// its up direction is its normal, and it counts as selected.
pub proof fn lemma_fit_only_fails_when_degenerate(p1: Vec3, p2: Vec3, p3: Vec3)
    ensures
        fitted(p1, p2, p3) is Ok <==> edge_cross(p1@, p2@, p3@).dot(edge_cross(p1@, p2@, p3@))
            >= MIN_CROSS_SQ,
        fitted(p1, p2, p3) matches Ok(plane) ==> plane.origin == p1 && plane.up == plane.normal
            && plane.is_selected,
{
}

/// A plane fitted to three points in range is well formed.
pub proof fn lemma_fitted_wf(p1: Vec3, p2: Vec3, p3: Vec3)
    requires
        p1.in_range(),
        p2.in_range(),
        p3.in_range(),
        fitted(p1, p2, p3) is Ok,
    ensures
        fitted(p1, p2, p3)->Ok_0.wf(),
        fitted(p1, p2, p3)->Ok_0.normal@ == fit_normal(p1@, p2@, p3@),
        fitted(p1, p2, p3)->Ok_0.is_selected,
{
    lemma_edge_cross_bound(p1, p2, p3);
    lemma_fitted_normal_faces_up(p1, p2, p3);
}

/// The normal of a fitted plane has unit length and does not point
/// downward, whatever the order of the three points.
pub proof fn lemma_fitted_normal_faces_up(p1: Vec3, p2: Vec3, p3: Vec3)
    requires
        fit_error(p1@, p2@, p3@) is None,
        edge_cross(p1@, p2@, p3@).within(EDGE_CROSS_MAX as int),
    ensures
        fit_normal(p1@, p2@, p3@).y >= 0,
        is_unit(fit_normal(p1@, p2@, p3@)),
        fit_normal(p1@, p2@, p3@).within(SCALE as int),
        unit_of(reduced(edge_cross(p1@, p2@, p3@))) is Some,
{
    let c = edge_cross(p1@, p2@, p3@);
    lemma_reduced(c);
    let r = reduced(c);
    let q = r.dot(r);
    lemma_sqrt_exists(q);
    let norm = int_sqrt(q);
    lemma_sqrt_dominates(r, norm);
    lemma_normalized_is_unit(r, norm);
    lemma_negated_same_length(normalized(r));
    lemma_trunc_div_bounds(r.y * SCALE, norm);
    assert(r.y >= 0 ==> r.y * SCALE >= 0) by (nonlinear_arith);
    assert(r.y <= 0 ==> r.y * SCALE <= 0) by (nonlinear_arith);
}

/// The plane fitted to three points does not depend on the order of the
/// second and the third, unless the cross product of the edges is level:
/// then the two orders give opposite normals, both of them level.
pub proof fn lemma_winding_independent(p1: Vec3, p2: Vec3, p3: Vec3)
    ensures
        edge_cross(p1@, p2@, p3@).y != 0 ==> fitted(p1, p3, p2) == fitted(p1, p2, p3),
        fit_error(p1@, p3@, p2@) == fit_error(p1@, p2@, p3@),
        edge_cross(p1@, p2@, p3@).y == 0 && fit_error(p1@, p2@, p3@) is None ==> fit_normal(
            p1@,
            p3@,
            p2@,
        ) == fit_normal(p1@, p2@, p3@).negated(),
{
    let c = edge_cross(p1@, p2@, p3@);
    let d = edge_cross(p1@, p3@, p2@);
    let u = p2@.minus(p1@);
    let v = p3@.minus(p1@);
    assert(d == c.negated()) by {
        lemma_cross_swapped(u.y, u.z, v.y, v.z);
        lemma_cross_swapped(u.z, u.x, v.z, v.x);
        lemma_cross_swapped(u.x, u.y, v.x, v.y);
    }
    lemma_negated_same_length(c);
    lemma_reduced_negated(c);
    if fit_error(p1@, p2@, p3@) is None {
        lemma_reduced(c);
        lemma_normalized_negated(reduced(c));
    }
}

/// Three points on one line, or three that coincide, define no plane.
pub proof fn lemma_collinear_rejected(p1: Vec3, p2: Vec3, p3: Vec3)
    requires
        collinear(p1@, p2@, p3@),
    ensures
        fitted(p1, p2, p3) == Err::<GroundPlane, PlaneFitError>(PlaneFitError::Degenerate),
{
    lemma_collinear_cross_zero(p1@, p2@, p3@);
}

/// The edges of three points on one line have no cross product.
pub proof fn lemma_collinear_cross_zero(p1: Int3, p2: Int3, p3: Int3)
    requires
        collinear(p1, p2, p3),
    ensures
        edge_cross(p1, p2, p3) == (Int3 { x: 0, y: 0, z: 0 }),
{
    let u = p2.minus(p1);
    let v = p3.minus(p1);
    let (a, b) = choose|a: int, b: int| #[trigger] parallel_by(u, v, a, b);
    assert(a * u.x == b * v.x && a * u.y == b * v.y && a * u.z == b * v.z);
    lemma_parallel_term(a, b, u.y, u.z, v.y, v.z);
    lemma_parallel_term(a, b, u.z, u.x, v.z, v.x);
    lemma_parallel_term(a, b, u.x, u.y, v.x, v.y);
}

/// A cross product that is short enough is not shortened. One that is
/// shortened is long, and so is what is left of it: each coordinate times
/// [`REDUCTION`] comes within less than [`REDUCTION`] of what it was.
/// Shortening keeps the sign of the vertical coordinate, and what it leaves
/// of the cross product of two edges is short enough to be brought to unit
/// length.
pub proof fn lemma_reduced(c: Int3)
    ensures
        c.within(CROSS_MAX as int) ==> reduced(c) == c,
        c.minus(reduced(c).times(REDUCTION as int)).within(REDUCTION - 1) || reduced(c) == c,
        c.within(EDGE_CROSS_MAX as int) ==> reduced(c).within(CROSS_MAX as int),
        !c.within(CROSS_MAX as int) ==> c.dot(c) >= MIN_CROSS_SQ && reduced(c).dot(reduced(c))
            >= MIN_CROSS_SQ,
        c.y >= 0 ==> reduced(c).y >= 0,
        c.y <= 0 ==> reduced(c).y <= 0,
{
    let r = reduced(c);
    lemma_trunc_div_bounds(c.x, REDUCTION as int);
    lemma_trunc_div_bounds(c.y, REDUCTION as int);
    lemma_trunc_div_bounds(c.z, REDUCTION as int);
    assert(c.x * c.x >= 0 && c.y * c.y >= 0 && c.z * c.z >= 0) by (nonlinear_arith);
    assert(r.x * r.x >= 0 && r.y * r.y >= 0 && r.z * r.z >= 0) by (nonlinear_arith);
    if !c.within(CROSS_MAX as int) {
        lemma_long_square(c.x);
        lemma_long_square(c.y);
        lemma_long_square(c.z);
    }
}

/// The cross product of the edges between points in range is bounded.
pub proof fn lemma_edge_cross_bound(p1: Vec3, p2: Vec3, p3: Vec3)
    requires
        p1.in_range(),
        p2.in_range(),
        p3.in_range(),
    ensures
        edge_cross(p1@, p2@, p3@).within(EDGE_CROSS_MAX as int),
{
    let u = p2@.minus(p1@);
    let v = p3@.minus(p1@);
    lemma_mul_bound(u.y, v.z, 2_000_000_000_000_000, 2_000_000_000_000_000);
    lemma_mul_bound(u.z, v.y, 2_000_000_000_000_000, 2_000_000_000_000_000);
    lemma_mul_bound(u.z, v.x, 2_000_000_000_000_000, 2_000_000_000_000_000);
    lemma_mul_bound(u.x, v.z, 2_000_000_000_000_000, 2_000_000_000_000_000);
    lemma_mul_bound(u.x, v.y, 2_000_000_000_000_000, 2_000_000_000_000_000);
    lemma_mul_bound(u.y, v.x, 2_000_000_000_000_000, 2_000_000_000_000_000);
}

/// One coordinate of the cross product of two parallel vectors is zero.
proof fn lemma_parallel_term(a: int, b: int, u1: int, u2: int, v1: int, v2: int)
    by (nonlinear_arith)
    requires
        a != 0 || b != 0,
        a * u1 == b * v1,
        a * u2 == b * v2,
    ensures
        u1 * v2 - u2 * v1 == 0,
{
    // a * (u1 v2 - u2 v1) = b v1 v2 - b v2 v1 = 0, and the same with b.
    assert(a * (u1 * v2 - u2 * v1) == (a * u1) * v2 - (a * u2) * v1);
    assert(b * (u1 * v2 - u2 * v1) == u1 * (b * v2) - u2 * (b * v1));
}

/// One coordinate of a cross product changes sign when the factors change
/// places.
proof fn lemma_cross_swapped(u1: int, u2: int, v1: int, v2: int)
    by (nonlinear_arith)
    ensures
        v1 * u2 - v2 * u1 == -(u1 * v2 - u2 * v1),
{
}

/// The shortened opposite is the opposite of the shortened vector.
proof fn lemma_reduced_negated(c: Int3)
    ensures
        reduced(c.negated()) == reduced(c).negated(),
{
    lemma_trunc_div_neg(c.x, REDUCTION as int);
    lemma_trunc_div_neg(c.y, REDUCTION as int);
    lemma_trunc_div_neg(c.z, REDUCTION as int);
}

/// The opposite vector at unit length is the opposite of the vector at unit
/// length.
proof fn lemma_normalized_negated(c: Int3)
    requires
        c.dot(c) >= MIN_CROSS_SQ,
    ensures
        normalized(c.negated()) == normalized(c).negated(),
{
    lemma_negated_same_length(c);
    let q = c.dot(c);
    let norm = int_sqrt(q);
    lemma_sqrt_exists(q);
    lemma_sqrt_dominates(c, norm);
    assert((-c.x) * SCALE == -(c.x * SCALE) && (-c.y) * SCALE == -(c.y * SCALE) && (-c.z) * SCALE
        == -(c.z * SCALE)) by (nonlinear_arith);
    lemma_trunc_div_neg(c.x * SCALE, norm);
    lemma_trunc_div_neg(c.y * SCALE, norm);
    lemma_trunc_div_neg(c.z * SCALE, norm);
}

/// The square of a coordinate beyond [`CROSS_MAX`], and the square of what
/// shortening leaves of it, are large.
proof fn lemma_long_square(a: int)
    ensures
        a > CROSS_MAX || a < -CROSS_MAX ==> a * a >= MIN_CROSS_SQ && trunc_div(a, REDUCTION as int)
            * trunc_div(a, REDUCTION as int) >= MIN_CROSS_SQ,
{
    if a > CROSS_MAX || a < -CROSS_MAX {
        let t = trunc_div(a, REDUCTION as int);
        assert(t >= 8_000_000 || t <= -8_000_000);
        assert(t * t >= 1_000_000_000_000) by (nonlinear_arith)
            requires
                t >= 8_000_000 || t <= -8_000_000,
        ;
        assert(a * a >= 1_000_000_000_000) by (nonlinear_arith)
            requires
                a > 8_000_000_000_000_000_000 || a < -8_000_000_000_000_000_000,
        ;
    }
}

} // verus!
