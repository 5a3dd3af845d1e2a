//! What holds of projection onto a plane and of the height above it.
//!
//! With coordinates rounded to millionths a projected point does not lie on
//! the plane exactly. The laws here bound how far off it lies, and show
//! that nothing is lost on a level plane.

use vstd::prelude::*;
use crate::fixed::{
    abs, int_sqrt, lemma_mul_bound, lemma_sqrt_exists, lemma_trunc_div_bounds, scaled, trunc_div,
    SCALE,
};
use crate::car::{Car, CarPose, GROUND_OFFSET};
use crate::ground_plane::{
    edge_cross, fitted, lemma_edge_cross_bound, lemma_fitted_wf, lemma_reduced, reduced,
    GroundPlane, EDGE_CROSS_MAX, REDUCTION,
};
use crate::unit::{
    lemma_cross_length, lemma_sqrt_dominates, normalized, CROSS_MAX, MIN_CROSS_SQ,
};
use crate::vec3::{Int3, Vec3};

verus! {

/// The plane's normal points straight up, with length exactly one.
pub open spec fn is_level(plane: GroundPlane) -> bool {
    plane.normal@ == (Int3 { x: 0, y: SCALE as int, z: 0 })
}

/// The height of a projected point is small: at most four millionths, and
/// six millionths of the height that the point had.
pub proof fn lemma_projected_height_small(plane: GroundPlane, p: Int3)
    requires
        plane.wf(),
    ensures
        abs(plane.height(plane.projected(p))) * SCALE <= 4 * SCALE + 6 * abs(plane.height(p)),
        abs(plane.projected(p).minus(plane.origin@).dot(plane.normal@)) <= 4 * SCALE + 6 * abs(
            plane.height(p),
        ),
{
    let n = plane.normal@;
    let w = p.minus(plane.origin@);
    let d = w.dot(n);
    let h = plane.height(p);
    lemma_trunc_div_bounds(d, SCALE as int);
    let rho = d - h * 1_000_000;
    assert(-1_000_000 < rho < 1_000_000);

    let t = n.scaled_by(h);
    lemma_step_term(n.x, h, t.x);
    lemma_step_term(n.y, h, t.y);
    lemma_step_term(n.z, h, t.z);

    let q = plane.projected(p);
    let w2 = q.minus(plane.origin@);
    let d2 = w2.dot(n);
    assert(w2.x == w.x - t.x && w2.y == w.y - t.y && w2.z == w.z - t.z);
    assert(d2 == d - (t.x * n.x + t.y * n.y + t.z * n.z)) by (nonlinear_arith)
        requires
            d2 == w2.x * n.x + w2.y * n.y + w2.z * n.z,
            d == w.x * n.x + w.y * n.y + w.z * n.z,
            w2.x == w.x - t.x,
            w2.y == w.y - t.y,
            w2.z == w.z - t.z,
    ;
    let nn = n.dot(n);
    let delta = nn - 1_000_000_000_000;
    assert(-6_000_000 <= delta <= 2_000_000);
    assert(h * nn == h * (n.x * n.x) + h * (n.y * n.y) + h * (n.z * n.z)) by (nonlinear_arith)
        requires
            nn == n.x * n.x + n.y * n.y + n.z * n.z,
    ;
    assert(h * nn == h * 1_000_000_000_000 + h * delta) by (nonlinear_arith)
        requires
            nn == 1_000_000_000_000 + delta,
    ;
    lemma_mul_bound(h, delta, abs(h), 6_000_000);
    assert(abs(h) * 6_000_000 == 6_000_000 * abs(h)) by (nonlinear_arith);
    // A million times the new dot product is a million times the rest of
    // the old height, less the height times the normal's excess length,
    // and what rounding the three steps left over.
    let rest = 1_000_000 * (t.x * n.x + t.y * n.y + t.z * n.z) - h * nn;
    assert(-3_000_000_000_000 < rest < 3_000_000_000_000);
    assert(1_000_000 * d2 == 1_000_000 * rho - h * delta - rest);
    assert(1_000_000 * abs(d2) <= 4_000_000_000_000 + 6_000_000 * abs(h));

    let h2 = plane.height(q);
    lemma_trunc_div_bounds(d2, SCALE as int);
    assert(abs(h2) * 1_000_000 <= abs(d2));
}

/// Projecting a projected point moves it by no more than the little that
/// it lies off the plane: in each coordinate, at most four millionths and
/// six millionths of the height that the first point had.
pub proof fn lemma_projection_nearly_idempotent(plane: GroundPlane, p: Int3)
    requires
        plane.wf(),
    ensures
        ({
            let once = plane.projected(p);
            let twice = plane.projected(once);
            let slack = abs(plane.height(once));
            &&& twice.minus(once).within(slack)
            &&& slack * SCALE <= 4 * SCALE + 6 * abs(plane.height(p))
            &&& slack == 0 ==> twice == once
        }),
{
    lemma_projected_height_small(plane, p);
    let n = plane.normal@;
    let once = plane.projected(p);
    let h = plane.height(once);
    let t = n.scaled_by(h);
    lemma_step_term(n.x, h, t.x);
    lemma_step_term(n.y, h, t.y);
    lemma_step_term(n.z, h, t.z);
}

/// The projection of a point is the nearest point of the plane, nearly. The
/// step from `p` to its projection is no longer than the height of `p`
/// times the length of the normal; and from `p` to any point `q` of the
/// plane it is at least as far as the height of `p`, less a millionth,
/// divided by the length of the normal. The normal's length is one within
/// a few millionths.
pub proof fn lemma_projection_is_nearest(plane: GroundPlane, p: Int3, q: Int3)
    requires
        plane.wf(),
        plane.height(q) == 0,
    ensures
        ({
            let h = plane.height(p);
            let step = p.minus(plane.projected(p));
            let way = p.minus(q);
            let nn = plane.normal@.dot(plane.normal@);
            &&& step.dot(step) * 1_000_000_000_000 <= (h * h) * nn
            &&& abs(h) >= 1 ==> ((abs(h) - 1) * (abs(h) - 1)) * 1_000_000_000_000 <= way.dot(way)
                * nn
        }),
{
    let n = plane.normal@;
    let o = plane.origin@;
    let h = plane.height(p);
    let nn = n.dot(n);
    let hh = h * h;
    // The step is no longer than the height times the normal.
    let step = p.minus(plane.projected(p));
    lemma_step_square(n.x, h, step.x);
    lemma_step_square(n.y, h, step.y);
    lemma_step_square(n.z, h, step.z);
    assert(hh * nn == hh * (n.x * n.x) + hh * (n.y * n.y) + hh * (n.z * n.z)) by (nonlinear_arith)
        requires
            nn == n.x * n.x + n.y * n.y + n.z * n.z,
    ;
    let ss = step.dot(step);
    assert(ss * 1_000_000_000_000 == (step.x * step.x) * 1_000_000_000_000 + (step.y * step.y)
        * 1_000_000_000_000 + (step.z * step.z) * 1_000_000_000_000);
    // No point of the plane is nearer.
    if abs(h) >= 1 {
        let way = p.minus(q);
        let d = p.minus(o).dot(n);
        let g = q.minus(o).dot(n);
        let wn = way.dot(n);
        assert(wn == d - g) by (nonlinear_arith)
            requires
                wn == (p.x - q.x) * n.x + (p.y - q.y) * n.y + (p.z - q.z) * n.z,
                d == (p.x - o.x) * n.x + (p.y - o.y) * n.y + (p.z - o.z) * n.z,
                g == (q.x - o.x) * n.x + (q.y - o.y) * n.y + (q.z - o.z) * n.z,
        ;
        lemma_trunc_div_bounds(d, SCALE as int);
        lemma_trunc_div_bounds(g, SCALE as int);
        let a = abs(h) - 1;
        assert(wn >= 1_000_000 * a || wn <= -(1_000_000 * a));
        assert(wn * wn >= (a * a) * 1_000_000_000_000) by (nonlinear_arith)
            requires
                wn >= 1_000_000 * a || wn <= -(1_000_000 * a),
                a >= 0,
        ;
        let c = way.cross(n);
        lemma_cross_length(way.x, way.y, way.z, n.x, n.y, n.z);
        assert(c.x * c.x >= 0 && c.y * c.y >= 0 && c.z * c.z >= 0) by (nonlinear_arith);
        assert(wn * wn <= way.dot(way) * nn);
    }
}

/// On a level plane the height of a point is its vertical distance from
/// the plane's origin, and its projection keeps the two horizontal
/// coordinates and takes the origin's vertical one.
pub proof fn lemma_level_plane_exact(plane: GroundPlane, p: Int3)
    requires
        is_level(plane),
    ensures
        plane.height(p) == p.y - plane.origin.y,
        plane.projected(p) == (Int3 { x: p.x, y: plane.origin.y as int, z: p.z }),
        plane.height(plane.projected(p)) == 0,
        plane.projected(plane.projected(p)) == plane.projected(p),
{
    let n = plane.normal@;
    let o = plane.origin@;
    lemma_level_height(plane, p);
    let h = plane.height(p);
    assert(n.x * h == 0 && n.z * h == 0) by (nonlinear_arith)
        requires
            n.x == 0,
            n.z == 0,
    ;
    assert(n.y * h == h * 1_000_000) by (nonlinear_arith)
        requires
            n.y == 1_000_000,
    ;
    let q = plane.projected(p);
    assert(q == (Int3 { x: p.x, y: o.y, z: p.z }));
    lemma_level_height(plane, q);
    let h2 = plane.height(q);
    assert(n.x * h2 == 0 && n.y * h2 == 0 && n.z * h2 == 0) by (nonlinear_arith)
        requires
            h2 == 0,
    ;
}

/// The three points to which a plane is fitted lie on it, nearly: the first
/// at height zero, each of the others at a height of at most two millionths
/// of the length of its edge from the first, taken as the sum of the
/// magnitudes of its coordinates.
pub proof fn lemma_fitted_points_near_plane(p1: Vec3, p2: Vec3, p3: Vec3)
    requires
        p1.in_range(),
        p2.in_range(),
        p3.in_range(),
        fitted(p1, p2, p3) is Ok,
    ensures
        ({
            let plane = fitted(p1, p2, p3)->Ok_0;
            &&& plane.height(p1@) == 0
            &&& abs(plane.height(p2@)) * SCALE <= 2 * p2@.minus(p1@).manhattan()
            &&& abs(plane.height(p3@)) * SCALE <= 2 * p3@.minus(p1@).manhattan()
        }),
{
    let plane = fitted(p1, p2, p3)->Ok_0;
    lemma_fitted_wf(p1, p2, p3);
    lemma_edge_cross_bound(p1, p2, p3);
    let u = p2@.minus(p1@);
    let v = p3@.minus(p1@);
    let c = edge_cross(p1@, p2@, p3@);
    let zero = p1@.minus(p1@);
    assert(zero.x * plane.normal.x == 0 && zero.y * plane.normal.y == 0 && zero.z
        * plane.normal.z == 0) by (nonlinear_arith)
        requires
            zero.x == 0 && zero.y == 0 && zero.z == 0,
    ;
    assert(u.dot(c) == 0) by {
        lemma_cross_orthogonal_first(u.x, u.y, u.z, v.x, v.y, v.z);
    }
    assert(v.dot(c) == 0) by {
        lemma_cross_orthogonal_second(u.x, u.y, u.z, v.x, v.y, v.z);
    }
    lemma_edge_near_plane(u, c, plane.normal@);
    lemma_edge_near_plane(v, c, plane.normal@);
    lemma_trunc_div_bounds(u.dot(plane.normal@), SCALE as int);
    lemma_trunc_div_bounds(v.dot(plane.normal@), SCALE as int);
}

/// On any plane a moving vehicle keeps its height, nearly: after each tick
/// its height above the plane differs from the ground offset by at most
/// eleven millionths, and six millionths of the height at which its travel
/// along the forward axis had left it.
pub proof fn lemma_drive_keeps_height(car: Car, pose: CarPose, plane: GroundPlane, dt: int)
    requires
        plane.wf(),
    ensures
        abs(plane.height(car.next_position(pose, plane, dt)) - GROUND_OFFSET) * SCALE <= 11
            * SCALE + 6 * abs(plane.height(car.advanced(pose, dt))),
{
    let n = plane.normal@;
    let o = plane.origin@;
    let moved = car.advanced(pose, dt);
    let h = plane.height(moved);
    let q = plane.projected(moved);
    lemma_projected_height_small(plane, moved);
    let dq = q.minus(o).dot(n);
    let m = n.scaled_by(GROUND_OFFSET as int);
    lemma_step_term(n.x, GROUND_OFFSET as int, m.x);
    lemma_step_term(n.y, GROUND_OFFSET as int, m.y);
    lemma_step_term(n.z, GROUND_OFFSET as int, m.z);
    let next = car.next_position(pose, plane, dt);
    let w = q.minus(o);
    let w2 = next.minus(o);
    let d2 = w2.dot(n);
    assert(w2.x == w.x + m.x && w2.y == w.y + m.y && w2.z == w.z + m.z);
    assert(d2 == dq + (m.x * n.x + m.y * n.y + m.z * n.z)) by (nonlinear_arith)
        requires
            d2 == w2.x * n.x + w2.y * n.y + w2.z * n.z,
            dq == w.x * n.x + w.y * n.y + w.z * n.z,
            w2.x == w.x + m.x,
            w2.y == w.y + m.y,
            w2.z == w.z + m.z,
    ;
    let nn = n.dot(n);
    assert(GROUND_OFFSET * nn == GROUND_OFFSET * (n.x * n.x) + GROUND_OFFSET * (n.y * n.y)
        + GROUND_OFFSET * (n.z * n.z)) by (nonlinear_arith)
        requires
            nn == n.x * n.x + n.y * n.y + n.z * n.z,
    ;
    assert(GROUND_OFFSET * nn == 500_000 * nn);
    let rest = 1_000_000 * (m.x * n.x + m.y * n.y + m.z * n.z) - 500_000 * nn;
    assert(-3_000_000_000_000 < rest < 3_000_000_000_000);
    assert(1_000_000 * (d2 - 500_000_000_000) == 1_000_000 * dq + 500_000 * (nn
        - 1_000_000_000_000) + rest);
    assert(abs(d2 - 500_000_000_000) <= 10_000_000 + 6 * abs(h));
    lemma_trunc_div_bounds(d2, SCALE as int);
}

/// On a level plane a moving vehicle keeps its height: after each tick it
/// stands exactly the ground offset above the plane, and has moved in the
/// two horizontal coordinates by its travel along its forward axis. An
/// upright vehicle is not realigned, and one that does not steer does not
/// turn.
pub proof fn lemma_level_drive(car: Car, pose: CarPose, plane: GroundPlane, dt: int)
    requires
        is_level(plane),
    ensures
        ({
            let next = car.next_position(pose, plane, dt);
            &&& next.x == pose.position.x + scaled(pose.forward.x as int, car.travel(dt))
            &&& next.y == plane.origin.y + GROUND_OFFSET
            &&& next.z == pose.position.z + scaled(pose.forward.z as int, car.travel(dt))
            &&& plane.height(next) == GROUND_OFFSET
        }),
        pose.up@ == plane.normal@ ==> Car::alignment(pose, plane, dt) is None,
        forall|steering_tan: int| !car.is_turning() ==> #[trigger] car.yaw(steering_tan, dt) is None,
{
    assert(pose.up@ == plane.normal@ ==> pose.up@.dot(plane.normal@) == 1_000_000_000_000)
        by (nonlinear_arith)
        requires
            plane.normal@ == (Int3 { x: 0, y: 1_000_000, z: 0 }),
            pose.up@.dot(plane.normal@) == pose.up@.x * plane.normal@.x + pose.up@.y
                * plane.normal@.y + pose.up@.z * plane.normal@.z,
    ;
    let moved = pose.position@.plus(pose.forward@.scaled_by(car.travel(dt)));
    lemma_level_plane_exact(plane, moved);
    let n = plane.normal@;
    assert(n.x * GROUND_OFFSET == 0 && n.z * GROUND_OFFSET == 0) by (nonlinear_arith)
        requires
            n.x == 0,
            n.z == 0,
    ;
    assert(n.y * GROUND_OFFSET == 500_000_000_000) by (nonlinear_arith)
        requires
            n.y == 1_000_000,
            GROUND_OFFSET == 500_000,
    ;
    lemma_level_height(plane, car.next_position(pose, plane, dt));
}

/// The part of one coordinate in the dot product of the normal and the
/// step from a point to its projection: `t` is the quotient of `n * h` by
/// [`SCALE`], rounded toward zero.
proof fn lemma_step_term(n: int, h: int, t: int)
    requires
        -SCALE <= n <= SCALE,
        t == trunc_div(n * h, SCALE as int),
    ensures
        -1_000_000_000_000 < 1_000_000 * (t * n) - h * (n * n) < 1_000_000_000_000,
        -abs(h) <= t <= abs(h),
{
    let a = n * h;
    lemma_trunc_div_bounds(a, SCALE as int);
    let e = a - t * 1_000_000;
    assert(-1_000_000 < e < 1_000_000);
    assert(1_000_000 * (t * n) - h * (n * n) == -(e * n)) by (nonlinear_arith)
        requires
            e == n * h - t * 1_000_000,
    ;
    lemma_mul_bound(e, n, 999_999, 1_000_000);
    lemma_mul_bound(n, h, 1_000_000, abs(h));
    assert(t * 1_000_000 <= 1_000_000 * abs(h) && t * 1_000_000 >= -(1_000_000 * abs(h)));
}

/// The square of one coordinate of the step from a point to its
/// projection: `t` is the quotient of `n * h` by [`SCALE`], rounded toward
/// zero.
proof fn lemma_step_square(n: int, h: int, t: int)
    requires
        t == trunc_div(n * h, SCALE as int),
    ensures
        (t * t) * 1_000_000_000_000 <= (h * h) * (n * n),
{
    let a = n * h;
    lemma_trunc_div_bounds(a, SCALE as int);
    let m = t * 1_000_000;
    assert(m * m <= a * a) by (nonlinear_arith)
        requires
            (0 <= m <= a) || (a <= m <= 0),
    ;
    assert(m * m == (t * t) * 1_000_000_000_000) by (nonlinear_arith)
        requires
            m == t * 1_000_000,
    ;
    assert(a * a == (h * h) * (n * n)) by (nonlinear_arith)
        requires
            a == n * h,
    ;
}

/// On a level plane the height of a point is its vertical distance from
/// the plane's origin.
proof fn lemma_level_height(plane: GroundPlane, p: Int3)
    requires
        is_level(plane),
    ensures
        plane.height(p) == p.y - plane.origin.y,
{
    let n = plane.normal@;
    let w = p.minus(plane.origin@);
    assert(w.x * n.x == 0 && w.z * n.z == 0) by (nonlinear_arith)
        requires
            n.x == 0,
            n.z == 0,
    ;
    assert(w.y * n.y == w.y * 1_000_000) by (nonlinear_arith)
        requires
            n.y == 1_000_000,
    ;
}

/// A vector at right angles to a cross product is nearly at right angles
/// to the unit normal made of it.
proof fn lemma_edge_near_plane(e: Int3, c: Int3, n: Int3)
    requires
        c.within(EDGE_CROSS_MAX as int),
        c.dot(c) >= MIN_CROSS_SQ,
        e.dot(c) == 0,
        n == normalized(reduced(c)) || n == normalized(reduced(c)).negated(),
    ensures
        abs(e.dot(n)) <= 2 * e.manhattan(),
{
    let r = reduced(c);
    let d: int = if c.within(CROSS_MAX as int) {
        1
    } else {
        REDUCTION as int
    };
    assert(r.x == trunc_div(c.x, d) && r.y == trunc_div(c.y, d) && r.z == trunc_div(c.z, d));
    lemma_reduced(c);
    let q = r.dot(r);
    lemma_sqrt_exists(q);
    let norm = int_sqrt(q);
    lemma_sqrt_dominates(r, norm);
    let m = normalized(r);
    lemma_fit_term(e.x, c.x, d, norm, r.x, m.x);
    lemma_fit_term(e.y, c.y, d, norm, r.y, m.y);
    lemma_fit_term(e.z, c.z, d, norm, r.z, m.z);
    let em = e.dot(m);
    let k = norm * d;
    let w = 1_000_000 * d + d * norm;
    assert(k * em == k * (e.x * m.x) + k * (e.y * m.y) + k * (e.z * m.z)) by (nonlinear_arith)
        requires
            em == e.x * m.x + e.y * m.y + e.z * m.z,
    ;
    let len = e.manhattan();
    assert(abs(e.x) * w + abs(e.y) * w + abs(e.z) * w == len * w) by (nonlinear_arith)
        requires
            len == abs(e.x) + abs(e.y) + abs(e.z),
    ;
    assert(-(len * w) <= k * em <= len * w);
    assert(w <= 2 * k) by (nonlinear_arith)
        requires
            w == 1_000_000 * d + d * norm,
            k == norm * d,
            norm >= 1_000_000,
            d >= 1,
    ;
    assert(len * w <= len * (2 * k)) by (nonlinear_arith)
        requires
            w <= 2 * k,
            len >= 0,
    ;
    assert(-(2 * len) <= em <= 2 * len) by (nonlinear_arith)
        requires
            -(len * (2 * k)) <= k * em <= len * (2 * k),
            k > 0,
    ;
    assert(e.dot(m.negated()) == -em) by (nonlinear_arith)
        requires
            em == e.x * m.x + e.y * m.y + e.z * m.z,
            e.dot(m.negated()) == e.x * (-m.x) + e.y * (-m.y) + e.z * (-m.z),
    ;
}

/// The part of one coordinate in the dot product of a vector and the unit
/// normal made of a cross product: `r` is what shortening by `d` leaves of
/// the coordinate `c`, and `m` the quotient of `r` whole units by `norm`.
proof fn lemma_fit_term(e: int, c: int, d: int, norm: int, r: int, m: int)
    requires
        d >= 1,
        norm >= 1,
        r == trunc_div(c, d),
        m == trunc_div(r * SCALE, norm),
    ensures
        -(abs(e) * (1_000_000 * d + d * norm)) <= (norm * d) * (e * m) - 1_000_000 * (e * c)
            <= abs(e) * (1_000_000 * d + d * norm),
{
    lemma_trunc_div_bounds(c, d);
    let delta = c - r * d;
    lemma_trunc_div_bounds(r * SCALE, norm);
    let eps = r * 1_000_000 - m * norm;
    assert((norm * d) * (e * m) - 1_000_000 * (e * c) == -(1_000_000 * (e * delta)) - d * (e
        * eps)) by (nonlinear_arith)
        requires
            delta == c - r * d,
            eps == r * 1_000_000 - m * norm,
    ;
    lemma_mul_bound(e, delta, abs(e), d);
    lemma_mul_bound(e, eps, abs(e), norm);
    let a = abs(e);
    let x = e * eps;
    assert(-(d * (a * norm)) <= d * x <= d * (a * norm)) by (nonlinear_arith)
        requires
            -(a * norm) <= x <= a * norm,
            d >= 1,
    ;
    assert(d * (a * norm) == a * (d * norm) && a * (1_000_000 * d + d * norm) == 1_000_000 * (a
        * d) + a * (d * norm)) by (nonlinear_arith);
}

/// A cross product is at right angles to its first factor.
proof fn lemma_cross_orthogonal_first(ax: int, ay: int, az: int, bx: int, by: int, bz: int)
    by (nonlinear_arith)
    ensures
        ax * (ay * bz - az * by) + ay * (az * bx - ax * bz) + az * (ax * by - ay * bx) == 0,
{
}

/// A cross product is at right angles to its second factor.
proof fn lemma_cross_orthogonal_second(ax: int, ay: int, az: int, bx: int, by: int, bz: int)
    by (nonlinear_arith)
    ensures
        bx * (ay * bz - az * by) + by * (az * bx - ax * bz) + bz * (ax * by - ay * bx) == 0,
{
}

} // verus!
