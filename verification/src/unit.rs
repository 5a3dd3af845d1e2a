//! Unit vectors: bringing a vector to unit length, and how near to one the
//! length of the result is.

use vstd::prelude::*;
use crate::fixed::{
    int_sqrt, is_sqrt, isqrt, lemma_mul_bound, lemma_sqrt_unique, lemma_trunc_div_bounds,
    lemma_trunc_div_le, trunc_div, SCALE,
};
use crate::vec3::{Int3, Vec3};

verus! {

/// The largest magnitude of a coordinate of a vector of which a cross
/// product is taken.
pub const FACTOR_MAX: i64 = 2_000_000_000;

/// The least squared length that counts as one: the square of [`SCALE`],
/// less six times [`SCALE`].
pub const UNIT_SQ_MIN: i64 = 999_994_000_000;

/// The greatest squared length that counts as one: the square of
/// [`SCALE`], and twice [`SCALE`].
pub const UNIT_SQ_MAX: i64 = 1_000_002_000_000;

/// The smallest length of a vector that is brought to unit length: a
/// shorter one counts as having no direction.
pub const MIN_CROSS: i64 = 1_000_000;

/// The square of [`MIN_CROSS`].
pub const MIN_CROSS_SQ: u128 = 1_000_000_000_000;

/// The largest magnitude of a coordinate of a cross product: twice the
/// square of [`FACTOR_MAX`].
pub const CROSS_MAX: i128 = 8_000_000_000_000_000_000;

/// `n` has unit length, as far as fixed-point coordinates allow: its squared
/// length differs from one by a few millionths.
pub open spec fn is_unit(n: Int3) -> bool {
    UNIT_SQ_MIN <= n.dot(n) <= UNIT_SQ_MAX
}

/// The vector `c` brought to unit length.
pub open spec fn normalized(c: Int3) -> Int3 {
    let norm = int_sqrt(c.dot(c));
    Int3 {
        x: trunc_div(c.x * SCALE, norm),
        y: trunc_div(c.y * SCALE, norm),
        z: trunc_div(c.z * SCALE, norm),
    }
}

/// The vector `c` brought to unit length, unless it is shorter than
/// [`MIN_CROSS`].
pub open spec fn unit_of(c: Int3) -> Option<Int3> {
    if c.dot(c) < MIN_CROSS_SQ {
        None
    } else {
        Some(normalized(c))
    }
}

/// Brings a vector to unit length, unless it is shorter than
/// [`MIN_CROSS`].
pub(crate) fn unit_vector(cx: i128, cy: i128, cz: i128) -> (unit: Option<Vec3>)
    requires
        -CROSS_MAX <= cx <= CROSS_MAX,
        -CROSS_MAX <= cy <= CROSS_MAX,
        -CROSS_MAX <= cz <= CROSS_MAX,
    ensures
        match unit {
            Some(n) => unit_of(Int3 { x: cx as int, y: cy as int, z: cz as int }) == Some(n@)
                && is_unit(n@) && n.is_direction(),
            None => unit_of(Int3 { x: cx as int, y: cy as int, z: cz as int }) is None,
        },
{
    let ghost c = Int3 { x: cx as int, y: cy as int, z: cz as int };
    let q: u128 = square(cx) + square(cy) + square(cz);
    assert(q == c.dot(c));
    if q < MIN_CROSS_SQ {
        return None;
    }
    let norm: u128 = isqrt(q);
    proof {
        lemma_sqrt_dominates(c, norm as int);
    }
    let nx: i64 = normalize_term(cx, norm);
    let ny: i64 = normalize_term(cy, norm);
    let nz: i64 = normalize_term(cz, norm);
    let ghost n = Int3 { x: nx as int, y: ny as int, z: nz as int };
    assert(n == normalized(c));
    proof {
        lemma_normalized_is_unit(c, norm as int);
    }
    Some(Vec3 { x: nx, y: ny, z: nz })
}

/// One coordinate of a cross product.
pub(crate) fn cross_term(a: i64, b: i64, c: i64, d: i64) -> (r: i128)
    requires
        -FACTOR_MAX <= a <= FACTOR_MAX,
        -FACTOR_MAX <= b <= FACTOR_MAX,
        -FACTOR_MAX <= c <= FACTOR_MAX,
        -FACTOR_MAX <= d <= FACTOR_MAX,
    ensures
        r == a * b - c * d,
        -CROSS_MAX <= r <= CROSS_MAX,
{
    proof {
        lemma_mul_bound(a as int, b as int, 2_000_000_000, 2_000_000_000);
        lemma_mul_bound(c as int, d as int, 2_000_000_000, 2_000_000_000);
    }
    (a as i128) * (b as i128) - (c as i128) * (d as i128)
}

/// The square of one coordinate of a cross product.
fn square(c: i128) -> (r: u128)
    requires
        -CROSS_MAX <= c <= CROSS_MAX,
    ensures
        r == c * c,
        r <= 64_000_000_000_000_000_000_000_000_000_000_000_000,
{
    proof {
        lemma_mul_bound(
            c as int,
            c as int,
            8_000_000_000_000_000_000,
            8_000_000_000_000_000_000,
        );
        assert(c * c >= 0) by (nonlinear_arith);
    }
    (c * c) as u128
}

/// One coordinate of a vector divided by the vector's length.
fn normalize_term(c: i128, norm: u128) -> (r: i64)
    requires
        MIN_CROSS <= norm < 0x1_0000_0000_0000_0000,
        -norm <= c <= norm,
    ensures
        r == trunc_div(c * SCALE, norm as int),
        -SCALE <= r <= SCALE,
{
    proof {
        lemma_mul_bound(c as int, SCALE as int, norm as int, SCALE as int);
        assert(SCALE * norm == norm * SCALE) by (nonlinear_arith);
        lemma_trunc_div_le(c * SCALE, norm as int, SCALE as int);
    }
    ((c * (SCALE as i128)) / (norm as i128)) as i64
}

/// A vector divided by the integer square root of its squared length has
/// unit length within the slack that [`is_unit`] allows, provided that the
/// root is at least [`MIN_CROSS`].
pub proof fn lemma_normalized_is_unit(c: Int3, norm: int)
    requires
        is_sqrt(c.dot(c), norm),
        norm >= MIN_CROSS,
    ensures
        int_sqrt(c.dot(c)) == norm,
        is_unit(normalized(c)),
        normalized(c).within(SCALE as int),
{
    let q = c.dot(c);
    let s = SCALE as int;
    lemma_sqrt_unique(q, norm, int_sqrt(q));
    lemma_sqrt_dominates(c, norm);
    let n = normalized(c);
    let ax = c.x * s;
    let ay = c.y * s;
    let az = c.z * s;
    lemma_mul_bound(c.x, s, norm, s);
    lemma_mul_bound(c.y, s, norm, s);
    lemma_mul_bound(c.z, s, norm, s);
    assert(norm * s == s * norm) by (nonlinear_arith);
    lemma_trunc_div_le(ax, norm, s);
    lemma_trunc_div_le(ay, norm, s);
    lemma_trunc_div_le(az, norm, s);
    lemma_term_squares(ax, norm, n.x);
    lemma_term_squares(ay, norm, n.y);
    lemma_term_squares(az, norm, n.z);
    let n2 = norm * norm;
    let len = n.dot(n);
    assert(n2 > 0) by (nonlinear_arith)
        requires
            n2 == norm * norm,
            norm > 0,
    ;
    assert(len * n2 == (n.x * n.x) * n2 + (n.y * n.y) * n2 + (n.z * n.z) * n2) by (nonlinear_arith)
        requires
            len == n.x * n.x + n.y * n.y + n.z * n.z,
    ;
    let k = s * s;
    let qx = c.x * c.x;
    let qy = c.y * c.y;
    let qz = c.z * c.z;
    assert(ax * ax == qx * k) by (nonlinear_arith)
        requires
            ax == c.x * s,
            qx == c.x * c.x,
            k == s * s,
    ;
    assert(ay * ay == qy * k) by (nonlinear_arith)
        requires
            ay == c.y * s,
            qy == c.y * c.y,
            k == s * s,
    ;
    assert(az * az == qz * k) by (nonlinear_arith)
        requires
            az == c.z * s,
            qz == c.z * c.z,
            k == s * s,
    ;
    assert(q * k == qx * k + qy * k + qz * k) by (nonlinear_arith)
        requires
            q == qx + qy + qz,
    ;
    // From above: the squared length, times the squared root, is at most
    // the squared length of `c` times one.
    assert(len * n2 <= q * k);
    assert(q * k < 1_000_002_000_001 * n2) by (nonlinear_arith)
        requires
            q < (norm + 1) * (norm + 1),
            1_000_000 <= norm,
            n2 == norm * norm,
            k == 1_000_000 * 1_000_000,
    ;
    assert(len < 1_000_002_000_001) by (nonlinear_arith)
        requires
            len * n2 < 1_000_002_000_001 * n2,
            n2 > 0,
    ;
    // From below.
    assert(len * n2 >= q * k - 6_000_000 * n2);
    assert(q * k >= n2 * k) by (nonlinear_arith)
        requires
            q >= n2,
            k > 0,
    ;
    assert(len >= 999_994_000_000) by (nonlinear_arith)
        requires
            len * n2 >= n2 * k - 6_000_000 * n2,
            k == 1_000_000_000_000,
            n2 > 0,
    ;
}

/// The dot product of a vector and a unit vector is at most twice the
/// largest coordinate of the vector, in magnitude.
pub proof fn lemma_dot_bound(w: Int3, n: Int3, m: int)
    requires
        w.within(m),
        is_unit(n),
    ensures
        -(2_000_000 * m) <= w.dot(n) <= 2_000_000 * m,
{
    let mm = m * m;
    let ww = w.dot(w);
    let nn = n.dot(n);
    let wn = w.dot(n);
    let c = w.cross(n);
    lemma_cross_length(w.x, w.y, w.z, n.x, n.y, n.z);
    assert(c.x * c.x >= 0 && c.y * c.y >= 0 && c.z * c.z >= 0) by (nonlinear_arith);
    assert(w.x * w.x >= 0 && w.y * w.y >= 0 && w.z * w.z >= 0) by (nonlinear_arith);
    assert(wn * wn <= ww * nn);
    assert(w.x * w.x <= mm && w.y * w.y <= mm && w.z * w.z <= mm && mm >= 0) by (nonlinear_arith)
        requires
            mm == m * m,
            -m <= w.x <= m,
            -m <= w.y <= m,
            -m <= w.z <= m,
    ;
    assert(ww * nn <= (3 * mm) * 1_000_002_000_000) by (nonlinear_arith)
        requires
            0 <= ww <= 3 * mm,
            0 <= nn <= 1_000_002_000_000,
    ;
    let b = 2_000_000 * m;
    assert(b * b == 4_000_000_000_000 * mm) by (nonlinear_arith)
        requires
            b == 2_000_000 * m,
            mm == m * m,
    ;
    assert(wn * wn <= b * b);
    assert(-b <= wn <= b) by (nonlinear_arith)
        requires
            wn * wn <= b * b,
            b >= 0,
    ;
}

/// No coordinate of a vector exceeds the integer square root of its squared
/// length, and that root is at least [`MIN_CROSS`] where the squared length
/// is at least its square.
pub proof fn lemma_sqrt_dominates(c: Int3, norm: int)
    requires
        is_sqrt(c.dot(c), norm),
    ensures
        -norm <= c.x <= norm,
        -norm <= c.y <= norm,
        -norm <= c.z <= norm,
        c.dot(c) >= MIN_CROSS_SQ ==> norm >= MIN_CROSS,
{
    let q = c.dot(c);
    assert(c.x * c.x >= 0 && c.y * c.y >= 0 && c.z * c.z >= 0) by (nonlinear_arith);
    lemma_square_root_bound(c.x, norm);
    lemma_square_root_bound(c.y, norm);
    lemma_square_root_bound(c.z, norm);
    if q >= MIN_CROSS_SQ && norm < MIN_CROSS {
        assert((norm + 1) * (norm + 1) <= 1_000_000_000_000) by (nonlinear_arith)
            requires
                0 <= norm,
                norm + 1 <= 1_000_000,
        ;
    }
}

/// A vector and its opposite have the same squared length.
pub proof fn lemma_negated_same_length(n: Int3)
    ensures
        n.negated().dot(n.negated()) == n.dot(n),
{
    assert((-n.x) * (-n.x) == n.x * n.x) by (nonlinear_arith);
    assert((-n.y) * (-n.y) == n.y * n.y) by (nonlinear_arith);
    assert((-n.z) * (-n.z) == n.z * n.z) by (nonlinear_arith);
}

/// A number whose square is below `(r + 1)` squared lies within `r` of zero.
proof fn lemma_square_root_bound(a: int, r: int)
    by (nonlinear_arith)
    requires
        r >= 0,
        a * a < (r + 1) * (r + 1),
    ensures
        -r <= a <= r,
{
}

/// The part of one coordinate in the squared length of a normalized
/// vector: `t` is the quotient of `a` by `norm`, rounded toward zero.
proof fn lemma_term_squares(a: int, norm: int, t: int)
    requires
        norm > 0,
        t == trunc_div(a, norm),
        -(SCALE * norm) <= a <= SCALE * norm,
    ensures
        (t * t) * (norm * norm) <= a * a,
        (t * t) * (norm * norm) >= a * a - 2_000_000 * (norm * norm),
{
    lemma_trunc_div_bounds(a, norm);
    let m = t * norm;
    let e = a - m;
    assert((t * t) * (norm * norm) == m * m) by (nonlinear_arith)
        requires
            m == t * norm,
    ;
    assert(m * m == a * a - 2 * (a * e) + e * e) by (nonlinear_arith)
        requires
            m == a - e,
    ;
    assert(e * e >= 0) by (nonlinear_arith);
    if a >= 0 {
        assert(0 <= m <= a);
        assert(m * m <= a * a) by (nonlinear_arith)
            requires
                0 <= m <= a,
        ;
        assert(a * e <= a * norm) by (nonlinear_arith)
            requires
                a >= 0,
                e <= norm,
        ;
        assert(a * norm <= (SCALE * norm) * norm) by (nonlinear_arith)
            requires
                a <= SCALE * norm,
                norm >= 0,
        ;
    } else {
        assert(a <= m <= 0);
        assert(m * m <= a * a) by (nonlinear_arith)
            requires
                a <= m <= 0,
        ;
        assert(a * e <= (-a) * norm) by (nonlinear_arith)
            requires
                a <= 0,
                -norm <= e,
        ;
        assert((-a) * norm <= (SCALE * norm) * norm) by (nonlinear_arith)
            requires
                -a <= SCALE * norm,
                norm >= 0,
        ;
    }
    assert((SCALE * norm) * norm == 1_000_000 * (norm * norm)) by (nonlinear_arith)
        requires
            SCALE == 1_000_000,
    ;
}

/// The squared length of a cross product is the product of the squared
/// lengths, less the square of the dot product.
pub proof fn lemma_cross_length(ax: int, ay: int, az: int, bx: int, by: int, bz: int)
    ensures
        (ay * bz - az * by) * (ay * bz - az * by) + (az * bx - ax * bz) * (az * bx - ax * bz) + (ax
            * by - ay * bx) * (ax * by - ay * bx) == (ax * ax + ay * ay + az * az) * (bx * bx + by
            * by + bz * bz) - (ax * bx + ay * by + az * bz) * (ax * bx + ay * by + az * bz),
{
    lemma_cross_square(ay, bz, az, by);
    lemma_cross_square(az, bx, ax, bz);
    lemma_cross_square(ax, by, ay, bx);
    lemma_sum_square(ax * bx, ay * by, az * bz);
    lemma_sum_product(ax * ax, ay * ay, az * az, bx * bx, by * by, bz * bz);
    lemma_product_square(ax, bx);
    lemma_product_square(ay, by);
    lemma_product_square(az, bz);
    assert((az * bz) * (ay * by) == (ay * by) * (az * bz)) by (nonlinear_arith);
    assert((az * bz) * (ax * bx) == (ax * bx) * (az * bz)) by (nonlinear_arith);
}

/// The square of a difference of two products, each of a coordinate of one
/// vector and a coordinate of another.
proof fn lemma_cross_square(a1: int, b2: int, a2: int, b1: int)
    ensures
        (a1 * b2 - a2 * b1) * (a1 * b2 - a2 * b1) == (a1 * a1) * (b2 * b2) - 2 * ((a1 * b1) * (a2
            * b2)) + (a2 * a2) * (b1 * b1),
{
    lemma_difference_square(a1 * b2, a2 * b1);
    lemma_product_square(a1, b2);
    lemma_product_square(a2, b1);
    lemma_swap_pairs(a1, b2, a2, b1);
}

/// The square of a difference.
proof fn lemma_difference_square(u: int, v: int)
    by (nonlinear_arith)
    ensures
        (u - v) * (u - v) == u * u - 2 * (u * v) + v * v,
{
}

/// The square of a product is the product of the squares.
proof fn lemma_product_square(a: int, b: int)
    by (nonlinear_arith)
    ensures
        (a * b) * (a * b) == (a * a) * (b * b),
{
}

/// A product of four factors, paired in two ways.
proof fn lemma_swap_pairs(a1: int, b2: int, a2: int, b1: int)
    ensures
        (a1 * b2) * (a2 * b1) == (a1 * b1) * (a2 * b2),
{
    vstd::arithmetic::mul::lemma_mul_is_associative(a1, b2, a2 * b1);
    vstd::arithmetic::mul::lemma_mul_is_associative(b2, a2, b1);
    vstd::arithmetic::mul::lemma_mul_is_commutative(b2, a2);
    vstd::arithmetic::mul::lemma_mul_is_associative(a2, b2, b1);
    vstd::arithmetic::mul::lemma_mul_is_commutative(b2, b1);
    vstd::arithmetic::mul::lemma_mul_is_associative(a2, b1, b2);
    vstd::arithmetic::mul::lemma_mul_is_commutative(a2, b1);
    vstd::arithmetic::mul::lemma_mul_is_associative(b1, a2, b2);
    vstd::arithmetic::mul::lemma_mul_is_associative(a1, b1, a2 * b2);
}

/// The square of a sum of three.
proof fn lemma_sum_square(d1: int, d2: int, d3: int)
    by (nonlinear_arith)
    ensures
        (d1 + d2 + d3) * (d1 + d2 + d3) == d1 * d1 + d2 * d2 + d3 * d3 + 2 * (d1 * d2) + 2 * (d1
            * d3) + 2 * (d2 * d3),
{
}

/// The product of two sums of three.
proof fn lemma_sum_product(x1: int, x2: int, x3: int, y1: int, y2: int, y3: int)
    by (nonlinear_arith)
    ensures
        (x1 + x2 + x3) * (y1 + y2 + y3) == x1 * y1 + x1 * y2 + x1 * y3 + x2 * y1 + x2 * y2 + x2
            * y3 + x3 * y1 + x3 * y2 + x3 * y3,
{
}

} // verus!
