//! Points and directions in space, with fixed-point coordinates.
//!
//! Coordinates are bounded in three steps, each wide enough for what the
//! step before can give. A picked point and the origin of a plane are in
//! range ([`COORD_MAX`]). A position of the vehicle or of the camera is
//! within reach ([`REACH_MAX`]). A point that is projected onto a plane is
//! in sight ([`SIGHT_MAX`]): the projection of a point in range is within
//! reach, and that of a point within reach is in sight.

use vstd::prelude::*;
use crate::fixed::{abs, scaled, SCALE};

verus! {

/// The largest magnitude of a coordinate of a picked point, and of a
/// plane's origin: a thousand million whole units.
pub const COORD_MAX: i64 = 1_000_000_000_000_000;

/// The largest magnitude of a coordinate of a position of the vehicle or of
/// the camera: a million million whole units. A point in range that is
/// projected stays well within it.
pub const REACH_MAX: i64 = 1_000_000_000_000_000_000;

/// The largest magnitude of a coordinate of a point that can be projected
/// onto a plane, and its height above the plane taken: three times
/// [`REACH_MAX`], and twice [`COORD_MAX`]. The projection of a point within
/// reach is no farther out.
pub const SIGHT_MAX: i64 = 3_002_000_000_000_000_000;

/// A vector of three mathematical integers: what a [`Vec3`] stands for.
pub struct Int3 {
    pub x: int,
    pub y: int,
    pub z: int,
}

impl Int3 {
    /// Componentwise sum.
    pub open spec fn plus(self, other: Int3) -> Int3 {
        Int3 { x: self.x + other.x, y: self.y + other.y, z: self.z + other.z }
    }

    /// Componentwise difference.
    pub open spec fn minus(self, other: Int3) -> Int3 {
        Int3 { x: self.x - other.x, y: self.y - other.y, z: self.z - other.z }
    }

    /// The opposite vector.
    pub open spec fn negated(self) -> Int3 {
        Int3 { x: -self.x, y: -self.y, z: -self.z }
    }

    /// The exact integer multiple `k * self`.
    pub open spec fn times(self, k: int) -> Int3 {
        Int3 { x: k * self.x, y: k * self.y, z: k * self.z }
    }

    /// The fixed-point product of the vector and the scalar `k`.
    pub open spec fn scaled_by(self, k: int) -> Int3 {
        Int3 { x: scaled(self.x, k), y: scaled(self.y, k), z: scaled(self.z, k) }
    }

    /// The exact dot product, in squared raw units.
    pub open spec fn dot(self, other: Int3) -> int {
        self.x * other.x + self.y * other.y + self.z * other.z
    }

    /// The exact cross product, in squared raw units.
    pub open spec fn cross(self, other: Int3) -> Int3 {
        Int3 {
            x: self.y * other.z - self.z * other.y,
            y: self.z * other.x - self.x * other.z,
            z: self.x * other.y - self.y * other.x,
        }
    }

    /// The largest magnitude of a coordinate.
    pub open spec fn max_abs(self) -> int {
        let x = abs(self.x);
        let y = abs(self.y);
        let z = abs(self.z);
        if x >= y && x >= z {
            x
        } else if y >= z {
            y
        } else {
            z
        }
    }

    /// The sum of the magnitudes of the coordinates.
    pub open spec fn manhattan(self) -> int {
        abs(self.x) + abs(self.y) + abs(self.z)
    }

    /// Every coordinate has magnitude at most `bound`.
    pub open spec fn within(self, bound: int) -> bool {
        &&& -bound <= self.x <= bound
        &&& -bound <= self.y <= bound
        &&& -bound <= self.z <= bound
    }
}

/// A point or a direction with fixed-point coordinates.
#[derive(Clone, Copy, Debug, PartialEq, Eq, Structural)]
pub struct Vec3 {
    pub x: i64,
    pub y: i64,
    pub z: i64,
}

impl View for Vec3 {
    type V = Int3;

    open spec fn view(&self) -> Int3 {
        Int3 { x: self.x as int, y: self.y as int, z: self.z as int }
    }
}

impl Vec3 {
    /// The coordinates are small enough for a picked point or a plane's
    /// origin.
    pub open spec fn in_range(self) -> bool {
        self@.within(COORD_MAX as int)
    }

    /// The coordinates are small enough for a position of the vehicle or
    /// of the camera.
    pub open spec fn in_reach(self) -> bool {
        self@.within(REACH_MAX as int)
    }

    /// The coordinates are small enough for the point to be projected onto
    /// a plane.
    pub open spec fn in_sight(self) -> bool {
        self@.within(SIGHT_MAX as int)
    }

    /// No coordinate exceeds one whole unit in magnitude, as holds of every
    /// unit vector.
    pub open spec fn is_direction(self) -> bool {
        self@.within(SCALE as int)
    }

    /// The vector with the given coordinates.
    pub fn new(x: i64, y: i64, z: i64) -> (v: Vec3)
        ensures
            v == (Vec3 { x, y, z }),
    {
        Vec3 { x, y, z }
    }

    /// The origin.
    pub fn zero() -> (v: Vec3)
        ensures
            v == (Vec3 { x: 0, y: 0, z: 0 }),
    {
        Vec3 { x: 0, y: 0, z: 0 }
    }

    /// The vertical unit vector.
    pub fn unit_y() -> (v: Vec3)
        ensures
            v == (Vec3 { x: 0, y: SCALE, z: 0 }),
    {
        Vec3 { x: 0, y: SCALE, z: 0 }
    }

    /// Tells whether the coordinates are small enough for the point to be
    /// projected onto a plane.
    pub fn is_in_sight(&self) -> (ok: bool)
        ensures
            ok == self.in_sight(),
    {
        -SIGHT_MAX <= self.x && self.x <= SIGHT_MAX && -SIGHT_MAX <= self.y && self.y
            <= SIGHT_MAX && -SIGHT_MAX <= self.z && self.z <= SIGHT_MAX
    }

    /// Tells whether the coordinates are small enough for a position of the
    /// vehicle or of the camera.
    pub fn is_in_reach(&self) -> (ok: bool)
        ensures
            ok == self.in_reach(),
    {
        -REACH_MAX <= self.x && self.x <= REACH_MAX && -REACH_MAX <= self.y && self.y
            <= REACH_MAX && -REACH_MAX <= self.z && self.z <= REACH_MAX
    }

    /// Tells whether the coordinates are small enough for a picked point or
    /// a plane's origin.
    pub fn is_in_range(&self) -> (ok: bool)
        ensures
            ok == self.in_range(),
    {
        -COORD_MAX <= self.x && self.x <= COORD_MAX && -COORD_MAX <= self.y && self.y
            <= COORD_MAX && -COORD_MAX <= self.z && self.z <= COORD_MAX
    }

    /// Tells whether no coordinate exceeds one whole unit in magnitude.
    pub fn is_a_direction(&self) -> (ok: bool)
        ensures
            ok == self.is_direction(),
    {
        -SCALE <= self.x && self.x <= SCALE && -SCALE <= self.y && self.y <= SCALE && -SCALE
            <= self.z && self.z <= SCALE
    }
}

/// The vector of machine integers that stands for `p`, where `p` is small
/// enough.
pub open spec fn to_vec3(p: Int3) -> Vec3 {
    Vec3 { x: p.x as i64, y: p.y as i64, z: p.z as i64 }
}

} // verus!
