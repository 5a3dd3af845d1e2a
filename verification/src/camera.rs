//! The chase camera: it keeps behind and above the vehicle, approaches that
//! place smoothly and looks at a point ahead of the vehicle.

use vstd::prelude::*;
use crate::car::CarPose;
use crate::fixed::{lemma_mul_bound, lemma_trunc_div_bounds, scaled, SCALE};
use crate::vec3::{to_vec3, Int3, Vec3, REACH_MAX};

verus! {

/// How far ahead of the vehicle the camera looks.
pub const LOOK_AHEAD: i64 = 5_000_000;

/// How the camera follows the vehicle.
#[derive(Clone, Copy, Debug, PartialEq, Eq, Structural)]
pub struct CarCamera {
    /// Where the camera wants to be, as seen from the vehicle: `y` above
    /// it and `z` behind it. `x` is not used.
    pub offset: Vec3,
    /// The share of the way to that place that the camera covers per
    /// second.
    pub smoothness: i64,
}

/// Where the camera goes and what it looks at.
#[derive(Clone, Copy, Debug, PartialEq, Eq, Structural)]
pub struct CameraUpdate {
    /// The camera's next position.
    pub position: Vec3,
    /// The point to look at.
    pub look_target: Vec3,
}

impl CarCamera {
    /// The settings of the default camera: five units above the vehicle,
    /// twelve behind, with smoothness five.
    pub open spec fn standard() -> CarCamera {
        CarCamera { offset: Vec3 { x: 0, y: 5_000_000, z: 12_000_000 }, smoothness: 5_000_000 }
    }

    /// The place behind and above the vehicle that the camera makes for.
    pub open spec fn target(self, car: CarPose) -> Int3 {
        car.position@.plus(car.forward@.negated().scaled_by(self.offset.z as int)).plus(
            car.up@.scaled_by(self.offset.y as int),
        )
    }

    /// The share of the way to the target that the camera covers within
    /// `dt`.
    pub open spec fn share(self, dt: int) -> int {
        scaled(self.smoothness as int, dt)
    }

    /// The camera's position after `dt`: it moves from `from` toward the
    /// target by the share for `dt`.
    pub open spec fn next_position(self, from: Int3, car: CarPose, dt: int) -> Int3 {
        from.plus(self.target(car).minus(from).scaled_by(self.share(dt)))
    }

    /// The point ahead of the vehicle that the camera looks at.
    pub open spec fn look_target(car: CarPose) -> Int3 {
        car.position@.plus(car.forward@.scaled_by(LOOK_AHEAD as int))
    }

    /// What one tick of `dt` does to a camera at `from`: nothing where its
    /// next position lies beyond the reach of coordinates; else that
    /// position, and the point to look at.
    pub open spec fn follow_step(self, from: Vec3, car: CarPose, dt: int) -> Option<CameraUpdate> {
        if !self.next_position(from@, car, dt).within(REACH_MAX as int) {
            None
        } else {
            Some(
                CameraUpdate {
                    position: to_vec3(self.next_position(from@, car, dt)),
                    look_target: to_vec3(CarCamera::look_target(car)),
                },
            )
        }
    }
}

/// `v` lies between `a` and `b`, whichever of the two is larger.
pub open spec fn between(v: int, a: int, b: int) -> bool {
    (a <= v <= b) || (b <= v <= a)
}

impl Default for CarCamera {
    fn default() -> (camera: CarCamera)
        ensures
            camera == CarCamera::standard(),
    {
        CarCamera { offset: Vec3 { x: 0, y: 5_000_000, z: 12_000_000 }, smoothness: 5_000_000 }
    }
}

/// Moves the camera for one tick: from `camera_position` toward the place
/// behind and above the vehicle, by the share of the way that the
/// smoothness grants for `dt`. Also tells the point to look at, ahead of
/// the vehicle. There is no update where the camera's next position lies
/// beyond the reach of coordinates.
pub fn update_camera_follow(
    settings: &CarCamera,
    camera_position: Vec3,
    car: &CarPose,
    dt: u32,
) -> (update: Option<CameraUpdate>)
    requires
        camera_position.in_reach(),
        car.wf(),
    ensures
        update == settings.follow_step(camera_position, *car, dt as int),
        match update {
            Some(u) => {
                &&& u.position@ == settings.next_position(camera_position@, *car, dt as int)
                &&& u.position.in_reach()
                &&& u.look_target@ == CarCamera::look_target(*car)
            },
            None => !settings.next_position(camera_position@, *car, dt as int).within(
                REACH_MAX as int,
            ),
        },
{
    proof {
        lemma_mul_bound(settings.smoothness as int, dt as int, 0x8000_0000_0000_0000, 0x1_0000_0000);
    }
    let share: i128 = ((settings.smoothness as i128) * (dt as i128)) / (SCALE as i128);
    let behind = settings.offset.z;
    let above = settings.offset.y;
    let tx: i128 = target_term(car.position.x, car.forward.x, car.up.x, behind, above);
    let ty: i128 = target_term(car.position.y, car.forward.y, car.up.y, behind, above);
    let tz: i128 = target_term(car.position.z, car.forward.z, car.up.z, behind, above);
    let x = approach_term(camera_position.x, tx, share);
    let y = approach_term(camera_position.y, ty, share);
    let z = approach_term(camera_position.z, tz, share);
    match (x, y, z) {
        (Some(x), Some(y), Some(z)) => Some(
            CameraUpdate {
                position: Vec3 { x, y, z },
                look_target: Vec3 {
                    x: ahead_term(car.position.x, car.forward.x),
                    y: ahead_term(car.position.y, car.forward.y),
                    z: ahead_term(car.position.z, car.forward.z),
                },
            },
        ),
        _ => None,
    }
}

/// One coordinate of the place that the camera makes for.
fn target_term(position: i64, forward: i64, up: i64, behind: i64, above: i64) -> (r: i128)
    requires
        -REACH_MAX <= position <= REACH_MAX,
        -SCALE <= forward <= SCALE,
        -SCALE <= up <= SCALE,
    ensures
        r == position + scaled(-forward, behind as int) + scaled(up as int, above as int),
        -20_000_000_000_000_000_000 <= r <= 20_000_000_000_000_000_000,
{
    let scale: i128 = SCALE as i128;
    proof {
        lemma_mul_bound(-forward, behind as int, 1_000_000, 0x8000_0000_0000_0000);
        lemma_mul_bound(up as int, above as int, 1_000_000, 0x8000_0000_0000_0000);
    }
    (position as i128) + ((-(forward as i128)) * (behind as i128)) / scale + ((up as i128) * (
    above as i128)) / scale
}

/// One coordinate of the camera's next position, unless it lies beyond the
/// reach of coordinates.
fn approach_term(from: i64, target: i128, share: i128) -> (r: Option<i64>)
    requires
        -REACH_MAX <= from <= REACH_MAX,
        -20_000_000_000_000_000_000 <= target <= 20_000_000_000_000_000_000,
    ensures
        match r {
            Some(next) => next == from + scaled(target - from, share as int) && -REACH_MAX <= next
                <= REACH_MAX,
            None => !(-REACH_MAX <= from + scaled(target - from, share as int) <= REACH_MAX),
        },
{
    let gap: i128 = target - (from as i128);
    proof {
        lemma_trunc_div_bounds(gap * share, SCALE as int);
    }
    let way: i128 = match gap.checked_mul(share) {
        Some(product) => product / (SCALE as i128),
        None => {
            return None;
        },
    };
    let next: i128 = (from as i128) + way;
    if -(REACH_MAX as i128) <= next && next <= REACH_MAX as i128 {
        Some(next as i64)
    } else {
        None
    }
}

/// One coordinate of the point that the camera looks at.
fn ahead_term(position: i64, forward: i64) -> (r: i64)
    requires
        -REACH_MAX <= position <= REACH_MAX,
        -SCALE <= forward <= SCALE,
    ensures
        r == position + scaled(forward as int, LOOK_AHEAD as int),
{
    proof {
        lemma_mul_bound(forward as int, LOOK_AHEAD as int, 1_000_000, 5_000_000);
    }
    ((position as i128) + ((forward as i128) * (LOOK_AHEAD as i128)) / (SCALE as i128)) as i64
}

/// A camera that covers no more than the whole way within a tick does not
/// overshoot: each coordinate of its next position lies between where it
/// was and where it makes for. With share zero it stays; with the whole
/// way as its share it arrives.
pub proof fn lemma_camera_never_overshoots(settings: CarCamera, from: Int3, car: CarPose, dt: int)
    requires
        0 <= settings.share(dt) <= SCALE,
    ensures
        ({
            let target = settings.target(car);
            let next = settings.next_position(from, car, dt);
            &&& between(next.x, from.x, target.x)
            &&& between(next.y, from.y, target.y)
            &&& between(next.z, from.z, target.z)
            &&& settings.share(dt) == 0 ==> next == from
            &&& settings.share(dt) == SCALE ==> next == target
        }),
{
    let target = settings.target(car);
    let share = settings.share(dt);
    lemma_approach_between(from.x, target.x, share);
    lemma_approach_between(from.y, target.y, share);
    lemma_approach_between(from.z, target.z, share);
}

/// One coordinate of a position that approaches a target lies between the
/// two.
proof fn lemma_approach_between(from: int, target: int, share: int)
    requires
        0 <= share <= SCALE,
    ensures
        between(from + scaled(target - from, share), from, target),
        share == 0 ==> scaled(target - from, share) == 0,
        share == SCALE ==> scaled(target - from, share) == target - from,
{
    let gap = target - from;
    lemma_trunc_div_bounds(gap * share, SCALE as int);
    if gap >= 0 {
        assert(0 <= gap * share <= gap * 1_000_000) by (nonlinear_arith)
            requires
                gap >= 0,
                0 <= share <= 1_000_000,
        ;
    } else {
        assert(gap * 1_000_000 <= gap * share <= 0) by (nonlinear_arith)
            requires
                gap < 0,
                0 <= share <= 1_000_000,
        ;
    }
    if share == 0 {
        assert(gap * share == 0) by (nonlinear_arith)
            requires
                share == 0,
        ;
    }
    if share == SCALE {
        assert(gap * share == gap * 1_000_000) by (nonlinear_arith)
            requires
                share == 1_000_000,
        ;
    }
}

} // verus!
