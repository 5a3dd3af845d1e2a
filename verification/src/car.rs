//! The vehicle: its tuning, its speed and steering state, the rule by which
//! one tick of driver input changes that state, and the rule by which one
//! tick of motion changes its pose on the ground plane.
//!
//! The pose itself belongs to the caller. Of the vehicle's orientation the
//! rules read two axes and say by what angle it turns; to turn it is left to
//! the caller.

use vstd::prelude::*;
use crate::fixed::{
    abs, clamp, lemma_mul_bound, lemma_trunc_div_bounds, quot, scaled, trunc_div, SCALE,
};
use crate::ground_plane::GroundPlane;
use crate::vec3::{to_vec3, Int3, Vec3, REACH_MAX};

verus! {

/// Below this speed, forward or backward, the vehicle counts as standing.
pub const STATIONARY_SPEED: i64 = 1_000;

/// Up to this steering angle, to either side, the vehicle runs straight.
pub const STRAIGHT_STEERING: i64 = 1_000;

/// The vehicle's up axis counts as aligned with the plane's normal once
/// their dot product reaches this.
pub const ALIGNED_DOT: i64 = 999_000;

/// The share of the arc from the up axis to the normal that one second of
/// realignment covers.
pub const ALIGN_RATE: i64 = 10_000_000;

/// How far above the plane the vehicle's position is kept.
pub const GROUND_OFFSET: i64 = 500_000;

/// What the driver holds down during one tick.
#[derive(Clone, Copy, Debug, PartialEq, Eq, Structural)]
pub struct CarControls {
    /// Accelerate.
    pub throttle: bool,
    /// Brake, or reverse once the vehicle no longer moves forward.
    pub brake: bool,
    /// Steer to the left; wins over `steer_right` when both are held.
    pub steer_left: bool,
    /// Steer to the right.
    pub steer_right: bool,
}

/// The vehicle's kinematic state and tuning, all in fixed-point units.
#[derive(Clone, Copy, Debug, PartialEq, Eq, Structural)]
pub struct Car {
    /// Signed speed along the forward axis.
    pub velocity: i64,
    /// Steering angle in radians, positive to the left.
    pub steering: i64,
    /// Largest forward speed.
    pub max_speed: i64,
    /// Speed gained per second of throttle.
    pub acceleration: i64,
    /// Speed lost per second of braking while moving forward.
    pub brake_power: i64,
    /// Speed lost per second of coasting.
    pub friction: i64,
    /// Largest steering angle, to either side.
    pub max_steering: i64,
    /// Steering angle gained per second of steering input.
    pub steering_speed: i64,
    /// Distance between the axles.
    pub wheelbase: i64,
}

/// Where the vehicle is and how it is turned, as far as its motion reads
/// it: the position and two unit axes.
#[derive(Clone, Copy, Debug, PartialEq, Eq, Structural)]
pub struct CarPose {
    pub position: Vec3,
    /// The axis along which the vehicle drives.
    pub forward: Vec3,
    /// The axis that points out of the vehicle's roof.
    pub up: Vec3,
}

/// What one tick of motion does to the pose of a moving vehicle, in the
/// order in which it is applied.
#[derive(Clone, Copy, Debug, PartialEq, Eq)]
pub struct PhysicsUpdate {
    /// The angle by which to turn the vehicle about the plane's up axis, if
    /// it turns.
    pub yaw: Option<i128>,
    /// The vehicle's next position.
    pub position: Vec3,
    /// The share of the shortest arc from the vehicle's up axis to the
    /// plane's normal by which to turn the vehicle along that arc, if the
    /// two are not aligned.
    pub alignment: Option<i64>,
}

/// What one tick of motion does to the pose.
#[derive(Clone, Copy, Debug, PartialEq, Eq)]
pub enum PhysicsStep {
    /// The vehicle stands: its pose stays as it is.
    Standing,
    /// The vehicle moves.
    Moved(PhysicsUpdate),
    /// The vehicle would move beyond the reach of coordinates: its pose
    /// stays as it is.
    OutOfReach,
}

/// One tick of driving: what the driver holds, and for how long.
#[derive(Clone, Copy, Debug, PartialEq, Eq, Structural)]
pub struct Tick {
    pub controls: CarControls,
    pub dt: u32,
}

/// `v` moved toward zero by `step`.
pub open spec fn toward_zero(v: int, step: int) -> int {
    if v < 0 {
        v + step
    } else {
        v - step
    }
}

impl CarControls {
    /// Neither steering side is held.
    pub open spec fn centred(self) -> bool {
        !self.steer_left && !self.steer_right
    }

    /// Neither throttle nor brake is held.
    pub open spec fn coasting(self) -> bool {
        !self.throttle && !self.brake
    }
}

impl CarPose {
    /// The position is within reach and the axes are directions.
    pub open spec fn wf(self) -> bool {
        self.position.in_reach() && self.forward.is_direction() && self.up.is_direction()
    }
}

impl Car {
    /// A vehicle at rest with the standard tuning: top speed 30, gaining
    /// 15 per second, braking 25 per second, coasting down 5 per second;
    /// steering up to 0.6 radians at 3 radians per second; wheelbase 2.
    pub open spec fn standard() -> Car {
        Car {
            velocity: 0,
            steering: 0,
            max_speed: 30_000_000,
            acceleration: 15_000_000,
            brake_power: 25_000_000,
            friction: 5_000_000,
            max_steering: 600_000,
            steering_speed: 3_000_000,
            wheelbase: 2_000_000,
        }
    }

    /// The speed limits are ordered, and so are the steering limits.
    pub open spec fn limits_ok(self) -> bool {
        self.max_speed >= 0 && self.max_steering >= 0
    }

    /// The most negative speed allowed: three tenths of the largest forward
    /// speed, in reverse.
    pub open spec fn reverse_limit(self) -> int {
        -trunc_div(3 * self.max_speed, 10)
    }

    /// Speed and steering angle lie within the vehicle's limits.
    pub open spec fn within_limits(self) -> bool {
        &&& self.reverse_limit() <= self.velocity <= self.max_speed
        &&& -self.max_steering <= self.steering <= self.max_steering
    }

    /// The speed after the throttle has acted for `dt`.
    pub open spec fn throttled(self, controls: CarControls, dt: int) -> int {
        if controls.throttle {
            self.velocity + scaled(self.acceleration as int, dt)
        } else {
            self.velocity as int
        }
    }

    /// The speed `v` after the brake has acted for `dt`: a forward speed
    /// drops by the braking rate, any other by half the acceleration.
    pub open spec fn braked(self, v: int, controls: CarControls, dt: int) -> int {
        if !controls.brake {
            v
        } else if v > 0 {
            v - scaled(self.brake_power as int, dt)
        } else {
            v - trunc_div(self.acceleration * dt, 2 * SCALE)
        }
    }

    /// The speed `v` after `dt` of friction, which acts only while the
    /// driver coasts and stops the vehicle once less than one tick's decay
    /// is left.
    pub open spec fn coasted(self, v: int, controls: CarControls, dt: int) -> int {
        let decay = scaled(self.friction as int, dt);
        if !controls.coasting() {
            v
        } else if abs(v) < decay {
            0
        } else {
            toward_zero(v, decay)
        }
    }

    /// The speed one tick of `dt` later.
    pub open spec fn velocity_after(self, controls: CarControls, dt: int) -> int {
        let v = self.coasted(self.braked(self.throttled(controls, dt), controls, dt), controls, dt);
        clamp(v, self.reverse_limit(), self.max_speed as int)
    }

    /// The steering angle one tick of `dt` later: it moves toward the side
    /// that is held, or relaxes toward the centre at twice that rate and
    /// stops there once less than one tick's relaxation is left.
    pub open spec fn steering_after(self, controls: CarControls, dt: int) -> int {
        let turn = scaled(self.steering_speed as int, dt);
        let relax = scaled(2 * self.steering_speed, dt);
        let s = if controls.steer_left {
            self.steering + turn
        } else if controls.steer_right {
            self.steering - turn
        } else if abs(self.steering as int) < relax {
            0
        } else {
            toward_zero(self.steering as int, relax)
        };
        clamp(s, -self.max_steering, self.max_steering as int)
    }

    /// The vehicle is too slow to count as moving.
    pub open spec fn is_stationary(self) -> bool {
        abs(self.velocity as int) < STATIONARY_SPEED
    }

    /// The steering angle is large enough to turn the vehicle.
    pub open spec fn is_turning(self) -> bool {
        abs(self.steering as int) > STRAIGHT_STEERING
    }

    /// The radius of the circle on which the vehicle turns, given the
    /// tangent of its steering angle: the wheelbase divided by the tangent.
    pub open spec fn turning_radius(self, steering_tan: int) -> int {
        quot(self.wheelbase * SCALE, steering_tan)
    }

    /// The rate at which the vehicle turns: its speed divided by the
    /// turning radius.
    pub open spec fn angular_velocity(self, steering_tan: int) -> int {
        quot(self.velocity * SCALE, self.turning_radius(steering_tan))
    }

    /// The angle by which the vehicle turns within `dt`. There is none
    /// where it runs straight, nor where the tangent given is zero or the
    /// turning radius comes to zero.
    pub open spec fn yaw(self, steering_tan: int, dt: int) -> Option<int> {
        if self.is_turning() && steering_tan != 0 && self.turning_radius(steering_tan) != 0 {
            Some(scaled(self.angular_velocity(steering_tan), dt))
        } else {
            None
        }
    }

    /// The distance covered within `dt`.
    pub open spec fn travel(self, dt: int) -> int {
        scaled(self.velocity as int, dt)
    }

    /// The position after `dt` of travel along the forward axis, before
    /// the plane is taken into account.
    pub open spec fn advanced(self, pose: CarPose, dt: int) -> Int3 {
        pose.position@.plus(pose.forward@.scaled_by(self.travel(dt)))
    }

    /// The position after `dt`: the vehicle moves along its forward axis,
    /// is projected back onto the plane and lifted off it by the ground
    /// offset.
    pub open spec fn next_position(self, pose: CarPose, plane: GroundPlane, dt: int) -> Int3 {
        plane.projected(self.advanced(pose, dt)).plus(
            plane.normal@.scaled_by(GROUND_OFFSET as int),
        )
    }

    /// The share of the arc to the plane's normal by which the vehicle is
    /// realigned within `dt`, unless its up axis is aligned already.
    pub open spec fn alignment(pose: CarPose, plane: GroundPlane, dt: int) -> Option<int> {
        if trunc_div(pose.up@.dot(plane.normal@), SCALE as int) < ALIGNED_DOT {
            Some(scaled(ALIGN_RATE as int, dt))
        } else {
            None
        }
    }

    /// What one tick of `dt` does to the pose: nothing while the vehicle
    /// stands, and nothing where it would leave the reach of coordinates;
    /// else the turn, the next position and the realignment.
    pub open spec fn physics_step(
        self,
        pose: CarPose,
        steering_tan: int,
        plane: GroundPlane,
        dt: int,
    ) -> PhysicsStep {
        if self.is_stationary() {
            PhysicsStep::Standing
        } else if !self.next_position(pose, plane, dt).within(REACH_MAX as int) {
            PhysicsStep::OutOfReach
        } else {
            PhysicsStep::Moved(
                PhysicsUpdate {
                    yaw: match self.yaw(steering_tan, dt) {
                        Some(angle) => Some(angle as i128),
                        None => None,
                    },
                    position: to_vec3(self.next_position(pose, plane, dt)),
                    alignment: match Car::alignment(pose, plane, dt) {
                        Some(share) => Some(share as i64),
                        None => None,
                    },
                },
            )
        }
    }

    /// The vehicle one tick of `dt` later. The tuning is unchanged.
    pub open spec fn after_input(self, controls: CarControls, dt: u32) -> Car {
        Car {
            velocity: self.velocity_after(controls, dt as int) as i64,
            steering: self.steering_after(controls, dt as int) as i64,
            ..self
        }
    }
}

/// The vehicle after the given ticks of driver input, one after the other.
pub open spec fn driven(car: Car, ticks: Seq<Tick>) -> Car
    decreases ticks.len(),
{
    if ticks.len() == 0 {
        car
    } else {
        driven(car, ticks.drop_last()).after_input(ticks.last().controls, ticks.last().dt)
    }
}

impl Default for Car {
    /// A vehicle at rest with the standard tuning.
    fn default() -> (car: Car)
        ensures
            car == Car::standard(),
            car.limits_ok(),
            car.within_limits(),
    {
        Car {
            velocity: 0,
            steering: 0,
            max_speed: 30_000_000,
            acceleration: 15_000_000,
            brake_power: 25_000_000,
            friction: 5_000_000,
            max_steering: 600_000,
            steering_speed: 3_000_000,
            wheelbase: 2_000_000,
        }
    }
}

/// Integrates one tick of driver input into the speed and the steering
/// angle, then limits both.
pub fn handle_car_input(car: &mut Car, controls: CarControls, dt: u32)
    requires
        old(car).limits_ok(),
    ensures
        *final(car) == old(car).after_input(controls, dt),
        final(car).velocity == old(car).velocity_after(controls, dt as int),
        final(car).steering == old(car).steering_after(controls, dt as int),
        final(car).within_limits(),
        final(car).limits_ok(),
        controls.centred() && abs(old(car).steering as int) < scaled(
            2 * old(car).steering_speed,
            dt as int,
        ) ==> final(car).steering == 0,
{
    let scale: i128 = SCALE as i128;
    let accel: i128 = wide_product(car.acceleration, dt);

    let mut v: i128 = car.velocity as i128;
    if controls.throttle {
        v = v + accel / scale;
    }
    if controls.brake {
        if v > 0 {
            v = v - wide_product(car.brake_power, dt) / scale;
        } else {
            v = v - accel / (2 * scale);
        }
    }
    if !controls.throttle && !controls.brake {
        let decay: i128 = wide_product(car.friction, dt) / scale;
        let speed: i128 = if v < 0 { -v } else { v };
        if speed < decay {
            v = 0;
        } else if v < 0 {
            v = v + decay;
        } else {
            v = v - decay;
        }
    }
    let top: i128 = car.max_speed as i128;
    let bottom: i128 = -((3 * top) / 10);
    if v < bottom {
        v = bottom;
    } else if v > top {
        v = top;
    }

    let rate: i64 = car.steering_speed;
    let turn: i128 = wide_product(rate, dt);
    assert((2 * rate) * dt == 2 * turn) by (nonlinear_arith)
        requires
            turn == rate * dt,
    ;
    let mut s: i128 = car.steering as i128;
    if controls.steer_left {
        s = s + turn / scale;
    } else if controls.steer_right {
        s = s - turn / scale;
    } else {
        let relax: i128 = (2 * turn) / scale;
        let angle: i128 = if s < 0 { -s } else { s };
        if angle < relax {
            s = 0;
        } else if s < 0 {
            s = s + relax;
        } else {
            s = s - relax;
        }
    }
    let lock: i128 = car.max_steering as i128;
    if s < -lock {
        s = -lock;
    } else if s > lock {
        s = lock;
    }

    car.velocity = v as i64;
    car.steering = s as i64;
}

/// Advances the pose of the vehicle by one tick on the given plane. A
/// vehicle that stands gets no update: its pose stays as it is. For one
/// that moves, the update holds the turn about the plane's up axis, the
/// next position on the plane, and the realignment toward the plane's
/// normal; unless the next position lies beyond the reach of coordinates.
/// `steering_tan` is the tangent of the vehicle's steering angle.
pub fn update_car_physics(
    car: &Car,
    pose: &CarPose,
    steering_tan: i64,
    plane: &GroundPlane,
    dt: u32,
) -> (step: PhysicsStep)
    requires
        pose.wf(),
        plane.wf(),
    ensures
        step == car.physics_step(*pose, steering_tan as int, *plane, dt as int),
        car.is_stationary() <==> step == PhysicsStep::Standing,
        match step {
            PhysicsStep::Moved(u) => {
                &&& u.position@ == car.next_position(*pose, *plane, dt as int)
                &&& u.position.in_reach()
                &&& match u.yaw {
                    Some(angle) => car.yaw(steering_tan as int, dt as int) == Some(angle as int),
                    None => car.yaw(steering_tan as int, dt as int) is None,
                }
                &&& match u.alignment {
                    Some(share) => Car::alignment(*pose, *plane, dt as int) == Some(share as int),
                    None => Car::alignment(*pose, *plane, dt as int) is None,
                }
            },
            PhysicsStep::OutOfReach => !car.next_position(*pose, *plane, dt as int).within(
                REACH_MAX as int,
            ),
            PhysicsStep::Standing => true,
        },
{
    let scale: i128 = SCALE as i128;
    let v: i128 = car.velocity as i128;
    if -(STATIONARY_SPEED as i128) < v && v < STATIONARY_SPEED as i128 {
        return PhysicsStep::Standing;
    }
    let tick: i128 = dt as i128;

    let travel: i128 = wide_product(car.velocity, dt) / scale;
    let f = pose.forward;
    proof {
        lemma_mul_bound(f.x as int, travel as int, 1_000_000, 40_000_000_000_000_000_000_000);
        lemma_mul_bound(f.y as int, travel as int, 1_000_000, 40_000_000_000_000_000_000_000);
        lemma_mul_bound(f.z as int, travel as int, 1_000_000, 40_000_000_000_000_000_000_000);
    }
    let mx: i128 = (pose.position.x as i128) + ((f.x as i128) * travel) / scale;
    let my: i128 = (pose.position.y as i128) + ((f.y as i128) * travel) / scale;
    let mz: i128 = (pose.position.z as i128) + ((f.z as i128) * travel) / scale;
    let (qx, qy, qz) = plane.project_wide(mx, my, mz);
    let n = plane.normal;
    let offset: i128 = GROUND_OFFSET as i128;
    let px: i128 = qx + ((n.x as i128) * offset) / scale;
    let py: i128 = qy + ((n.y as i128) * offset) / scale;
    let pz: i128 = qz + ((n.z as i128) * offset) / scale;
    let reach: i128 = REACH_MAX as i128;
    if !(-reach <= px && px <= reach && -reach <= py && py <= reach && -reach <= pz && pz
        <= reach) {
        return PhysicsStep::OutOfReach;
    }
    let position = Vec3 { x: px as i64, y: py as i64, z: pz as i64 };

    let mut yaw: Option<i128> = None;
    let steering: i128 = car.steering as i128;
    if (steering > STRAIGHT_STEERING as i128 || steering < -(STRAIGHT_STEERING as i128))
        && steering_tan != 0 {
        let radius: i128 = divide((car.wheelbase as i128) * scale, steering_tan as i128);
        if radius != 0 {
            let rate: i128 = divide(v * scale, radius);
            proof {
                lemma_mul_bound(
                    rate as int,
                    tick as int,
                    10_000_000_000_000_000_000_000_000,
                    4_294_967_295,
                );
            }
            yaw = Some((rate * tick) / scale);
        }
    }

    let u = pose.up;
    proof {
        lemma_mul_bound(u.x as int, n.x as int, 1_000_000, 1_000_000);
        lemma_mul_bound(u.y as int, n.y as int, 1_000_000, 1_000_000);
        lemma_mul_bound(u.z as int, n.z as int, 1_000_000, 1_000_000);
        lemma_mul_bound(ALIGN_RATE as int, tick as int, 10_000_000, 4_294_967_295);
    }
    let dot: i128 = ((u.x as i128) * (n.x as i128) + (u.y as i128) * (n.y as i128) + (
    u.z as i128) * (n.z as i128)) / scale;
    let alignment: Option<i64> = if dot < ALIGNED_DOT as i128 {
        Some((((ALIGN_RATE as i128) * tick) / scale) as i64)
    } else {
        None
    };
    PhysicsStep::Moved(PhysicsUpdate { yaw, position, alignment })
}

/// The exact product of a scalar and a duration.
fn wide_product(a: i64, dt: u32) -> (p: i128)
    ensures
        p == a * dt,
        -0x8000_0000_0000_0000_0000_0000 <= p <= 0x8000_0000_0000_0000_0000_0000,
{
    assert(-0x8000_0000_0000_0000_0000_0000 <= a * dt <= 0x8000_0000_0000_0000_0000_0000)
        by (nonlinear_arith)
        requires
            -0x8000_0000_0000_0000 <= a <= 0x8000_0000_0000_0000,
            0 <= dt <= 0x1_0000_0000,
    ;
    (a as i128) * (dt as i128)
}

/// The quotient of two scalars, rounded toward zero.
fn divide(a: i128, b: i128) -> (r: i128)
    requires
        b != 0,
        -0x4000_0000_0000_0000_0000_0000_0000_0000 <= a <= 0x4000_0000_0000_0000_0000_0000_0000_0000,
        -0x4000_0000_0000_0000_0000_0000_0000_0000 <= b <= 0x4000_0000_0000_0000_0000_0000_0000_0000,
    ensures
        r == quot(a as int, b as int),
        abs(r as int) <= abs(a as int),
{
    if b > 0 {
        proof {
            lemma_trunc_div_bounds(a as int, b as int);
        }
        a / b
    } else {
        proof {
            lemma_trunc_div_bounds(a as int, -b);
        }
        -(a / (-b))
    }
}

/// After any sequence of ticks, whatever the driver held in each, the speed
/// of a vehicle with ordered limits lies between its reverse limit and its
/// top speed, and its steering angle within the steering limit. A vehicle
/// that has not been driven yet must lie within its limits to begin with.
pub proof fn lemma_driving_keeps_limits(car: Car, ticks: Seq<Tick>)
    requires
        car.limits_ok(),
        ticks.len() == 0 ==> car.within_limits(),
    ensures
        driven(car, ticks).within_limits(),
        driven(car, ticks).limits_ok(),
        driven(car, ticks).max_speed == car.max_speed,
        driven(car, ticks).max_steering == car.max_steering,
    decreases ticks.len(),
{
    if ticks.len() > 0 {
        lemma_driving_tuning(car, ticks.drop_last());
        lemma_input_keeps_limits(
            driven(car, ticks.drop_last()),
            ticks.last().controls,
            ticks.last().dt,
        );
    }
}

/// One tick of driver input, whatever it is, leaves a vehicle with ordered
/// limits within them, and its tuning as it was.
pub proof fn lemma_input_keeps_limits(car: Car, controls: CarControls, dt: u32)
    requires
        car.limits_ok(),
    ensures
        car.after_input(controls, dt).within_limits(),
        car.after_input(controls, dt).limits_ok(),
        car.after_input(controls, dt).velocity == car.velocity_after(controls, dt as int),
        car.after_input(controls, dt).steering == car.steering_after(controls, dt as int),
        car.after_input(controls, dt).max_speed == car.max_speed,
        car.after_input(controls, dt).max_steering == car.max_steering,
{
    lemma_trunc_div_bounds(3 * car.max_speed, 10);
}

/// Driving changes neither limit of the vehicle.
pub proof fn lemma_driving_tuning(car: Car, ticks: Seq<Tick>)
    ensures
        driven(car, ticks).max_speed == car.max_speed,
        driven(car, ticks).max_steering == car.max_steering,
    decreases ticks.len(),
{
    if ticks.len() > 0 {
        lemma_driving_tuning(car, ticks.drop_last());
    }
}

/// Without steering input, a steering angle smaller than one tick's
/// relaxation is exactly zero one tick later.
pub proof fn lemma_steering_snaps_to_zero(car: Car, controls: CarControls, dt: u32)
    requires
        car.limits_ok(),
        controls.centred(),
        abs(car.steering as int) < scaled(2 * car.steering_speed, dt as int),
    ensures
        car.after_input(controls, dt).steering == 0,
{
}

/// A vehicle slower than [`STATIONARY_SPEED`] stands, whatever its steering
/// angle, the plane and the length of the tick.
pub proof fn lemma_stationary_no_update(
    car: Car,
    pose: CarPose,
    steering_tan: int,
    plane: GroundPlane,
    dt: int,
)
    requires
        abs(car.velocity as int) < STATIONARY_SPEED,
    ensures
        car.physics_step(pose, steering_tan, plane, dt) == PhysicsStep::Standing,
{
}

} // verus!
