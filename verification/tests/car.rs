use gaussrace::car::{
    handle_car_input, update_car_physics, Car, CarControls, CarPose, PhysicsStep, PhysicsUpdate,
};
use gaussrace::fixed::SCALE;
use gaussrace::ground_plane::GroundPlane;
use gaussrace::vec3::Vec3;

const TENTH: u32 = 100_000;

fn controls(throttle: bool, brake: bool, steer_left: bool, steer_right: bool) -> CarControls {
    CarControls { throttle, brake, steer_left, steer_right }
}

fn moved(step: PhysicsStep) -> PhysicsUpdate {
    match step {
        PhysicsStep::Moved(update) => update,
        other => panic!("the vehicle did not move: {:?}", other),
    }
}

fn level_pose() -> CarPose {
    CarPose {
        position: Vec3::new(0, 0, 0),
        forward: Vec3::new(0, 0, -SCALE),
        up: Vec3::new(0, SCALE, 0),
    }
}

#[test]
fn default_car_tuning() {
    let car = Car::default();
    assert_eq!(car.velocity, 0);
    assert_eq!(car.steering, 0);
    assert_eq!(car.max_speed, 30 * SCALE);
    assert_eq!(car.acceleration, 15 * SCALE);
    assert_eq!(car.brake_power, 25 * SCALE);
    assert_eq!(car.friction, 5 * SCALE);
    assert_eq!(car.max_steering, 600_000);
    assert_eq!(car.steering_speed, 3 * SCALE);
    assert_eq!(car.wheelbase, 2 * SCALE);
}

#[test]
fn throttle_for_ten_ticks_reaches_fifteen() {
    let mut car = Car::default();
    for tick in 1..=10 {
        handle_car_input(&mut car, controls(true, false, false, false), TENTH);
        assert_eq!(car.velocity, tick * 1_500_000);
    }
    assert_eq!(car.velocity, 15 * SCALE);
    assert_eq!(car.steering, 0);
}

#[test]
fn end_to_end_drive_on_the_default_plane() {
    let plane = GroundPlane::default();
    let mut car = Car::default();
    let mut pose = level_pose();
    let mut travelled = 0;
    for _ in 0..10 {
        handle_car_input(&mut car, controls(true, false, false, false), TENTH);
        let update = moved(update_car_physics(&car, &pose, 0, &plane, TENTH));
        assert_eq!(update.yaw, None);
        assert_eq!(update.alignment, None);
        travelled += car.velocity / 10;
        assert_eq!(update.position, Vec3::new(0, 500_000, -travelled));
        assert_eq!(plane.height_at(update.position), 500_000);
        pose.position = update.position;
    }
    assert_eq!(car.velocity, 15 * SCALE);
    assert_eq!(pose.position, Vec3::new(0, 500_000, -8_250_000));
}

#[test]
fn speed_stays_within_its_limits() {
    let mut car = Car::default();
    for _ in 0..40 {
        handle_car_input(&mut car, controls(true, false, false, false), TENTH);
        assert!(-9 * SCALE <= car.velocity && car.velocity <= 30 * SCALE);
    }
    assert_eq!(car.velocity, 30 * SCALE);
    for _ in 0..60 {
        handle_car_input(&mut car, controls(false, true, false, false), TENTH);
        assert!(-9 * SCALE <= car.velocity && car.velocity <= 30 * SCALE);
    }
    assert_eq!(car.velocity, -9 * SCALE);
    for _ in 0..10 {
        handle_car_input(&mut car, controls(true, true, true, false), 4_000_000_000);
        assert!(-9 * SCALE <= car.velocity && car.velocity <= 30 * SCALE);
        assert!(-600_000 <= car.steering && car.steering <= 600_000);
    }
}

#[test]
fn a_speed_beyond_the_limits_is_brought_back() {
    let mut car = Car::default();
    car.velocity = i64::MAX;
    car.acceleration = i64::MAX;
    handle_car_input(&mut car, controls(true, false, false, false), u32::MAX);
    assert_eq!(car.velocity, 30 * SCALE);
    car.velocity = i64::MIN;
    car.brake_power = i64::MAX;
    handle_car_input(&mut car, controls(false, true, false, false), u32::MAX);
    assert_eq!(car.velocity, -9 * SCALE);
}

#[test]
fn brake_slows_forward_motion() {
    let mut car = Car::default();
    car.velocity = 10 * SCALE;
    handle_car_input(&mut car, controls(false, true, false, false), TENTH);
    assert_eq!(car.velocity, 7_500_000);
}

#[test]
fn reverse_gains_half_the_acceleration() {
    let mut car = Car::default();
    handle_car_input(&mut car, controls(false, true, false, false), TENTH);
    assert_eq!(car.velocity, -750_000);
    handle_car_input(&mut car, controls(false, true, false, false), TENTH);
    assert_eq!(car.velocity, -1_500_000);
}

#[test]
fn throttle_and_brake_together() {
    let mut car = Car::default();
    handle_car_input(&mut car, controls(true, true, false, false), TENTH);
    assert_eq!(car.velocity, -1_000_000);
}

#[test]
fn friction_slows_and_then_stops() {
    let mut car = Car::default();
    car.velocity = SCALE;
    handle_car_input(&mut car, controls(false, false, false, false), TENTH);
    assert_eq!(car.velocity, 500_000);
    handle_car_input(&mut car, controls(false, false, false, false), TENTH);
    assert_eq!(car.velocity, 0);
    car.velocity = 300_000;
    handle_car_input(&mut car, controls(false, false, false, false), TENTH);
    assert_eq!(car.velocity, 0);
    car.velocity = -SCALE;
    handle_car_input(&mut car, controls(false, false, false, false), TENTH);
    assert_eq!(car.velocity, -500_000);
}

#[test]
fn friction_does_not_act_while_steering_only_matters_for_speed() {
    let mut car = Car::default();
    car.velocity = 2 * SCALE;
    handle_car_input(&mut car, controls(false, false, true, false), TENTH);
    assert_eq!(car.velocity, 1_500_000);
    assert_eq!(car.steering, 300_000);
}

#[test]
fn steering_moves_toward_the_held_side_and_stops_at_the_limit() {
    let mut car = Car::default();
    handle_car_input(&mut car, controls(false, false, true, false), TENTH);
    assert_eq!(car.steering, 300_000);
    handle_car_input(&mut car, controls(false, false, true, false), TENTH);
    assert_eq!(car.steering, 600_000);
    handle_car_input(&mut car, controls(false, false, true, false), TENTH);
    assert_eq!(car.steering, 600_000);
    for _ in 0..5 {
        handle_car_input(&mut car, controls(false, false, false, true), TENTH);
    }
    assert_eq!(car.steering, -600_000);
}

#[test]
fn left_wins_over_right() {
    let mut car = Car::default();
    handle_car_input(&mut car, controls(false, false, true, true), TENTH);
    assert_eq!(car.steering, 300_000);
}

#[test]
fn steering_relaxes_at_twice_the_rate() {
    let mut car = Car::default();
    car.steering = 600_000;
    handle_car_input(&mut car, controls(false, false, false, false), 50_000);
    assert_eq!(car.steering, 300_000);
    car.steering = -600_000;
    handle_car_input(&mut car, controls(false, false, false, false), 50_000);
    assert_eq!(car.steering, -300_000);
}

#[test]
fn steering_snaps_to_zero() {
    let mut car = Car::default();
    car.steering = 59_999;
    handle_car_input(&mut car, controls(false, false, false, false), 10_000);
    assert_eq!(car.steering, 0);
    car.steering = -59_999;
    handle_car_input(&mut car, controls(true, false, false, false), 10_000);
    assert_eq!(car.steering, 0);
    car.steering = 60_000;
    handle_car_input(&mut car, controls(false, false, false, false), 10_000);
    assert_eq!(car.steering, 0);
    car.steering = 60_001;
    handle_car_input(&mut car, controls(false, false, false, false), 10_000);
    assert_eq!(car.steering, 1);
}

#[test]
fn a_standing_vehicle_gets_no_update() {
    let plane = GroundPlane::default();
    let mut car = Car::default();
    car.velocity = 500;
    for steering in [-600_000, -1_001, 0, 250_000, 600_000] {
        car.steering = steering;
        assert_eq!(
            update_car_physics(&car, &level_pose(), 546_302, &plane, TENTH),
            PhysicsStep::Standing
        );
        assert_eq!(
            update_car_physics(&car, &level_pose(), 546_302, &plane, u32::MAX),
            PhysicsStep::Standing
        );
    }
    car.velocity = -999;
    assert_eq!(update_car_physics(&car, &level_pose(), 0, &plane, TENTH), PhysicsStep::Standing);
    car.velocity = 1_000;
    assert!(matches!(
        update_car_physics(&car, &level_pose(), 0, &plane, TENTH),
        PhysicsStep::Moved(_)
    ));
}

#[test]
fn a_turning_vehicle_yaws_by_speed_over_radius() {
    let plane = GroundPlane::default();
    let mut car = Car::default();
    car.velocity = 10 * SCALE;
    car.steering = 500_000;
    let update = moved(update_car_physics(&car, &level_pose(), 546_302, &plane, TENTH));
    assert_eq!(
        update,
        PhysicsUpdate {
            yaw: Some(273_151),
            position: Vec3::new(0, 500_000, -SCALE),
            alignment: None,
        }
    );
    car.steering = -500_000;
    let update = moved(update_car_physics(&car, &level_pose(), -546_302, &plane, TENTH));
    assert_eq!(update.yaw, Some(-273_151));
    car.velocity = -10 * SCALE;
    let update = moved(update_car_physics(&car, &level_pose(), -546_302, &plane, TENTH));
    assert_eq!(update.yaw, Some(273_151));
    assert_eq!(update.position, Vec3::new(0, 500_000, SCALE));
}

#[test]
fn no_yaw_while_running_straight() {
    let plane = GroundPlane::default();
    let mut car = Car::default();
    car.velocity = 10 * SCALE;
    car.steering = 1_000;
    let update = moved(update_car_physics(&car, &level_pose(), 1_000, &plane, TENTH));
    assert_eq!(update.yaw, None);
    car.steering = 1_001;
    let update = moved(update_car_physics(&car, &level_pose(), 0, &plane, TENTH));
    assert_eq!(update.yaw, None);
    car.wheelbase = 0;
    let update = moved(update_car_physics(&car, &level_pose(), 1_001, &plane, TENTH));
    assert_eq!(update.yaw, None);
}

#[test]
fn a_vehicle_on_a_new_plane_is_realigned() {
    let plane = GroundPlane::from_three_points(
        Vec3::new(SCALE, 2 * SCALE, 3 * SCALE),
        Vec3::new(2 * SCALE, 3 * SCALE, 3 * SCALE),
        Vec3::new(SCALE, 2 * SCALE, 4 * SCALE),
    )
    .unwrap();
    let mut car = Car::default();
    car.velocity = 10 * SCALE;
    let update = moved(update_car_physics(&car, &level_pose(), 0, &plane, TENTH));
    assert_eq!(update.alignment, Some(SCALE));
    let update = moved(update_car_physics(&car, &level_pose(), 0, &plane, 16_667));
    assert_eq!(update.alignment, Some(166_670));
    let height = plane.height_at(update.position);
    assert!((height - 500_000).abs() <= 11 + 6);
    let aligned = CarPose { up: plane.normal, ..level_pose() };
    let update = moved(update_car_physics(&car, &aligned, 0, &plane, TENTH));
    assert_eq!(update.alignment, None);
}

#[test]
fn a_long_tick_at_speed_is_still_a_step() {
    let plane = GroundPlane::default();
    let mut car = Car::default();
    car.velocity = 30 * SCALE;
    car.steering = 500_000;
    let update = moved(update_car_physics(&car, &level_pose(), 546_302, &plane, u32::MAX));
    assert_eq!(update.position, Vec3::new(0, 500_000, -128_849_018_850));
    assert_eq!(update.yaw, Some(35_195_242_642));
    assert_eq!(update.alignment, None);
    let tilted = CarPose { up: Vec3::new(SCALE, 0, 0), ..level_pose() };
    let update = moved(update_car_physics(&car, &tilted, 546_302, &plane, u32::MAX));
    assert_eq!(update.alignment, Some(42_949_672_950));
}

#[test]
fn a_step_beyond_the_reach_of_coordinates_is_refused() {
    let plane = GroundPlane::default();
    let mut car = Car::default();
    car.velocity = i64::MAX;
    assert_eq!(
        update_car_physics(&car, &level_pose(), 0, &plane, u32::MAX),
        PhysicsStep::OutOfReach
    );
    car.velocity = 1_000_000_000_000_000;
    let far = CarPose { position: Vec3::new(0, 0, -999_999_999_999_999_999), ..level_pose() };
    assert_eq!(update_car_physics(&car, &far, 0, &plane, 2), PhysicsStep::OutOfReach);
    let update = moved(update_car_physics(&car, &far, 0, &plane, 0));
    assert_eq!(update.position, Vec3::new(0, 500_000, -999_999_999_999_999_999));
    assert!(update.position.is_in_reach());
    car.velocity = 1_000;
    car.steering = 600_000;
    car.wheelbase = 1;
    let update = moved(update_car_physics(&car, &level_pose(), i64::MAX, &plane, u32::MAX));
    assert_eq!(update.yaw, None);
    let update = moved(update_car_physics(&car, &level_pose(), 1_000_000, &plane, u32::MAX));
    assert_eq!(update.yaw, Some(4_294_967_295_000));
}
