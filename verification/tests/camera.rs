use gaussrace::camera::{update_camera_follow, CameraUpdate, CarCamera};
use gaussrace::car::CarPose;
use gaussrace::fixed::SCALE;
use gaussrace::vec3::Vec3;

fn car_at_origin() -> CarPose {
    CarPose {
        position: Vec3::new(0, 0, 0),
        forward: Vec3::new(0, 0, -SCALE),
        up: Vec3::new(0, SCALE, 0),
    }
}

#[test]
fn default_camera_settings() {
    let camera = CarCamera::default();
    assert_eq!(camera.offset, Vec3::new(0, 5 * SCALE, 12 * SCALE));
    assert_eq!(camera.smoothness, 5 * SCALE);
}

#[test]
fn camera_covers_a_share_of_the_way() {
    let update = update_camera_follow(
        &CarCamera::default(),
        Vec3::new(0, 10 * SCALE, 20 * SCALE),
        &car_at_origin(),
        100_000,
    ).unwrap();
    assert_eq!(
        update,
        CameraUpdate {
            position: Vec3::new(0, 7_500_000, 16 * SCALE),
            look_target: Vec3::new(0, 0, -5 * SCALE),
        }
    );
}

#[test]
fn camera_approaches_without_overshooting() {
    let settings = CarCamera::default();
    let car = CarPose {
        position: Vec3::new(3 * SCALE, SCALE, -4 * SCALE),
        forward: Vec3::new(SCALE, 0, 0),
        up: Vec3::new(0, SCALE, 0),
    };
    let target = Vec3::new(-9 * SCALE, 6 * SCALE, -4 * SCALE);
    let mut position = Vec3::new(40 * SCALE, -7 * SCALE, 2 * SCALE);
    for _ in 0..200 {
        let update = update_camera_follow(&settings, position, &car, 16_667).unwrap();
        assert!(target.x <= update.position.x && update.position.x <= position.x);
        assert!(position.y <= update.position.y && update.position.y <= target.y);
        assert!(target.z <= update.position.z && update.position.z <= position.z);
        assert_eq!(update.look_target, Vec3::new(8 * SCALE, SCALE, -4 * SCALE));
        position = update.position;
    }
    assert!((position.x - target.x).abs() < 20);
    assert!((position.y - target.y).abs() < 20);
    assert!((position.z - target.z).abs() < 20);
}

#[test]
fn camera_stays_or_arrives_at_the_ends_of_the_range() {
    let settings = CarCamera::default();
    let from = Vec3::new(0, 10 * SCALE, 20 * SCALE);
    let stay = update_camera_follow(&settings, from, &car_at_origin(), 0).unwrap();
    assert_eq!(stay.position, from);
    let arrive = update_camera_follow(&settings, from, &car_at_origin(), 200_000).unwrap();
    assert_eq!(arrive.position, Vec3::new(0, 5 * SCALE, 12 * SCALE));
}

#[test]
fn camera_with_any_settings_and_tick() {
    let wild = CarCamera { offset: Vec3::new(i64::MIN, i64::MAX, i64::MIN), smoothness: i64::MAX };
    let from = Vec3::new(0, 10 * SCALE, 20 * SCALE);
    assert_eq!(update_camera_follow(&wild, from, &car_at_origin(), u32::MAX), None);
    let stay = update_camera_follow(&wild, from, &car_at_origin(), 0).unwrap();
    assert_eq!(stay.position, from);
    let quick = CarCamera { smoothness: 5 * SCALE, ..CarCamera::default() };
    let over = update_camera_follow(&quick, from, &car_at_origin(), 1_000_000).unwrap();
    assert_eq!(over.position, Vec3::new(0, -15 * SCALE, -20 * SCALE));
    let back = CarCamera { smoothness: -5 * SCALE, ..CarCamera::default() };
    let away = update_camera_follow(&back, from, &car_at_origin(), 100_000).unwrap();
    assert_eq!(away.position, Vec3::new(0, 12_500_000, 24 * SCALE));
    let edge = Vec3::new(1_000_000_000_000_000_000, 0, 0);
    assert_eq!(update_camera_follow(&back, edge, &car_at_origin(), 100_000), None);
}
