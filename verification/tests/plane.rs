use gaussrace::fixed::{isqrt, SCALE};
use gaussrace::ground_plane::{GroundPlane, PlaneFitError};
use gaussrace::vec3::Vec3;

fn units(x: i64, y: i64, z: i64) -> Vec3 {
    Vec3::new(x * SCALE, y * SCALE, z * SCALE)
}

#[test]
fn default_plane_is_horizontal() {
    let plane = GroundPlane::default();
    assert_eq!(plane.origin, Vec3::new(0, 0, 0));
    assert_eq!(plane.normal, Vec3::new(0, SCALE, 0));
    assert_eq!(plane.up, plane.normal);
    assert!(!plane.is_selected);
}

#[test]
fn integer_square_roots() {
    assert_eq!(isqrt(0), 0);
    assert_eq!(isqrt(1), 1);
    assert_eq!(isqrt(3), 1);
    assert_eq!(isqrt(4), 2);
    assert_eq!(isqrt(99), 9);
    assert_eq!(isqrt(1_000_000_000_000), 1_000_000);
    assert_eq!(isqrt(u128::MAX), u64::MAX as u128);
}

#[test]
fn height_above_default_plane() {
    let plane = GroundPlane::default();
    assert_eq!(plane.height_at(Vec3::new(3 * SCALE, 2_500_000, -7 * SCALE)), 2_500_000);
    assert_eq!(plane.height_at(Vec3::new(0, -1_250_000, 0)), -1_250_000);
}

#[test]
fn projection_onto_default_plane_drops_the_height() {
    let plane = GroundPlane::default();
    let p = Vec3::new(3 * SCALE, 2_500_000, -7 * SCALE);
    let q = plane.project_point(p);
    assert_eq!(q, Vec3::new(3 * SCALE, 0, -7 * SCALE));
    assert_eq!(plane.height_at(q), 0);
    assert_eq!(plane.project_point(q), q);
}

#[test]
fn fit_through_three_points_faces_up() {
    let plane = GroundPlane::from_three_points(units(0, 0, 0), units(1, 0, 0), units(0, 0, 1))
        .unwrap();
    assert_eq!(plane.origin, units(0, 0, 0));
    assert_eq!(plane.normal, Vec3::new(0, SCALE, 0));
    assert_eq!(plane.up, plane.normal);
    assert!(plane.is_selected);
    let other = GroundPlane::from_three_points(units(0, 0, 0), units(0, 0, 1), units(1, 0, 0))
        .unwrap();
    assert_eq!(other.normal, Vec3::new(0, SCALE, 0));
}

#[test]
fn fit_of_a_tilted_plane() {
    let plane = GroundPlane::from_three_points(units(1, 2, 3), units(2, 3, 3), units(1, 2, 4))
        .unwrap();
    assert_eq!(plane.origin, units(1, 2, 3));
    assert_eq!(plane.normal, Vec3::new(-707_106, 707_106, 0));
    assert_eq!(plane.height_at(units(1, 3, 3)), 707_106);
}

#[test]
fn collinear_points_are_rejected() {
    let fit = GroundPlane::from_three_points(units(0, 0, 0), units(1, 0, 0), units(2, 0, 0));
    assert_eq!(fit, Err(PlaneFitError::Degenerate));
    let same = GroundPlane::from_three_points(units(4, 5, 6), units(4, 5, 6), units(4, 5, 6));
    assert_eq!(same, Err(PlaneFitError::Degenerate));
}

#[test]
fn distant_points_are_fitted() {
    let plane = GroundPlane::from_three_points(units(0, 0, 0), units(2001, 0, 0), units(0, 0, 1))
        .unwrap();
    assert_eq!(plane.normal, Vec3::new(0, SCALE, 0));
    let plane = GroundPlane::from_three_points(units(0, 0, 0), units(3000, 0, 0), units(0, 0, 3000))
        .unwrap();
    assert_eq!(plane.origin, units(0, 0, 0));
    assert_eq!(plane.normal, Vec3::new(0, SCALE, 0));
    let far = 1_000_000_000;
    let plane = GroundPlane::from_three_points(
        units(-far, -far, -far),
        units(far, far, -far),
        units(-far, -far, far),
    )
    .unwrap();
    assert_eq!(plane.origin, units(-far, -far, -far));
    assert_eq!(plane.normal, Vec3::new(-707_106, 707_106, 0));
    assert_eq!(plane.height_at(units(far, far, -far)), 0);
    assert_eq!(plane.height_at(units(-far, -far, far)), 0);
    let plane = GroundPlane::from_three_points(
        units(0, 0, 0),
        units(far, 0, 0),
        Vec3::new(0, 1, 1_000),
    )
    .unwrap();
    assert_eq!(plane.normal, Vec3::new(0, 999_999, -999));
}

#[test]
fn the_order_of_the_points_does_not_turn_the_plane() {
    let p1 = units(0, 0, 0);
    let p2 = units(1000, 0, 0);
    let p3 = Vec3::new(0, 1000 * SCALE, 1);
    let one = GroundPlane::from_three_points(p1, p2, p3).unwrap();
    let other = GroundPlane::from_three_points(p1, p3, p2).unwrap();
    assert_eq!(one.normal, Vec3::new(0, 0, -SCALE));
    assert_eq!(other, one);
    let level = GroundPlane::from_three_points(p1, p2, units(0, 1000, 0)).unwrap();
    let turned = GroundPlane::from_three_points(p1, units(0, 1000, 0), p2).unwrap();
    assert_eq!(level.normal, Vec3::new(0, 0, SCALE));
    assert_eq!(turned.normal, Vec3::new(0, 0, -SCALE));
}

#[test]
fn no_point_of_the_plane_is_nearer_than_the_projection() {
    let plane = GroundPlane::from_three_points(units(1, 2, 3), units(2, 3, 3), units(1, 2, 4))
        .unwrap();
    let p = units(5, -3, 7);
    let once = plane.project_point(p);
    let square = |a: Vec3, b: Vec3| {
        let (x, y, z) = ((a.x - b.x) as i128, (a.y - b.y) as i128, (a.z - b.z) as i128);
        x * x + y * y + z * z
    };
    let nearest = square(p, once);
    let h = plane.height_at(p).abs() as i128;
    assert!(nearest <= h * h);
    for q in [units(1, 2, 3), units(2, 3, 3), units(1, 2, 4), units(-40, -39, 100), once] {
        assert!(plane.height_at(q).abs() <= 14);
        assert!(square(p, q) + 1_000_000_000 >= nearest);
    }
}

#[test]
fn fitted_points_lie_near_the_plane() {
    let p1 = Vec3::new(123_456_789, -987_654_321, 555_555_555);
    let p2 = Vec3::new(-2_000_000_000_123, 77_000_000_001, 3);
    let p3 = Vec3::new(999_999_999_999_999, 4, -31_415_926_535);
    let plane = GroundPlane::from_three_points(p1, p2, p3).unwrap();
    assert_eq!(plane.height_at(p1), 0);
    for p in [p2, p3] {
        let edge = ((p.x - p1.x).abs() + (p.y - p1.y).abs() + (p.z - p1.z).abs()) as i128;
        assert!((plane.height_at(p).abs() as i128) * 1_000_000 <= 2 * edge);
    }
}

#[test]
fn a_projection_can_be_projected_again() {
    let plane = GroundPlane::from_three_points(units(1, 0, 0), units(0, 1, 0), units(0, 0, 1))
        .unwrap();
    assert_eq!(plane.normal, Vec3::new(577_350, 577_350, 577_350));
    let corner = Vec3::new(
        1_000_000_000_000_000_000,
        -1_000_000_000_000_000_000,
        1_000_000_000_000_000_000,
    );
    let once = plane.project_point(corner);
    assert!(!once.is_in_reach());
    assert!(once.is_in_sight());
    let twice = plane.project_point(once);
    let off = plane.height_at(once).abs();
    assert!((twice.x - once.x).abs() <= off);
    assert!((twice.y - once.y).abs() <= off);
    assert!((twice.z - once.z).abs() <= off);
    assert!((off as i128) * 1_000_000 <= 4_000_000 + 6 * (plane.height_at(corner).abs() as i128));
}

#[test]
fn fitted_normal_has_unit_length_and_faces_up() {
    let plane = GroundPlane::from_three_points(units(3, 1, -2), units(7, 2, 0), units(1, 5, 4))
        .unwrap();
    let n = plane.normal;
    assert!(n.y >= 0);
    let length_sq = (n.x as i128) * (n.x as i128) + (n.y as i128) * (n.y as i128)
        + (n.z as i128) * (n.z as i128);
    assert!(999_994_000_000 <= length_sq && length_sq <= 1_000_002_000_000);
    let flipped = GroundPlane::from_three_points(units(3, 1, -2), units(1, 5, 4), units(7, 2, 0))
        .unwrap();
    assert_eq!(flipped.normal, n);
}

#[test]
fn projection_onto_a_tilted_plane() {
    let plane = GroundPlane::from_three_points(units(1, 2, 3), units(2, 3, 3), units(1, 2, 4))
        .unwrap();
    let p = units(5, -3, 7);
    assert_eq!(plane.height_at(p), -6_363_954);
    let q = plane.project_point(p);
    assert_eq!(q, Vec3::new(500_010, 1_499_990, 7_000_000));
    assert_eq!(plane.height_at(q), -14);
    assert_eq!(plane.project_point(q), Vec3::new(500_001, 1_499_999, 7_000_000));
}

#[test]
fn projected_points_lie_within_the_stated_slack() {
    let plane = GroundPlane::from_three_points(units(1, 2, 3), units(2, 3, 3), units(1, 2, 4))
        .unwrap();
    let points = [
        Vec3::new(123_456_789, 987_654_321, -55_555_555),
        units(5, -3, 7),
        units(-400, 250, 13),
        Vec3::new(1, 2, 3),
    ];
    for p in points {
        let h = plane.height_at(p).abs() as i128;
        let once = plane.project_point(p);
        let off = plane.height_at(once).abs() as i128;
        assert!(off * 1_000_000 <= 4_000_000 + 6 * h);
        let twice = plane.project_point(once);
        assert!(((twice.x - once.x).abs() as i128) <= off);
        assert!(((twice.y - once.y).abs() as i128) <= off);
        assert!(((twice.z - once.z).abs() as i128) <= off);
    }
}

#[test]
fn nearly_collinear_points_are_rejected() {
    let fit = GroundPlane::from_three_points(
        Vec3::new(0, 0, 0),
        Vec3::new(1_000, 0, 0),
        Vec3::new(0, 0, 999),
    );
    assert_eq!(fit, Err(PlaneFitError::Degenerate));
    let fit = GroundPlane::from_three_points(
        Vec3::new(0, 0, 0),
        Vec3::new(1_000, 0, 0),
        Vec3::new(0, 0, 1_000),
    );
    assert_eq!(fit.unwrap().normal, Vec3::new(0, SCALE, 0));
}

#[test]
fn coordinates_in_and_out_of_range() {
    assert!(Vec3::new(1_000_000_000_000_000, 0, -1_000_000_000_000_000).is_in_range());
    assert!(!Vec3::new(1_000_000_000_000_001, 0, 0).is_in_range());
    assert!(Vec3::new(1_000_000_000_000_001, 0, -1_000_000_000_000_000_000).is_in_reach());
    assert!(!Vec3::new(0, 1_000_000_000_000_000_001, 0).is_in_reach());
    assert!(Vec3::new(0, 3_002_000_000_000_000_000, 0).is_in_sight());
    assert!(!Vec3::new(0, 0, -3_002_000_000_000_000_001).is_in_sight());
    assert!(Vec3::new(SCALE, -SCALE, 0).is_a_direction());
    assert!(!Vec3::new(SCALE + 1, 0, 0).is_a_direction());
    assert_eq!(Vec3::zero(), Vec3::new(0, 0, 0));
    assert_eq!(Vec3::unit_y(), Vec3::new(0, SCALE, 0));
}
