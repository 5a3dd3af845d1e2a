use gaussrace::fixed::SCALE;
use gaussrace::ground_plane::{GroundPlane, PlaneFitError};
use gaussrace::selection::{
    handle_plane_selection, Marker, PickOutcome, PlaneSelectionState, Ray, SelectionEffects,
    SelectionInput,
};
use gaussrace::vec3::Vec3;

fn units(x: i64, y: i64, z: i64) -> Vec3 {
    Vec3::new(x * SCALE, y * SCALE, z * SCALE)
}

/// A ray straight down from ten units above the point `(x, 0, z)`.
fn down_onto(x: i64, z: i64) -> Ray {
    Ray { origin: units(x, 10, z), direction: Vec3::new(0, -SCALE, 0) }
}

fn click(ray: Ray) -> SelectionInput {
    SelectionInput { toggle: false, reset: false, click: Some(ray) }
}

fn toggle() -> SelectionInput {
    SelectionInput { toggle: true, reset: false, click: None }
}

#[test]
fn ray_hits_the_default_plane() {
    let plane = GroundPlane::default();
    assert_eq!(plane.intersect_ray(down_onto(3, -4)), Some(units(3, 0, -4)));
    let slanted = Ray { origin: units(0, 10, 0), direction: Vec3::new(600_000, -800_000, 0) };
    assert_eq!(plane.intersect_ray(slanted), Some(Vec3::new(7_500_000, 0, 0)));
}

#[test]
fn ray_parallel_to_the_plane_hits_nothing() {
    let plane = GroundPlane::default();
    let level = Ray { origin: units(0, 10, 0), direction: Vec3::new(SCALE, 0, 0) };
    assert_eq!(plane.intersect_ray(level), None);
    let nearly = Ray { origin: units(0, 10, 0), direction: Vec3::new(SCALE, -100, 0) };
    assert_eq!(plane.intersect_ray(nearly), None);
    let just = Ray { origin: units(0, 10, 0), direction: Vec3::new(SCALE, -101, 0) };
    assert_eq!(
        plane.intersect_ray(just),
        Some(Vec3::new(99_009_900_990, 10 * SCALE - 9_999_999, 0))
    );
}

#[test]
fn ray_that_points_away_hits_nothing() {
    let plane = GroundPlane::default();
    let up = Ray { origin: units(0, 10, 0), direction: Vec3::new(0, SCALE, 0) };
    assert_eq!(plane.intersect_ray(up), None);
    let on_plane = Ray { origin: units(0, 0, 0), direction: Vec3::new(0, -SCALE, 0) };
    assert_eq!(plane.intersect_ray(on_plane), None);
    let below = Ray { origin: units(0, -10, 0), direction: Vec3::new(0, SCALE, 0) };
    assert_eq!(plane.intersect_ray(below), Some(units(0, 0, 0)));
}

#[test]
fn ray_that_hits_out_of_range_hits_nothing() {
    let plane = GroundPlane::default();
    let far = Ray {
        origin: Vec3::new(0, 1_000_000_000_000_000, 0),
        direction: Vec3::new(SCALE, -200, 0),
    };
    let farther = Ray {
        origin: Vec3::new(0, 1_000_000_000_000_000_000, 0),
        direction: Vec3::new(SCALE, -101, 0),
    };
    assert_eq!(plane.intersect_ray(farther), None);
    assert_eq!(plane.intersect_ray(far), None);
}

#[test]
fn plane_pick_end_to_end() {
    let mut state = PlaneSelectionState::new();
    let mut plane = GroundPlane::default();
    assert!(!state.is_active());

    let effects = handle_plane_selection(&mut state, &mut plane, toggle());
    assert_eq!(
        effects,
        SelectionEffects { clear_markers: true, marker: None, outcome: PickOutcome::Idle }
    );
    assert!(state.is_active());

    let effects = handle_plane_selection(&mut state, &mut plane, click(down_onto(0, 0)));
    assert_eq!(
        effects,
        SelectionEffects {
            clear_markers: false,
            marker: Some(Marker { position: units(0, 0, 0), index: 1 }),
            outcome: PickOutcome::PointAdded,
        }
    );
    let effects = handle_plane_selection(&mut state, &mut plane, click(down_onto(1, 0)));
    assert_eq!(effects.marker, Some(Marker { position: units(1, 0, 0), index: 2 }));
    assert_eq!(effects.outcome, PickOutcome::PointAdded);
    assert_eq!(state.point_count(), 2);
    assert_eq!(state.point(0), units(0, 0, 0));
    assert_eq!(state.point(1), units(1, 0, 0));
    assert_eq!(plane, GroundPlane::default());

    let effects = handle_plane_selection(&mut state, &mut plane, click(down_onto(0, 1)));
    assert_eq!(effects.marker, Some(Marker { position: units(0, 0, 1), index: 3 }));
    assert_eq!(effects.outcome, PickOutcome::PlaneDefined);
    assert!(!effects.clear_markers);
    assert!(!state.is_active());
    assert_eq!(state.point_count(), 0);
    assert_eq!(plane.origin, units(0, 0, 0));
    assert_eq!(plane.normal, Vec3::new(0, SCALE, 0));
    assert_eq!(plane.up, Vec3::new(0, SCALE, 0));
    assert!(plane.is_selected);
}

#[test]
fn picks_are_cast_against_the_current_plane() {
    let mut state = PlaneSelectionState::new();
    let mut plane = GroundPlane::from_three_points(units(0, 2, 0), units(0, 2, 1), units(1, 2, 0))
        .unwrap();
    state.toggle();
    let (marker, outcome) = state.click(&mut plane, Some(down_onto(5, 5)));
    assert_eq!(marker, Some(Marker { position: units(5, 2, 5), index: 1 }));
    assert_eq!(outcome, PickOutcome::PointAdded);
}

#[test]
fn clicks_count_only_while_selection_is_active() {
    let mut state = PlaneSelectionState::new();
    let mut plane = GroundPlane::default();
    let effects = handle_plane_selection(&mut state, &mut plane, click(down_onto(0, 0)));
    assert_eq!(
        effects,
        SelectionEffects { clear_markers: false, marker: None, outcome: PickOutcome::Idle }
    );
    assert_eq!(state.point_count(), 0);
}

#[test]
fn a_click_that_misses_changes_nothing() {
    let mut state = PlaneSelectionState::new();
    let mut plane = GroundPlane::default();
    state.toggle();
    state.click(&mut plane, Some(down_onto(0, 0)));
    let level = Ray { origin: units(0, 10, 0), direction: Vec3::new(SCALE, 0, 0) };
    let (marker, outcome) = state.click(&mut plane, Some(level));
    assert_eq!(marker, None);
    assert_eq!(outcome, PickOutcome::Ignored);
    assert_eq!(state.point_count(), 1);
    assert!(state.is_active());
    let (marker, outcome) = state.click(&mut plane, None);
    assert_eq!(marker, None);
    assert_eq!(outcome, PickOutcome::Idle);
    assert_eq!(state.point_count(), 1);
}

#[test]
fn three_points_on_a_line_leave_the_plane_as_it_was() {
    let mut state = PlaneSelectionState::new();
    let mut plane = GroundPlane::default();
    state.toggle();
    state.click(&mut plane, Some(down_onto(0, 0)));
    state.click(&mut plane, Some(down_onto(1, 0)));
    let (marker, outcome) = state.click(&mut plane, Some(down_onto(2, 0)));
    assert_eq!(marker, Some(Marker { position: units(2, 0, 0), index: 3 }));
    assert_eq!(outcome, PickOutcome::FitRejected(PlaneFitError::Degenerate));
    assert_eq!(plane, GroundPlane::default());
    assert!(!state.is_active());
    assert_eq!(state.point_count(), 0);
}

#[test]
fn three_points_far_apart_define_the_plane() {
    let mut state = PlaneSelectionState::new();
    let mut plane = GroundPlane::default();
    state.toggle();
    state.click(&mut plane, Some(down_onto(0, 0)));
    state.click(&mut plane, Some(down_onto(1, 0)));
    let (marker, outcome) = state.click(&mut plane, Some(down_onto(0, 2001)));
    assert_eq!(marker, Some(Marker { position: units(0, 0, 2001), index: 3 }));
    assert_eq!(outcome, PickOutcome::PlaneDefined);
    assert_eq!(plane.origin, units(0, 0, 0));
    assert_eq!(plane.normal, Vec3::new(0, SCALE, 0));
    assert!(plane.is_selected);
    assert!(!state.is_active());
}

#[test]
fn a_ray_may_start_beyond_the_range_of_picked_points() {
    let plane = GroundPlane::default();
    let high = Ray {
        origin: Vec3::new(5 * SCALE, 1_000_000_000_000_000_000, 0),
        direction: Vec3::new(0, -SCALE, 0),
    };
    assert_eq!(plane.intersect_ray(high), Some(units(5, 0, 0)));
}

#[test]
fn toggling_drops_the_points_either_way() {
    let mut state = PlaneSelectionState::new();
    let mut plane = GroundPlane::default();
    state.toggle();
    state.click(&mut plane, Some(down_onto(0, 0)));
    assert_eq!(state.point_count(), 1);
    state.toggle();
    assert!(!state.is_active());
    assert_eq!(state.point_count(), 0);
    state.toggle();
    assert!(state.is_active());
    assert_eq!(state.point_count(), 0);
}

#[test]
fn reset_puts_the_default_plane_back_and_keeps_the_mode() {
    let mut state = PlaneSelectionState::new();
    let mut plane = GroundPlane::from_three_points(units(0, 2, 0), units(0, 2, 1), units(1, 2, 0))
        .unwrap();
    state.toggle();
    state.click(&mut plane, Some(down_onto(0, 0)));
    let effects = handle_plane_selection(
        &mut state,
        &mut plane,
        SelectionInput { toggle: false, reset: true, click: None },
    );
    assert_eq!(
        effects,
        SelectionEffects { clear_markers: true, marker: None, outcome: PickOutcome::Idle }
    );
    assert_eq!(plane, GroundPlane::default());
    assert!(state.is_active());
    assert_eq!(state.point_count(), 0);

    state.toggle();
    state.reset(&mut plane);
    assert!(!state.is_active());
}

#[test]
fn commands_and_click_of_one_frame_apply_in_order() {
    let mut state = PlaneSelectionState::new();
    let mut plane = GroundPlane::from_three_points(units(0, 2, 0), units(0, 2, 1), units(1, 2, 0))
        .unwrap();
    let effects = handle_plane_selection(
        &mut state,
        &mut plane,
        SelectionInput { toggle: true, reset: true, click: Some(down_onto(4, 4)) },
    );
    assert_eq!(
        effects,
        SelectionEffects {
            clear_markers: true,
            marker: Some(Marker { position: units(4, 0, 4), index: 1 }),
            outcome: PickOutcome::PointAdded,
        }
    );
    assert_eq!(plane, GroundPlane::default());
    assert!(state.is_active());
    assert_eq!(state.point_count(), 1);
}
