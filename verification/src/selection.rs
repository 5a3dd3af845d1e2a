//! Picking the ground plane: three clicks, each a ray cast against the
//! current plane, define the next one.

use vstd::prelude::*;
use crate::fixed::{abs, lemma_mul_bound, lemma_trunc_div_bounds, quot, trunc_div, SCALE};
use crate::ground_plane::{
    fitted, horizontal, lemma_fitted_wf, lemma_horizontal_wf, GroundPlane, PlaneFitError,
};
use crate::vec3::{to_vec3, Int3, Vec3, COORD_MAX};

verus! {

/// A ray that runs closer to parallel to the plane than this hits nothing:
/// the dot product of its direction and the normal must exceed it in
/// magnitude.
pub const RAY_EPSILON: i64 = 100;

/// A ray in space: where it starts and the unit vector along which it runs.
#[derive(Clone, Copy, Debug, PartialEq, Eq, Structural)]
pub struct Ray {
    pub origin: Vec3,
    pub direction: Vec3,
}

/// A marker to show at a picked point.
#[derive(Clone, Copy, Debug, PartialEq, Eq)]
pub struct Marker {
    /// Where the marker stands.
    pub position: Vec3,
    /// The point's number within its pick session, from 1.
    pub index: usize,
}

/// What a click did.
#[derive(Clone, Copy, Debug, PartialEq, Eq)]
pub enum PickOutcome {
    /// No click was handled: there was none, or selection is not active.
    Idle,
    /// The click's ray hit the plane nowhere; nothing changed.
    Ignored,
    /// The hit point was added to the session, which waits for more.
    PointAdded,
    /// The hit point was the third, and the three define the new plane.
    PlaneDefined,
    /// The hit point was the third, and the three define no plane; the
    /// plane stays as it was and the session is over.
    FitRejected(PlaneFitError),
}

/// The commands and the click of one frame.
#[derive(Clone, Copy, Debug, PartialEq, Eq)]
pub struct SelectionInput {
    /// Selection mode was switched.
    pub toggle: bool,
    /// The plane is to be reset.
    pub reset: bool,
    /// The ray of a click, if there was a click and a ray through it.
    pub click: Option<Ray>,
}

/// What the caller has to do to the scene after one frame of selection.
#[derive(Clone, Copy, Debug, PartialEq, Eq)]
pub struct SelectionEffects {
    /// Remove every marker shown so far; comes before `marker`.
    pub clear_markers: bool,
    /// Show a new marker.
    pub marker: Option<Marker>,
    /// What the frame's click did.
    pub outcome: PickOutcome,
}

/// A pick session as a value: the points picked so far, in order, and
/// whether selection is active.
pub struct PickSession {
    pub points: Seq<Vec3>,
    pub active: bool,
}

/// A pick session, the plane it works on, and the effects of one click.
pub struct ClickResult {
    pub session: PickSession,
    pub plane: GroundPlane,
    pub marker: Option<Marker>,
    pub outcome: PickOutcome,
}

/// The state of plane selection: the points picked so far and whether
/// selection is active.
pub struct PlaneSelectionState {
    points: Vec<Vec3>,
    active: bool,
}

impl Ray {
    /// The start is within reach and the direction is one.
    pub open spec fn wf(self) -> bool {
        self.origin.in_reach() && self.direction.is_direction()
    }
}

impl GroundPlane {
    /// The dot product of the normal and the ray's direction.
    pub open spec fn ray_denominator(self, ray: Ray) -> int {
        trunc_div(self.normal@.dot(ray.direction@), SCALE as int)
    }

    /// The height of the plane's origin above the ray's start.
    pub open spec fn ray_numerator(self, ray: Ray) -> int {
        trunc_div(self.origin@.minus(ray.origin@).dot(self.normal@), SCALE as int)
    }

    /// The distance along the ray at which it meets the plane.
    pub open spec fn ray_parameter(self, ray: Ray) -> int {
        quot(self.ray_numerator(ray) * SCALE, self.ray_denominator(ray))
    }

    /// The point of the ray at the distance [`Self::ray_parameter`].
    pub open spec fn ray_point(self, ray: Ray) -> Int3 {
        ray.origin@.plus(ray.direction@.scaled_by(self.ray_parameter(ray)))
    }

    /// The point in which the ray hits the plane. There is none where the
    /// ray runs nearly parallel to the plane, where it meets the plane at
    /// its start or behind it, and where the point lies beyond the range
    /// of picked points.
    pub open spec fn ray_hit(self, ray: Ray) -> Option<Int3> {
        if abs(self.ray_denominator(ray)) <= RAY_EPSILON {
            None
        } else if self.ray_parameter(ray) <= 0 {
            None
        } else if !self.ray_point(ray).within(COORD_MAX as int) {
            None
        } else {
            Some(self.ray_point(ray))
        }
    }

    /// Intersects a ray with the plane.
    pub fn intersect_ray(&self, ray: Ray) -> (hit: Option<Vec3>)
        requires
            self.wf(),
            ray.wf(),
        ensures
            match hit {
                Some(p) => self.ray_hit(ray) == Some(p@) && p.in_range(),
                None => self.ray_hit(ray) is None,
            },
    {
        let scale: i128 = SCALE as i128;
        let n = self.normal;
        let d = ray.direction;
        proof {
            lemma_mul_bound(n.x as int, d.x as int, 1_000_000, 1_000_000);
            lemma_mul_bound(n.y as int, d.y as int, 1_000_000, 1_000_000);
            lemma_mul_bound(n.z as int, d.z as int, 1_000_000, 1_000_000);
        }
        let denom: i128 = ((n.x as i128) * (d.x as i128) + (n.y as i128) * (d.y as i128) + (
        n.z as i128) * (d.z as i128)) / scale;
        if -(RAY_EPSILON as i128) <= denom && denom <= RAY_EPSILON as i128 {
            return None;
        }
        let ox: i128 = (self.origin.x as i128) - (ray.origin.x as i128);
        let oy: i128 = (self.origin.y as i128) - (ray.origin.y as i128);
        let oz: i128 = (self.origin.z as i128) - (ray.origin.z as i128);
        proof {
            lemma_mul_bound(ox as int, n.x as int, 1_001_000_000_000_000_000, 1_000_000);
            lemma_mul_bound(oy as int, n.y as int, 1_001_000_000_000_000_000, 1_000_000);
            lemma_mul_bound(oz as int, n.z as int, 1_001_000_000_000_000_000, 1_000_000);
        }
        let numer: i128 = (ox * (n.x as i128) + oy * (n.y as i128) + oz * (n.z as i128)) / scale;
        proof {
            if denom > 0 {
                lemma_trunc_div_bounds(numer * scale, denom as int);
            } else {
                lemma_trunc_div_bounds(numer * scale, -denom);
            }
        }
        let t: i128 = if denom > 0 {
            (numer * scale) / denom
        } else {
            -((numer * scale) / (-denom))
        };
        if t <= 0 {
            return None;
        }
        proof {
            lemma_mul_bound(d.x as int, t as int, 1_000_000, 3_003_000_000_000_000_000_000_000);
            lemma_mul_bound(d.y as int, t as int, 1_000_000, 3_003_000_000_000_000_000_000_000);
            lemma_mul_bound(d.z as int, t as int, 1_000_000, 3_003_000_000_000_000_000_000_000);
        }
        let px: i128 = (ray.origin.x as i128) + ((d.x as i128) * t) / scale;
        let py: i128 = (ray.origin.y as i128) + ((d.y as i128) * t) / scale;
        let pz: i128 = (ray.origin.z as i128) + ((d.z as i128) * t) / scale;
        let bound: i128 = COORD_MAX as i128;
        if -bound <= px && px <= bound && -bound <= py && py <= bound && -bound <= pz && pz
            <= bound {
            Some(Vec3 { x: px as i64, y: py as i64, z: pz as i64 })
        } else {
            None
        }
    }
}

impl PickSession {
    /// The session that holds no point.
    pub open spec fn cleared(active: bool) -> PickSession {
        PickSession { points: Seq::empty(), active }
    }

    /// At most two points wait for a third, each of them in range, and a
    /// session that is not active holds none.
    pub open spec fn wf(self) -> bool {
        &&& self.points.len() <= 2
        &&& forall|i: int| 0 <= i < self.points.len() ==> (#[trigger] self.points[i]).in_range()
        &&& !self.active ==> self.points.len() == 0
    }

    /// The session after selection mode was switched: it starts empty, or
    /// ends and drops its points.
    pub open spec fn toggled(self) -> PickSession {
        PickSession::cleared(!self.active)
    }

    /// The session after a reset: empty, and active as before.
    pub open spec fn reset(self) -> PickSession {
        PickSession::cleared(self.active)
    }

    /// The session and the plane after a click that hit the plane in `hit`.
    pub open spec fn with_hit(self, plane: GroundPlane, hit: Vec3) -> ClickResult {
        let points = self.points.push(hit);
        let marker = Some(Marker { position: hit, index: points.len() as usize });
        if points.len() < 3 {
            ClickResult {
                session: PickSession { points, active: true },
                plane,
                marker,
                outcome: PickOutcome::PointAdded,
            }
        } else {
            match fitted(points[0], points[1], points[2]) {
                Ok(found) => ClickResult {
                    session: PickSession::cleared(false),
                    plane: found,
                    marker,
                    outcome: PickOutcome::PlaneDefined,
                },
                Err(e) => ClickResult {
                    session: PickSession::cleared(false),
                    plane,
                    marker,
                    outcome: PickOutcome::FitRejected(e),
                },
            }
        }
    }

    /// The session and the plane after a click along `click`. A click
    /// counts only while selection is active, and only where its ray hits
    /// the current plane.
    pub open spec fn clicked(self, plane: GroundPlane, click: Option<Ray>) -> ClickResult {
        if !self.active || click is None {
            ClickResult { session: self, plane, marker: None, outcome: PickOutcome::Idle }
        } else {
            match plane.ray_hit(click->0) {
                None => ClickResult {
                    session: self,
                    plane,
                    marker: None,
                    outcome: PickOutcome::Ignored,
                },
                Some(p) => self.with_hit(plane, to_vec3(p)),
            }
        }
    }

    /// The session and the plane after one frame: the switch of selection
    /// mode first, then the reset, then the click.
    pub open spec fn after_frame(self, plane: GroundPlane, input: SelectionInput) -> ClickResult {
        let switched = if input.toggle {
            self.toggled()
        } else {
            self
        };
        let session = if input.reset {
            switched.reset()
        } else {
            switched
        };
        let current = if input.reset {
            horizontal()
        } else {
            plane
        };
        session.clicked(current, input.click)
    }
}

impl View for PlaneSelectionState {
    type V = PickSession;

    closed spec fn view(&self) -> PickSession {
        PickSession { points: self.points@, active: self.active }
    }
}

impl Default for PlaneSelectionState {
    /// The inactive state, with no point picked.
    fn default() -> (state: PlaneSelectionState)
        ensures
            state@ == PickSession::cleared(false),
            state@.wf(),
    {
        PlaneSelectionState::new()
    }
}

impl PlaneSelectionState {
    /// The inactive state, with no point picked.
    pub fn new() -> (state: PlaneSelectionState)
        ensures
            state@ == PickSession::cleared(false),
            state@.wf(),
    {
        PlaneSelectionState { points: Vec::new(), active: false }
    }

    /// Whether clicks are taken as picks.
    pub fn is_active(&self) -> (active: bool)
        ensures
            active == self@.active,
    {
        self.active
    }

    /// The number of points picked so far in this session.
    pub fn point_count(&self) -> (n: usize)
        ensures
            n == self@.points.len(),
    {
        self.points.len()
    }

    /// The `i`-th point picked in this session.
    pub fn point(&self, i: usize) -> (p: Vec3)
        requires
            i < self@.points.len(),
        ensures
            p == self@.points[i as int],
    {
        self.points[i]
    }

    /// Switches selection mode on or off. Either way the session starts
    /// over with no point.
    pub fn toggle(&mut self)
        ensures
            final(self)@ == old(self)@.toggled(),
            final(self)@.wf(),
    {
        self.active = !self.active;
        self.points = Vec::new();
    }

    /// Drops the points picked so far and puts the default plane back.
    /// Selection stays active if it was.
    pub fn reset(&mut self, plane: &mut GroundPlane)
        ensures
            final(self)@ == old(self)@.reset(),
            *final(plane) == horizontal(),
            final(self)@.wf(),
            final(plane).wf(),
    {
        self.points = Vec::new();
        *plane = GroundPlane::default();
    }

    /// Handles a click along `click`, if there is one: while selection is
    /// active, the point in which the ray hits the current plane joins the
    /// session, and the third such point ends the session and, unless the
    /// three define no plane, replaces the plane.
    pub fn click(&mut self, plane: &mut GroundPlane, click: Option<Ray>) -> (effects: (
        Option<Marker>,
        PickOutcome,
    ))
        requires
            old(self)@.wf(),
            old(plane).wf(),
            click matches Some(ray) ==> ray.wf(),
        ensures
            final(self)@ == old(self)@.clicked(*old(plane), click).session,
            *final(plane) == old(self)@.clicked(*old(plane), click).plane,
            effects.0 == old(self)@.clicked(*old(plane), click).marker,
            effects.1 == old(self)@.clicked(*old(plane), click).outcome,
            final(self)@.wf(),
            final(plane).wf(),
    {
        if !self.active {
            return (None, PickOutcome::Idle);
        }
        let ray = match click {
            Some(ray) => ray,
            None => {
                return (None, PickOutcome::Idle);
            },
        };
        let hit = match plane.intersect_ray(ray) {
            Some(hit) => hit,
            None => {
                return (None, PickOutcome::Ignored);
            },
        };
        assert(hit == to_vec3(hit@));
        self.points.push(hit);
        let marker = Some(Marker { position: hit, index: self.points.len() });
        if self.points.len() < 3 {
            return (marker, PickOutcome::PointAdded);
        }
        let fit = GroundPlane::from_three_points(self.points[0], self.points[1], self.points[2]);
        self.points = Vec::new();
        self.active = false;
        match fit {
            Ok(found) => {
                *plane = found;
                (marker, PickOutcome::PlaneDefined)
            },
            Err(e) => (marker, PickOutcome::FitRejected(e)),
        }
    }
}

/// Handles one frame of plane selection: the switch of selection mode, then
/// the reset, then the click, as far as each is there. Tells the caller
/// which markers to remove and to show.
pub fn handle_plane_selection(
    state: &mut PlaneSelectionState,
    plane: &mut GroundPlane,
    input: SelectionInput,
) -> (effects: SelectionEffects)
    requires
        old(state)@.wf(),
        old(plane).wf(),
        input.click matches Some(ray) ==> ray.wf(),
    ensures
        final(state)@ == old(state)@.after_frame(*old(plane), input).session,
        *final(plane) == old(state)@.after_frame(*old(plane), input).plane,
        effects == (SelectionEffects {
            clear_markers: input.toggle || input.reset,
            marker: old(state)@.after_frame(*old(plane), input).marker,
            outcome: old(state)@.after_frame(*old(plane), input).outcome,
        }),
        final(state)@.wf(),
        final(plane).wf(),
{
    if input.toggle {
        state.toggle();
    }
    if input.reset {
        state.reset(plane);
    }
    let (marker, outcome) = state.click(plane, input.click);
    SelectionEffects { clear_markers: input.toggle || input.reset, marker, outcome }
}

/// Whatever a frame brings, a well-formed session and a well-formed plane
/// stay so, and the plane is replaced as a whole or not at all: after the
/// frame it is the plane fitted to three picked points, or else the default
/// plane where the frame held a reset, or else the plane as it was. A
/// session that has defined a plane is over.
pub proof fn lemma_frame_keeps_invariant(
    session: PickSession,
    plane: GroundPlane,
    input: SelectionInput,
)
    requires
        session.wf(),
        plane.wf(),
    ensures
        ({
            let after = session.after_frame(plane, input);
            &&& after.session.wf()
            &&& after.plane.wf()
            &&& after.outcome != PickOutcome::PlaneDefined ==> after.plane == if input.reset {
                horizontal()
            } else {
                plane
            }
            &&& after.outcome == PickOutcome::PlaneDefined ==> after.plane.is_selected
                && !after.session.active
            &&& after.outcome is FitRejected ==> !after.session.active
            &&& after.marker is Some <==> (after.outcome != PickOutcome::Idle && after.outcome
                != PickOutcome::Ignored)
        }),
{
    lemma_horizontal_wf();
    let switched = if input.toggle {
        session.toggled()
    } else {
        session
    };
    let current_session = if input.reset {
        switched.reset()
    } else {
        switched
    };
    let current = if input.reset {
        horizontal()
    } else {
        plane
    };
    assert(current_session.wf());
    if current_session.active && input.click is Some {
        match current.ray_hit(input.click->0) {
            None => {},
            Some(p) => {
                let hit = to_vec3(p);
                assert(hit.in_range());
                let points = current_session.points.push(hit);
                assert(forall|i: int| 0 <= i < points.len() ==> (#[trigger] points[i]).in_range());
                if points.len() >= 3 {
                    if fitted(points[0], points[1], points[2]) is Ok {
                        lemma_fitted_wf(points[0], points[1], points[2]);
                    }
                }
            },
        }
    }
}

/// The point in which a ray hits the plane lies on the plane, nearly: its
/// height is at most seven millionths, and a millionth of its distance
/// along the ray.
pub proof fn lemma_hit_near_plane(plane: GroundPlane, ray: Ray)
    requires
        plane.normal.is_direction(),
        ray.direction.is_direction(),
        plane.ray_hit(ray) is Some,
    ensures
        abs(plane.height(plane.ray_hit(ray)->0)) * SCALE <= 7 * SCALE + abs(
            plane.ray_parameter(ray),
        ),
{
    let n = plane.normal@;
    let dv = ray.direction@;
    let o = plane.origin@;
    let ro = ray.origin@;
    let nd = n.dot(dv);
    let den = plane.ray_denominator(ray);
    let g = o.minus(ro).dot(n);
    let num = plane.ray_numerator(ray);
    let t = plane.ray_parameter(ray);
    let hit = plane.ray_point(ray);
    let s = dv.scaled_by(t);
    lemma_trunc_div_bounds(nd, SCALE as int);
    lemma_trunc_div_bounds(g, SCALE as int);
    let rest_den = nd - den * 1_000_000;
    let rest_num = g - num * 1_000_000;
    lemma_mul_bound(n.x, dv.x, 1_000_000, 1_000_000);
    lemma_mul_bound(n.y, dv.y, 1_000_000, 1_000_000);
    lemma_mul_bound(n.z, dv.z, 1_000_000, 1_000_000);
    assert(-3_000_000 <= den <= 3_000_000);
    // The distance along the ray, times the denominator, is the numerator.
    let rest_t = num * 1_000_000 - t * den;
    assert(-3_000_000 <= rest_t <= 3_000_000) by {
        if den > 0 {
            lemma_trunc_div_bounds(num * 1_000_000, den);
        } else {
            lemma_trunc_div_bounds(num * 1_000_000, -den);
            let u = trunc_div(num * 1_000_000, -den);
            assert(t == -u);
            assert(t * den == u * (-den)) by (nonlinear_arith)
                requires
                    t == -u,
            ;
        }
    }
    // The step along the ray, coordinate by coordinate.
    lemma_ray_term(dv.x, n.x, t, s.x);
    lemma_ray_term(dv.y, n.y, t, s.y);
    lemma_ray_term(dv.z, n.z, t, s.z);
    let sn = s.dot(n);
    let left = 1_000_000 * sn - t * nd;
    assert(left == (1_000_000 * (s.x * n.x) - t * (dv.x * n.x)) + (1_000_000 * (s.y * n.y) - t
        * (dv.y * n.y)) + (1_000_000 * (s.z * n.z) - t * (dv.z * n.z))) by (nonlinear_arith)
        requires
            left == 1_000_000 * sn - t * nd,
            sn == s.x * n.x + s.y * n.y + s.z * n.z,
            nd == n.x * dv.x + n.y * dv.y + n.z * dv.z,
    ;
    assert(-3_000_000_000_000 <= left <= 3_000_000_000_000);
    assert(t * nd == 1_000_000 * (t * den) + t * rest_den) by (nonlinear_arith)
        requires
            nd == den * 1_000_000 + rest_den,
    ;
    lemma_mul_bound(t, rest_den, abs(t), 1_000_000);
    assert(abs(t) * 1_000_000 == 1_000_000 * abs(t)) by (nonlinear_arith);
    // Put together.
    let hn = hit.minus(o).dot(n);
    assert(hn == sn - g) by (nonlinear_arith)
        requires
            hn == (ro.x + s.x - o.x) * n.x + (ro.y + s.y - o.y) * n.y + (ro.z + s.z - o.z) * n.z,
            sn == s.x * n.x + s.y * n.y + s.z * n.z,
            g == (o.x - ro.x) * n.x + (o.y - ro.y) * n.y + (o.z - ro.z) * n.z,
    ;
    assert(1_000_000 * hn == left + t * rest_den - 1_000_000 * rest_t - 1_000_000 * rest_num);
    assert(abs(hn) <= 7_000_000 + abs(t));
    lemma_trunc_div_bounds(hn, SCALE as int);
}

/// The part of one coordinate in the dot product of the normal and the
/// step along a ray: `s` is the quotient of `d * t` by [`SCALE`], rounded
/// toward zero.
proof fn lemma_ray_term(d: int, n: int, t: int, s: int)
    requires
        -SCALE <= n <= SCALE,
        s == trunc_div(d * t, SCALE as int),
    ensures
        -1_000_000_000_000 <= 1_000_000 * (s * n) - t * (d * n) <= 1_000_000_000_000,
{
    lemma_trunc_div_bounds(d * t, SCALE as int);
    let e = d * t - s * 1_000_000;
    assert(1_000_000 * (s * n) - t * (d * n) == -(e * n)) by (nonlinear_arith)
        requires
            e == d * t - s * 1_000_000,
    ;
    lemma_mul_bound(e, n, 1_000_000, 1_000_000);
}

} // verus!
