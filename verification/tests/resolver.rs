//! The collide-and-slide resolver against scripted environments.

use movement_core::collide_and_slide::{
    collide_and_slide, crease_project, depenetrate, resolve_frame, split_at_impact,
    CollideAndSlide,
};
use movement_core::errors::ConfigError;
use movement_core::fx::FP_ONE;
use movement_core::oracle::{EnvironmentOracle, SweepHit};
use movement_core::vec3::Vec3Fx;

const S: i64 = FP_ONE;

fn v3(x: i64, y: i64, z: i64) -> Vec3Fx {
    Vec3Fx { x, y, z }
}

fn dot_fx(a: Vec3Fx, b: Vec3Fx) -> i64 {
    ((a.x as i128 * b.x as i128 + a.y as i128 * b.y as i128 + a.z as i128 * b.z as i128)
        / S as i128) as i64
}

/// Half-space walls for a point entity: free space is where
/// `dot(normal, p) > offset`; a cast reports the first wall the motion
/// runs into, an overlap reports a wall the point is already behind.
struct Walls {
    walls: Vec<(Vec3Fx, i64)>,
}

impl EnvironmentOracle for Walls {
    fn cast(&self, origin: Vec3Fx, motion: Vec3Fx) -> Option<SweepHit> {
        let mut best: Option<SweepHit> = None;
        for &(n, offset) in &self.walls {
            let d0 = dot_fx(n, origin) - offset; // distance to the wall plane
            let dm = dot_fx(n, motion); // signed approach over the full motion
            if dm >= 0 {
                continue; // moving along or away from the wall
            }
            let toi = if d0 <= 0 {
                0
            } else if -dm >= d0 {
                ((d0 as i128 * S as i128) / (-dm) as i128) as i64
            } else {
                continue; // the motion stops short of the wall
            };
            if best.map_or(true, |b| toi < b.time_of_impact) {
                best = Some(SweepHit { time_of_impact: toi, normal: n });
            }
        }
        best
    }

    fn overlap(&self, origin: Vec3Fx) -> Option<SweepHit> {
        for &(n, offset) in &self.walls {
            let d0 = dot_fx(n, origin) - offset;
            if d0 < 0 {
                return Some(SweepHit { time_of_impact: -d0, normal: n });
            }
        }
        None
    }
}

/// A wall perpendicular to +x: solid where `x >= at`.
fn x_wall(at: i64) -> (Vec3Fx, i64) {
    (v3(-S, 0, 0), -at)
}

/// A wall perpendicular to +z: solid where `z >= at`.
fn z_wall(at: i64) -> (Vec3Fx, i64) {
    (v3(0, 0, -S), -at)
}

#[test]
fn test_config_rejects_zero_bounce_budget() {
    assert_eq!(
        CollideAndSlide::new(6554, 0, 66),
        Err(ConfigError::BadBounceBudget)
    );
    let c = CollideAndSlide::new(6554, 8, 66).unwrap();
    assert_eq!(c.skin_width, 6554);
    assert_eq!(c.max_iterations, 8);
    assert_eq!(c.epsilon, 66);
}

/// A zero (or negative) `dt` leaves position and velocity bit-for-bit
/// unchanged.
#[test]
fn test_dt_zero_leaves_state_untouched() {
    let oracle = Walls { walls: vec![x_wall(2 * S)] };
    let config = CollideAndSlide::default();
    for dt in [0i64, -S, -1] {
        let mut pos = v3(12345, -777, 42);
        let mut vel = v3(5 * S, -3 * S, 99999);
        let out = collide_and_slide(&oracle, &mut pos, &mut vel, dt, &config);
        assert_eq!(pos, v3(12345, -777, 42));
        assert_eq!(vel, v3(5 * S, -3 * S, 99999));
        assert_eq!(out.applied, v3(0, 0, 0));
        assert!(!out.faulted);
    }
}

/// A clear path applies the whole motion and keeps the velocity.
#[test]
fn test_clear_path_advances_fully() {
    let oracle = Walls { walls: Vec::new() };
    let config = CollideAndSlide::default();
    let mut pos = v3(0, 0, 0);
    let mut vel = v3(3 * S, -2 * S, 7 * S);
    let out = collide_and_slide(&oracle, &mut pos, &mut vel, S / 2, &config);
    assert!(!out.faulted);
    assert_eq!(pos, v3(3 * S / 2, -S, 7 * S / 2));
    assert_eq!(vel, v3(3 * S, -2 * S, 7 * S));
}

/// Head-on into a static wall: the entity stops just short of it, never
/// penetrates beyond the skin plus epsilon, and its speed along the wall
/// normal decays to (near) zero over successive frames.
#[test]
fn test_head_on_wall_stops_short() {
    let wall_at = 2 * S;
    let oracle = Walls { walls: vec![x_wall(wall_at)] };
    let config = CollideAndSlide::default();
    let mut pos = v3(0, 0, 0);
    let mut vel = v3(5 * S, 0, 0);
    for _ in 0..8 {
        let out = collide_and_slide(&oracle, &mut pos, &mut vel, S, &config);
        assert!(!out.faulted);
        assert!(pos.x <= wall_at, "penetrated the wall: {}", pos.x);
        assert_eq!(pos.y, 0);
        assert_eq!(pos.z, 0);
    }
    // position has advanced to nearly the wall
    assert!(pos.x > wall_at - S / 100, "stopped too early: {}", pos.x);
    // residual velocity along x is near zero
    assert!(vel.x.abs() < S / 100, "residual speed: {}", vel.x);
    assert_eq!(vel.y, 0);
    assert_eq!(vel.z, 0);
}

/// Diagonally into a concave corner of two perpendicular walls: the
/// entity neither penetrates either wall nor oscillates; its velocity
/// component along both wall normals ends near zero.
#[test]
fn test_concave_corner_kills_both_components() {
    let n1 = v3(-S, 0, 0);
    let n2 = v3(0, 0, -S);
    let oracle = Walls { walls: vec![x_wall(2 * S), z_wall(2 * S)] };
    let config = CollideAndSlide::default();
    let mut pos = v3(0, 0, 0);
    let mut vel = v3(3 * S, 0, 3 * S);
    for _ in 0..8 {
        let before = pos;
        let out = collide_and_slide(&oracle, &mut pos, &mut vel, S, &config);
        assert!(!out.faulted);
        assert!(pos.x <= 2 * S, "penetrated the x wall: {}", pos.x);
        assert!(pos.z <= 2 * S, "penetrated the z wall: {}", pos.z);
        // no oscillation: the entity only ever moves toward the corner
        assert!(pos.x >= before.x && pos.z >= before.z);
    }
    assert!(dot_fx(vel, n1).abs() < S / 100, "speed into x wall: {}", vel.x);
    assert!(dot_fx(vel, n2).abs() < S / 100, "speed into z wall: {}", vel.z);
    assert_eq!(vel.y, 0);
}

/// A shape already overlapping geometry by a known depth: one
/// depenetration call leaves it clear, and a subsequent overlap test
/// reports no intersection.
#[test]
fn test_depenetration_clears_overlap() {
    let oracle = Walls { walls: vec![x_wall(2 * S)] };
    let depth = 3277; // 0.05 units inside the wall
    let mut pos = v3(2 * S + depth, 0, 0);
    assert!(oracle.overlap(pos).is_some());
    let moved = depenetrate(&oracle, &mut pos, 66);
    assert_eq!(moved, Some(v3(-(depth + 66), 0, 0)));
    assert_eq!(pos, v3(2 * S - 66, 0, 0));
    assert!(oracle.overlap(pos).is_none());
}

/// Depenetration does nothing when nothing overlaps.
#[test]
fn test_depenetration_without_overlap_is_a_noop() {
    let oracle = Walls { walls: vec![x_wall(2 * S)] };
    let mut pos = v3(0, 0, 0);
    assert_eq!(depenetrate(&oracle, &mut pos, 66), None);
    assert_eq!(pos, v3(0, 0, 0));
}

/// One frame resolution is the slide followed by exactly one
/// depenetration pass: an entity parked overlapping a wall is pushed out
/// even though the slide itself has nothing to do.
#[test]
fn test_resolve_frame_slides_then_depenetrates() {
    let oracle = Walls { walls: vec![x_wall(2 * S)] };
    let config = CollideAndSlide::default();
    let depth = 3277;
    let mut pos = v3(2 * S + depth, 0, 0);
    let mut vel = v3(0, 0, 0);
    let (out, pushed) = resolve_frame(&oracle, &mut pos, &mut vel, S, &config);
    assert!(!out.faulted);
    assert_eq!(out.applied, v3(0, 0, 0));
    assert_eq!(pushed, Some(v3(-(depth + config.epsilon), 0, 0)));
    assert_eq!(pos, v3(2 * S - config.epsilon, 0, 0));
    assert_eq!(vel, v3(0, 0, 0));
    assert!(oracle.overlap(pos).is_none());
}

/// A zero velocity needs no sweep at all: whatever the oracle would have
/// answered, nothing is applied and nothing faults.
#[test]
fn test_zero_velocity_never_faults() {
    let oracle = GarbageOracle;
    let config = CollideAndSlide::default();
    let mut pos = v3(100, 200, 300);
    let mut vel = v3(0, 0, 0);
    let out = collide_and_slide(&oracle, &mut pos, &mut vel, S, &config);
    assert!(!out.faulted);
    assert_eq!(out.applied, v3(0, 0, 0));
    assert_eq!(pos, v3(100, 200, 300));
    assert_eq!(vel, v3(0, 0, 0));
}

/// The crease of two perpendicular walls is vertical, so projecting onto
/// it keeps exactly the vertical motion and kills both horizontal
/// components.
#[test]
fn test_crease_projection_is_exact() {
    let planes = vec![v3(-S, 0, 0), v3(0, 0, -S)];
    let projected = crease_project(v3(S, -3 * S, S), &planes);
    assert_eq!(projected, v3(0, -3 * S, 0));
}

/// The split at an impact is exact fixed-point arithmetic.
#[test]
fn test_split_at_impact_is_exact() {
    let remaining = v3(5 * S, 0, 0);
    // impact at 0.4 of the motion, skin 0.1
    let (safe, left) = split_at_impact(remaining, 26214, 6554);
    assert_eq!(safe, v3(98300, 0, 0));
    assert_eq!(left, v3(229380, 0, 0));
    // an impact inside the skin margin advances nothing
    let (safe, left) = split_at_impact(remaining, 5000, 6554);
    assert_eq!(safe, v3(0, 0, 0));
    assert_eq!(left, remaining);
}

/// An oracle reporting a garbage normal is absorbed as a fault: the
/// entity does not move that frame and its velocity is zeroed.
struct GarbageOracle;

impl EnvironmentOracle for GarbageOracle {
    fn cast(&self, _origin: Vec3Fx, _motion: Vec3Fx) -> Option<SweepHit> {
        Some(SweepHit { time_of_impact: -5, normal: v3(i64::MAX / 4, 0, 0) })
    }

    fn overlap(&self, _origin: Vec3Fx) -> Option<SweepHit> {
        None
    }
}

#[test]
fn test_garbage_normal_is_absorbed_as_fault() {
    let oracle = GarbageOracle;
    let config = CollideAndSlide::default();
    let mut pos = v3(100, 200, 300);
    let mut vel = v3(5 * S, 0, 0);
    let out = collide_and_slide(&oracle, &mut pos, &mut vel, S, &config);
    assert!(out.faulted);
    assert_eq!(pos, v3(100, 200, 300));
    assert_eq!(vel, v3(0, 0, 0));
}

/// A hit behind the start (negative time of impact) is clamped: nothing
/// is applied, the motion is deflected, and the entity stays put.
struct ImmediateWall;

impl EnvironmentOracle for ImmediateWall {
    fn cast(&self, _origin: Vec3Fx, _motion: Vec3Fx) -> Option<SweepHit> {
        Some(SweepHit { time_of_impact: -100, normal: v3(-S, 0, 0) })
    }

    fn overlap(&self, _origin: Vec3Fx) -> Option<SweepHit> {
        None
    }
}

#[test]
fn test_negative_time_of_impact_is_clamped() {
    let oracle = ImmediateWall;
    let config = CollideAndSlide::default();
    let mut pos = v3(0, 0, 0);
    let mut vel = v3(5 * S, 0, 0);
    let out = collide_and_slide(&oracle, &mut pos, &mut vel, S, &config);
    assert!(!out.faulted);
    assert_eq!(pos, v3(0, 0, 0));
    assert_eq!(vel, v3(0, 0, 0));
}
