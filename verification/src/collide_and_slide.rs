//! The kinematic collide-and-slide resolver.
//!
//! Each frame it turns a desired displacement (`velocity * dt`) into the
//! displacement actually achievable against the environment: a bounded
//! loop sweeps the shape along what remains of the motion, advances up to
//! each reported impact less a skin margin, deflects the remainder along
//! the contacted surface, and — once two or more surfaces have been
//! touched — projects the remainder onto the creases between adjacent
//! contact planes so a concave corner cannot make it oscillate. The
//! position then advances by the accumulated displacement and the
//! persistent velocity is overwritten with `applied / dt`, which is how
//! hitting an obstacle head-on brings an entity to a stop over frames.
//!
//! Numerical faults are absorbed locally, never surfaced as errors: where
//! floating-point code would meet NaN or infinity, this fixed-point code
//! meets a result outside the coordinate range, zeroes the motion, marks
//! the outcome faulted, and the entity simply does not move that frame.
//! A non-positive `dt` skips the whole step, leaving position and
//! velocity bit-for-bit unchanged.

use vstd::prelude::*;

verus! {

use crate::errors::ConfigError;
use crate::fx::{COORD_LIMIT, FP_ONE, fx_div_spec, fx_mul_spec, lemma_tdiv_within, within};
use crate::oracle::EnvironmentOracle;
use crate::vec3::{
    NORMAL_LIMIT,
    Vec3Fx,
    cross3,
    cross3_spec,
    dot3_spec,
    project_onto,
    project_t_spec,
    reject_from,
    scale_fraction,
    try_add,
    try_div,
    try_scale,
};

/// Collide-and-slide configuration: the skin margin kept short of every
/// contact (a fraction of the motion, in `[0, FP_ONE]`), the bounce
/// budget of the slide loop, and the extra push-out distance of the
/// depenetration pass (a fixed-point length, distinct from the skin).
#[derive(Clone, Copy, PartialEq, Eq, Structural, Debug)]
pub struct CollideAndSlide {
    pub skin_width: i64,
    pub max_iterations: u32,
    pub epsilon: i64,
}

impl CollideAndSlide {
    /// The margins are fractions of one and there is at least one bounce.
    pub open spec fn wf(self) -> bool {
        &&& 0 <= self.skin_width <= FP_ONE
        &&& 0 <= self.epsilon <= FP_ONE
        &&& 1 <= self.max_iterations
    }

    /// A configuration with an explicit bounce budget; a zero budget
    /// would disable the resolver entirely, so it is refused here, at
    /// construction.
    pub fn new(skin_width: i64, max_iterations: u32, epsilon: i64) -> (r: Result<
        CollideAndSlide,
        ConfigError,
    >)
        requires
            0 <= skin_width <= FP_ONE,
            0 <= epsilon <= FP_ONE,
        ensures
            (max_iterations >= 1) <==> r is Ok,
            r matches Ok(c) ==> c == (CollideAndSlide { skin_width, max_iterations, epsilon })
                && c.wf(),
            r matches Err(e) ==> e == ConfigError::BadBounceBudget,
    {
        if max_iterations == 0 {
            Err(ConfigError::BadBounceBudget)
        } else {
            Ok(CollideAndSlide { skin_width, max_iterations, epsilon })
        }
    }
}

impl Default for CollideAndSlide {
    /// A tenth of a unit of skin, eight bounces, a thousandth of a unit
    /// of depenetration headroom.
    fn default() -> (r: CollideAndSlide)
        ensures
            r == (CollideAndSlide { skin_width: 6554i64, max_iterations: 8u32, epsilon: 66i64 }),
            r.wf(),
    {
        CollideAndSlide { skin_width: 6554, max_iterations: 8, epsilon: 66 }
    }
}

/// How far along the remaining motion the entity may advance for a hit at
/// fraction `toi`: the impact fraction less the skin margin, never
/// negative.
pub open spec fn impact_fraction(toi: int, skin_width: int) -> int {
    if toi - skin_width > 0 {
        toi - skin_width
    } else {
        0
    }
}

/// Split the remaining motion at an impact: the safe part, scaled by
/// `impact_fraction`, and the leftover. Both are exact and stay in range,
/// because a fraction of one can never grow a component.
pub fn split_at_impact(remaining: Vec3Fx, toi: i64, skin_width: i64) -> (r: (Vec3Fx, Vec3Fx))
    requires
        remaining.wf(),
        0 <= toi <= FP_ONE,
        0 <= skin_width <= FP_ONE,
    ensures
        ({
            let t = impact_fraction(toi as int, skin_width as int);
            &&& r.0.x as int == fx_mul_spec(remaining.x as int, t)
            &&& r.0.y as int == fx_mul_spec(remaining.y as int, t)
            &&& r.0.z as int == fx_mul_spec(remaining.z as int, t)
            &&& r.1.x == remaining.x - r.0.x
            &&& r.1.y == remaining.y - r.0.y
            &&& r.1.z == remaining.z - r.0.z
            &&& r.0.wf()
            &&& r.1.wf()
        }),
{
    let t: i64 = if toi > skin_width {
        toi - skin_width
    } else {
        0
    };
    let safe = scale_fraction(remaining, t);
    proof {
        lemma_fraction_keeps_sign(remaining.x as int, t as int);
        lemma_fraction_keeps_sign(remaining.y as int, t as int);
        lemma_fraction_keeps_sign(remaining.z as int, t as int);
    }
    let left = Vec3Fx {
        x: remaining.x - safe.x,
        y: remaining.y - safe.y,
        z: remaining.z - safe.z,
    };
    (safe, left)
}

/// A fraction of one keeps a value between zero and the value itself.
proof fn lemma_fraction_keeps_sign(c: int, t: int)
    requires
        0 <= t <= FP_ONE,
    ensures
        c >= 0 ==> 0 <= fx_mul_spec(c, t) <= c,
        c < 0 ==> c <= fx_mul_spec(c, t) <= 0,
{
    if c >= 0 {
        crate::fx::lemma_mul_within(c, t, c, FP_ONE as int);
        lemma_tdiv_within(c * t, FP_ONE as int, c);
        assert(c * t >= 0) by (nonlinear_arith)
            requires
                c >= 0 && t >= 0,
        ;
        vstd::arithmetic::div_mod::lemma_div_pos_is_pos(c * t, FP_ONE as int);
    } else {
        crate::fx::lemma_mul_within(c, t, -c, FP_ONE as int);
        lemma_tdiv_within(c * t, FP_ONE as int, -c);
        assert(c * t <= 0) by (nonlinear_arith)
            requires
                c < 0 && t >= 0,
        ;
        vstd::arithmetic::div_mod::lemma_div_pos_is_pos(-(c * t), FP_ONE as int);
    }
}

/// One crease projection: the crease of two adjacent contact planes, and
/// the projection of the motion onto it. A degenerate crease (parallel
/// planes) or an out-of-range projection zeroes the motion, the
/// fixed-point analogue of the NaN this computation produces in floating
/// point.
pub open spec fn crease_step_spec(r: Vec3Fx, a: Vec3Fx, b: Vec3Fx) -> Vec3Fx {
    let cr = cross3_spec(a, b);
    let c = Vec3Fx { x: cr.0 as i64, y: cr.1 as i64, z: cr.2 as i64 };
    let t = project_t_spec(r, c);
    if dot3_spec(c, c) > 0 && within(fx_mul_spec(c.x as int, t), COORD_LIMIT as int) && within(
        fx_mul_spec(c.y as int, t),
        COORD_LIMIT as int,
    ) && within(fx_mul_spec(c.z as int, t), COORD_LIMIT as int) {
        Vec3Fx {
            x: fx_mul_spec(c.x as int, t) as i64,
            y: fx_mul_spec(c.y as int, t) as i64,
            z: fx_mul_spec(c.z as int, t) as i64,
        }
    } else {
        Vec3Fx { x: 0, y: 0, z: 0 }
    }
}

/// Law (concave corner): against the corner of a wall facing the negative
/// x direction and a wall facing the negative z direction, the recorded
/// pair of contact normals folds any in-range motion down to exactly its
/// vertical component: the crease projection leaves no component along
/// either wall normal, whatever the approach, so the corner can neither
/// be penetrated nor feed motion back and forth between the two planes.
pub proof fn lemma_corner_crease_kills_both_normals(r: Vec3Fx)
    requires
        r.wf(),
    ensures
        ({
            let n1 = Vec3Fx { x: (-FP_ONE) as i64, y: 0, z: 0 };
            let n2 = Vec3Fx { x: 0, y: 0, z: (-FP_ONE) as i64 };
            let w = crease_fold_spec(r, seq![n1, n2], 2);
            &&& w == (Vec3Fx { x: 0, y: r.y, z: 0 })
            &&& dot3_spec(w, n1) == 0
            &&& dot3_spec(w, n2) == 0
        }),
{
    let n1 = Vec3Fx { x: (-FP_ONE) as i64, y: 0, z: 0 };
    let n2 = Vec3Fx { x: 0, y: 0, z: (-FP_ONE) as i64 };
    let planes: Seq<Vec3Fx> = seq![n1, n2];
    assert(planes.len() == 2 && planes[0] == n1 && planes[1] == n2);
    reveal_with_fuel(crease_fold_spec, 3);
    crate::fx::lemma_unit_cancel(0);
    crate::fx::lemma_unit_cancel(FP_ONE as int);
    crate::fx::lemma_unit_cancel(-(FP_ONE as int));
    crate::fx::lemma_unit_cancel(r.y as int);
    crate::fx::lemma_unit_cancel(-(r.y as int));

    // the crease of the first pair points down the y axis
    let c1 = Vec3Fx { x: 0, y: (-FP_ONE) as i64, z: 0 };
    assert(n1.y * n2.z - n1.z * n2.y == 0 && n1.z * n2.x - n1.x * n2.z == (-(FP_ONE as int)) * (
    FP_ONE as int) && n1.x * n2.y - n1.y * n2.x == 0) by (nonlinear_arith)
        requires
            n1.x as int == -(FP_ONE as int) && n1.y == 0 && n1.z == 0,
            n2.x == 0 && n2.y == 0 && n2.z as int == -(FP_ONE as int),
    ;
    assert(cross3_spec(n1, n2) == (0int, -(FP_ONE as int), 0int));
    assert(c1.x * c1.x + c1.y * c1.y + c1.z * c1.z == (FP_ONE as int) * (FP_ONE as int))
        by (nonlinear_arith)
        requires
            c1.x == 0 && c1.y as int == -(FP_ONE as int) && c1.z == 0,
    ;
    assert(dot3_spec(c1, c1) == FP_ONE as int);
    assert(r.x * c1.x + r.y * c1.y + r.z * c1.z == (-(r.y as int)) * (FP_ONE as int))
        by (nonlinear_arith)
        requires
            c1.x == 0 && c1.y as int == -(FP_ONE as int) && c1.z == 0,
    ;
    assert(dot3_spec(r, c1) == -(r.y as int));
    assert(project_t_spec(r, c1) == -(r.y as int));
    let t1: int = -(r.y as int);
    assert(c1.x * t1 == 0 && c1.z * t1 == 0 && c1.y * t1 == (r.y as int) * (FP_ONE as int))
        by (nonlinear_arith)
        requires
            c1.x == 0 && c1.y as int == -(FP_ONE as int) && c1.z == 0 && t1 == -(r.y as int),
    ;
    assert(fx_mul_spec(c1.x as int, t1) == 0);
    assert(fx_mul_spec(c1.y as int, t1) == r.y);
    assert(fx_mul_spec(c1.z as int, t1) == 0);
    let w1 = crease_step_spec(r, n1, n2);
    assert(w1 == (Vec3Fx { x: 0, y: r.y, z: 0 }));

    // the crease of the wrapped pair points up the y axis
    let c2 = Vec3Fx { x: 0, y: FP_ONE, z: 0 };
    assert(n2.y * n1.z - n2.z * n1.y == 0 && n2.z * n1.x - n2.x * n1.z == (FP_ONE as int) * (
    FP_ONE as int) && n2.x * n1.y - n2.y * n1.x == 0) by (nonlinear_arith)
        requires
            n1.x as int == -(FP_ONE as int) && n1.y == 0 && n1.z == 0,
            n2.x == 0 && n2.y == 0 && n2.z as int == -(FP_ONE as int),
    ;
    assert(cross3_spec(n2, n1) == (0int, FP_ONE as int, 0int));
    assert(c2.x * c2.x + c2.y * c2.y + c2.z * c2.z == (FP_ONE as int) * (FP_ONE as int))
        by (nonlinear_arith)
        requires
            c2.x == 0 && c2.y == FP_ONE && c2.z == 0,
    ;
    assert(dot3_spec(c2, c2) == FP_ONE as int);
    assert(w1.x * c2.x + w1.y * c2.y + w1.z * c2.z == (r.y as int) * (FP_ONE as int))
        by (nonlinear_arith)
        requires
            c2.x == 0 && c2.y == FP_ONE && c2.z == 0 && w1.x == 0 && w1.y == r.y && w1.z == 0,
    ;
    assert(dot3_spec(w1, c2) == r.y as int);
    assert(project_t_spec(w1, c2) == r.y as int);
    let t2: int = r.y as int;
    assert(c2.x * t2 == 0 && c2.z * t2 == 0 && c2.y * t2 == (r.y as int) * (FP_ONE as int))
        by (nonlinear_arith)
        requires
            c2.x == 0 && c2.y == FP_ONE && c2.z == 0 && t2 == r.y as int,
    ;
    assert(fx_mul_spec(c2.x as int, t2) == 0);
    assert(fx_mul_spec(c2.y as int, t2) == r.y);
    assert(fx_mul_spec(c2.z as int, t2) == 0);
    let w2 = crease_step_spec(w1, n2, n1);
    assert(w2 == (Vec3Fx { x: 0, y: r.y, z: 0 }));

    assert(crease_fold_spec(r, planes, 1) == w1);
    assert(crease_fold_spec(r, planes, 2) == w2);
    let w = crease_fold_spec(r, planes, 2);
    assert(w.x * n1.x + w.y * n1.y + w.z * n1.z == 0 && w.x * n2.x + w.y * n2.y + w.z * n2.z
        == 0) by (nonlinear_arith)
        requires
            w.x == 0 && w.z == 0 && n1.y == 0 && n2.y == 0,
    ;
    assert(dot3_spec(w, n1) == 0);
    assert(dot3_spec(w, n2) == 0);
}

/// The motion after the first `n` crease projections: contact plane `i`
/// is paired with its cyclic successor, in recording order.
pub open spec fn crease_fold_spec(r: Vec3Fx, planes: Seq<Vec3Fx>, n: int) -> Vec3Fx
    decreases n,
{
    if n <= 0 {
        r
    } else {
        let prev = crease_fold_spec(r, planes, n - 1);
        let nxt: int = if n == planes.len() {
            0
        } else {
            n
        };
        crease_step_spec(prev, planes[n - 1], planes[nxt])
    }
}

/// Project the motion onto the crease of each cyclically adjacent pair of
/// recorded contact planes, in order: this resolves the sliding direction
/// at concave corners and prevents oscillation between the two surfaces.
pub fn crease_project(remaining: Vec3Fx, planes: &Vec<Vec3Fx>) -> (r: Vec3Fx)
    requires
        remaining.wf(),
        forall|i: int|
            0 <= i < planes@.len() ==> (#[trigger] planes@[i]).bounded(2 * FP_ONE as int),
    ensures
        r == crease_fold_spec(remaining, planes@, planes@.len() as int),
        r.wf(),
{
    let len = planes.len();
    let mut cur = remaining;
    let mut i: usize = 0;
    while i < len
        invariant
            remaining.wf(),
            cur.wf(),
            len == planes@.len(),
            i <= len,
            forall|k: int|
                0 <= k < planes@.len() ==> (#[trigger] planes@[k]).bounded(2 * FP_ONE as int),
            cur == crease_fold_spec(remaining, planes@, i as int),
        decreases len - i,
    {
        let ghost prevc = cur;
        let nxt: usize = if i + 1 == len {
            0
        } else {
            i + 1
        };
        let a = planes[i];
        let b = planes[nxt];
        let c = cross3(a, b);
        proof {
            let cr = cross3_spec(a, b);
            assert(c == (Vec3Fx { x: cr.0 as i64, y: cr.1 as i64, z: cr.2 as i64 }));
            assert(dot3_spec(c, c) >= 0) by {
                assert(c.x * c.x >= 0 && c.y * c.y >= 0 && c.z * c.z >= 0) by (nonlinear_arith);
                vstd::arithmetic::div_mod::lemma_div_pos_is_pos(
                    c.x * c.x + c.y * c.y + c.z * c.z,
                    FP_ONE as int,
                );
            }
        }
        cur = match project_onto(cur, c) {
            Some(p) => p,
            None => Vec3Fx::zero(),
        };
        proof {
            assert(cur == crease_step_spec(prevc, planes@[i as int], planes@[nxt as int]));
        }
        i += 1;
    }
    cur
}

/// What one resolution step reports back: the displacement actually
/// applied to the position, and whether a numerical fault was absorbed
/// along the way (the diagnostic the caller may log).
#[derive(Clone, Copy, PartialEq, Eq, Structural, Debug)]
pub struct SlideOutcome {
    pub applied: Vec3Fx,
    pub faulted: bool,
}

/// One frame of collide-and-slide.
///
/// With `dt <= 0` the step is skipped entirely — no displacement, no
/// velocity change — to avoid dividing by zero. Otherwise the motion
/// `velocity * dt` is resolved against the oracle in at most
/// `config.max_iterations` bounces; the position advances by exactly the
/// accumulated safe displacement and the velocity is overwritten with
/// `applied / dt`, each falling back (position unchanged, velocity
/// zeroed, outcome marked faulted) if the exact result would leave the
/// coordinate range.
pub fn collide_and_slide<O: EnvironmentOracle>(
    oracle: &O,
    position: &mut Vec3Fx,
    velocity: &mut Vec3Fx,
    dt: i64,
    config: &CollideAndSlide,
) -> (r: SlideOutcome)
    requires
        old(position).wf(),
        old(velocity).wf(),
        within(dt as int, COORD_LIMIT as int),
        config.wf(),
    ensures
        r.applied.wf(),
        final(position).wf(),
        final(velocity).wf(),
        dt <= 0 ==> *final(position) == *old(position) && *final(velocity) == *old(velocity)
            && r.applied.is_zero() && !r.faulted,
        // a zero velocity needs no sweep: nothing is applied and nothing faults
        dt > 0 && old(velocity).is_zero() ==> r.applied.is_zero() && !r.faulted,
        // the motion `velocity * dt` leaving the coordinate range is the
        // fixed-point analogue of a NaN displacement: absorbed as a fault,
        // nothing applied, so the position stays and the velocity is zeroed
        dt > 0 && !(within(fx_mul_spec(old(velocity).x as int, dt as int), COORD_LIMIT as int)
            && within(fx_mul_spec(old(velocity).y as int, dt as int), COORD_LIMIT as int) && within(
            fx_mul_spec(old(velocity).z as int, dt as int),
            COORD_LIMIT as int,
        )) ==> r.applied.is_zero() && r.faulted,
        dt > 0 ==> {
            let vx = fx_div_spec(r.applied.x as int, dt as int);
            let vy = fx_div_spec(r.applied.y as int, dt as int);
            let vz = fx_div_spec(r.applied.z as int, dt as int);
            &&& (within(vx, COORD_LIMIT as int) && within(vy, COORD_LIMIT as int) && within(
                vz,
                COORD_LIMIT as int,
            ) ==> final(velocity).x as int == vx && final(velocity).y as int == vy
                && final(velocity).z as int == vz)
            &&& (!(within(vx, COORD_LIMIT as int) && within(vy, COORD_LIMIT as int) && within(
                vz,
                COORD_LIMIT as int,
            )) ==> final(velocity).is_zero() && r.faulted)
            &&& (within(old(position).x + r.applied.x, COORD_LIMIT as int) && within(
                old(position).y + r.applied.y,
                COORD_LIMIT as int,
            ) && within(old(position).z + r.applied.z, COORD_LIMIT as int)
                ==> final(position).x == old(position).x + r.applied.x
                && final(position).y == old(position).y + r.applied.y
                && final(position).z == old(position).z + r.applied.z)
            &&& (!(within(old(position).x + r.applied.x, COORD_LIMIT as int) && within(
                old(position).y + r.applied.y,
                COORD_LIMIT as int,
            ) && within(old(position).z + r.applied.z, COORD_LIMIT as int)) ==> *final(position)
                == *old(position) && r.faulted)
        },
{
    if dt <= 0 {
        return SlideOutcome { applied: Vec3Fx::zero(), faulted: false };
    }
    let mut applied = Vec3Fx::zero();
    let mut faulted = false;
    let mut remaining = match try_scale(*velocity, dt) {
        Some(v) => v,
        None => {
            faulted = true;
            Vec3Fx::zero()
        },
    };
    proof {
        assert(fx_mul_spec(0, dt as int) == 0) by {
            vstd::arithmetic::div_mod::lemma_div_of0(FP_ONE as int);
        }
    }
    let mut planes: Vec<Vec3Fx> = Vec::new();
    let mut bounce: u32 = 0;
    while bounce < config.max_iterations
        invariant
            remaining.wf(),
            applied.wf(),
            config.wf(),
            *position == *old(position),
            *velocity == *old(velocity),
            old(position).wf(),
            bounce <= config.max_iterations,
            forall|k: int|
                0 <= k < planes@.len() ==> (#[trigger] planes@[k]).bounded(2 * FP_ONE as int),
            old(velocity).is_zero() ==> applied.is_zero() && !faulted && remaining.is_zero(),
            !(within(fx_mul_spec(old(velocity).x as int, dt as int), COORD_LIMIT as int) && within(
                fx_mul_spec(old(velocity).y as int, dt as int),
                COORD_LIMIT as int,
            ) && within(fx_mul_spec(old(velocity).z as int, dt as int), COORD_LIMIT as int))
                ==> applied.is_zero() && faulted && remaining.is_zero(),
        ensures
            remaining.wf(),
            applied.wf(),
            *position == *old(position),
            *velocity == *old(velocity),
            old(velocity).is_zero() ==> applied.is_zero() && !faulted,
            !(within(fx_mul_spec(old(velocity).x as int, dt as int), COORD_LIMIT as int) && within(
                fx_mul_spec(old(velocity).y as int, dt as int),
                COORD_LIMIT as int,
            ) && within(fx_mul_spec(old(velocity).z as int, dt as int), COORD_LIMIT as int))
                ==> applied.is_zero() && faulted,
        decreases config.max_iterations - bounce,
    {
        if remaining.eq_zero() {
            break ;
        }
        let origin = match try_add(*position, applied) {
            Some(p) => p,
            None => {
                faulted = true;
                break ;
            },
        };
        match oracle.cast(origin, remaining) {
            None => {
                // the path is clear: the rest of the motion is applied whole
                match try_add(applied, remaining) {
                    Some(a) => {
                        applied = a;
                    },
                    None => {
                        faulted = true;
                    },
                }
                break ;
            },
            Some(hit) => {
                let toi: i64 = if hit.time_of_impact < 0 {
                    0
                } else if hit.time_of_impact > FP_ONE {
                    FP_ONE
                } else {
                    hit.time_of_impact
                };
                let n = hit.normal;
                if n.x < -NORMAL_LIMIT || n.x > NORMAL_LIMIT || n.y < -NORMAL_LIMIT || n.y
                    > NORMAL_LIMIT || n.z < -NORMAL_LIMIT || n.z > NORMAL_LIMIT {
                    // a non-unit normal is an upstream numerical error
                    faulted = true;
                    break ;
                }
                let (safe, left) = split_at_impact(remaining, toi, config.skin_width);
                match try_add(applied, safe) {
                    Some(a) => {
                        applied = a;
                    },
                    None => {
                        faulted = true;
                        break ;
                    },
                }
                planes.push(n);
                remaining = match reject_from(left, n) {
                    Some(d) => d,
                    None => {
                        faulted = true;
                        break ;
                    },
                };
                if planes.len() > 1 {
                    remaining = crease_project(remaining, &planes);
                }
                bounce += 1;
            },
        }
    }
    match try_div(applied, dt) {
        Some(v) => {
            *velocity = v;
        },
        None => {
            *velocity = Vec3Fx::zero();
            faulted = true;
        },
    }
    match try_add(*position, applied) {
        Some(p) => {
            *position = p;
        },
        None => {
            faulted = true;
        },
    }
    SlideOutcome { applied, faulted }
}

/// The corrective displacement for a reported overlap: the push-out
/// normal scaled by the penetration depth plus the configured headroom.
/// Exact; refused when a component would leave the coordinate range.
pub fn depenetration_offset(normal: Vec3Fx, depth: i64, epsilon: i64) -> (r: Option<Vec3Fx>)
    requires
        normal.bounded(2 * FP_ONE as int),
        0 <= depth <= COORD_LIMIT,
        0 <= epsilon <= FP_ONE,
    ensures
        ({
            let push = depth + epsilon;
            match r {
                Some(off) => off.x as int == fx_mul_spec(normal.x as int, push) && off.y as int
                    == fx_mul_spec(normal.y as int, push) && off.z as int == fx_mul_spec(
                    normal.z as int,
                    push,
                ) && off.wf(),
                None => !(within(fx_mul_spec(normal.x as int, push), COORD_LIMIT as int) && within(
                    fx_mul_spec(normal.y as int, push),
                    COORD_LIMIT as int,
                ) && within(fx_mul_spec(normal.z as int, push), COORD_LIMIT as int)),
            }
        }),
{
    let push: i64 = depth + epsilon;
    proof {
        crate::fx::lemma_mul_within(
            normal.x as int,
            push as int,
            2 * FP_ONE as int,
            COORD_LIMIT as int + FP_ONE as int,
        );
        crate::fx::lemma_mul_within(
            normal.y as int,
            push as int,
            2 * FP_ONE as int,
            COORD_LIMIT as int + FP_ONE as int,
        );
        crate::fx::lemma_mul_within(
            normal.z as int,
            push as int,
            2 * FP_ONE as int,
            COORD_LIMIT as int + FP_ONE as int,
        );
        lemma_tdiv_within(normal.x * push, FP_ONE as int, 2 * (COORD_LIMIT as int + FP_ONE as int));
        lemma_tdiv_within(normal.y * push, FP_ONE as int, 2 * (COORD_LIMIT as int + FP_ONE as int));
        lemma_tdiv_within(normal.z * push, FP_ONE as int, 2 * (COORD_LIMIT as int + FP_ONE as int));
    }
    let x = ((normal.x as i128) * (push as i128) / (FP_ONE as i128)) as i64;
    let y = ((normal.y as i128) * (push as i128) / (FP_ONE as i128)) as i64;
    let z = ((normal.z as i128) * (push as i128) / (FP_ONE as i128)) as i64;
    if x < -COORD_LIMIT || x > COORD_LIMIT || y < -COORD_LIMIT || y > COORD_LIMIT || z
        < -COORD_LIMIT || z > COORD_LIMIT {
        None
    } else {
        Some(Vec3Fx { x, y, z })
    }
}

/// The depenetration pass, run once after the slide loop: a zero-distance
/// overlap test at the new position; on a hit, the position is pushed out
/// along the reported normal by the penetration depth plus `epsilon`.
/// Returns the offset applied, or `None` when nothing moved (no overlap,
/// or a report the resolver had to absorb as a fault).
pub fn depenetrate<O: EnvironmentOracle>(oracle: &O, position: &mut Vec3Fx, epsilon: i64) -> (r:
    Option<Vec3Fx>)
    requires
        old(position).wf(),
        0 <= epsilon <= FP_ONE,
    ensures
        final(position).wf(),
        r is None ==> *final(position) == *old(position),
        r matches Some(off) ==> off.wf() && final(position).x == old(position).x + off.x
            && final(position).y == old(position).y + off.y
            && final(position).z == old(position).z + off.z,
{
    match oracle.overlap(*position) {
        None => None,
        Some(hit) => {
            let depth: i64 = if hit.time_of_impact < 0 {
                0
            } else if hit.time_of_impact > COORD_LIMIT {
                COORD_LIMIT
            } else {
                hit.time_of_impact
            };
            let n = hit.normal;
            if n.x < -NORMAL_LIMIT || n.x > NORMAL_LIMIT || n.y < -NORMAL_LIMIT || n.y
                > NORMAL_LIMIT || n.z < -NORMAL_LIMIT || n.z > NORMAL_LIMIT {
                return None;
            }
            match depenetration_offset(n, depth, epsilon) {
                None => None,
                Some(off) => {
                    match try_add(*position, off) {
                        None => None,
                        Some(p) => {
                            *position = p;
                            Some(off)
                        },
                    }
                },
            }
        },
    }
}

/// One full movement resolution for one entity, in the order the frame
/// pipeline mandates: the collide-and-slide step, then exactly one
/// depenetration pass. The slide honours `dt` (a non-positive `dt` skips
/// it entirely); the depenetration pass runs regardless, since the overlap
/// it corrects may predate this frame. Returns the slide outcome and the
/// depenetration offset, if one was applied.
pub fn resolve_frame<O: EnvironmentOracle>(
    oracle: &O,
    position: &mut Vec3Fx,
    velocity: &mut Vec3Fx,
    dt: i64,
    config: &CollideAndSlide,
) -> (r: (SlideOutcome, Option<Vec3Fx>))
    requires
        old(position).wf(),
        old(velocity).wf(),
        within(dt as int, COORD_LIMIT as int),
        config.wf(),
    ensures
        r.0.applied.wf(),
        final(position).wf(),
        final(velocity).wf(),
        dt <= 0 ==> *final(velocity) == *old(velocity) && r.0.applied.is_zero() && !r.0.faulted,
        dt > 0 && old(velocity).is_zero() ==> r.0.applied.is_zero() && !r.0.faulted,
        dt > 0 && !(within(fx_mul_spec(old(velocity).x as int, dt as int), COORD_LIMIT as int)
            && within(fx_mul_spec(old(velocity).y as int, dt as int), COORD_LIMIT as int) && within(
            fx_mul_spec(old(velocity).z as int, dt as int),
            COORD_LIMIT as int,
        )) ==> r.0.applied.is_zero() && r.0.faulted,
        dt > 0 ==> ({
            let vx = fx_div_spec(r.0.applied.x as int, dt as int);
            let vy = fx_div_spec(r.0.applied.y as int, dt as int);
            let vz = fx_div_spec(r.0.applied.z as int, dt as int);
            &&& (within(vx, COORD_LIMIT as int) && within(vy, COORD_LIMIT as int) && within(
                vz,
                COORD_LIMIT as int,
            ) ==> final(velocity).x as int == vx && final(velocity).y as int == vy
                && final(velocity).z as int == vz)
            &&& (!(within(vx, COORD_LIMIT as int) && within(vy, COORD_LIMIT as int) && within(
                vz,
                COORD_LIMIT as int,
            )) ==> final(velocity).is_zero() && r.0.faulted)
        }),
        // the position threads through the point the slide reached: that
        // point plus the depenetration offset, if one was applied
        ({
            let ok = within(old(position).x + r.0.applied.x, COORD_LIMIT as int) && within(
                old(position).y + r.0.applied.y,
                COORD_LIMIT as int,
            ) && within(old(position).z + r.0.applied.z, COORD_LIMIT as int);
            let midx: int = if ok {
                old(position).x + r.0.applied.x
            } else {
                old(position).x as int
            };
            let midy: int = if ok {
                old(position).y + r.0.applied.y
            } else {
                old(position).y as int
            };
            let midz: int = if ok {
                old(position).z + r.0.applied.z
            } else {
                old(position).z as int
            };
            &&& (dt > 0 && !ok ==> r.0.faulted)
            &&& match r.1 {
                None => final(position).x as int == midx && final(position).y as int == midy
                    && final(position).z as int == midz,
                Some(off) => off.wf() && final(position).x as int == midx + off.x
                    && final(position).y as int == midy + off.y
                    && final(position).z as int == midz + off.z,
            }
        }),
{
    let out = collide_and_slide(oracle, position, velocity, dt, config);
    let off = depenetrate(oracle, position, config.epsilon);
    (out, off)
}


} // verus!
