//! 3D fixed-point vectors and the exact vector algebra the collide-and-
//! slide resolver is built from.
//!
//! Every operation states its result exactly, in fixed-point arithmetic
//! (products and quotients rescaled by [`FP_ONE`], rounded toward zero).
//! Operations whose result could leave the coordinate range return
//! `Option` and say precisely when they refuse; the resolver treats such a
//! refusal as a numerical fault and absorbs it locally.

use vstd::prelude::*;

verus! {

use crate::fx::{
    COORD_LIMIT,
    FP_ONE,
    fx_div_spec,
    fx_mul_spec,
    lemma_mul_within,
    lemma_tdiv_within,
    tdiv,
    within,
};

/// A 3D point, displacement or velocity in fixed-point coordinates.
#[derive(Clone, Copy, PartialEq, Eq, Structural, Debug)]
pub struct Vec3Fx {
    pub x: i64,
    pub y: i64,
    pub z: i64,
}

/// The magnitude bound the resolver demands of a surface normal: a unit
/// vector with a little headroom for an imperfect oracle.
pub const NORMAL_LIMIT: i64 = 131072;

/// Fixed-point dot product of two 3D vectors.
pub open spec fn dot3_spec(a: Vec3Fx, b: Vec3Fx) -> int {
    tdiv(a.x * b.x + a.y * b.y + a.z * b.z, FP_ONE as int)
}

/// Fixed-point cross product, componentwise, as unbounded integers.
pub open spec fn cross3_spec(a: Vec3Fx, b: Vec3Fx) -> (int, int, int) {
    (
        tdiv(a.y * b.z - a.z * b.y, FP_ONE as int),
        tdiv(a.z * b.x - a.x * b.z, FP_ONE as int),
        tdiv(a.x * b.y - a.y * b.x, FP_ONE as int),
    )
}

impl Vec3Fx {
    /// Every component lies within the coordinate range.
    pub open spec fn wf(self) -> bool {
        &&& within(self.x as int, COORD_LIMIT as int)
        &&& within(self.y as int, COORD_LIMIT as int)
        &&& within(self.z as int, COORD_LIMIT as int)
    }

    /// Every component is bounded by `m`.
    pub open spec fn bounded(self, m: int) -> bool {
        within(self.x as int, m) && within(self.y as int, m) && within(self.z as int, m)
    }

    /// The zero vector, the only vector with no direction.
    pub open spec fn is_zero(self) -> bool {
        self.x == 0 && self.y == 0 && self.z == 0
    }

    pub fn new(x: i64, y: i64, z: i64) -> (r: Vec3Fx)
        ensures
            r == (Vec3Fx { x, y, z }),
    {
        Vec3Fx { x, y, z }
    }

    pub fn zero() -> (r: Vec3Fx)
        ensures
            r.is_zero(),
            r.wf(),
    {
        Vec3Fx { x: 0, y: 0, z: 0 }
    }

    /// Componentwise test against the zero vector.
    pub fn eq_zero(&self) -> (r: bool)
        ensures
            r == self.is_zero(),
    {
        self.x == 0 && self.y == 0 && self.z == 0
    }
}

/// Sum, exact; refused when a component would leave the coordinate range.
pub fn try_add(a: Vec3Fx, b: Vec3Fx) -> (r: Option<Vec3Fx>)
    requires
        a.wf(),
        b.wf(),
    ensures
        match r {
            Some(v) => v.x == a.x + b.x && v.y == a.y + b.y && v.z == a.z + b.z && v.wf(),
            None => !(within(a.x + b.x, COORD_LIMIT as int) && within(a.y + b.y, COORD_LIMIT as int)
                && within(a.z + b.z, COORD_LIMIT as int)),
        },
{
    let x = a.x + b.x;
    let y = a.y + b.y;
    let z = a.z + b.z;
    if x < -COORD_LIMIT || x > COORD_LIMIT || y < -COORD_LIMIT || y > COORD_LIMIT || z
        < -COORD_LIMIT || z > COORD_LIMIT {
        None
    } else {
        Some(Vec3Fx { x, y, z })
    }
}

/// Scale by a fraction `t` in `[0, FP_ONE]`, exact: each component is
/// `tdiv(c * t, FP_ONE)`, which never grows a component, so the result is
/// always in range.
pub fn scale_fraction(v: Vec3Fx, t: i64) -> (r: Vec3Fx)
    requires
        v.wf(),
        0 <= t <= FP_ONE,
    ensures
        r.x as int == fx_mul_spec(v.x as int, t as int),
        r.y as int == fx_mul_spec(v.y as int, t as int),
        r.z as int == fx_mul_spec(v.z as int, t as int),
        r.wf(),
{
    proof {
        lemma_scale_fraction_bound(v.x as int, t as int, COORD_LIMIT as int);
        lemma_scale_fraction_bound(v.y as int, t as int, COORD_LIMIT as int);
        lemma_scale_fraction_bound(v.z as int, t as int, COORD_LIMIT as int);
    }
    let x = ((v.x as i128) * (t as i128) / (FP_ONE as i128)) as i64;
    let y = ((v.y as i128) * (t as i128) / (FP_ONE as i128)) as i64;
    let z = ((v.z as i128) * (t as i128) / (FP_ONE as i128)) as i64;
    Vec3Fx { x, y, z }
}

/// Scaling a bounded value by a fraction of one keeps it bounded.
proof fn lemma_scale_fraction_bound(c: int, t: int, m: int)
    requires
        within(c, m),
        0 <= t <= FP_ONE,
        0 <= m,
    ensures
        within(fx_mul_spec(c, t), m),
{
    lemma_mul_within(c, t, m, FP_ONE as int);
    lemma_tdiv_within(c * t, FP_ONE as int, m);
}

/// Fixed-point dot product; the second factor must be normal-sized (at
/// most eight units per component, enough for any crease vector).
pub fn dot3(a: Vec3Fx, b: Vec3Fx) -> (r: i64)
    requires
        a.wf(),
        b.bounded(8 * FP_ONE as int),
    ensures
        r as int == dot3_spec(a, b),
        within(r as int, 24 * COORD_LIMIT as int),
{
    proof {
        lemma_mul_within(a.x as int, b.x as int, COORD_LIMIT as int, 8 * FP_ONE as int);
        lemma_mul_within(a.y as int, b.y as int, COORD_LIMIT as int, 8 * FP_ONE as int);
        lemma_mul_within(a.z as int, b.z as int, COORD_LIMIT as int, 8 * FP_ONE as int);
        lemma_tdiv_within(
            a.x * b.x + a.y * b.y + a.z * b.z,
            FP_ONE as int,
            24 * COORD_LIMIT as int,
        );
    }
    let wide: i128 = (a.x as i128) * (b.x as i128) + (a.y as i128) * (b.y as i128) + (
    a.z as i128) * (b.z as i128);
    (wide / (FP_ONE as i128)) as i64
}

/// Fixed-point cross product of two normal-sized vectors; each component
/// of the result is at most eight units.
pub fn cross3(a: Vec3Fx, b: Vec3Fx) -> (r: Vec3Fx)
    requires
        a.bounded(2 * FP_ONE as int),
        b.bounded(2 * FP_ONE as int),
    ensures
        r.x as int == cross3_spec(a, b).0,
        r.y as int == cross3_spec(a, b).1,
        r.z as int == cross3_spec(a, b).2,
        r.bounded(8 * FP_ONE as int),
        r.wf(),
{
    proof {
        lemma_mul_within(a.y as int, b.z as int, 2 * FP_ONE as int, 2 * FP_ONE as int);
        lemma_mul_within(a.z as int, b.y as int, 2 * FP_ONE as int, 2 * FP_ONE as int);
        lemma_mul_within(a.z as int, b.x as int, 2 * FP_ONE as int, 2 * FP_ONE as int);
        lemma_mul_within(a.x as int, b.z as int, 2 * FP_ONE as int, 2 * FP_ONE as int);
        lemma_mul_within(a.x as int, b.y as int, 2 * FP_ONE as int, 2 * FP_ONE as int);
        lemma_mul_within(a.y as int, b.x as int, 2 * FP_ONE as int, 2 * FP_ONE as int);
        lemma_tdiv_within(a.y * b.z - a.z * b.y, FP_ONE as int, 8 * FP_ONE as int);
        lemma_tdiv_within(a.z * b.x - a.x * b.z, FP_ONE as int, 8 * FP_ONE as int);
        lemma_tdiv_within(a.x * b.y - a.y * b.x, FP_ONE as int, 8 * FP_ONE as int);
    }
    let x = (((a.y as i128) * (b.z as i128) - (a.z as i128) * (b.y as i128)) / (
    FP_ONE as i128)) as i64;
    let y = (((a.z as i128) * (b.x as i128) - (a.x as i128) * (b.z as i128)) / (
    FP_ONE as i128)) as i64;
    let z = (((a.x as i128) * (b.y as i128) - (a.y as i128) * (b.x as i128)) / (
    FP_ONE as i128)) as i64;
    Vec3Fx { x, y, z }
}

/// Scale by an arbitrary bounded fixed-point scalar, exact; refused when
/// a component of the result would leave the coordinate range.
pub fn try_scale(v: Vec3Fx, s: i64) -> (r: Option<Vec3Fx>)
    requires
        v.wf(),
        within(s as int, COORD_LIMIT as int),
    ensures
        match r {
            Some(w) => w.x as int == fx_mul_spec(v.x as int, s as int) && w.y as int == fx_mul_spec(
                v.y as int,
                s as int,
            ) && w.z as int == fx_mul_spec(v.z as int, s as int) && w.wf(),
            None => !(within(fx_mul_spec(v.x as int, s as int), COORD_LIMIT as int) && within(
                fx_mul_spec(v.y as int, s as int),
                COORD_LIMIT as int,
            ) && within(fx_mul_spec(v.z as int, s as int), COORD_LIMIT as int)),
        },
{
    proof {
        let m = (COORD_LIMIT as int) * (COORD_LIMIT as int) / (FP_ONE as int);
        lemma_mul_within(v.x as int, s as int, COORD_LIMIT as int, COORD_LIMIT as int);
        lemma_mul_within(v.y as int, s as int, COORD_LIMIT as int, COORD_LIMIT as int);
        lemma_mul_within(v.z as int, s as int, COORD_LIMIT as int, COORD_LIMIT as int);
        assert((COORD_LIMIT as int) * (COORD_LIMIT as int) == m * FP_ONE as int);
        lemma_tdiv_within(v.x * s, FP_ONE as int, m);
        lemma_tdiv_within(v.y * s, FP_ONE as int, m);
        lemma_tdiv_within(v.z * s, FP_ONE as int, m);
    }
    let x = ((v.x as i128) * (s as i128) / (FP_ONE as i128)) as i64;
    let y = ((v.y as i128) * (s as i128) / (FP_ONE as i128)) as i64;
    let z = ((v.z as i128) * (s as i128) / (FP_ONE as i128)) as i64;
    if x < -COORD_LIMIT || x > COORD_LIMIT || y < -COORD_LIMIT || y > COORD_LIMIT || z
        < -COORD_LIMIT || z > COORD_LIMIT {
        None
    } else {
        Some(Vec3Fx { x, y, z })
    }
}

/// Divide by a positive bounded fixed-point scalar, exact; refused when a
/// component of the result would leave the coordinate range.
pub fn try_div(v: Vec3Fx, d: i64) -> (r: Option<Vec3Fx>)
    requires
        v.wf(),
        1 <= d <= COORD_LIMIT,
    ensures
        match r {
            Some(w) => w.x as int == fx_div_spec(v.x as int, d as int) && w.y as int == fx_div_spec(
                v.y as int,
                d as int,
            ) && w.z as int == fx_div_spec(v.z as int, d as int) && w.wf(),
            None => !(within(fx_div_spec(v.x as int, d as int), COORD_LIMIT as int) && within(
                fx_div_spec(v.y as int, d as int),
                COORD_LIMIT as int,
            ) && within(fx_div_spec(v.z as int, d as int), COORD_LIMIT as int)),
        },
{
    proof {
        let m = (COORD_LIMIT as int) * (FP_ONE as int);
        lemma_mul_within(v.x as int, FP_ONE as int, COORD_LIMIT as int, FP_ONE as int);
        lemma_mul_within(v.y as int, FP_ONE as int, COORD_LIMIT as int, FP_ONE as int);
        lemma_mul_within(v.z as int, FP_ONE as int, COORD_LIMIT as int, FP_ONE as int);
        assert(m <= m * d) by (nonlinear_arith)
            requires
                d >= 1 && m >= 0,
        ;
        lemma_tdiv_within(v.x * FP_ONE, d as int, m);
        lemma_tdiv_within(v.y * FP_ONE, d as int, m);
        lemma_tdiv_within(v.z * FP_ONE, d as int, m);
    }
    let x = ((v.x as i128) * (FP_ONE as i128) / (d as i128)) as i64;
    let y = ((v.y as i128) * (FP_ONE as i128) / (d as i128)) as i64;
    let z = ((v.z as i128) * (FP_ONE as i128) / (d as i128)) as i64;
    if x < -COORD_LIMIT || x > COORD_LIMIT || y < -COORD_LIMIT || y > COORD_LIMIT || z
        < -COORD_LIMIT || z > COORD_LIMIT {
        None
    } else {
        Some(Vec3Fx { x, y, z })
    }
}

/// `n` is one of the six axis-aligned unit normals.
pub open spec fn unit_axis(n: Vec3Fx) -> bool {
    ||| n == (Vec3Fx { x: FP_ONE, y: 0, z: 0 })
    ||| n == (Vec3Fx { x: (-FP_ONE) as i64, y: 0, z: 0 })
    ||| n == (Vec3Fx { x: 0, y: FP_ONE, z: 0 })
    ||| n == (Vec3Fx { x: 0, y: (-FP_ONE) as i64, z: 0 })
    ||| n == (Vec3Fx { x: 0, y: 0, z: FP_ONE })
    ||| n == (Vec3Fx { x: 0, y: 0, z: (-FP_ONE) as i64 })
}

/// Law (slide deflection): rejecting a motion from an axis-aligned unit
/// wall normal removes the motion's component along that axis exactly and
/// leaves the other two components untouched — for such a wall, the slide
/// carries no motion whatever into the surface, whatever the approach.
pub proof fn lemma_reject_kills_normal_component(v: Vec3Fx, n: Vec3Fx)
    requires
        unit_axis(n),
    ensures
        ({
            let d = dot3_spec(v, n);
            &&& (n.x != 0 ==> v.x - fx_mul_spec(n.x as int, d) == 0 && fx_mul_spec(n.y as int, d)
                == 0 && fx_mul_spec(n.z as int, d) == 0)
            &&& (n.y != 0 ==> v.y - fx_mul_spec(n.y as int, d) == 0 && fx_mul_spec(n.x as int, d)
                == 0 && fx_mul_spec(n.z as int, d) == 0)
            &&& (n.z != 0 ==> v.z - fx_mul_spec(n.z as int, d) == 0 && fx_mul_spec(n.x as int, d)
                == 0 && fx_mul_spec(n.y as int, d) == 0)
        }),
{
    crate::fx::lemma_unit_cancel(0);
    let d = dot3_spec(v, n);
    if n.x != 0 {
        assert(n.y == 0 && n.z == 0);
        if n.x == FP_ONE {
            assert(v.x * n.x + v.y * n.y + v.z * n.z == (v.x as int) * (FP_ONE as int))
                by (nonlinear_arith)
                requires
                    n.y == 0 && n.z == 0 && n.x as int == FP_ONE as int,
            ;
            assert(d == v.x as int) by {
                crate::fx::lemma_unit_cancel(v.x as int);
            }
            assert(fx_mul_spec(n.x as int, d) == v.x) by {
                assert((n.x as int) * d == d * (FP_ONE as int)) by (nonlinear_arith)
                    requires
                        n.x as int == FP_ONE as int,
                ;
                crate::fx::lemma_unit_cancel(d);
            }
        } else {
            assert(v.x * n.x + v.y * n.y + v.z * n.z == (-(v.x as int)) * (FP_ONE as int))
                by (nonlinear_arith)
                requires
                    n.y == 0 && n.z == 0 && n.x as int == -(FP_ONE as int),
            ;
            assert(d == -(v.x as int)) by {
                crate::fx::lemma_unit_cancel(-(v.x as int));
            }
            assert(fx_mul_spec(n.x as int, d) == v.x) by {
                assert((n.x as int) * d == (-d) * (FP_ONE as int)) by (nonlinear_arith)
                    requires
                        n.x as int == -(FP_ONE as int),
                ;
                crate::fx::lemma_unit_cancel(-d);
            }
        }
    }
    else if n.y != 0 {
        assert(n.x == 0 && n.z == 0);
        if n.y == FP_ONE {
            assert(v.x * n.x + v.y * n.y + v.z * n.z == (v.y as int) * (FP_ONE as int))
                by (nonlinear_arith)
                requires
                    n.x == 0 && n.z == 0 && n.y as int == FP_ONE as int,
            ;
            assert(d == v.y as int) by {
                crate::fx::lemma_unit_cancel(v.y as int);
            }
            assert(fx_mul_spec(n.y as int, d) == v.y) by {
                assert((n.y as int) * d == d * (FP_ONE as int)) by (nonlinear_arith)
                    requires
                        n.y as int == FP_ONE as int,
                ;
                crate::fx::lemma_unit_cancel(d);
            }
        } else {
            assert(v.x * n.x + v.y * n.y + v.z * n.z == (-(v.y as int)) * (FP_ONE as int))
                by (nonlinear_arith)
                requires
                    n.x == 0 && n.z == 0 && n.y as int == -(FP_ONE as int),
            ;
            assert(d == -(v.y as int)) by {
                crate::fx::lemma_unit_cancel(-(v.y as int));
            }
            assert(fx_mul_spec(n.y as int, d) == v.y) by {
                assert((n.y as int) * d == (-d) * (FP_ONE as int)) by (nonlinear_arith)
                    requires
                        n.y as int == -(FP_ONE as int),
                ;
                crate::fx::lemma_unit_cancel(-d);
            }
        }
    }
    else  {
        assert(n.x == 0 && n.y == 0);
        if n.z == FP_ONE {
            assert(v.x * n.x + v.y * n.y + v.z * n.z == (v.z as int) * (FP_ONE as int))
                by (nonlinear_arith)
                requires
                    n.x == 0 && n.y == 0 && n.z as int == FP_ONE as int,
            ;
            assert(d == v.z as int) by {
                crate::fx::lemma_unit_cancel(v.z as int);
            }
            assert(fx_mul_spec(n.z as int, d) == v.z) by {
                assert((n.z as int) * d == d * (FP_ONE as int)) by (nonlinear_arith)
                    requires
                        n.z as int == FP_ONE as int,
                ;
                crate::fx::lemma_unit_cancel(d);
            }
        } else {
            assert(v.x * n.x + v.y * n.y + v.z * n.z == (-(v.z as int)) * (FP_ONE as int))
                by (nonlinear_arith)
                requires
                    n.x == 0 && n.y == 0 && n.z as int == -(FP_ONE as int),
            ;
            assert(d == -(v.z as int)) by {
                crate::fx::lemma_unit_cancel(-(v.z as int));
            }
            assert(fx_mul_spec(n.z as int, d) == v.z) by {
                assert((n.z as int) * d == (-d) * (FP_ONE as int)) by (nonlinear_arith)
                    requires
                        n.z as int == -(FP_ONE as int),
                ;
                crate::fx::lemma_unit_cancel(-d);
            }
        }
    }
}

/// The fixed-point parameter of a projection: how far along `c` the
/// projection of `v` lies, as a fraction scaled by `FP_ONE`.
pub open spec fn project_t_spec(v: Vec3Fx, c: Vec3Fx) -> int {
    tdiv(dot3_spec(v, c) * FP_ONE, dot3_spec(c, c))
}

/// Remove from `v` its component along the surface normal `n`: the slide
/// deflection `v - n * dot(v, n)`. Exact; refused when a component of the
/// result would leave the coordinate range.
pub fn reject_from(v: Vec3Fx, n: Vec3Fx) -> (r: Option<Vec3Fx>)
    requires
        v.wf(),
        n.bounded(2 * FP_ONE as int),
    ensures
        ({
            let d = dot3_spec(v, n);
            match r {
                Some(w) => w.x as int == v.x - fx_mul_spec(n.x as int, d) && w.y as int == v.y
                    - fx_mul_spec(n.y as int, d) && w.z as int == v.z - fx_mul_spec(n.z as int, d)
                    && w.wf(),
                None => !(within(v.x - fx_mul_spec(n.x as int, d), COORD_LIMIT as int) && within(
                    v.y - fx_mul_spec(n.y as int, d),
                    COORD_LIMIT as int,
                ) && within(v.z - fx_mul_spec(n.z as int, d), COORD_LIMIT as int)),
            }
        }),
{
    let d = dot3(v, n);
    proof {
        lemma_mul_within(n.x as int, d as int, 2 * FP_ONE as int, 24 * COORD_LIMIT as int);
        lemma_mul_within(n.y as int, d as int, 2 * FP_ONE as int, 24 * COORD_LIMIT as int);
        lemma_mul_within(n.z as int, d as int, 2 * FP_ONE as int, 24 * COORD_LIMIT as int);
        lemma_tdiv_within(n.x * d, FP_ONE as int, 48 * COORD_LIMIT as int);
        lemma_tdiv_within(n.y * d, FP_ONE as int, 48 * COORD_LIMIT as int);
        lemma_tdiv_within(n.z * d, FP_ONE as int, 48 * COORD_LIMIT as int);
    }
    let px = ((n.x as i128) * (d as i128) / (FP_ONE as i128)) as i64;
    let py = ((n.y as i128) * (d as i128) / (FP_ONE as i128)) as i64;
    let pz = ((n.z as i128) * (d as i128) / (FP_ONE as i128)) as i64;
    let x = v.x - px;
    let y = v.y - py;
    let z = v.z - pz;
    if x < -COORD_LIMIT || x > COORD_LIMIT || y < -COORD_LIMIT || y > COORD_LIMIT || z
        < -COORD_LIMIT || z > COORD_LIMIT {
        None
    } else {
        Some(Vec3Fx { x, y, z })
    }
}

/// Project `v` onto the line of the crease vector `c`:
/// `c * (dot(v, c) / dot(c, c))`. Exact; refused when the crease is
/// degenerate (`dot(c, c)` rounds to zero, as for a zero crease) or when
/// a component of the result would leave the coordinate range.
pub fn project_onto(v: Vec3Fx, c: Vec3Fx) -> (r: Option<Vec3Fx>)
    requires
        v.wf(),
        c.bounded(8 * FP_ONE as int),
    ensures
        ({
            let t = project_t_spec(v, c);
            match r {
                Some(w) => dot3_spec(c, c) > 0 && w.x as int == fx_mul_spec(c.x as int, t)
                    && w.y as int == fx_mul_spec(c.y as int, t) && w.z as int == fx_mul_spec(
                    c.z as int,
                    t,
                ) && w.wf(),
                None => dot3_spec(c, c) == 0 || !(within(
                    fx_mul_spec(c.x as int, t),
                    COORD_LIMIT as int,
                ) && within(fx_mul_spec(c.y as int, t), COORD_LIMIT as int) && within(
                    fx_mul_spec(c.z as int, t),
                    COORD_LIMIT as int,
                )),
            }
        }),
{
    proof {
        assert(c.x * c.x >= 0 && c.y * c.y >= 0 && c.z * c.z >= 0) by (nonlinear_arith);
        assert(within(c.x as int, COORD_LIMIT as int) && within(c.y as int, COORD_LIMIT as int)
            && within(c.z as int, COORD_LIMIT as int));
    }
    let d2 = dot3(c, c);
    if d2 == 0 {
        return None;
    }
    proof {
        assert(dot3_spec(c, c) >= 0) by {
            assert(c.x * c.x + c.y * c.y + c.z * c.z >= 0);
        }
    }
    let dv = dot3(v, c);
    proof {
        lemma_mul_within(dv as int, FP_ONE as int, 24 * COORD_LIMIT as int, FP_ONE as int);
        assert(24 * COORD_LIMIT as int * FP_ONE as int <= 24 * COORD_LIMIT as int * FP_ONE as int
            * d2 as int) by (nonlinear_arith)
            requires
                d2 >= 1,
        ;
        lemma_tdiv_within(dv * FP_ONE, d2 as int, 24 * COORD_LIMIT as int * FP_ONE as int);
    }
    let t: i64 = (((dv as i128) * (FP_ONE as i128)) / (d2 as i128)) as i64;
    proof {
        lemma_mul_within(
            c.x as int,
            t as int,
            8 * FP_ONE as int,
            24 * COORD_LIMIT as int * FP_ONE as int,
        );
        lemma_mul_within(
            c.y as int,
            t as int,
            8 * FP_ONE as int,
            24 * COORD_LIMIT as int * FP_ONE as int,
        );
        lemma_mul_within(
            c.z as int,
            t as int,
            8 * FP_ONE as int,
            24 * COORD_LIMIT as int * FP_ONE as int,
        );
        lemma_tdiv_within(c.x * t, FP_ONE as int, 192 * COORD_LIMIT as int * FP_ONE as int);
        lemma_tdiv_within(c.y * t, FP_ONE as int, 192 * COORD_LIMIT as int * FP_ONE as int);
        lemma_tdiv_within(c.z * t, FP_ONE as int, 192 * COORD_LIMIT as int * FP_ONE as int);
    }
    let x = ((c.x as i128) * (t as i128) / (FP_ONE as i128)) as i64;
    let y = ((c.y as i128) * (t as i128) / (FP_ONE as i128)) as i64;
    let z = ((c.z as i128) * (t as i128) / (FP_ONE as i128)) as i64;
    if x < -COORD_LIMIT || x > COORD_LIMIT || y < -COORD_LIMIT || y > COORD_LIMIT || z
        < -COORD_LIMIT || z > COORD_LIMIT {
        None
    } else {
        Some(Vec3Fx { x, y, z })
    }
}

} // verus!
