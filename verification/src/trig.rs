//! Fixed-point trigonometry.
//!
//! Truncated Taylor series for sine and cosine on a reduced range, a
//! half-angle tangent for the camera's field of view, and low-order
//! polynomial approximations of `acos` and `atan2` for sphere surface
//! coordinates.  Each contract states the exact integer polynomial the
//! function evaluates.

use vstd::prelude::*;

use crate::fx::{
    fits, fx_add, fx_div, fx_div_int, fx_mul, fx_neg, fx_sqrt, fx_sub, sadd, sdiv, sdivk, smul,
    sqrt_floor, ssub, FX_MAX, FX_ONE,
};

verus! {

/// pi, in raw units.
pub const PI_FX: i64 = 205887;

/// 2 pi, in raw units.
pub const TWO_PI_FX: i64 = 411775;

/// pi / 2, in raw units.
pub const PI_HALF_FX: i64 = 102944;

/// pi / 4, in raw units.
pub const PI_QUARTER_FX: i64 = 51472;

/// pi / 180, in raw units.
pub const PI_OVER_180_FX: i64 = 1144;

/// The truncated Taylor series `x - x^3/6 + x^5/120 - x^7/5040`.
pub open spec fn sin_spec(x: int) -> int {
    let x2 = smul(x, x);
    let x3 = smul(x2, x);
    let x5 = smul(x3, x2);
    let x7 = smul(x5, x2);
    ssub(sadd(ssub(x, sdivk(x3, 6)), sdivk(x5, 120)), sdivk(x7, 5040))
}

/// The truncated Taylor series `1 - x^2/2 + x^4/24 - x^6/720`.
pub open spec fn cos_spec(x: int) -> int {
    let x2 = smul(x, x);
    let x4 = smul(x2, x2);
    let x6 = smul(x4, x2);
    ssub(sadd(ssub(FX_ONE as int, sdivk(x2, 2)), sdivk(x4, 24)), sdivk(x6, 720))
}

/// `sin x` for `|x|` up to about one radian.
pub fn sin_fx(x: i64) -> (r: i64)
    requires
        fits(x as int),
    ensures
        r as int == sin_spec(x as int),
        fits(r as int),
{
    let x2 = fx_mul(x, x);
    let x3 = fx_mul(x2, x);
    let x5 = fx_mul(x3, x2);
    let x7 = fx_mul(x5, x2);
    fx_sub(fx_add(fx_sub(x, fx_div_int(x3, 6)), fx_div_int(x5, 120)), fx_div_int(x7, 5040))
}

/// `cos x` for `|x|` up to about one radian.
pub fn cos_fx(x: i64) -> (r: i64)
    requires
        fits(x as int),
    ensures
        r as int == cos_spec(x as int),
        fits(r as int),
{
    let x2 = fx_mul(x, x);
    let x4 = fx_mul(x2, x2);
    let x6 = fx_mul(x4, x2);
    fx_sub(fx_add(fx_sub(FX_ONE, fx_div_int(x2, 2)), fx_div_int(x4, 24)), fx_div_int(x6, 720))
}

/// The remainder of truncating division, carrying the dividend's sign.
pub open spec fn tmod(x: int, m: int) -> int
    recommends
        m > 0,
{
    if x >= 0 {
        x % m
    } else {
        -((-x) % m)
    }
}

/// The sine of an arbitrary angle: reduce modulo a full turn, fold into
/// a half turn, mirror into a quarter turn, then the series.
pub open spec fn sin_any_spec(x: int) -> int {
    let r0 = tmod(x, TWO_PI_FX as int);
    let r1 = if r0 > PI_FX as int {
        r0 - TWO_PI_FX as int
    } else if r0 < -(PI_FX as int) {
        r0 + TWO_PI_FX as int
    } else {
        r0
    };
    let r2 = if r1 > PI_HALF_FX as int {
        PI_FX as int - r1
    } else if r1 < -(PI_HALF_FX as int) {
        -(PI_FX as int) - r1
    } else {
        r1
    };
    sin_spec(r2)
}

/// `sin x` for any in-band angle.
pub fn sin_any_fx(x: i64) -> (r: i64)
    requires
        fits(x as int),
    ensures
        r as int == sin_any_spec(x as int),
        fits(r as int),
{
    let ax: u64 = if x >= 0 {
        x as u64
    } else {
        (-x) as u64
    };
    let rm = (ax % (TWO_PI_FX as u64)) as i64;
    let r0: i64 = if x >= 0 {
        rm
    } else {
        -rm
    };
    let r1: i64 = if r0 > PI_FX {
        r0 - TWO_PI_FX
    } else if r0 < -PI_FX {
        r0 + TWO_PI_FX
    } else {
        r0
    };
    let r2: i64 = if r1 > PI_HALF_FX {
        PI_FX - r1
    } else if r1 < -PI_HALF_FX {
        -PI_FX - r1
    } else {
        r1
    };
    sin_fx(r2)
}

/// The tangent, as the ratio of the two series; a vanishing cosine
/// saturates.
pub open spec fn tan_spec(x: int) -> int {
    if cos_spec(x) == 0 {
        FX_MAX as int
    } else {
        sdiv(sin_spec(x), cos_spec(x))
    }
}

/// `tan x` for `0 <= x <= pi/4`, by the series ratio.
pub fn tan_fx(x: i64) -> (r: i64)
    requires
        fits(x as int),
    ensures
        r as int == tan_spec(x as int),
        fits(r as int),
{
    let s = sin_fx(x);
    let c = cos_fx(x);
    if c == 0 {
        FX_MAX
    } else {
        fx_div(s, c)
    }
}

/// The tangent of half the angle `deg`, given in degrees; angles past a
/// quarter turn go through the cotangent of the complement.
pub open spec fn tan_half_deg_spec(deg: int) -> int {
    let rad = smul(sdivk(deg, 2), PI_OVER_180_FX as int);
    if rad <= PI_QUARTER_FX as int {
        tan_spec(rad)
    } else {
        let t = tan_spec(PI_HALF_FX as int - rad);
        if t == 0 {
            FX_MAX as int
        } else {
            sdiv(FX_ONE as int, t)
        }
    }
}

/// The tangent of `deg / 2` degrees, used for the viewport height.
pub fn tan_half_deg(deg: i64) -> (r: i64)
    requires
        fits(deg as int),
        0 <= deg,
    ensures
        r as int == tan_half_deg_spec(deg as int),
        fits(r as int),
{
    let rad = fx_mul(fx_div_int(deg, 2), PI_OVER_180_FX);
    if rad <= PI_QUARTER_FX {
        tan_fx(rad)
    } else {
        let t = tan_fx(fx_sub(PI_HALF_FX, rad));
        if t == 0 {
            FX_MAX
        } else {
            fx_div(FX_ONE, t)
        }
    }
}

/// The arc cosine on `[0, 1]`: `sqrt(1 - x)` times a cubic.
pub open spec fn acos_core_spec(x: int) -> int {
    let poly = sadd(102940, smul(x, sadd(-13902, smul(x, sadd(4867, smul(x, -1227))))));
    smul(sat_sqrt(ssub(FX_ONE as int, x)), poly)
}

/// The fixed-point square root as a spec value.
pub open spec fn sat_sqrt(a: int) -> int {
    sqrt_floor(a * (FX_ONE as int))
}

/// The arc cosine on `[-1, 1]`, reflecting negative arguments.
pub open spec fn acos_spec(x: int) -> int {
    if x >= 0 {
        acos_core_spec(x)
    } else {
        ssub(PI_FX as int, acos_core_spec(-x))
    }
}

/// `acos x` for `-1 <= x <= 1`.
pub fn acos_fx(x: i64) -> (r: i64)
    requires
        -FX_ONE <= x <= FX_ONE,
    ensures
        r as int == acos_spec(x as int),
        fits(r as int),
{
    if x >= 0 {
        acos_core(x)
    } else {
        fx_sub(PI_FX, acos_core(fx_neg(x)))
    }
}

fn acos_core(x: i64) -> (r: i64)
    requires
        0 <= x <= FX_ONE,
    ensures
        r as int == acos_core_spec(x as int),
        fits(r as int),
{
    let poly = fx_add(102940, fx_mul(x, fx_add(-13902, fx_mul(x, fx_add(4867, fx_mul(x, -1227))))));
    fx_mul(fx_sqrt(fx_sub(FX_ONE, x)), poly)
}

/// The arc tangent on `[-1, 1]`: `(pi/4) q + 0.273 q (1 - |q|)`.
pub open spec fn atan_spec(q: int) -> int {
    let aq = if q >= 0 {
        q
    } else {
        -q
    };
    sadd(smul(q, PI_QUARTER_FX as int), smul(smul(17892, q), ssub(FX_ONE as int, aq)))
}

fn atan_fx(q: i64) -> (r: i64)
    requires
        -FX_ONE <= q <= FX_ONE,
    ensures
        r as int == atan_spec(q as int),
        fits(r as int),
{
    let aq = if q >= 0 {
        q
    } else {
        -q
    };
    fx_add(fx_mul(q, PI_QUARTER_FX), fx_mul(fx_mul(17892, q), fx_sub(FX_ONE, aq)))
}

/// `atan2(y, x)` in `(-pi, pi]`, by octant reduction to [`atan_spec`].
pub open spec fn atan2_spec(y: int, x: int) -> int {
    let ay = if y >= 0 {
        y
    } else {
        -y
    };
    let ax = if x >= 0 {
        x
    } else {
        -x
    };
    if ay == 0 && ax == 0 {
        0
    } else if ay <= ax {
        let base = atan_spec(sdiv(y, x));
        if x > 0 {
            base
        } else if y >= 0 {
            sadd(base, PI_FX as int)
        } else {
            ssub(base, PI_FX as int)
        }
    } else {
        let q = atan_spec(sdiv(x, y));
        if y > 0 {
            ssub(PI_HALF_FX as int, q)
        } else {
            ssub(-(PI_HALF_FX as int), q)
        }
    }
}

/// The arc tangent approximation stays within an eighth turn plus its
/// overshoot, and keeps the argument's sign.
pub proof fn lemma_atan_range(q: int)
    requires
        -(FX_ONE as int) <= q <= FX_ONE as int,
    ensures
        -69364 <= atan_spec(q) <= 69364,
        q >= 0 ==> atan_spec(q) >= 0,
        q <= 0 ==> atan_spec(q) <= 0,
{
    let aq = if q >= 0 {
        q
    } else {
        -q
    };
    crate::fx::lemma_smul_bound(PI_QUARTER_FX as int, q, PI_QUARTER_FX as int);
    crate::fx::lemma_smul_bound(17892, q, 17892);
    crate::fx::lemma_smul_bound(smul(17892, q), ssub(FX_ONE as int, aq), 17892);
}

/// The octant-reduced arc tangent of two coordinates stays within a
/// half turn either way.
pub proof fn lemma_atan2_range(y: int, x: int)
    requires
        fits(y),
        fits(x),
    ensures
        -(PI_FX as int) <= atan2_spec(y, x) <= PI_FX as int,
{
    let ay = if y >= 0 {
        y
    } else {
        -y
    };
    let ax = if x >= 0 {
        x
    } else {
        -x
    };
    if ay == 0 && ax == 0 {
    } else if ay <= ax {
        crate::fx::lemma_tdiv_ratio_bound(y, x);
        lemma_atan_range(sdiv(y, x));
        if x > 0 {
        } else if y >= 0 {
            assert(sdiv(y, x) <= 0) by {
                crate::fx::lemma_tdiv_pos_bound(-(y * (FX_ONE as int)), -x);
                assert(y * (FX_ONE as int) >= 0) by (nonlinear_arith)
                    requires
                        y >= 0,
                ;
            }
        } else {
            assert(sdiv(y, x) >= 0) by {
                crate::fx::lemma_tdiv_pos_bound(-(y * (FX_ONE as int)), -x);
                assert(y * (FX_ONE as int) <= 0) by (nonlinear_arith)
                    requires
                        y <= 0,
                ;
            }
        }
    } else {
        crate::fx::lemma_tdiv_ratio_bound(x, y);
        lemma_atan_range(sdiv(x, y));
    }
}

/// The arc cosine approximation lands in the closed half turn.
pub proof fn lemma_acos_range(x: int)
    requires
        -(FX_ONE as int) <= x <= FX_ONE as int,
    ensures
        0 <= acos_spec(x) <= PI_FX as int,
{
    if x >= 0 {
        lemma_acos_core_range(x);
    } else {
        lemma_acos_core_range(-x);
    }
}

/// On `[0, 1]` the core arc cosine lies in the closed quarter turn.
proof fn lemma_acos_core_range(x: int)
    requires
        0 <= x <= FX_ONE as int,
    ensures
        0 <= acos_core_spec(x) <= 102940,
{
    let p3 = smul(x, -1227);
    crate::fx::lemma_smul_bound(-1227, x, 1227);
    let s3 = sadd(4867, p3);
    assert(3640 <= s3 <= 4867);
    let p2 = smul(x, s3);
    crate::fx::lemma_smul_bound(s3, x, 4867);
    let s2 = sadd(-13902, p2);
    assert(-13902 <= s2 <= -9035);
    let p1 = smul(x, s2);
    crate::fx::lemma_smul_bound(s2, x, 13902);
    let poly = sadd(102940, p1);
    assert(89038 <= poly <= 102940);
    let arg = ssub(FX_ONE as int, x);
    assert(0 <= arg <= FX_ONE as int);
    assert(0 <= sat_sqrt(arg) <= FX_ONE as int) by {
        crate::fx::lemma_sqrt_floor(arg * (FX_ONE as int));
        crate::fx::lemma_sqrt_floor_mono(arg * (FX_ONE as int), (FX_ONE as int) * (FX_ONE as int));
        crate::fx::lemma_sqrt_floor_unique((FX_ONE as int) * (FX_ONE as int), FX_ONE as int);
        assert(arg * (FX_ONE as int) <= (FX_ONE as int) * (FX_ONE as int)) by (nonlinear_arith)
            requires
                0 <= arg <= FX_ONE as int,
        ;
        assert(arg * (FX_ONE as int) >= 0) by (nonlinear_arith)
            requires
                arg >= 0,
        ;
    }
    crate::fx::lemma_smul_bound(poly, sat_sqrt(arg), 102940);
}

/// `atan2(y, x)`.
pub fn atan2_fx(y: i64, x: i64) -> (r: i64)
    requires
        fits(y as int),
        fits(x as int),
    ensures
        r as int == atan2_spec(y as int, x as int),
        fits(r as int),
{
    let ay = if y >= 0 {
        y
    } else {
        -y
    };
    let ax = if x >= 0 {
        x
    } else {
        -x
    };
    if ay == 0 && ax == 0 {
        0
    } else if ay <= ax {
        proof {
            crate::fx::lemma_tdiv_ratio_bound(y as int, x as int);
        }
        let base = atan_fx(fx_div(y, x));
        if x > 0 {
            base
        } else if y >= 0 {
            fx_add(base, PI_FX)
        } else {
            fx_sub(base, PI_FX)
        }
    } else {
        proof {
            crate::fx::lemma_tdiv_ratio_bound(x as int, y as int);
        }
        let q = atan_fx(fx_div(x, y));
        if y > 0 {
            fx_sub(PI_HALF_FX, q)
        } else {
            fx_sub(-PI_HALF_FX, q)
        }
    }
}

} // verus!
