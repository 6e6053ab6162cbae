//! Fixed-point scalars.
//!
//! A real quantity `q` is stored as the `i64` value `q * FX_ONE`, truncated
//! toward zero.  All operations saturate at `±FX_MAX`, so every scalar the
//! library produces stays inside `[-FX_MAX, FX_MAX]` and intermediate
//! products always fit an `i128`.

use vstd::prelude::*;

verus! {

/// Raw units per 1.0.
pub const FX_ONE: i64 = 65536;

/// Largest magnitude any fixed-point scalar may take (2^30 raw units).
pub const FX_MAX: i64 = 1073741824;

/// Does `x` lie in the representable band?
pub open spec fn fits(x: int) -> bool {
    -(FX_MAX as int) <= x && x <= FX_MAX as int
}

/// Clamp an unbounded mathematical value into the representable band.
pub open spec fn sat(x: int) -> int {
    if x > FX_MAX as int {
        FX_MAX as int
    } else if x < -(FX_MAX as int) {
        -(FX_MAX as int)
    } else {
        x
    }
}

/// Division truncated toward zero, for a positive divisor.
pub open spec fn tdiv_pos(a: int, b: int) -> int
    recommends
        b > 0,
{
    if a >= 0 {
        a / b
    } else {
        -((-a) / b)
    }
}

/// Division truncated toward zero, for any non-zero divisor.
pub open spec fn tdiv(a: int, b: int) -> int
    recommends
        b != 0,
{
    if b < 0 {
        tdiv_pos(-a, -b)
    } else {
        tdiv_pos(a, b)
    }
}

/// The non-negative integer square root, rounded down.
pub open spec fn sqrt_floor(n: int) -> int
    decreases n,
{
    if n <= 0 {
        0
    } else {
        let r = sqrt_floor(n - 1);
        if (r + 1) * (r + 1) <= n {
            r + 1
        } else {
            r
        }
    }
}

/// `sqrt_floor` really is the rounded-down square root.
pub proof fn lemma_sqrt_floor(n: int)
    requires
        n >= 0,
    ensures
        sqrt_floor(n) >= 0,
        sqrt_floor(n) * sqrt_floor(n) <= n,
        n < (sqrt_floor(n) + 1) * (sqrt_floor(n) + 1),
    decreases n,
{
    if n > 0 {
        lemma_sqrt_floor(n - 1);
        let r = sqrt_floor(n - 1);
        if (r + 1) * (r + 1) <= n {
            assert(n < (r + 2) * (r + 2)) by (nonlinear_arith)
                requires
                    r >= 0,
                    n - 1 < (r + 1) * (r + 1),
            ;
        }
    }
}

/// Two integers that bracket `n` the same way are the same root.
pub proof fn lemma_sqrt_floor_unique(n: int, r: int)
    requires
        n >= 0,
        r >= 0,
        r * r <= n,
        n < (r + 1) * (r + 1),
    ensures
        r == sqrt_floor(n),
{
    lemma_sqrt_floor(n);
    let s = sqrt_floor(n);
    if r < s {
        assert((r + 1) * (r + 1) <= s * s) by (nonlinear_arith)
            requires
                0 <= r,
                r + 1 <= s,
        ;
    }
    if s < r {
        assert((s + 1) * (s + 1) <= r * r) by (nonlinear_arith)
            requires
                0 <= s,
                s + 1 <= r,
        ;
    }
}

/// Truncating division is monotone in the numerator.
pub proof fn lemma_tdiv_pos_mono(a1: int, a2: int, b: int)
    requires
        b > 0,
        a1 <= a2,
    ensures
        tdiv_pos(a1, b) <= tdiv_pos(a2, b),
{
    if a1 >= 0 {
        vstd::arithmetic::div_mod::lemma_div_is_ordered(a1, a2, b);
    } else if a2 < 0 {
        vstd::arithmetic::div_mod::lemma_div_is_ordered(-a2, -a1, b);
    } else {
        vstd::arithmetic::div_mod::lemma_div_is_ordered(0, -a1, b);
        vstd::arithmetic::div_mod::lemma_div_is_ordered(0, a2, b);
        assert(0int / b == 0) by {
            vstd::arithmetic::div_mod::lemma_div_of0(b);
        }
    }
}

/// Truncating division by a fixed divisor is monotone in the numerator,
/// with the direction set by the divisor's sign.
pub proof fn lemma_tdiv_mono_signed(a1: int, a2: int, d: int)
    requires
        d != 0,
        a1 <= a2,
    ensures
        d > 0 ==> tdiv(a1, d) <= tdiv(a2, d),
        d < 0 ==> tdiv(a2, d) <= tdiv(a1, d),
{
    if d > 0 {
        lemma_tdiv_pos_mono(a1, a2, d);
    } else {
        lemma_tdiv_pos_mono(-a2, -a1, -d);
    }
}

/// The quotient's magnitude never exceeds the numerator's.
pub proof fn lemma_tdiv_pos_bound(a: int, b: int)
    requires
        b > 0,
    ensures
        a >= 0 ==> 0 <= tdiv_pos(a, b) <= a,
        a < 0 ==> a <= tdiv_pos(a, b) <= 0,
{
    if a >= 0 {
        vstd::arithmetic::div_mod::lemma_div_is_ordered(0, a, b);
        vstd::arithmetic::div_mod::lemma_div_of0(b);
        vstd::arithmetic::div_mod::lemma_div_nonincreasing(a, b);
    } else {
        vstd::arithmetic::div_mod::lemma_div_is_ordered(0, -a, b);
        vstd::arithmetic::div_mod::lemma_div_of0(b);
        vstd::arithmetic::div_mod::lemma_div_nonincreasing(-a, b);
    }
}

/// Saturated sum.
pub open spec fn sadd(a: int, b: int) -> int {
    sat(a + b)
}

/// Saturated difference.
pub open spec fn ssub(a: int, b: int) -> int {
    sat(a - b)
}

/// Saturated fixed-point product.
pub open spec fn smul(a: int, b: int) -> int {
    sat(tdiv(a * b, FX_ONE as int))
}

/// Saturated fixed-point quotient.
pub open spec fn sdiv(a: int, b: int) -> int {
    sat(tdiv(a * (FX_ONE as int), b))
}

/// Saturated division by a plain integer.
pub open spec fn sdivk(a: int, k: int) -> int {
    sat(tdiv(a, k))
}

/// A fixed-point quotient of a numerator no larger than the denominator
/// stays within one.
pub proof fn lemma_tdiv_ratio_bound(a: int, b: int)
    requires
        b != 0,
        (if a >= 0 { a } else { -a }) <= (if b >= 0 { b } else { -b }),
    ensures
        -(FX_ONE as int) <= tdiv(a * (FX_ONE as int), b) <= FX_ONE as int,
{
    let ma = if a >= 0 { a } else { -a };
    let mb = if b >= 0 { b } else { -b };
    assert(ma * (FX_ONE as int) <= mb * (FX_ONE as int)) by (nonlinear_arith)
        requires
            0 <= ma <= mb,
    ;
    vstd::arithmetic::div_mod::lemma_multiply_divide_le(ma * (FX_ONE as int), mb, FX_ONE as int);
    vstd::arithmetic::div_mod::lemma_div_is_ordered(0, ma * (FX_ONE as int), mb);
    vstd::arithmetic::div_mod::lemma_div_of0(mb);
    assert(tdiv_pos(ma * (FX_ONE as int), mb) <= FX_ONE as int);
    assert(a * (FX_ONE as int) == if a >= 0 {
        ma * (FX_ONE as int)
    } else {
        -(ma * (FX_ONE as int))
    }) by (nonlinear_arith)
        requires
            ma == (if a >= 0 { a } else { -a }),
    ;
}

/// A fixed-point product against a factor of at most one keeps the
/// other factor's bound, and the product of two values with matching
/// signs keeps the sign.
pub proof fn lemma_smul_bound(a: int, b: int, m: int)
    requires
        0 <= m,
        -m <= a <= m,
        -(FX_ONE as int) <= b <= FX_ONE as int,
    ensures
        -m <= smul(a, b) <= m,
        -m <= smul(b, a) <= m,
        a >= 0 && b >= 0 ==> smul(a, b) >= 0 && smul(b, a) >= 0,
        a <= 0 && b >= 0 ==> smul(a, b) <= 0 && smul(b, a) <= 0,
        a >= 0 && b <= 0 ==> smul(a, b) <= 0 && smul(b, a) <= 0,
        a <= 0 && b <= 0 ==> smul(a, b) >= 0 && smul(b, a) >= 0,
{
    let p = a * b;
    assert(-(m * (FX_ONE as int)) <= p <= m * (FX_ONE as int)) by (nonlinear_arith)
        requires
            p == a * b,
            0 <= m,
            -m <= a <= m,
            -(FX_ONE as int) <= b <= FX_ONE as int,
    ;
    assert(a >= 0 && b >= 0 ==> p >= 0) by (nonlinear_arith)
        requires
            p == a * b,
    ;
    assert(a <= 0 && b >= 0 ==> p <= 0) by (nonlinear_arith)
        requires
            p == a * b,
    ;
    assert(a >= 0 && b <= 0 ==> p <= 0) by (nonlinear_arith)
        requires
            p == a * b,
    ;
    assert(a <= 0 && b <= 0 ==> p >= 0) by (nonlinear_arith)
        requires
            p == a * b,
    ;
    let mp = if p >= 0 { p } else { -p };
    assert(mp <= (FX_ONE as int) * m);
    vstd::arithmetic::div_mod::lemma_multiply_divide_le(mp, FX_ONE as int, m);
    vstd::arithmetic::div_mod::lemma_div_is_ordered(0, mp, FX_ONE as int);
    vstd::arithmetic::div_mod::lemma_div_of0(FX_ONE as int);
    assert(b * a == p) by (nonlinear_arith)
        requires
            p == a * b,
    ;
}

/// The square root is monotone.
pub proof fn lemma_sqrt_floor_mono(a: int, b: int)
    requires
        0 <= a <= b,
    ensures
        sqrt_floor(a) <= sqrt_floor(b),
{
    lemma_sqrt_floor(a);
    lemma_sqrt_floor(b);
    if sqrt_floor(a) > sqrt_floor(b) {
        assert((sqrt_floor(b) + 1) * (sqrt_floor(b) + 1) <= sqrt_floor(a) * sqrt_floor(a))
            by (nonlinear_arith)
            requires
                0 <= sqrt_floor(b),
                sqrt_floor(b) + 1 <= sqrt_floor(a),
        ;
    }
}

/// Saturating fixed-point addition.
pub fn fx_add(a: i64, b: i64) -> (r: i64)
    requires
        fits(a as int),
        fits(b as int),
    ensures
        r as int == sat(a + b),
        fits(r as int),
{
    let s = a + b;
    if s > FX_MAX {
        FX_MAX
    } else if s < -FX_MAX {
        -FX_MAX
    } else {
        s
    }
}

/// Saturating fixed-point subtraction.
pub fn fx_sub(a: i64, b: i64) -> (r: i64)
    requires
        fits(a as int),
        fits(b as int),
    ensures
        r as int == sat(a - b),
        fits(r as int),
{
    let s = a - b;
    if s > FX_MAX {
        FX_MAX
    } else if s < -FX_MAX {
        -FX_MAX
    } else {
        s
    }
}

/// Negation.
pub fn fx_neg(a: i64) -> (r: i64)
    requires
        fits(a as int),
    ensures
        r as int == -(a as int),
        fits(r as int),
{
    -a
}

/// Magnitude.
pub fn fx_abs(a: i64) -> (r: i64)
    requires
        fits(a as int),
    ensures
        r as int == (if a >= 0 { a as int } else { -(a as int) }),
        fits(r as int),
{
    if a >= 0 {
        a
    } else {
        -a
    }
}

/// The smaller of two scalars.
pub fn fx_min(a: i64, b: i64) -> (r: i64)
    ensures
        r == if a <= b { a } else { b },
{
    if a <= b {
        a
    } else {
        b
    }
}

/// The larger of two scalars.
pub fn fx_max(a: i64, b: i64) -> (r: i64)
    ensures
        r == if a >= b { a } else { b },
{
    if a >= b {
        a
    } else {
        b
    }
}

/// Truncating division of bounded `i128` values, toward zero.
pub fn i128_tdiv(a: i128, b: i128) -> (r: i128)
    requires
        b != 0,
        (a as int) < 0x40000000000000000000000000000000,
        (a as int) > -0x40000000000000000000000000000000,
        (b as int) < 0x40000000000000000000000000000000,
        (b as int) > -0x40000000000000000000000000000000,
    ensures
        r as int == tdiv(a as int, b as int),
{
    let neg = (a < 0) != (b < 0);
    let ma: u128 = if a >= 0 { a as u128 } else { (-a) as u128 };
    let mb: u128 = if b >= 0 { b as u128 } else { (-b) as u128 };
    let q = ma / mb;
    proof {
        assert(ma as int == (if a >= 0 { a as int } else { -(a as int) }));
        assert(mb as int == (if b >= 0 { b as int } else { -(b as int) }));
        vstd::arithmetic::div_mod::lemma_div_nonincreasing(ma as int, mb as int);
        vstd::arithmetic::div_mod::lemma_div_is_ordered(0, ma as int, mb as int);
        vstd::arithmetic::div_mod::lemma_div_of0(mb as int);
    }
    if neg {
        -(q as i128)
    } else {
        q as i128
    }
}

/// Saturating fixed-point multiplication (`a * b / FX_ONE`, toward zero).
pub fn fx_mul(a: i64, b: i64) -> (r: i64)
    requires
        fits(a as int),
        fits(b as int),
    ensures
        r as int == sat(tdiv(a * b, FX_ONE as int)),
        fits(r as int),
{
    proof {
        assert((a as int) * (b as int) < 0x40000000000000000000000000000000 && (a as int) * (
        b as int) > -0x40000000000000000000000000000000) by (nonlinear_arith)
            requires
                fits(a as int),
                fits(b as int),
        ;
    }
    let p: i128 = (a as i128) * (b as i128);
    let q = i128_tdiv(p, FX_ONE as i128);
    proof {
        lemma_tdiv_pos_bound(p as int, FX_ONE as int);
    }
    if q > FX_MAX as i128 {
        FX_MAX
    } else if q < -(FX_MAX as i128) {
        -FX_MAX
    } else {
        q as i64
    }
}

/// Saturating fixed-point division (`a * FX_ONE / b`, toward zero).
pub fn fx_div(a: i64, b: i64) -> (r: i64)
    requires
        fits(a as int),
        fits(b as int),
        b != 0,
    ensures
        r as int == sat(tdiv(a * (FX_ONE as int), b as int)),
        fits(r as int),
{
    let p: i128 = (a as i128) * (FX_ONE as i128);
    let q = i128_tdiv(p, b as i128);
    if q > FX_MAX as i128 {
        FX_MAX
    } else if q < -(FX_MAX as i128) {
        -FX_MAX
    } else {
        q as i64
    }
}

/// Split a scalar into its integer lattice cell and fractional part:
/// `x == q * FX_ONE + f` with `0 <= f < FX_ONE` (a floor, not a
/// truncation, so negative scalars land in the cell below).
pub fn fx_floor_parts(x: i64) -> (r: (i64, i64))
    requires
        fits(x as int),
    ensures
        r.0 as int == (x as int) / (FX_ONE as int),
        r.1 as int == (x as int) % (FX_ONE as int),
        x as int == r.0 * (FX_ONE as int) + r.1,
        0 <= r.1 < FX_ONE,
        -16385 < r.0 < 16385,
{
    let (q, f): (i64, i64) = if x >= 0 {
        (((x as u64) / 65536) as i64, ((x as u64) % 65536) as i64)
    } else {
        let m = (-x) as u64;
        let qm = (m / 65536) as i64;
        let rm = (m % 65536) as i64;
        if rm == 0 {
            (-qm, 0)
        } else {
            (-qm - 1, 65536 - rm)
        }
    };
    proof {
        vstd::arithmetic::div_mod::lemma_fundamental_div_mod_converse(
            x as int,
            FX_ONE as int,
            q as int,
            f as int,
        );
    }
    (q, f)
}

/// Saturating division by a plain positive integer.
pub fn fx_div_int(a: i64, k: i64) -> (r: i64)
    requires
        fits(a as int),
        k > 0,
    ensures
        r as int == sdivk(a as int, k as int),
        fits(r as int),
{
    let q = i128_tdiv(a as i128, k as i128);
    proof {
        lemma_tdiv_pos_bound(a as int, k as int);
    }
    fx_clamp_i128(q)
}

/// Clamp a wide quotient back into the scalar band.
pub fn fx_clamp_i128(q: i128) -> (r: i64)
    ensures
        r as int == sat(q as int),
        fits(r as int),
{
    if q > FX_MAX as i128 {
        FX_MAX
    } else if q < -(FX_MAX as i128) {
        -FX_MAX
    } else {
        q as i64
    }
}

/// Integer square root of an arbitrary `u128`.
pub fn isqrt_u128(n: u128) -> (r: u128)
    ensures
        r as int == sqrt_floor(n as int),
{
    let mut lo: u128 = 0;
    let mut hi: u128 = 0x10000000000000000;
    proof {
        assert((hi as int) * (hi as int) > n as int) by (nonlinear_arith)
            requires
                hi as int == 0x10000000000000000,
                (n as int) < 0x100000000000000000000000000000000,
        ;
    }
    while hi - lo > 1
        invariant
            0 <= lo < hi <= 0x10000000000000000,
            (lo as int) * (lo as int) <= n as int,
            (n as int) < (hi as int) * (hi as int),
        decreases hi - lo,
    {
        let mid = lo + (hi - lo) / 2;
        proof {
            assert(mid <= 0xffffffffffffffff ==> (mid as int) * (mid as int)
                <= 0xffffffffffffffff * 0xffffffffffffffff) by (nonlinear_arith)
                requires
                    mid >= 0,
            ;
            assert(mid > 0xffffffffffffffff ==> (mid as int) * (mid as int) > n as int)
                by (nonlinear_arith)
                requires
                    (n as int) < 0x100000000000000000000000000000000,
                    mid >= 0,
            ;
        }
        if mid <= 0xffffffffffffffff && mid * mid <= n {
            lo = mid;
        } else {
            hi = mid;
        }
    }
    proof {
        lemma_sqrt_floor_unique(n as int, lo as int);
    }
    lo
}

/// Fixed-point square root of a non-negative scalar.
pub fn fx_sqrt(a: i64) -> (r: i64)
    requires
        0 <= a,
        fits(a as int),
    ensures
        r as int == sqrt_floor(a * (FX_ONE as int)),
        0 <= r,
        fits(r as int),
{
    let n: u128 = (a as u128) * (FX_ONE as u128);
    let r = isqrt_u128(n);
    proof {
        lemma_sqrt_floor(n as int);
        assert(sqrt_floor(n as int) <= FX_MAX as int) by {
            assert((FX_MAX as int + 1) * (FX_MAX as int + 1) > n as int) by (nonlinear_arith)
                requires
                    (n as int) <= (FX_MAX as int) * (FX_ONE as int),
                    FX_MAX as int == 1073741824,
                    FX_ONE as int == 65536,
            ;
            if sqrt_floor(n as int) > FX_MAX as int {
                assert((FX_MAX as int + 1) * (FX_MAX as int + 1) <= sqrt_floor(n as int)
                    * sqrt_floor(n as int)) by (nonlinear_arith)
                    requires
                        FX_MAX as int + 1 <= sqrt_floor(n as int),
                        0 <= FX_MAX as int,
                ;
            }
        }
    }
    r as i64
}

} // verus!
