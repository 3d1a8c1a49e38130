//! Fixed-point scalars.
//!
//! A scalar is an `i64` counting units of `1 / FX_ONE`. Addition,
//! subtraction, multiplication and division saturate at the `i64` range,
//! so every operation is total; the saturated extremes play the role the
//! infinities play for real arithmetic (a ray parallel to a slab, for
//! instance, yields a saturated slab parameter and the test degrades
//! gracefully). Division rounds toward minus infinity; a zero divisor
//! yields the saturated value of the numerator's sign.

use vstd::prelude::*;

verus! {

/// Number of fixed-point units in 1.0.
pub const FX_ONE: i64 = 65536;

/// The circle constant, in fixed-point units.
pub const PI_FX: i64 = 205887;

/// Saturate an unbounded integer into the `i64` range.
pub open spec fn sat64(x: int) -> int {
    if x < i64::MIN as int {
        i64::MIN as int
    } else if x > i64::MAX as int {
        i64::MAX as int
    } else {
        x
    }
}

/// Floor division for a nonzero divisor of either sign.
pub open spec fn floor_div(n: int, d: int) -> int
    recommends
        d != 0,
{
    if d > 0 {
        n / d
    } else {
        (-n) / (-d)
    }
}

/// What saturating fixed-point addition returns.
pub open spec fn fx_add_s(a: int, b: int) -> int {
    sat64(a + b)
}

/// What saturating fixed-point subtraction returns.
pub open spec fn fx_sub_s(a: int, b: int) -> int {
    sat64(a - b)
}

/// What saturating fixed-point multiplication returns.
pub open spec fn fx_mul_s(a: int, b: int) -> int {
    sat64(floor_div(a * b, FX_ONE as int))
}

/// What saturating fixed-point division returns. A zero divisor yields
/// the saturated value of the numerator's sign.
pub open spec fn fx_div_s(a: int, b: int) -> int {
    if b == 0 {
        if a > 0 {
            i64::MAX as int
        } else if a < 0 {
            i64::MIN as int
        } else {
            0
        }
    } else {
        sat64(floor_div(a * (FX_ONE as int), b))
    }
}

/// The integer square root: the greatest `r` with `r * r <= n`, and `0`
/// for a negative argument.
pub open spec fn sqrt_floor(n: int) -> int {
    if n <= 0 {
        0
    } else {
        choose|r: int| 0 <= r && #[trigger] (r * r) <= n && n < (r + 1) * (r + 1)
    }
}

/// What fixed-point square root returns: `0` for a nonpositive argument,
/// else the rounded-down root in fixed-point units.
pub open spec fn fx_sqrt_s(a: int) -> int {
    if a <= 0 {
        0
    } else {
        sqrt_floor(a * (FX_ONE as int))
    }
}

/// `sqrt_floor(n)` is the unique `r >= 0` with `r * r <= n < (r+1) * (r+1)`.
pub proof fn lemma_sqrt_floor_is(n: int, r: int)
    requires
        0 <= r,
        r * r <= n,
        n < (r + 1) * (r + 1),
    ensures
        sqrt_floor(n) == r,
{
    if n <= 0 {
        assert(r == 0) by (nonlinear_arith)
            requires
                0 <= r,
                r * r <= n,
                n <= 0,
        ;
    } else {
        let c = choose|c: int| 0 <= c && #[trigger] (c * c) <= n && n < (c + 1) * (c + 1);
        assert(0 <= c && c * c <= n < (c + 1) * (c + 1));
        assert(c == r) by (nonlinear_arith)
            requires
                0 <= c,
                c * c <= n,
                n < (c + 1) * (c + 1),
                0 <= r,
                r * r <= n,
                n < (r + 1) * (r + 1),
        ;
    }
}

/// Multiplying or dividing by one (the scale itself) only saturates.
pub proof fn lemma_fx_unit(a: int)
    ensures
        fx_mul_s(a, FX_ONE as int) == sat64(a),
        fx_mul_s(FX_ONE as int, a) == sat64(a),
        fx_div_s(a, FX_ONE as int) == sat64(a),
{
    let s = FX_ONE as int;
    assert(a * s == a * s + 0);
    vstd::arithmetic::div_mod::lemma_fundamental_div_mod_converse(a * s, s, a, 0);
    assert(s * a == a * s) by (nonlinear_arith);
}

/// A witness for the integer square root, found by induction.
proof fn sqrt_witness(n: int) -> (r: int)
    requires
        n >= 0,
    ensures
        0 <= r,
        r * r <= n,
        n < (r + 1) * (r + 1),
    decreases n,
{
    if n == 0 {
        0
    } else {
        let p = sqrt_witness(n - 1);
        if (p + 1) * (p + 1) <= n {
            assert(n < (p + 2) * (p + 2)) by (nonlinear_arith)
                requires
                    n - 1 < (p + 1) * (p + 1),
                    0 <= p,
            ;
            p + 1
        } else {
            p
        }
    }
}

/// The properties of the chosen square root, usable once the argument is
/// known to be positive.
pub proof fn lemma_sqrt_floor_props(n: int)
    requires
        n >= 1,
    ensures
        sqrt_floor(n) * sqrt_floor(n) <= n,
        n < (sqrt_floor(n) + 1) * (sqrt_floor(n) + 1),
        sqrt_floor(n) >= 0,
{
    let r = sqrt_witness(n);
    lemma_sqrt_floor_is(n, r);
}

/// The fixed-point square root is never negative.
pub proof fn lemma_fx_sqrt_nonneg(a: int)
    ensures
        fx_sqrt_s(a) >= 0,
{
    if a > 0 {
        assert(a * (FX_ONE as int) >= FX_ONE as int) by (nonlinear_arith)
            requires
                a >= 1,
        ;
        lemma_sqrt_floor_props(a * (FX_ONE as int));
    }
}

/// A fixed-point square is never negative.
pub proof fn lemma_fx_square_nonneg(a: int)
    ensures
        fx_mul_s(a, a) >= 0,
{
    assert(a * a >= 0) by (nonlinear_arith);
    vstd::arithmetic::div_mod::lemma_div_is_ordered(0, a * a, FX_ONE as int);
}

/// A division with no remainder returns the exact quotient.
pub proof fn lemma_div_exact(n: int, d: int, q: int)
    requires
        d > 0,
        n == q * d,
    ensures
        floor_div(n, d) == q,
{
    assert(n == q * d + 0);
    vstd::arithmetic::div_mod::lemma_fundamental_div_mod_converse(n, d, q, 0);
}

/// A product of two scalars in `[0, 1]` stays in `[0, 1]` and below each
/// factor: attenuation never amplifies.
pub proof fn lemma_fx_mul_unit_range(a: int, b: int)
    requires
        0 <= a <= FX_ONE as int,
        0 <= b <= FX_ONE as int,
    ensures
        0 <= fx_mul_s(a, b) <= FX_ONE as int,
        fx_mul_s(a, b) <= a,
        fx_mul_s(a, b) <= b,
{
    let s = FX_ONE as int;
    assert(0 <= a * b && a * b <= a * s && a * b <= b * s) by (nonlinear_arith)
        requires
            0 <= a <= s,
            0 <= b <= s,
    ;
    vstd::arithmetic::div_mod::lemma_div_is_ordered(0, a * b, s);
    vstd::arithmetic::div_mod::lemma_div_is_ordered(a * b, a * s, s);
    vstd::arithmetic::div_mod::lemma_div_is_ordered(a * b, b * s, s);
    lemma_div_exact(a * s, s, a);
    lemma_div_exact(b * s, s, b);
}

/// Negating one factor flips a fixed-point product up to one rounding
/// unit: the floor of the negated ratio is at worst one below the
/// negated floor.
pub proof fn lemma_fx_mul_neg(a: int, b: int)
    requires
        -(i64::MAX as int) <= a <= i64::MAX as int,
    ensures
        fx_mul_s(fx_sub_s(0, a), b) >= -fx_mul_s(a, b) - 1,
{
    let s = FX_ONE as int;
    assert(fx_sub_s(0, a) == -a);
    let x = a * b;
    assert((-a) * b == -x) by (nonlinear_arith)
        requires
            x == a * b,
    ;
    vstd::arithmetic::div_mod::lemma_fundamental_div_mod(x, s);
    let q = x / s;
    let rr = x % s;
    if rr == 0 {
        assert(-x == (-q) * s + 0) by (nonlinear_arith)
            requires
                x == s * q + rr,
                rr == 0,
        ;
        vstd::arithmetic::div_mod::lemma_fundamental_div_mod_converse(-x, s, -q, 0);
    } else {
        assert(-x == (-q - 1) * s + (s - rr)) by (nonlinear_arith)
            requires
                x == s * q + rr,
        ;
        vstd::arithmetic::div_mod::lemma_fundamental_div_mod_converse(-x, s, -q - 1, s - rr);
    }
}

/// Below a multiple of the divisor, the quotient stays below the factor.
pub proof fn lemma_div_below(n: int, d: int, q: int)
    requires
        d >= 1,
        n < q * d,
    ensures
        n / d < q,
{
    vstd::arithmetic::div_mod::lemma_fundamental_div_mod(n, d);
    if n / d >= q {
        assert(d * (n / d) + n % d >= q * d) by (nonlinear_arith)
            requires
                d >= 1,
                n / d >= q,
                n % d >= 0,
        ;
    }
}

/// At or above a multiple of the divisor, the quotient reaches the factor.
pub proof fn lemma_div_at_least(n: int, d: int, q: int)
    requires
        d >= 1,
        n >= q * d,
    ensures
        n / d >= q,
{
    vstd::arithmetic::div_mod::lemma_fundamental_div_mod(n, d);
    if n / d < q {
        assert(d * (n / d) + n % d < q * d) by (nonlinear_arith)
            requires
                d >= 1,
                n / d <= q - 1,
                n % d < d,
        ;
    }
}

/// Division is monotone in the numerator for a nonnegative divisor and
/// antitone for a negative one.
pub proof fn lemma_fx_div_mono(a1: int, a2: int, b: int)
    requires
        a1 <= a2,
    ensures
        b >= 0 ==> fx_div_s(a1, b) <= fx_div_s(a2, b),
        b < 0 ==> fx_div_s(a1, b) >= fx_div_s(a2, b),
{
    let s = FX_ONE as int;
    if b > 0 {
        assert(a1 * s <= a2 * s) by (nonlinear_arith)
            requires
                a1 <= a2,
                s == 65536,
        ;
        vstd::arithmetic::div_mod::lemma_div_is_ordered(a1 * s, a2 * s, b);
    } else if b < 0 {
        assert(-(a2 * s) <= -(a1 * s)) by (nonlinear_arith)
            requires
                a1 <= a2,
                s == 65536,
        ;
        vstd::arithmetic::div_mod::lemma_div_is_ordered(-(a2 * s), -(a1 * s), -b);
    }
}

/// Saturate an `i128` into the `i64` range.
pub fn sat_to_i64(x: i128) -> (r: i64)
    ensures
        r as int == sat64(x as int),
{
    if x > i64::MAX as i128 {
        i64::MAX
    } else if x < i64::MIN as i128 {
        i64::MIN
    } else {
        x as i64
    }
}

/// Floor division of a signed value by a positive one, computed through
/// unsigned division so that rounding is explicit.
fn floor_div_i128(n: i128, d: i128) -> (q: i128)
    requires
        d >= 1,
        n > i128::MIN,
    ensures
        q as int == floor_div(n as int, d as int),
{
    if n >= 0 {
        let un: u128 = n as u128;
        let ud: u128 = d as u128;
        let uq: u128 = un / ud;
        assert(uq <= un) by (nonlinear_arith)
            requires
                ud >= 1,
                uq == un / ud,
        ;
        proof {
            vstd::arithmetic::div_mod::lemma_fundamental_div_mod(un as int, ud as int);
            assert(n as int == (uq as int) * (d as int) + (un % ud) as int) by (nonlinear_arith)
                requires
                    un as int == (ud as int) * (uq as int) + (un % ud) as int,
                    un as int == n as int,
                    ud as int == d as int,
            ;
            vstd::arithmetic::div_mod::lemma_fundamental_div_mod_converse(
                n as int, d as int, uq as int, (un % ud) as int);
        }
        uq as i128
    } else {
        let un: u128 = (-n) as u128;
        let ud: u128 = d as u128;
        let uq: u128 = un / ud;
        let ur: u128 = un % ud;
        assert(uq <= un) by (nonlinear_arith)
            requires
                ud >= 1,
                uq == un / ud,
        ;
        proof {
            vstd::arithmetic::div_mod::lemma_fundamental_div_mod(un as int, ud as int);
        }
        if ur == 0 {
            proof {
                assert(n as int == (-(uq as int)) * (d as int) + 0) by (nonlinear_arith)
                    requires
                        un as int == (ud as int) * (uq as int) + (ur as int),
                        ur as int == 0,
                        un as int == -(n as int),
                        ud as int == d as int,
                ;
                vstd::arithmetic::div_mod::lemma_fundamental_div_mod_converse(
                    n as int, d as int, -(uq as int), 0);
            }
            -(uq as i128)
        } else {
            proof {
                assert(n as int == (-(uq as int) - 1) * (d as int) + (d - ur) as int) by (nonlinear_arith)
                    requires
                        un as int == (ud as int) * (uq as int) + (ur as int),
                        un as int == -(n as int),
                        ud as int == d as int,
                ;
                vstd::arithmetic::div_mod::lemma_fundamental_div_mod_converse(
                    n as int, d as int, -(uq as int) - 1, (d - ur) as int);
            }
            -(uq as i128) - 1
        }
    }
}

/// Saturating fixed-point addition.
pub fn fx_add(a: i64, b: i64) -> (r: i64)
    ensures
        r as int == fx_add_s(a as int, b as int),
{
    sat_to_i64(a as i128 + b as i128)
}

/// Saturating fixed-point subtraction.
pub fn fx_sub(a: i64, b: i64) -> (r: i64)
    ensures
        r as int == fx_sub_s(a as int, b as int),
{
    sat_to_i64(a as i128 - b as i128)
}

/// The exact product of two scalars, in the wider type.
fn mul_to_i128(a: i64, b: i64) -> (p: i128)
    ensures
        p as int == (a as int) * (b as int),
        -0x4000_0000_0000_0000_0000_0000_0000_0000 < p as int
            <= 0x4000_0000_0000_0000_0000_0000_0000_0000,
{
    assert(-0x4000_0000_0000_0000_0000_0000_0000_0000 < (a as int) * (b as int)
        <= 0x4000_0000_0000_0000_0000_0000_0000_0000) by (nonlinear_arith)
        requires
            -0x8000_0000_0000_0000 <= a as int <= 0x7fff_ffff_ffff_ffff,
            -0x8000_0000_0000_0000 <= b as int <= 0x7fff_ffff_ffff_ffff,
    ;
    (a as i128) * (b as i128)
}

/// Saturating fixed-point multiplication, rounding toward minus infinity.
pub fn fx_mul(a: i64, b: i64) -> (r: i64)
    ensures
        r as int == fx_mul_s(a as int, b as int),
{
    let p: i128 = mul_to_i128(a, b);
    let q: i128 = floor_div_i128(p, 65536);
    sat_to_i64(q)
}

/// Saturating fixed-point division, rounding toward minus infinity; a zero
/// divisor yields the saturated value of the numerator's sign.
pub fn fx_div(a: i64, b: i64) -> (r: i64)
    ensures
        r as int == fx_div_s(a as int, b as int),
{
    if b == 0 {
        if a > 0 {
            i64::MAX
        } else if a < 0 {
            i64::MIN
        } else {
            0
        }
    } else {
        let n: i128 = mul_to_i128(a, FX_ONE);
        if b < 0 {
            let q: i128 = floor_div_i128(-n, -(b as i128));
            sat_to_i64(q)
        } else {
            let q: i128 = floor_div_i128(n, b as i128);
            sat_to_i64(q)
        }
    }
}

/// Unsigned integer square root by bisection.
fn usqrt(n: u128) -> (r: u128)
    requires
        n < 0x4000_0000_0000_0000_0000_0000_0000_0000,
    ensures
        r * r <= n,
        n < (r + 1) * (r + 1),
{
    let mut lo: u128 = 0;
    let mut hi: u128 = 0x8000_0000_0000_0000;
    proof {
        assert((0x8000_0000_0000_0000u128 as int) * (0x8000_0000_0000_0000u128 as int)
            == 0x4000_0000_0000_0000_0000_0000_0000_0000) by (nonlinear_arith);
    }
    while hi - lo > 1
        invariant
            lo < hi,
            hi <= 0x8000_0000_0000_0000,
            lo * lo <= n,
            n < hi * hi,
        decreases hi - lo,
    {
        let mid: u128 = lo + (hi - lo) / 2;
        assert(lo < mid < hi);
        assert(mid * mid < 0x8000_0000_0000_0000_0000_0000_0000_0000u128) by (nonlinear_arith)
            requires
                mid < 0x8000_0000_0000_0000u128,
        ;
        if mid * mid <= n {
            lo = mid;
        } else {
            hi = mid;
        }
    }
    assert(hi == lo + 1);
    lo
}

/// Fixed-point square root: `0` for a nonpositive argument, else the
/// rounded-down root.
pub fn fx_sqrt(a: i64) -> (r: i64)
    ensures
        r as int == fx_sqrt_s(a as int),
        r >= 0,
{
    if a <= 0 {
        0
    } else {
        let p: i128 = mul_to_i128(a, FX_ONE);
        let n: u128 = p as u128;
        let r: u128 = usqrt(n);
        proof {
            lemma_sqrt_floor_is(n as int, r as int);
            assert((r as int) < 0x1_0000_0000_0000) by (nonlinear_arith)
                requires
                    (r as int) * (r as int) <= n as int,
                    0 <= r as int,
                    (n as int) < 0x1_0000_0000_0000_0000_0000_0000,
            ;
        }
        r as i64
    }
}

/// The whole number of units in a scalar, rounding toward minus
/// infinity.
pub fn fx_to_int(a: i64) -> (r: i64)
    ensures
        r as int == floor_div(a as int, FX_ONE as int),
{
    let q = floor_div_i128(a as i128, FX_ONE as i128);
    q as i64
}

/// Degrees to radians: the angle times pi over 180.
pub fn degrees_to_radians(degrees: i64) -> (r: i64)
    ensures
        r as int == fx_div_s(fx_mul_s(degrees as int, PI_FX as int), 180 * FX_ONE as int),
{
    fx_div(fx_mul(degrees, PI_FX), 180 * FX_ONE)
}

/// A small fixed-point power: `n` saturating multiplications starting
/// from one.
pub open spec fn fx_pow_s(b: int, n: nat) -> int
    decreases n,
{
    if n == 0 {
        FX_ONE as int
    } else {
        fx_mul_s(b, fx_pow_s(b, (n - 1) as nat))
    }
}

/// A small fixed-point power.
pub fn fx_pow(b: i64, n: u32) -> (r: i64)
    ensures
        r as int == fx_pow_s(b as int, n as nat),
{
    let mut acc: i64 = FX_ONE;
    let mut k: u32 = 0;
    while k < n
        invariant
            k <= n,
            acc as int == fx_pow_s(b as int, k as nat),
        decreases n - k,
    {
        acc = fx_mul(b, acc);
        k = k + 1;
    }
    acc
}

/// The smaller of two scalars.
pub fn fx_min(a: i64, b: i64) -> (r: i64)
    ensures
        r == if a <= b { a } else { b },
{
    if a <= b { a } else { b }
}

/// The larger of two scalars.
pub fn fx_max(a: i64, b: i64) -> (r: i64)
    ensures
        r == if a >= b { a } else { b },
{
    if a >= b { a } else { b }
}

/// A whole number of units as a fixed-point scalar, saturating.
pub fn fx_from_int(n: i64) -> (r: i64)
    ensures
        r as int == sat64(n as int * FX_ONE as int),
{
    sat_to_i64(mul_to_i128(n, FX_ONE))
}

} // verus!
