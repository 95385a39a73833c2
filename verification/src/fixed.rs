//! Fixed-point arithmetic for the world: every length is a whole number of
//! sub-units, `UNIT` of which make one world unit, and every time span is a
//! whole number of ticks. Quotients are rounded down, as cell indices are,
//! or toward zero, as steps are, so that a step and its opposite have the
//! same length.

use vstd::arithmetic::div_mod::lemma_fundamental_div_mod;
use vstd::arithmetic::div_mod::lemma_fundamental_div_mod_converse;
use vstd::arithmetic::div_mod::lemma_mod_bound;
use vstd::prelude::*;

verus! {

/// Sub-units in one world unit.
pub const UNIT: i64 = 1000;

/// Ticks in one second.
pub const TICKS_PER_SECOND: i64 = 1_000_000;

/// Largest magnitude that a coordinate, a length or a time span may have.
pub const WORLD_LIMIT: i64 = 1_000_000_000_000;

/// `v` is a coordinate of the world.
pub open spec fn in_world(v: int) -> bool {
    -WORLD_LIMIT <= v <= WORLD_LIMIT
}

/// `v` is a length (or a time span) of the world.
pub open spec fn is_length(v: int) -> bool {
    0 <= v <= WORLD_LIMIT
}

/// The quotient of `a` by `b`, rounded toward zero.
pub open spec fn quot_toward_zero(a: int, b: int) -> int {
    if a >= 0 {
        a / b
    } else {
        -((-a) / b)
    }
}

/// `r` is the square root of `n`, rounded down.
pub open spec fn is_floor_sqrt(n: int, r: int) -> bool {
    0 <= r && r * r <= n < (r + 1) * (r + 1)
}

/// The square root of `n`, rounded down.
pub open spec fn floor_sqrt(n: int) -> int {
    choose|r: int| is_floor_sqrt(n, r)
}

/// The length covered at `speed` in `dt` ticks, rounded down.
pub open spec fn span(speed: int, dt: int) -> int {
    speed * dt / (TICKS_PER_SECOND as int)
}

/// `v` limited to the interval from `lo` to `hi`.
pub open spec fn clamp_to(v: int, lo: int, hi: int) -> int {
    if v < lo {
        lo
    } else if v > hi {
        hi
    } else {
        v
    }
}

/// The absolute value of `v`.
pub open spec fn magnitude(v: int) -> int {
    if v < 0 {
        -v
    } else {
        v
    }
}

/// For a negative dividend the floor quotient is one below the negated
/// quotient of the complement.
pub proof fn lemma_floor_div_negative(a: int, b: int)
    requires
        a < 0,
        b > 0,
    ensures
        a / b == -((-a - 1) / b) - 1,
{
    let m = -a - 1;
    let q = m / b;
    let r = m % b;
    lemma_fundamental_div_mod(m, b);
    assert(a == (-q - 1) * b + (b - r - 1)) by (nonlinear_arith)
        requires
            m == b * q + r,
            a == -m - 1,
    ;
    lemma_fundamental_div_mod_converse(a, b, -q - 1, b - r - 1);
}

/// The floor of `a / b`: the cell index of coordinate `a` for cells of size `b`.
pub fn floor_div(a: i64, b: i64) -> (q: i64)
    requires
        b > 0,
    ensures
        q == a / b,
{
    if a >= 0 {
        a / b
    } else {
        proof {
            lemma_floor_div_negative(a as int, b as int);
        }
        let m: i64 = -(a + 1);
        let t: i64 = m / b;
        -t - 1
    }
}

/// The floor of `a / b` for wide numbers.
pub fn floor_div_wide(a: i128, b: i128) -> (q: i128)
    requires
        b > 0,
    ensures
        q == a / b,
{
    if a >= 0 {
        a / b
    } else {
        proof {
            lemma_floor_div_negative(a as int, b as int);
        }
        let m: i128 = -(a + 1);
        let t: i128 = m / b;
        -t - 1
    }
}

/// For a negative dividend the remainder mirrors that of the complement.
pub proof fn lemma_floor_rem_negative(a: int, b: int)
    requires
        a < 0,
        b > 0,
    ensures
        a % b == b - 1 - ((-a - 1) % b),
{
    let m = -a - 1;
    let q = m / b;
    let r = m % b;
    lemma_fundamental_div_mod(m, b);
    assert(a == (-q - 1) * b + (b - r - 1)) by (nonlinear_arith)
        requires
            m == b * q + r,
            a == -m - 1,
    ;
    lemma_fundamental_div_mod_converse(a, b, -q - 1, b - r - 1);
}

/// The offset of coordinate `a` from the lower edge of its cell, for cells
/// of size `b`.
pub fn floor_rem(a: i64, b: i64) -> (r: i64)
    requires
        b > 0,
    ensures
        r == a % b,
        0 <= r < b,
{
    if a >= 0 {
        a % b
    } else {
        proof {
            lemma_floor_rem_negative(a as int, b as int);
        }
        let m: i64 = -(a + 1);
        b - 1 - m % b
    }
}

/// `a / b` rounded toward zero.
pub fn div_toward_zero(a: i128, b: i128) -> (q: i128)
    requires
        b > 0,
        a > i128::MIN,
    ensures
        q == quot_toward_zero(a as int, b as int),
{
    if a >= 0 {
        a / b
    } else {
        let m: i128 = -a;
        let t: i128 = m / b;
        -t
    }
}

/// The absolute value of a coordinate difference.
pub fn abs_i64(v: i64) -> (m: i64)
    requires
        v > i64::MIN,
    ensures
        m == magnitude(v as int),
{
    if v < 0 {
        -v
    } else {
        v
    }
}

/// `v` limited to the interval from `lo` to `hi`.
pub fn clamp_i64(v: i64, lo: i64, hi: i64) -> (c: i64)
    requires
        lo <= hi,
    ensures
        c == clamp_to(v as int, lo as int, hi as int),
{
    if v < lo {
        lo
    } else if v > hi {
        hi
    } else {
        v
    }
}

/// Squares keep the order of non-negative numbers.
pub proof fn lemma_square_monotone(a: int, b: int)
    requires
        0 <= a <= b,
    ensures
        a * a <= b * b,
{
    assert(a * a <= b * b) by (nonlinear_arith)
        requires
            0 <= a <= b,
    ;
}

/// A number whose square is smaller is itself smaller.
pub proof fn lemma_square_order(a: int, b: int)
    requires
        0 <= a,
        0 <= b,
        a * a < b * b,
    ensures
        a < b,
{
    if a >= b {
        lemma_square_monotone(b, a);
    }
}

/// The floor square root is unique.
pub proof fn lemma_floor_sqrt_unique(n: int, r: int, s: int)
    requires
        is_floor_sqrt(n, r),
        is_floor_sqrt(n, s),
    ensures
        r == s,
{
    lemma_square_order(r, s + 1);
    lemma_square_order(s, r + 1);
}

/// The square root of `n`, rounded down.
pub fn isqrt(n: u128) -> (r: u64)
    ensures
        is_floor_sqrt(n as int, r as int),
{
    let mut lo: u128 = 0;
    let mut hi: u128 = 0x1_0000_0000_0000_0000;
    assert(hi * hi > n) by (nonlinear_arith)
        requires
            hi == 0x1_0000_0000_0000_0000,
            n <= u128::MAX,
    ;
    while hi - lo > 1
        invariant
            lo < hi <= 0x1_0000_0000_0000_0000,
            lo * lo <= n < hi * hi,
        decreases hi - lo,
    {
        let mid: u128 = lo + (hi - lo) / 2;
        assert(mid * mid <= 0xffff_ffff_ffff_ffff * 0xffff_ffff_ffff_ffff) by (nonlinear_arith)
            requires
                0 <= mid <= 0xffff_ffff_ffff_ffff,
        ;
        let sq: u128 = mid * mid;
        if sq <= n {
            lo = mid;
        } else {
            hi = mid;
        }
    }
    assert(hi == lo + 1);
    lo as u64
}

/// Whatever is a floor square root of `n` is the floor square root of `n`.
pub proof fn lemma_floor_sqrt_is(n: int, r: int)
    requires
        is_floor_sqrt(n, r),
    ensures
        floor_sqrt(n) == r,
{
    lemma_floor_sqrt_unique(n, r, floor_sqrt(n));
}

/// `cell * size <= a` says the same as `cell <= a / size`.
pub proof fn lemma_floor_div_order(a: int, size: int, cell: int)
    requires
        size > 0,
    ensures
        cell * size <= a <==> cell <= a / size,
{
    lemma_fundamental_div_mod(a, size);
    lemma_mod_bound(a, size);
    let q = a / size;
    if cell <= q {
        assert(cell * size <= q * size) by (nonlinear_arith)
            requires
                cell <= q,
                size > 0,
        ;
        assert(size * q == q * size) by (nonlinear_arith);
    } else {
        assert(cell * size >= (q + 1) * size) by (nonlinear_arith)
            requires
                cell >= q + 1,
                size > 0,
        ;
        assert((q + 1) * size == size * q + size) by (nonlinear_arith);
    }
}

/// A quotient toward zero of a number between `-d * m` and `d * m` by
/// `d * t` lies between `-(m / t)` and `m / t`.
pub proof fn lemma_scaled_quot_bound(a: int, d: int, m: int, t: int)
    requires
        d > 0,
        t > 0,
        m >= 0,
        -(d * m) <= a <= d * m,
    ensures
        d * t > 0,
        -(m / t) <= quot_toward_zero(a, d * t) <= m / t,
        a >= 0 ==> quot_toward_zero(a, d * t) >= 0,
        a <= 0 ==> quot_toward_zero(a, d * t) <= 0,
{
    let b = magnitude(a);
    let dt = d * t;
    assert(dt > 0) by (nonlinear_arith)
        requires
            d > 0,
            t > 0,
            dt == d * t,
    ;
    let q = b / dt;
    lemma_floor_div_order(b, dt, q);
    lemma_floor_div_order(b, dt, 0);
    assert(q >= 0);
    assert(q * t <= m) by (nonlinear_arith)
        requires
            q * dt <= b,
            b <= d * m,
            dt == d * t,
            d > 0,
    ;
    lemma_floor_div_order(m, t, q);
}

/// A span of a speed and a time that are lengths of the world is not
/// negative and no longer than `WORLD_LIMIT` seconds at that speed allow.
pub proof fn lemma_span_within(speed: int, dt: int)
    requires
        is_length(speed),
        is_length(dt),
    ensures
        0 <= span(speed, dt) <= 1_000_000_000_000_000_000,
{
    assert(0 <= speed * dt <= 1_000_000_000_000 * 1_000_000_000_000) by (nonlinear_arith)
        requires
            0 <= speed <= 1_000_000_000_000,
            0 <= dt <= 1_000_000_000_000,
    ;
}

/// A component scaled by a rate is no longer than the distance scaled by it.
pub proof fn lemma_axis_scaled(w: int, dist: int, rate: int)
    requires
        -dist <= w <= dist,
        rate >= 0,
    ensures
        -(dist * rate) <= w * rate <= dist * rate,
{
    assert(-(dist * rate) <= w * rate <= dist * rate) by (nonlinear_arith)
        requires
            -dist <= w <= dist,
            rate >= 0,
    ;
}

/// A floor quotient by a positive divisor is no longer than the dividend.
pub proof fn lemma_quotient_within(a: int, d: int, bound: int)
    requires
        d >= 1,
        -bound <= a <= bound,
    ensures
        -bound <= a / d <= bound,
{
    lemma_floor_div_order(a, d, bound + 1);
    lemma_floor_div_order(a, d, -bound);
    assert((bound + 1) * d > a) by (nonlinear_arith)
        requires
            d >= 1,
            bound >= a,
            bound >= 0,
    ;
    assert((-bound) * d <= a) by (nonlinear_arith)
        requires
            d >= 1,
            -bound <= a,
            bound >= 0,
    ;
}

} // verus!
