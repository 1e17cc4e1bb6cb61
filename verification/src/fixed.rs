//! Fixed-point scalars: truncating division, integer square root and the two
//! trigonometric polynomials the potential field needs.
use vstd::prelude::*;

verus! {

/// Number of fixed-point units in one whole unit of length, time or speed.
pub const SCALE: i64 = 1_000_000;

/// The circle constant, in millionths.
pub const PI: i64 = 3_141_593;

/// Half the circle constant, in millionths.
pub const HALF_PI: i64 = 1_570_796;

/// Largest magnitude a planar coordinate may have: the workspace is the square
/// of side `2 * WORKSPACE_LIMIT` around the origin.
pub const WORKSPACE_LIMIT: i64 = 1_000_000_000_000;

/// Division that rounds toward zero, for a positive divisor.
pub open spec fn trunc_div(a: int, b: int) -> int {
    if a >= 0 {
        a / b
    } else {
        -((-a) / b)
    }
}

/// Absolute value.
pub open spec fn abs(a: int) -> int {
    if a >= 0 {
        a
    } else {
        -a
    }
}

/// `a` limited to the interval from `lo` to `hi`.
pub open spec fn clamp(a: int, lo: int, hi: int) -> int {
    if a < lo {
        lo
    } else if a > hi {
        hi
    } else {
        a
    }
}

/// The largest natural number whose square does not exceed `n`.
pub open spec fn sqrt_floor(n: nat) -> nat
    decreases n,
{
    if n == 0 {
        0
    } else {
        let r = sqrt_floor((n - 1) as nat);
        if (r + 1) * (r + 1) <= n {
            r + 1
        } else {
            r
        }
    }
}

/// `sqrt_floor(n)` squared is at most `n`, and the next square is above `n`.
pub proof fn lemma_sqrt_floor_bounds(n: nat)
    ensures
        sqrt_floor(n) * sqrt_floor(n) <= n,
        n < (sqrt_floor(n) + 1) * (sqrt_floor(n) + 1),
    decreases n,
{
    if n > 0 {
        lemma_sqrt_floor_bounds((n - 1) as nat);
        let r = sqrt_floor((n - 1) as nat);
        let s = sqrt_floor(n);
        if (r + 1) * (r + 1) <= n {
            assert(s == r + 1);
            assert(n < (s + 1) * (s + 1)) by (nonlinear_arith)
                requires
                    s == r + 1,
                    n - 1 < (r + 1) * (r + 1),
            ;
        } else {
            assert(s == r);
        }
    } else {
        let s = sqrt_floor(n);
        assert(s == 0);
        assert((s + 1) * (s + 1) == 1) by (nonlinear_arith)
            requires
                s == 0,
        ;
    }
}

/// Only one natural number lies between the bounds of `lemma_sqrt_floor_bounds`.
pub proof fn lemma_sqrt_floor_unique(n: nat, r: nat)
    requires
        r * r <= n,
        n < (r + 1) * (r + 1),
    ensures
        r == sqrt_floor(n),
{
    lemma_sqrt_floor_bounds(n);
    let s = sqrt_floor(n);
    assert(r <= s) by (nonlinear_arith)
        requires
            r * r <= n,
            n < (s + 1) * (s + 1),
    ;
    assert(s <= r) by (nonlinear_arith)
        requires
            s * s <= n,
            n < (r + 1) * (r + 1),
    ;
}

/// The square root is monotone.
pub proof fn lemma_sqrt_floor_monotone(a: nat, b: nat)
    requires
        a <= b,
    ensures
        sqrt_floor(a) <= sqrt_floor(b),
{
    lemma_sqrt_floor_bounds(a);
    lemma_sqrt_floor_bounds(b);
    let r = sqrt_floor(a);
    let s = sqrt_floor(b);
    assert(r <= s) by (nonlinear_arith)
        requires
            r * r <= a,
            a <= b,
            b < (s + 1) * (s + 1),
    ;
}

/// The root of a square is its base.
pub proof fn lemma_sqrt_floor_of_square(r: nat)
    ensures
        sqrt_floor(r * r) == r,
{
    assert(r * r < (r + 1) * (r + 1)) by (nonlinear_arith);
    lemma_sqrt_floor_unique(r * r, r);
}

/// Quotient of `a` by a positive `b`, rounded toward zero.
pub fn div_trunc(a: i128, b: i128) -> (q: i128)
    requires
        b > 0,
    ensures
        q == trunc_div(a as int, b as int),
{
    a / b
}

/// Product of two 64-bit values, which always fits in 128 bits.
pub fn mul_wide(a: i64, b: i64) -> (p: i128)
    ensures
        p == a * b,
        -0x4000_0000_0000_0000_0000_0000_0000_0000 <= p <= 0x4000_0000_0000_0000_0000_0000_0000_0000,
{
    assert(-0x4000_0000_0000_0000_0000_0000_0000_0000 <= a * b
        <= 0x4000_0000_0000_0000_0000_0000_0000_0000) by (nonlinear_arith)
        requires
            -0x8000_0000_0000_0000 <= a <= 0x8000_0000_0000_0000,
            -0x8000_0000_0000_0000 <= b <= 0x8000_0000_0000_0000,
    ;
    (a as i128) * (b as i128)
}

/// Integer square root by bisection.
pub fn isqrt(n: u128) -> (r: u64)
    ensures
        r == sqrt_floor(n as nat),
{
    let mut lo: u128 = 0;
    let mut hi: u128 = 0x1_0000_0000_0000_0000;
    assert(0x1_0000_0000_0000_0000int * 0x1_0000_0000_0000_0000int
        == 0x1_0000_0000_0000_0000_0000_0000_0000_0000int) by (nonlinear_arith);
    while hi - lo > 1
        invariant
            lo < hi <= 0x1_0000_0000_0000_0000,
            lo * lo <= n,
            n < hi * hi,
        decreases hi - lo,
    {
        let mid: u128 = lo + (hi - lo) / 2;
        assert(mid * mid < 0x1_0000_0000_0000_0000_0000_0000_0000_0000) by (nonlinear_arith)
            requires
                0 <= mid < 0x1_0000_0000_0000_0000,
        ;
        if mid * mid <= n {
            lo = mid;
        } else {
            hi = mid;
        }
    }
    proof {
        assert(hi == lo + 1);
        lemma_sqrt_floor_unique(n as nat, lo as nat);
    }
    lo as u64
}

/// Cosine of `theta` for `theta` between zero and one radian, as the Taylor
/// polynomial of degree eight evaluated in millionths.
pub open spec fn cos_poly(theta: int) -> int {
    let u = theta * theta / (SCALE as int);
    let t4 = SCALE - u / 56;
    let t3 = SCALE - (u * t4 / (SCALE as int)) / 30;
    let t2 = SCALE - (u * t3 / (SCALE as int)) / 12;
    SCALE - (u * t2 / (SCALE as int)) / 2
}

/// Sine of `theta` for `theta` between zero and one radian, as the Taylor
/// polynomial of degree nine evaluated in millionths.
pub open spec fn sin_poly(theta: int) -> int {
    let u = theta * theta / (SCALE as int);
    let s4 = SCALE - u / 72;
    let s3 = SCALE - (u * s4 / (SCALE as int)) / 42;
    let s2 = SCALE - (u * s3 / (SCALE as int)) / 20;
    let s1 = SCALE - (u * s2 / (SCALE as int)) / 6;
    theta * s1 / (SCALE as int)
}

/// One step of an alternating series in Horner form:
/// `SCALE - (u * t / SCALE) / k`.
pub open spec fn horner_step(u: int, t: int, k: int) -> int {
    SCALE - (u * t / (SCALE as int)) / k
}

/// A step of an alternating series stays between `SCALE - SCALE / k` and
/// `SCALE` when `u` and `t` are fractions of `SCALE`.
pub proof fn lemma_horner_step(u: int, t: int, k: int)
    requires
        0 <= u <= SCALE,
        0 <= t <= SCALE,
        k >= 1,
    ensures
        0 <= u * t <= SCALE * SCALE,
        0 <= u * t / (SCALE as int) <= SCALE,
        SCALE - (SCALE as int) / k <= horner_step(u, t, k) <= SCALE,
{
    assert(0 <= u * t <= 1_000_000 * 1_000_000) by (nonlinear_arith)
        requires
            0 <= u <= 1_000_000,
            0 <= t <= 1_000_000,
    ;
    let p = u * t / (SCALE as int);
    assert(0 <= p <= SCALE);
    assert(0 <= p / k <= 1_000_000int / k) by (nonlinear_arith)
        requires
            0 <= p <= 1_000_000,
            k >= 1,
    ;
}

/// On the first radian the cosine polynomial stays between one half and one,
/// and is exactly one at zero.
pub proof fn lemma_cos_poly_range(theta: int)
    requires
        0 <= theta <= SCALE,
    ensures
        SCALE / 2 <= cos_poly(theta) <= SCALE,
        theta == 0 ==> cos_poly(theta) == SCALE,
{
    lemma_horner_step(theta, theta, 1);
    let u = theta * theta / (SCALE as int);
    let t4 = SCALE - u / 56;
    lemma_horner_step(u, t4, 30);
    let t3 = horner_step(u, t4, 30);
    lemma_horner_step(u, t3, 12);
    let t2 = horner_step(u, t3, 12);
    lemma_horner_step(u, t2, 2);
    if theta == 0 {
        assert(u == 0);
        assert(u * t2 == 0) by (nonlinear_arith)
            requires
                u == 0,
        ;
    }
}

/// On the first radian the sine polynomial stays between zero and its
/// argument.
pub proof fn lemma_sin_poly_range(theta: int)
    requires
        0 <= theta <= SCALE,
    ensures
        0 <= sin_poly(theta) <= theta,
{
    lemma_horner_step(theta, theta, 1);
    let u = theta * theta / (SCALE as int);
    let s4 = SCALE - u / 72;
    lemma_horner_step(u, s4, 42);
    let s3 = horner_step(u, s4, 42);
    lemma_horner_step(u, s3, 20);
    let s2 = horner_step(u, s3, 20);
    lemma_horner_step(u, s2, 6);
    let s1 = horner_step(u, s2, 6);
    assert(0 <= theta * s1 <= theta * 1_000_000) by (nonlinear_arith)
        requires
            0 <= theta,
            0 <= s1 <= 1_000_000,
    ;
}

/// Evaluates [`cos_poly`].
pub fn cos_fixed(theta: i64) -> (c: i64)
    requires
        0 <= theta <= SCALE,
    ensures
        c == cos_poly(theta as int),
        SCALE / 2 <= c <= SCALE,
{
    proof {
        lemma_cos_poly_range(theta as int);
        lemma_horner_step(theta as int, theta as int, 1);
    }
    let u: i64 = theta * theta / SCALE;
    let t4: i64 = SCALE - u / 56;
    proof {
        lemma_horner_step(u as int, t4 as int, 30);
    }
    let t3: i64 = SCALE - (u * t4 / SCALE) / 30;
    proof {
        lemma_horner_step(u as int, t3 as int, 12);
    }
    let t2: i64 = SCALE - (u * t3 / SCALE) / 12;
    proof {
        lemma_horner_step(u as int, t2 as int, 2);
    }
    SCALE - (u * t2 / SCALE) / 2
}

/// Evaluates [`sin_poly`].
pub fn sin_fixed(theta: i64) -> (s: i64)
    requires
        0 <= theta <= SCALE,
    ensures
        s == sin_poly(theta as int),
        0 <= s <= theta,
{
    proof {
        lemma_sin_poly_range(theta as int);
        lemma_horner_step(theta as int, theta as int, 1);
    }
    let u: i64 = theta * theta / SCALE;
    let s4: i64 = SCALE - u / 72;
    proof {
        lemma_horner_step(u as int, s4 as int, 42);
    }
    let s3: i64 = SCALE - (u * s4 / SCALE) / 42;
    proof {
        lemma_horner_step(u as int, s3 as int, 20);
    }
    let s2: i64 = SCALE - (u * s3 / SCALE) / 20;
    proof {
        lemma_horner_step(u as int, s2 as int, 6);
    }
    let s1: i64 = SCALE - (u * s2 / SCALE) / 6;
    assert(0 <= theta * s1 <= theta * 1_000_000) by (nonlinear_arith)
        requires
            0 <= theta,
            0 <= s1 <= 1_000_000,
    ;
    theta * s1 / SCALE
}

/// The reciprocal of Euler's number, in millionths.
pub const E_INVERSE: i64 = 367_879;

/// Euler's number, in millionths.
pub const E: i64 = 2_718_282;

/// The series of `exp(-f)` from its `k`-th term on, in Horner form and cut
/// after the tenth term.
pub open spec fn decay_series(f: int, k: int) -> int
    decreases 11 - k,
{
    if k > 10 {
        SCALE as int
    } else {
        horner_step(f, decay_series(f, k + 1), k)
    }
}

/// `v` multiplied `n` times by the reciprocal of Euler's number.
pub open spec fn decayed(v: int, n: nat) -> int
    decreases n,
{
    if n == 0 {
        v
    } else {
        decayed(v, (n - 1) as nat) * E_INVERSE / (SCALE as int)
    }
}

/// `exp(-x)` for `x` not below zero: the series on the fraction of `x`,
/// multiplied by the reciprocal of Euler's number once for every whole in
/// `x`.
pub open spec fn exp_neg(x: int) -> int {
    decayed(decay_series(x % (SCALE as int), 1), (x / (SCALE as int)) as nat)
}

/// One step of a series of positive terms in Horner form:
/// `SCALE + (u * t / SCALE) / k`.
pub open spec fn growth_step(u: int, t: int, k: int) -> int {
    SCALE + (u * t / (SCALE as int)) / k
}

/// The series of `exp(f)` from its `k`-th term on, in Horner form and cut
/// after the tenth term.
pub open spec fn growth_series(f: int, k: int) -> int
    decreases 11 - k,
{
    if k > 10 {
        SCALE as int
    } else {
        growth_step(f, growth_series(f, k + 1), k)
    }
}

/// `v` multiplied `n` times by Euler's number.
pub open spec fn grown(v: int, n: nat) -> int
    decreases n,
{
    if n == 0 {
        v
    } else {
        grown(v, (n - 1) as nat) * E / (SCALE as int)
    }
}

/// `exp(x)` for `x` not below zero.
pub open spec fn exp_pos(x: int) -> int {
    grown(growth_series(x % (SCALE as int), 1), (x / (SCALE as int)) as nat)
}

/// The decay series of a fraction is a fraction.
pub proof fn lemma_decay_series(f: int, k: int)
    requires
        0 <= f <= SCALE,
        1 <= k <= 11,
    ensures
        0 <= decay_series(f, k) <= SCALE,
    decreases 11 - k,
{
    if k <= 10 {
        lemma_decay_series(f, k + 1);
        lemma_horner_step(f, decay_series(f, k + 1), k);
    }
}

/// Decay never grows, keeps zero at zero, and stays a fraction.
pub proof fn lemma_decayed(v: int, n: nat)
    requires
        0 <= v <= SCALE,
    ensures
        0 <= decayed(v, n) <= v,
        v == 0 ==> decayed(v, n) == 0,
    decreases n,
{
    if n > 0 {
        lemma_decayed(v, (n - 1) as nat);
        let w = decayed(v, (n - 1) as nat);
        assert(0 <= w * E_INVERSE <= w * 1_000_000) by (nonlinear_arith)
            requires
                0 <= w,
                E_INVERSE == 367_879,
        ;
    }
}

/// Once decay has reached zero it stays there.
pub proof fn lemma_decayed_stays_zero(v: int, i: nat, n: nat)
    requires
        i <= n,
        decayed(v, i) == 0,
    ensures
        decayed(v, n) == 0,
    decreases n,
{
    if n > i {
        lemma_decayed_stays_zero(v, i, (n - 1) as nat);
    }
}

/// The growth series of a fraction lies between one and three.
pub proof fn lemma_growth_series(f: int, k: int)
    requires
        0 <= f <= SCALE,
        1 <= k <= 11,
    ensures
        SCALE <= growth_series(f, k),
        growth_series(f, k) * k <= SCALE * (k + 2),
        growth_series(f, k) <= 3 * SCALE,
    decreases 11 - k,
{
    let h = growth_series(f, k);
    if k <= 10 {
        lemma_growth_series(f, k + 1);
        let t = growth_series(f, k + 1);
        assert(0 <= f * t <= 1_000_000 * t) by (nonlinear_arith)
            requires
                0 <= f <= 1_000_000,
                0 <= t,
        ;
        let q = f * t / (SCALE as int);
        assert(0 <= q <= t);
        vstd::arithmetic::div_mod::lemma_fundamental_div_mod(q, k);
        vstd::arithmetic::div_mod::lemma_div_pos_is_pos(q, k);
        let e = q / k;
        assert(h == SCALE + e);
        assert(k * e <= q);
        assert(t * (k + 1) <= SCALE * (k + 3));
        assert(h * k <= SCALE * (k + 2)) by (nonlinear_arith)
            requires
                h == SCALE + e,
                k * e <= q,
                q <= t,
                t * (k + 1) <= SCALE * (k + 3),
                1 <= k,
                0 <= e,
                SCALE == 1_000_000,
        ;
    } else {
        assert(h == SCALE);
        assert(h * k <= SCALE * (k + 2)) by (nonlinear_arith)
            requires
                h == SCALE,
                k >= 1,
                SCALE == 1_000_000,
        ;
    }
    assert(h <= 3 * SCALE) by (nonlinear_arith)
        requires
            h * k <= SCALE * (k + 2),
            k >= 1,
            h >= SCALE,
            SCALE == 1_000_000,
    ;
}

/// Growth never shrinks.
pub proof fn lemma_grown(v: int, i: nat, n: nat)
    requires
        0 <= v,
        i <= n,
    ensures
        0 <= v <= grown(v, i) <= grown(v, n),
    decreases n,
{
    if n > i {
        lemma_grown(v, i, (n - 1) as nat);
        let w = grown(v, (n - 1) as nat);
        assert(w * E >= w * 1_000_000) by (nonlinear_arith)
            requires
                0 <= w,
                E == 2_718_282,
        ;
        vstd::arithmetic::div_mod::lemma_div_is_ordered(w * 1_000_000, w * E, SCALE as int);
    } else if i > 0 {
        lemma_grown(v, (i - 1) as nat, (i - 1) as nat);
        let w = grown(v, (i - 1) as nat);
        assert(w * E >= w * 1_000_000) by (nonlinear_arith)
            requires
                0 <= w,
                E == 2_718_282,
        ;
        vstd::arithmetic::div_mod::lemma_div_is_ordered(w * 1_000_000, w * E, SCALE as int);
    }
}

/// Evaluates [`exp_neg`].
pub fn exp_neg_fixed(x: i64) -> (r: i64)
    requires
        0 <= x,
    ensures
        r == exp_neg(x as int),
        0 <= r <= SCALE,
{
    let f: i64 = x % SCALE;
    let n: i64 = x / SCALE;
    let mut acc: i64 = SCALE;
    let mut k: i64 = 10;
    while k >= 1
        invariant
            0 <= k <= 10,
            0 <= f < SCALE,
            acc == decay_series(f as int, k + 1),
            0 <= acc <= SCALE,
        decreases k,
    {
        proof {
            lemma_decay_series(f as int, k as int);
            lemma_horner_step(f as int, acc as int, k as int);
        }
        acc = SCALE - (f * acc / SCALE) / k;
        k = k - 1;
    }
    let ghost start = acc as int;
    let mut i: i64 = 0;
    while i < n && acc > 0
        invariant
            0 <= i <= n,
            0 <= start <= SCALE,
            acc == decayed(start, i as nat),
            0 <= acc <= SCALE,
        decreases n - i,
    {
        proof {
            lemma_decayed(start, (i + 1) as nat);
            assert(0 <= acc * E_INVERSE <= 1_000_000 * 367_879) by (nonlinear_arith)
                requires
                    0 <= acc <= 1_000_000,
                    E_INVERSE == 367_879,
            ;
        }
        acc = acc * E_INVERSE / SCALE;
        i = i + 1;
    }
    proof {
        if i < n {
            lemma_decayed_stays_zero(start, i as nat, n as nat);
        }
    }
    acc
}

/// Most that [`exp_pos_capped`] reports.
pub const EXP_CAP: i128 = 10_000_000_000_000_000_000_000_000;

/// Evaluates [`exp_pos`] up to `EXP_CAP`: the result is `exp_pos(x)` if that
/// is at most `EXP_CAP`, and else some value above `EXP_CAP` that `exp_pos(x)`
/// is not below.
pub fn exp_pos_capped(x: i64) -> (r: i128)
    requires
        0 <= x,
    ensures
        SCALE <= r <= exp_pos(x as int),
        r <= EXP_CAP ==> r == exp_pos(x as int),
        r <= 3 * EXP_CAP,
{
    let f: i64 = x % SCALE;
    let n: i64 = x / SCALE;
    let mut series: i64 = SCALE;
    let mut k: i64 = 10;
    while k >= 1
        invariant
            0 <= k <= 10,
            0 <= f < SCALE,
            series == growth_series(f as int, k + 1),
            SCALE <= series <= 3 * SCALE,
        decreases k,
    {
        proof {
            lemma_growth_series(f as int, k as int);
            lemma_growth_series(f as int, k + 1);
            assert(0 <= f * series <= 1_000_000 * 3_000_000) by (nonlinear_arith)
                requires
                    0 <= f <= 1_000_000,
                    0 <= series <= 3_000_000,
            ;
        }
        series = SCALE + (f * series / SCALE) / k;
        k = k - 1;
    }
    let ghost start = series as int;
    let mut acc: i128 = series as i128;
    let mut i: i64 = 0;
    while i < n && acc <= EXP_CAP
        invariant
            0 <= i <= n,
            SCALE <= start <= 3 * SCALE,
            acc == grown(start, i as nat),
            SCALE <= acc <= 3 * EXP_CAP,
        decreases n - i,
    {
        proof {
            lemma_grown(start, i as nat, (i + 1) as nat);
            assert(0 <= acc * E <= 10_000_000_000_000_000_000_000_000 * 2_718_282)
                by (nonlinear_arith)
                requires
                    0 <= acc <= 10_000_000_000_000_000_000_000_000,
                    E == 2_718_282,
            ;
        }
        acc = acc * (E as i128) / (SCALE as i128);
        i = i + 1;
    }
    proof {
        lemma_grown(start, i as nat, n as nat);
    }
    acc
}

} // verus!
