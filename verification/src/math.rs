//! Fixed-point scalar arithmetic: truncating division, angle wrapping into
//! `(-pi, pi]`, and polynomial sine and cosine on micro-radians.

use vstd::prelude::*;
use vstd::arithmetic::div_mod::*;
use vstd::math::abs;

verus! {

/// Number of micro-units in one unit: values are held in millionths.
pub const SCALE: i64 = 1_000_000;

/// pi in microradians.
pub const PI_MICRO: i64 = 3_141_593;

/// 2 pi in microradians; exactly `2 * PI_MICRO`, so that the wrap interval
/// `(-PI_MICRO, PI_MICRO]` has exactly this length.
pub const TWO_PI_MICRO: i64 = 6_283_186;

/// pi / 2 in microradians, rounded so that `PI_MICRO - HALF_PI_MICRO - 1 <= HALF_PI_MICRO`.
pub const HALF_PI_MICRO: i64 = 1_570_796;

/// pi / 4 in microradians, rounded so that `HALF_PI_MICRO - QUARTER_PI_MICRO - 1 <= QUARTER_PI_MICRO`.
pub const QUARTER_PI_MICRO: i64 = 785_398;

/// Division truncated toward zero, the rounding that all fixed-point
/// operations of this crate use.
pub open spec fn tdiv(n: int, d: int) -> int
    recommends
        d != 0,
{
    if (n < 0) != (d < 0) {
        -((abs(n) as int) / (abs(d) as int))
    } else {
        (abs(n) as int) / (abs(d) as int)
    }
}

/// Truncating division never grows the magnitude of a bounded dividend.
pub proof fn lemma_tdiv_magnitude(n: int, d: int, b: int)
    requires
        d > 0,
        0 <= b,
        -(b * d) <= n <= b * d,
    ensures
        -b <= tdiv(n, d) <= b,
{
    lemma_div_multiples_vanish(b, d);
    assert(d * b == b * d) by (nonlinear_arith);
    if n >= 0 {
        lemma_div_is_ordered(n, b * d, d);
        lemma_div_pos_is_pos(n, d);
    } else {
        lemma_div_is_ordered(-n, b * d, d);
        lemma_div_pos_is_pos(-n, d);
    }
}

/// Exact division: when `d` divides `n` evenly, truncating division agrees
/// with the mathematical quotient.
pub proof fn lemma_tdiv_exact(n: int, d: int)
    requires
        d > 0,
        n % d == 0,
    ensures
        tdiv(n, d) == n / d,
        tdiv(n, d) * d == n,
{
    lemma_fundamental_div_mod(n, d);
    let q = n / d;
    assert(n == d * q);
    assert(q * d == n && -n == d * (-q)) by (nonlinear_arith)
        requires
            n == d * q,
    ;
    if n < 0 {
        lemma_div_multiples_vanish(-q, d);
    }
}

/// Truncating division by a positive constant is monotone in magnitude:
/// dividing keeps the result within the dividend's magnitude when `d >= 1`.
pub proof fn lemma_tdiv_shrinks(n: int, d: int)
    requires
        d >= 1,
    ensures
        abs(tdiv(n, d)) <= abs(n),
        n >= 0 ==> 0 <= tdiv(n, d) <= n,
        n < 0 ==> n <= tdiv(n, d) <= 0,
{
    lemma_div_basics_4(abs(n) as int, d);
    lemma_div_basics_5(abs(n) as int, d);
}

/// The representative of an angle in the wrap interval `(-PI_MICRO, PI_MICRO]`,
/// congruent to `t` modulo one full turn.
pub open spec fn wrap(t: int) -> int {
    let m = t % (TWO_PI_MICRO as int);
    if m > PI_MICRO {
        m - TWO_PI_MICRO
    } else {
        m
    }
}

/// Wrap an angle in microradians into `(-PI_MICRO, PI_MICRO]`.
pub fn wrap_angle(t: i64) -> (r: i64)
    ensures
        r as int == wrap(t as int),
        -PI_MICRO < r <= PI_MICRO,
{
    let ghost tt: int = t as int;
    let ghost big: int = TWO_PI_MICRO as int;
    let tw: u64 = TWO_PI_MICRO as u64;
    let m: u64 = if t >= 0 {
        (t as u64) % tw
    } else {
        let ti: i128 = t as i128;
        let r2: u64 = (((-ti) as u128) % (tw as u128)) as u64;
        proof {
            let n = -tt;
            let q = n / big;
            lemma_fundamental_div_mod(n, big);
            if r2 == 0 {
                assert(tt == big * (-q) + 0) by (nonlinear_arith)
                    requires
                        n == big * q + r2,
                        n == -tt,
                        r2 == 0,
                ;
                lemma_mod_multiples_vanish(-q, 0, big);
                lemma_small_mod(0, big as nat);
            } else {
                assert(tt == (-q - 1) * big + (big - r2)) by (nonlinear_arith)
                    requires
                        n == big * q + r2,
                        n == -tt,
                ;
                lemma_fundamental_div_mod_converse_mod(tt, big, -q - 1, big - r2);
            }
        }
        if r2 == 0 {
            0
        } else {
            tw - r2
        }
    };
    proof {
        lemma_mod_division_less_than_divisor(tt, big);
        assert(m as int == tt % big);
    }
    if m > PI_MICRO as u64 {
        (m as i64) - TWO_PI_MICRO
    } else {
        m as i64
    }
}

/// Executable truncating fixed-point combination `a * b / d`, computed with
/// 128-bit intermediates so only the quotient needs to fit.
pub fn mul_div(a: i64, b: i64, d: i64) -> (r: i64)
    requires
        d != 0,
        -0x7fff_ffff_ffff_ffff <= tdiv(a as int * b as int, d as int) <= 0x7fff_ffff_ffff_ffff,
    ensures
        r as int == tdiv(a as int * b as int, d as int),
{
    let ghost p: int = (a as int) * (b as int);
    let ghost dd: int = d as int;
    let ai: i128 = a as i128;
    let bi: i128 = b as i128;
    let di: i128 = d as i128;
    let ma: u128 = if ai < 0 { (-ai) as u128 } else { ai as u128 };
    let mb: u128 = if bi < 0 { (-bi) as u128 } else { bi as u128 };
    let md: u128 = if di < 0 { (-di) as u128 } else { di as u128 };
    proof {
        assert(ma == abs(a as int) && mb == abs(b as int) && md == abs(dd));
        assert(ma * mb == abs(p) && abs(p) <= 0x8000_0000_0000_0000 * 0x8000_0000_0000_0000)
            by (nonlinear_arith)
            requires
                ma == abs(a as int),
                mb == abs(b as int),
                p == (a as int) * (b as int),
                ma <= 0x8000_0000_0000_0000u128,
                mb <= 0x8000_0000_0000_0000u128,
        ;
    }
    let q: u128 = (ma * mb) / md;
    let neg: bool = ((a < 0) != (b < 0)) != (d < 0);
    proof {
        lemma_div_pos_is_pos(abs(p) as int, abs(dd) as int);
        assert(q == abs(p) / abs(dd));
        assert(abs(tdiv(p, dd)) == abs(p) / abs(dd));
        if p != 0 {
            assert((p < 0) == ((a < 0) != (b < 0))) by (nonlinear_arith)
                requires
                    p == (a as int) * (b as int),
                    p != 0,
            ;
        } else {
            lemma_div_of0(abs(dd) as int);
            assert(q == 0);
        }
    }
    if neg {
        -(q as i64)
    } else {
        q as i64
    }
}

/// Taylor polynomial for sine on `[0, QUARTER_PI_MICRO]`, in micro-units:
/// `x - x^3/6 + x^5/120 - x^7/5040`, every product scaled back by `SCALE`.
pub open spec fn sin_poly(x: int) -> int {
    let x2 = (x * x) / (SCALE as int);
    let x3 = (x2 * x) / (SCALE as int);
    let x5 = (x3 * x2) / (SCALE as int);
    let x7 = (x5 * x2) / (SCALE as int);
    x - x3 / 6 + x5 / 120 - x7 / 5040
}

/// Taylor polynomial for cosine on `[0, QUARTER_PI_MICRO]`, in micro-units:
/// `1 - x^2/2 + x^4/24 - x^6/720 + x^8/40320`.
pub open spec fn cos_poly(x: int) -> int {
    let x2 = (x * x) / (SCALE as int);
    let x4 = (x2 * x2) / (SCALE as int);
    let x6 = (x4 * x2) / (SCALE as int);
    let x8 = (x6 * x2) / (SCALE as int);
    SCALE - x2 / 2 + x4 / 24 - x6 / 720 + x8 / 40320
}

/// Sine on `[0, HALF_PI_MICRO]`, folded onto the polynomials at a quarter turn.
pub open spec fn sin_quarter(y: int) -> int {
    if y > QUARTER_PI_MICRO {
        cos_poly(HALF_PI_MICRO - y)
    } else {
        sin_poly(y)
    }
}

/// Cosine on `[0, HALF_PI_MICRO]`, folded onto the polynomials at a quarter turn.
pub open spec fn cos_quarter(y: int) -> int {
    if y > QUARTER_PI_MICRO {
        sin_poly(HALF_PI_MICRO - y)
    } else {
        cos_poly(y)
    }
}

/// Sine on `[0, PI_MICRO]`, folded onto the first quadrant at a half turn.
pub open spec fn sin_abs(x: int) -> int {
    if x > HALF_PI_MICRO {
        sin_quarter(PI_MICRO - x)
    } else {
        sin_quarter(x)
    }
}

/// Cosine on `[0, PI_MICRO]`, folded onto the first quadrant at a half turn.
pub open spec fn cos_abs(x: int) -> int {
    if x > HALF_PI_MICRO {
        -cos_quarter(PI_MICRO - x)
    } else {
        cos_quarter(x)
    }
}

/// Sine of a wrapped angle in microradians, in micro-units.
pub open spec fn sin_s(t: int) -> int {
    if t < 0 {
        -sin_abs(-t)
    } else {
        sin_abs(t)
    }
}

/// Cosine of a wrapped angle in microradians, in micro-units.
pub open spec fn cos_s(t: int) -> int {
    if t < 0 {
        cos_abs(-t)
    } else {
        cos_abs(t)
    }
}

/// Bounds for the scaled powers that both polynomials share.
proof fn lemma_poly_powers(x: int)
    requires
        0 <= x <= QUARTER_PI_MICRO,
    ensures
        0 <= (x * x) / (SCALE as int) <= SCALE,
        (x * x) / (SCALE as int) <= x,
        x * x <= 785_398 * 785_398,
{
    let s = SCALE as int;
    assert(0 <= x * x <= 785_398 * 785_398 && x * x <= x * s) by (nonlinear_arith)
        requires
            0 <= x <= 785_398,
            s == 1_000_000,
    ;
    lemma_div_pos_is_pos(x * x, s);
    lemma_div_is_ordered(x * x, s * s, s);
    lemma_div_multiples_vanish(s, s);
    lemma_div_is_ordered(x * x, x * s, s);
    lemma_div_multiples_vanish(x, s);
    assert(s * x == x * s) by (nonlinear_arith);
}

/// One scaled multiplication step: `u * v / SCALE` keeps below `v` when
/// `u` keeps below `SCALE`.
proof fn lemma_poly_step(u: int, v: int)
    requires
        0 <= u <= SCALE,
        0 <= v,
    ensures
        0 <= (v * u) / (SCALE as int) <= v,
        v * u <= v * SCALE,
{
    let s = SCALE as int;
    assert(v * u <= v * s) by (nonlinear_arith)
        requires
            0 <= v,
            u <= s,
    ;
    lemma_div_pos_is_pos(v * u, s);
    lemma_div_is_ordered(v * u, v * s, s);
    lemma_div_multiples_vanish(v, s);
    assert(s * v == v * s) by (nonlinear_arith);
}

/// The sine polynomial stays within `[0, x]` on its domain.
pub proof fn lemma_sin_poly_bounds(x: int)
    requires
        0 <= x <= QUARTER_PI_MICRO,
    ensures
        0 <= sin_poly(x) <= x,
{
    let s = SCALE as int;
    let x2 = (x * x) / s;
    let x3 = (x2 * x) / s;
    let x5 = (x3 * x2) / s;
    let x7 = (x5 * x2) / s;
    lemma_poly_powers(x);
    lemma_poly_step(x2, x2);
    lemma_poly_step(x2, x3);
    lemma_poly_step(x2, x5);
    assert(x2 * x <= s * x) by (nonlinear_arith)
        requires
            0 <= x,
            x2 <= s,
    ;
    lemma_div_pos_is_pos(x2 * x, s);
    lemma_div_is_ordered(x2 * x, s * x, s);
    lemma_div_multiples_vanish(x, s);
    assert(0 <= x3 <= x);
    assert(0 <= x5 <= x3);
    assert(0 <= x7 <= x5);
    // upper bound: the positive correction x5/120 is dominated by x3/6
    lemma_div_is_ordered(x5, x3, 120);
    lemma_div_is_ordered_by_denominator(x3, 6, 120);
    lemma_div_pos_is_pos(x7, 5040);
    // lower bound: both subtracted terms fit inside x
    lemma_div_is_ordered(x3, x, 6);
    lemma_div_is_ordered(x7, x, 5040);
    lemma_div_is_ordered_by_denominator(x, 2, 6);
    lemma_div_is_ordered_by_denominator(x, 2, 5040);
    lemma_fundamental_div_mod(x, 2);
    lemma_mod_division_less_than_divisor(x, 2);
    lemma_div_pos_is_pos(x5, 120);
}

/// The cosine polynomial stays within `[0, SCALE]` on its domain.
pub proof fn lemma_cos_poly_bounds(x: int)
    requires
        0 <= x <= QUARTER_PI_MICRO,
    ensures
        0 <= cos_poly(x) <= SCALE,
{
    let s = SCALE as int;
    let x2 = (x * x) / s;
    let x4 = (x2 * x2) / s;
    let x6 = (x4 * x2) / s;
    let x8 = (x6 * x2) / s;
    lemma_poly_powers(x);
    lemma_poly_step(x2, x2);
    lemma_poly_step(x2, x4);
    lemma_poly_step(x2, x6);
    assert(0 <= x4 <= x2);
    assert(0 <= x6 <= x4);
    assert(0 <= x8 <= x6);
    // upper bound: each positive correction is dominated by the preceding term
    lemma_div_is_ordered(x4, x2, 24);
    lemma_div_is_ordered_by_denominator(x2, 2, 24);
    lemma_div_is_ordered(x8, x6, 40320);
    lemma_div_is_ordered_by_denominator(x6, 720, 40320);
    lemma_div_pos_is_pos(x6, 720);
    lemma_div_pos_is_pos(x8, 40320);
    // lower bound: the subtracted terms stay below SCALE / 2 + SCALE / 720
    lemma_div_is_ordered(x2, s, 2);
    lemma_div_is_ordered(x6, s, 720);
    lemma_div_pos_is_pos(x2, 2);
    lemma_div_pos_is_pos(x4, 24);
}

/// Sine over `[0, PI_MICRO]` stays within `[0, SCALE]`.
pub proof fn lemma_sin_abs_bounds(x: int)
    requires
        0 <= x <= PI_MICRO,
    ensures
        0 <= sin_abs(x) <= SCALE,
{
    if x > HALF_PI_MICRO {
        lemma_sin_quarter_bounds(PI_MICRO - x);
    } else {
        lemma_sin_quarter_bounds(x);
    }
}

/// Sine over `[0, HALF_PI_MICRO]` stays within `[0, SCALE]`.
pub proof fn lemma_sin_quarter_bounds(y: int)
    requires
        0 <= y <= HALF_PI_MICRO,
    ensures
        0 <= sin_quarter(y) <= SCALE,
{
    if y > QUARTER_PI_MICRO {
        lemma_cos_poly_bounds(HALF_PI_MICRO - y);
    } else {
        lemma_sin_poly_bounds(y);
    }
}

/// Cosine over `[0, HALF_PI_MICRO]` stays within `[0, SCALE]`.
pub proof fn lemma_cos_quarter_bounds(y: int)
    requires
        0 <= y <= HALF_PI_MICRO,
    ensures
        0 <= cos_quarter(y) <= SCALE,
{
    if y > QUARTER_PI_MICRO {
        lemma_sin_poly_bounds(HALF_PI_MICRO - y);
    } else {
        lemma_cos_poly_bounds(y);
    }
}

/// Both trigonometric values stay within `[-SCALE, SCALE]` on the wrap interval.
pub proof fn lemma_trig_bounds(t: int)
    requires
        -PI_MICRO <= t <= PI_MICRO,
    ensures
        -SCALE <= sin_s(t) <= SCALE,
        -SCALE <= cos_s(t) <= SCALE,
        t >= 0 ==> sin_s(t) >= 0,
        t <= 0 ==> sin_s(t) <= 0,
{
    let x = if t < 0 { -t } else { t };
    lemma_sin_abs_bounds(x);
    if x > HALF_PI_MICRO {
        lemma_cos_quarter_bounds(PI_MICRO - x);
    } else {
        lemma_cos_quarter_bounds(x);
    }
}

/// Evaluate the sine polynomial on `[0, QUARTER_PI_MICRO]`.
fn sin_poly_exec(x: u64) -> (r: u64)
    requires
        x <= QUARTER_PI_MICRO as u64,
    ensures
        r as int == sin_poly(x as int),
        r <= SCALE as u64,
{
    let ghost xi: int = x as int;
    let ghost si: int = SCALE as int;
    let s: u64 = SCALE as u64;
    proof {
        lemma_poly_powers(xi);
    }
    let x2: u64 = x * x / s;
    proof {
        assert((x2 * x) as int == (xi * xi) / si * xi) by (nonlinear_arith)
            requires
                x2 as int == (xi * xi) / si,
                x as int == xi,
                0 <= x2 <= 1_000_000,
                0 <= x <= 785_398,
        ;
        lemma_poly_step(x2 as int, xi);
        assert(xi * (x2 as int) == (x2 as int) * xi) by (nonlinear_arith);
    }
    let x3: u64 = x2 * x / s;
    proof {
        lemma_poly_step(x2 as int, x3 as int);
        assert((x3 * x2) as int == (x3 as int) * (x2 as int)) by (nonlinear_arith)
            requires
                0 <= x3 as int <= 785_398,
                0 <= x2 as int <= 1_000_000,
        ;
    }
    let x5: u64 = x3 * x2 / s;
    proof {
        lemma_poly_step(x2 as int, x5 as int);
        assert((x5 * x2) as int == (x5 as int) * (x2 as int)) by (nonlinear_arith)
            requires
                0 <= x5 as int <= 785_398,
                0 <= x2 as int <= 1_000_000,
        ;
    }
    let x7: u64 = x5 * x2 / s;
    proof {
        lemma_sin_poly_bounds(xi);
    }
    x + x5 / 120 - (x3 / 6 + x7 / 5040)
}

/// Evaluate the cosine polynomial on `[0, QUARTER_PI_MICRO]`.
fn cos_poly_exec(x: u64) -> (r: u64)
    requires
        x <= QUARTER_PI_MICRO as u64,
    ensures
        r as int == cos_poly(x as int),
        r <= SCALE as u64,
{
    let ghost xi: int = x as int;
    let s: u64 = SCALE as u64;
    proof {
        lemma_poly_powers(xi);
    }
    let x2: u64 = x * x / s;
    proof {
        lemma_poly_step(x2 as int, x2 as int);
        assert((x2 * x2) as int == (x2 as int) * (x2 as int)) by (nonlinear_arith)
            requires
                0 <= x2 as int <= 1_000_000,
        ;
    }
    let x4: u64 = x2 * x2 / s;
    proof {
        lemma_poly_step(x2 as int, x4 as int);
        assert((x4 * x2) as int == (x4 as int) * (x2 as int)) by (nonlinear_arith)
            requires
                0 <= x4 as int <= 1_000_000,
                0 <= x2 as int <= 1_000_000,
        ;
    }
    let x6: u64 = x4 * x2 / s;
    proof {
        lemma_poly_step(x2 as int, x6 as int);
        assert((x6 * x2) as int == (x6 as int) * (x2 as int)) by (nonlinear_arith)
            requires
                0 <= x6 as int <= 1_000_000,
                0 <= x2 as int <= 1_000_000,
        ;
    }
    let x8: u64 = x6 * x2 / s;
    proof {
        lemma_cos_poly_bounds(xi);
    }
    s + x4 / 24 + x8 / 40320 - (x2 / 2 + x6 / 720)
}

/// Sine and cosine of a wrapped angle, in micro-units.
pub fn sin_cos(t: i64) -> (r: (i64, i64))
    requires
        -PI_MICRO <= t <= PI_MICRO,
    ensures
        r.0 as int == sin_s(t as int),
        r.1 as int == cos_s(t as int),
        -SCALE <= r.0 <= SCALE,
        -SCALE <= r.1 <= SCALE,
{
    proof {
        lemma_trig_bounds(t as int);
    }
    let neg: bool = t < 0;
    let x: u64 = if neg {
        (-t) as u64
    } else {
        t as u64
    };
    let folded: bool = x > HALF_PI_MICRO as u64;
    let y: u64 = if folded {
        (PI_MICRO as u64) - x
    } else {
        x
    };
    let sq: u64;
    let cq: u64;
    if y > QUARTER_PI_MICRO as u64 {
        let z: u64 = (HALF_PI_MICRO as u64) - y;
        sq = cos_poly_exec(z);
        cq = sin_poly_exec(z);
    } else {
        sq = sin_poly_exec(y);
        cq = cos_poly_exec(y);
    }
    proof {
        lemma_sin_quarter_bounds(y as int);
        lemma_cos_quarter_bounds(y as int);
        assert(sq as int == sin_quarter(y as int));
        assert(cq as int == cos_quarter(y as int));
    }
    let smag: i64 = sq as i64;
    let cmag: i64 = cq as i64;
    let cval: i64 = if folded {
        -cmag
    } else {
        cmag
    };
    let sval: i64 = if neg {
        -smag
    } else {
        smag
    };
    (sval, cval)
}

/// A quotient `a * f / d` keeps within `k` times `a` when `f` keeps within
/// `k` times `d`.
pub proof fn lemma_tdiv_product_bound(a: int, f: int, d: int, k: int)
    requires
        d != 0,
        0 <= k,
        abs(f) <= k * abs(d),
    ensures
        abs(tdiv(a * f, d)) <= k * abs(a),
{
    let n = abs(a * f) as int;
    let m = (k * abs(a)) as int;
    assert(abs(a * f) == abs(a) * abs(f) && abs(a) * abs(f) <= (k * abs(a)) * abs(d))
        by (nonlinear_arith)
        requires
            abs(f) <= k * abs(d),
            0 <= k,
            abs(a) == abs(a as int),
            abs(a * f) == abs((a * f) as int),
            abs(d) == abs(d as int),
    ;
    lemma_div_is_ordered(n, m * (abs(d) as int), abs(d) as int);
    lemma_div_multiples_vanish(m, abs(d) as int);
    assert((abs(d) as int) * m == m * (abs(d) as int)) by (nonlinear_arith);
    lemma_div_pos_is_pos(n, abs(d) as int);
    assert(abs(tdiv(a * f, d)) == n / (abs(d) as int));
}

/// Whole turns vanish under wrapping.
pub proof fn lemma_wrap_full_turn(u: int, c: int)
    ensures
        wrap(u + c * TWO_PI_MICRO) == wrap(u),
{
    let big = TWO_PI_MICRO as int;
    lemma_mod_multiples_vanish(c, u, big);
    assert(u + c * big == big * c + u) by (nonlinear_arith);
}

/// Angles already inside the wrap interval are left unchanged.
pub proof fn lemma_wrap_small(t: int)
    requires
        -PI_MICRO < t <= PI_MICRO,
    ensures
        wrap(t) == t,
{
    let big = TWO_PI_MICRO as int;
    if t >= 0 {
        lemma_small_mod(t as nat, big as nat);
    } else {
        lemma_mod_add_multiples_vanish(t, big);
        lemma_small_mod((t + big) as nat, big as nat);
    }
}

/// On small magnitudes the sine, and one minus the cosine, keep within
/// twice the angle.
pub proof fn lemma_trig_small(x: int)
    requires
        0 <= x < SCALE,
    ensures
        0 <= sin_abs(x) <= 2 * x,
        0 <= SCALE - cos_abs(x) <= 2 * x,
{
    let s = SCALE as int;
    if x <= QUARTER_PI_MICRO {
        lemma_sin_poly_bounds(x);
        lemma_cos_poly_bounds(x);
        // one minus cosine is at most x: the subtracted terms keep below x/2 each
        let x2 = (x * x) / s;
        let x4 = (x2 * x2) / s;
        let x6 = (x4 * x2) / s;
        let x8 = (x6 * x2) / s;
        lemma_poly_powers(x);
        lemma_poly_step(x2, x2);
        lemma_poly_step(x2, x4);
        lemma_poly_step(x2, x6);
        lemma_div_is_ordered(x2, x, 2);
        lemma_div_is_ordered(x6, x, 720);
        lemma_div_is_ordered_by_denominator(x, 2, 720);
        lemma_fundamental_div_mod(x, 2);
        lemma_mod_division_less_than_divisor(x, 2);
        lemma_div_pos_is_pos(x4, 24);
        lemma_div_pos_is_pos(x8, 40320);
        lemma_div_pos_is_pos(x2, 2);
        lemma_div_pos_is_pos(x6, 720);
    } else {
        // beyond a quarter turn the value is at most SCALE, and 2 x exceeds SCALE
        lemma_sin_quarter_bounds(x);
        lemma_cos_quarter_bounds(x);
    }
}

/// A zero angle has sine zero and cosine one.
pub proof fn lemma_trig_zero()
    ensures
        sin_s(0) == 0,
        cos_s(0) == SCALE,
{
    lemma_div_of0(SCALE as int);
    assert(sin_poly(0) == 0);
    assert(cos_poly(0) == SCALE);
}

} // verus!
