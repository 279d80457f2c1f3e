//! Fixed-point arithmetic with six decimal places.
//!
//! Every coordinate, angle and configuration knob in this crate is an `i64`
//! holding the underlying real value multiplied by [`FX_ONE`] (micro-units).
//! Products and quotients truncate toward zero; the spec functions below
//! state that truncation exactly, so callers reason about precise values.

use vstd::arithmetic::div_mod::{
    lemma_div_by_multiple, lemma_div_is_ordered, lemma_div_pos_is_pos,
    lemma_fundamental_div_mod, lemma_fundamental_div_mod_converse_mod,
    lemma_mod_division_less_than_divisor,
};
use vstd::prelude::*;

verus! {

/// One unit, in fixed-point representation: six decimal places.
pub const FX_ONE: i64 = 1_000_000;

/// The half turn (pi radians) in fixed-point.
pub const PI_FX: i64 = 3_141_593;

/// The full turn (two pi radians) in fixed-point; exactly twice `PI_FX`.
pub const TWO_PI_FX: i64 = 6_283_186;

/// A quarter turn (pi/2 radians) in fixed-point.
pub const HALF_PI_FX: i64 = 1_570_796;

/// `PI_FX * PI_FX / FX_ONE`: pi squared in fixed-point.
pub const PI_SQ_FX: i64 = 9_869_606;

/// The square root of two hundred, in fixed-point.
pub const SQRT_200_FX: i64 = 14_142_135;

/// The absolute value of a mathematical integer.
pub open spec fn abs_v(a: int) -> int {
    if a >= 0 {
        a
    } else {
        -a
    }
}

/// The larger of the absolute values of two integers.
pub open spec fn max_abs_v(a: int, b: int) -> int {
    if abs_v(a) >= abs_v(b) {
        abs_v(a)
    } else {
        abs_v(b)
    }
}

/// Division truncating toward zero (the machine's signed division), for a
/// positive divisor.
pub open spec fn tdiv(a: int, b: int) -> int {
    if a >= 0 {
        a / b
    } else {
        -((-a) / b)
    }
}

/// The fixed-point product: `a * b / FX_ONE`, truncated toward zero.
pub open spec fn fx_mul_v(a: int, b: int) -> int {
    tdiv(a * b, FX_ONE as int)
}

/// The fixed-point quotient: `a * FX_ONE / b`, truncated toward zero.
pub open spec fn fx_div_v(a: int, b: int) -> int {
    if b > 0 {
        tdiv(a * (FX_ONE as int), b)
    } else {
        tdiv(-(a * (FX_ONE as int)), -b)
    }
}

/// Truncation toward zero never increases magnitude, and is monotone in the
/// magnitude of the numerator.
pub proof fn lemma_tdiv_le(a: int, b: int, d: int)
    requires
        0 <= a <= b,
        0 < d,
    ensures
        0 <= tdiv(a, d) <= tdiv(b, d),
        tdiv(b, d) <= b,
{
    lemma_div_is_ordered(a, b, d);
    lemma_div_pos_is_pos(a, d);
    lemma_div_pos_is_pos(b, d);
    assert(b <= b * d) by (nonlinear_arith)
        requires
            0 <= b,
            1 <= d,
    ;
    lemma_div_is_ordered(b, b * d, d);
    lemma_div_by_multiple(b, d);
}

/// Truncation toward zero is monotone in the numerator.
pub proof fn lemma_tdiv_mono(a: int, b: int, d: int)
    requires
        a <= b,
        0 < d,
    ensures
        tdiv(a, d) <= tdiv(b, d),
{
    if a >= 0 {
        lemma_div_is_ordered(a, b, d);
    } else if b < 0 {
        lemma_div_is_ordered(-b, -a, d);
    } else {
        lemma_div_pos_is_pos(-a, d);
        lemma_div_pos_is_pos(b, d);
    }
}

/// Truncation toward zero commutes with absolute value.
pub proof fn lemma_tdiv_abs(a: int, d: int)
    requires
        0 < d,
    ensures
        abs_v(tdiv(a, d)) == tdiv(abs_v(a), d),
{
    if a >= 0 {
        lemma_div_pos_is_pos(a, d);
    } else {
        lemma_div_pos_is_pos(-a, d);
    }
}

/// A magnitude bound on a fixed-point product, from magnitude bounds on the
/// factors.
pub proof fn lemma_fx_mul_bound(a: int, b: int, aa: int, bb: int)
    requires
        abs_v(a) <= aa,
        abs_v(b) <= bb,
    ensures
        abs_v(fx_mul_v(a, b)) <= tdiv(aa * bb, FX_ONE as int),
        tdiv(aa * bb, FX_ONE as int) <= aa * bb,
{
    assert(abs_v(a * b) == abs_v(a) * abs_v(b)) by (nonlinear_arith);
    assert(abs_v(a) * abs_v(b) <= aa * bb) by (nonlinear_arith)
        requires
            0 <= abs_v(a) <= aa,
            0 <= abs_v(b) <= bb,
    ;
    lemma_tdiv_abs(a * b, FX_ONE as int);
    lemma_tdiv_le(abs_v(a * b), aa * bb, FX_ONE as int);
}

/// The fixed-point product is monotone in both non-negative factors.
pub proof fn lemma_fx_mul_mono(a: int, a2: int, b: int, b2: int)
    requires
        0 <= a <= a2,
        0 <= b <= b2,
    ensures
        0 <= fx_mul_v(a, b) <= fx_mul_v(a2, b2),
{
    assert(0 <= a * b <= a2 * b2) by (nonlinear_arith)
        requires
            0 <= a <= a2,
            0 <= b <= b2,
    ;
    lemma_tdiv_le(a * b, a2 * b2, FX_ONE as int);
}

/// A fixed-point product with a factor of at most one unit keeps the
/// magnitude of the other factor.
pub proof fn lemma_fx_scale(d: int, t: int, lim: int)
    requires
        abs_v(d) <= lim,
        0 <= lim,
        -(FX_ONE as int) <= t <= FX_ONE as int,
    ensures
        abs_v(fx_mul_v(d, t)) <= lim,
{
    lemma_fx_mul_bound(d, t, lim, FX_ONE as int);
    lemma_div_by_multiple(lim, FX_ONE as int);
}

/// The fixed-point product of the machine: exact per [`fx_mul_v`].
pub fn fx_mul(a: i64, b: i64) -> (r: i64)
    requires
        a > i64::MIN,
        b > i64::MIN,
        -(i64::MAX as int) <= fx_mul_v(a as int, b as int) <= i64::MAX as int,
    ensures
        r as int == fx_mul_v(a as int, b as int),
{
    let neg: bool = (a < 0) != (b < 0);
    let ua: u64 = if a < 0 {
        (-a) as u64
    } else {
        a as u64
    };
    let ub: u64 = if b < 0 {
        (-b) as u64
    } else {
        b as u64
    };
    proof {
        assert(ua as int == abs_v(a as int));
        assert(ub as int == abs_v(b as int));
        assert((ua as int) * (ub as int) < 0x1_0000_0000_0000_0000_0000_0000_0000_0000int)
            by (nonlinear_arith)
            requires
                0 <= (ua as int) && (ua as int) < 0x1_0000_0000_0000_0000int,
                0 <= (ub as int) && (ub as int) < 0x1_0000_0000_0000_0000int,
        ;
    }
    let p: u128 = (ua as u128) * (ub as u128);
    let q: u128 = p / (FX_ONE as u128);
    proof {
        assert(abs_v((a as int) * (b as int)) == (ua as int) * (ub as int)) by (nonlinear_arith)
            requires
                ua as int == abs_v(a as int),
                ub as int == abs_v(b as int),
        ;
        lemma_tdiv_abs((a as int) * (b as int), FX_ONE as int);
        assert(q as int == tdiv(abs_v((a as int) * (b as int)), FX_ONE as int));
        assert(q as int == abs_v(fx_mul_v(a as int, b as int)));
        if neg {
            assert((a as int) * (b as int) <= 0) by (nonlinear_arith)
                requires
                    ((a as int) < 0) != ((b as int) < 0),
            ;
        } else {
            assert((a as int) * (b as int) >= 0) by (nonlinear_arith)
                requires
                    ((a as int) < 0) == ((b as int) < 0),
            ;
        }
    }
    if neg {
        -(q as i64)
    } else {
        q as i64
    }
}

/// Signed division by a positive divisor, truncating toward zero.
pub fn idiv(a: i64, d: i64) -> (r: i64)
    requires
        a > i64::MIN,
        d > 0,
    ensures
        r as int == tdiv(a as int, d as int),
        abs_v(r as int) <= abs_v(a as int),
{
    proof {
        lemma_tdiv_abs(a as int, d as int);
        lemma_tdiv_le(abs_v(a as int), abs_v(a as int), d as int);
    }
    if a >= 0 {
        ((a as u64) / (d as u64)) as i64
    } else {
        -((((-a) as u64) / (d as u64)) as i64)
    }
}

/// The fixed-point quotient of the machine: exact per [`fx_div_v`].
pub fn fx_div(a: i64, b: i64) -> (r: i64)
    requires
        a > i64::MIN,
        b != 0,
        b > i64::MIN,
        -(i64::MAX as int) <= fx_div_v(a as int, b as int) <= i64::MAX as int,
    ensures
        r as int == fx_div_v(a as int, b as int),
{
    let neg: bool = (a < 0) != (b < 0);
    let ua: u64 = if a < 0 {
        (-a) as u64
    } else {
        a as u64
    };
    let ub: u64 = if b < 0 {
        (-b) as u64
    } else {
        b as u64
    };
    proof {
        assert((ua as int) * (FX_ONE as int) < 0x1_0000_0000_0000_0000_0000_0000_0000_0000int)
            by (nonlinear_arith)
            requires
                0 <= (ua as int) && (ua as int) < 0x1_0000_0000_0000_0000int,
        ;
    }
    let p: u128 = (ua as u128) * (FX_ONE as u128);
    let q: u128 = p / (ub as u128);
    proof {
        let n: int = (a as int) * (FX_ONE as int);
        assert(abs_v(n) == (ua as int) * (FX_ONE as int)) by (nonlinear_arith)
            requires
                ua as int == abs_v(a as int),
                n == (a as int) * (FX_ONE as int),
        ;
        lemma_tdiv_abs(n, ub as int);
        lemma_tdiv_abs(-n, ub as int);
        assert(q as int == tdiv(abs_v(n), ub as int));
        if b > 0 {
            assert(fx_div_v(a as int, b as int) == tdiv(n, ub as int));
            if a >= 0 {
                assert(n >= 0) by (nonlinear_arith)
                    requires
                        a as int >= 0,
                        n == (a as int) * (FX_ONE as int),
                ;
            } else {
                assert(n < 0) by (nonlinear_arith)
                    requires
                        (a as int) < 0,
                        n == (a as int) * (FX_ONE as int),
                ;
            }
        } else {
            assert(fx_div_v(a as int, b as int) == tdiv(-n, ub as int));
            if a >= 0 {
                assert(n >= 0) by (nonlinear_arith)
                    requires
                        a as int >= 0,
                        n == (a as int) * (FX_ONE as int),
                ;
            } else {
                assert(n < 0) by (nonlinear_arith)
                    requires
                        (a as int) < 0,
                        n == (a as int) * (FX_ONE as int),
                ;
            }
        }
    }
    if neg {
        -(q as i64)
    } else {
        q as i64
    }
}

/// The integer square root: the unique `r` with `r*r <= n < (r+1)*(r+1)`.
pub fn isqrt_u128(n: u128) -> (r: u64)
    ensures
        (r as int) * (r as int) <= n as int,
        (n as int) < ((r as int) + 1) * ((r as int) + 1),
{
    let mut lo: u128 = 0;
    let mut hi: u128 = 0x1_0000_0000_0000_0000;
    proof {
        assert((hi as int) * (hi as int) > u128::MAX as int) by (nonlinear_arith)
            requires
                hi as int == 0x1_0000_0000_0000_0000int,
        ;
    }
    while lo + 1 < hi
        invariant
            (lo as int) * (lo as int) <= n as int,
            (n as int) < (hi as int) * (hi as int),
            lo < hi <= 0x1_0000_0000_0000_0000,
        decreases hi - lo,
    {
        let mid: u128 = lo + (hi - lo) / 2;
        proof {
            assert((mid as int) * (mid as int) <= u128::MAX as int) by (nonlinear_arith)
                requires
                    0 <= (mid as int) && (mid as int) <= 0xffff_ffff_ffff_ffffint,
            ;
        }
        if mid * mid <= n {
            lo = mid;
        } else {
            hi = mid;
        }
    }
    lo as u64
}

/// The fixed-point length of the vector `(dx, dy)`: the integer square root
/// of `dx*dx + dy*dy`, which in micro-units is the Euclidean length.
pub fn fx_hypot(dx: i64, dy: i64) -> (r: i64)
    requires
        abs_v(dx as int) <= 1_000_000_000_000_000,
        abs_v(dy as int) <= 1_000_000_000_000_000,
    ensures
        0 <= r <= 1_500_000_000_000_000,
        (r as int) * (r as int) <= (dx as int) * (dx as int) + (dy as int) * (dy as int),
        (dx as int) * (dx as int) + (dy as int) * (dy as int) < ((r as int) + 1) * ((r as int) + 1),
{
    let ux: u64 = if dx < 0 {
        (-dx) as u64
    } else {
        dx as u64
    };
    let uy: u64 = if dy < 0 {
        (-dy) as u64
    } else {
        dy as u64
    };
    proof {
        assert((ux as int) * (ux as int) == (dx as int) * (dx as int)) by (nonlinear_arith)
            requires
                ux as int == abs_v(dx as int),
        ;
        assert((uy as int) * (uy as int) == (dy as int) * (dy as int)) by (nonlinear_arith)
            requires
                uy as int == abs_v(dy as int),
        ;
        assert((ux as int) * (ux as int) <= 1_000_000_000_000_000_000_000_000_000_000int)
            by (nonlinear_arith)
            requires
                0 <= (ux as int) && (ux as int) <= 1_000_000_000_000_000int,
        ;
        assert((uy as int) * (uy as int) <= 1_000_000_000_000_000_000_000_000_000_000int)
            by (nonlinear_arith)
            requires
                0 <= (uy as int) && (uy as int) <= 1_000_000_000_000_000int,
        ;
    }
    let s: u128 = (ux as u128) * (ux as u128) + (uy as u128) * (uy as u128);
    let r: u64 = isqrt_u128(s);
    proof {
        assert(r as int <= 1_500_000_000_000_000int) by (nonlinear_arith)
            requires
                (r as int) * (r as int) <= 2_000_000_000_000_000_000_000_000_000_000int,
                r as int >= 0,
        ;
    }
    r as i64
}

/// The Euclidean remainder of an angle by the full turn: always in
/// `[0, TWO_PI_FX)`.
pub fn norm_angle(a: i64) -> (r: i64)
    requires
        a > i64::MIN,
    ensures
        r as int == (a as int) % (TWO_PI_FX as int),
        0 <= r < TWO_PI_FX,
{
    proof {
        lemma_mod_division_less_than_divisor(a as int, TWO_PI_FX as int);
    }
    if a >= 0 {
        ((a as u64) % (TWO_PI_FX as u64)) as i64
    } else {
        let m: u64 = ((-a) as u64) % (TWO_PI_FX as u64);
        proof {
            let na: int = -(a as int);
            let t: int = TWO_PI_FX as int;
            lemma_fundamental_div_mod(na, t);
            lemma_mod_division_less_than_divisor(na, t);
            let k: int = na / t;
            assert(na == t * k + (m as int));
            if m == 0 {
                assert(a as int == t * (-k) + 0) by (nonlinear_arith)
                    requires
                        -(a as int) == t * k + 0,
                ;
                lemma_fundamental_div_mod_converse_mod(a as int, t, -k, 0);
            } else {
                assert(a as int == t * (-k - 1) + (t - m as int)) by (nonlinear_arith)
                    requires
                        -(a as int) == t * k + (m as int),
                ;
                lemma_fundamental_div_mod_converse_mod(a as int, t, -k - 1, t - m as int);
            }
        }
        if m == 0 {
            0
        } else {
            (TWO_PI_FX as u64 - m) as i64
        }
    }
}

/// The rational sine approximation on `[0, pi]`:
/// `16 x (pi - x) / (5 pi^2 - 4 x (pi - x))`, in fixed-point.
#[verifier::opaque]
pub open spec fn bhaskara_v(x: int) -> int {
    let t = tdiv(x * ((PI_FX as int) - x), FX_ONE as int);
    tdiv(16 * t * (FX_ONE as int), 5 * (PI_SQ_FX as int) - 4 * t)
}

/// The fixed-point sine of an angle in fixed-point radians: the angle is
/// reduced to `[0, 2 pi)` and the half-turn symmetry applied to the rational
/// approximation on `[0, pi]`.
#[verifier::opaque]
pub open spec fn sin_fx_v(a: int) -> int {
    let n = a % (TWO_PI_FX as int);
    if n <= PI_FX {
        bhaskara_v(n)
    } else {
        -bhaskara_v(n - PI_FX)
    }
}

/// The fixed-point cosine: the sine shifted by a quarter turn.
#[verifier::opaque]
pub open spec fn cos_fx_v(a: int) -> int {
    sin_fx_v(a + HALF_PI_FX)
}

fn bhaskara(x: i64) -> (r: i64)
    requires
        0 <= x <= PI_FX,
    ensures
        r as int == bhaskara_v(x as int),
        0 <= r <= FX_ONE,
{
    proof {
        reveal(bhaskara_v);
    }
    let d: i64 = PI_FX - x;
    proof {
        assert((x as int) * (d as int) <= 9_869_606_577_649int) by (nonlinear_arith)
            requires
                0 <= (x as int) && (x as int) <= 3_141_593int,
                0 <= (d as int) && (d as int) <= 3_141_593int,
        ;
        assert(4 * ((x as int) * (d as int)) <= 9_869_606_577_649int) by (nonlinear_arith)
            requires
                0 <= x as int,
                0 <= d as int,
                (x as int) + (d as int) == 3_141_593int,
        ;
        assert((x as int) * (d as int) >= 0) by (nonlinear_arith)
            requires
                0 <= x as int,
                0 <= d as int,
        ;
    }
    let prod: i64 = x * d;
    let t: i64 = ((prod as u64) / (FX_ONE as u64)) as i64;
    proof {
        assert(t as int == tdiv((x as int) * ((PI_FX as int) - (x as int)), FX_ONE as int));
        lemma_div_is_ordered(prod as int, 2_467_401_644_412int, FX_ONE as int);
        assert(t as int <= 2_467_401int);
        lemma_div_pos_is_pos(prod as int, FX_ONE as int);
    }
    let num: i64 = 16 * t * FX_ONE;
    let den: i64 = 5 * PI_SQ_FX - 4 * t;
    proof {
        assert(den as int >= 39_478_426int);
        assert(num as int <= (den as int) * (FX_ONE as int));
        lemma_div_is_ordered(num as int, (den as int) * (FX_ONE as int), den as int);
        lemma_div_by_multiple(FX_ONE as int, den as int);
        assert(((den as int) * (FX_ONE as int)) / (den as int) == FX_ONE as int);
        lemma_div_pos_is_pos(num as int, den as int);
    }
    ((num as u64) / (den as u64)) as i64
}

/// The fixed-point sine of the machine: exact per [`sin_fx_v`], and always
/// within one unit of magnitude.
pub fn sin_fx(a: i64) -> (r: i64)
    requires
        a > i64::MIN,
    ensures
        r as int == sin_fx_v(a as int),
        -FX_ONE <= r <= FX_ONE,
{
    proof {
        reveal(sin_fx_v);
    }
    let n: i64 = norm_angle(a);
    if n <= PI_FX {
        bhaskara(n)
    } else {
        let b: i64 = bhaskara(n - PI_FX);
        -b
    }
}

/// The fixed-point cosine of the machine: exact per [`cos_fx_v`], and always
/// within one unit of magnitude.
pub fn cos_fx(a: i64) -> (r: i64)
    requires
        a > i64::MIN + HALF_PI_FX,
        a < i64::MAX - HALF_PI_FX,
    ensures
        r as int == cos_fx_v(a as int),
        -FX_ONE <= r <= FX_ONE,
{
    proof {
        reveal(cos_fx_v);
    }
    sin_fx(a + HALF_PI_FX)
}

/// Degrees to radians, both in fixed-point: `d * pi / 180`.
pub open spec fn deg_rad_v(d: int) -> int {
    tdiv(fx_mul_v(d, PI_FX as int), 180)
}

/// Converts a fixed-point angle in degrees to fixed-point radians.
pub fn deg_to_rad(d: i64) -> (r: i64)
    requires
        abs_v(d as int) <= 1_000_000_000,
    ensures
        r as int == deg_rad_v(d as int),
        abs_v(r as int) <= abs_v(d as int),
{
    proof {
        lemma_fx_mul_bound(d as int, PI_FX as int, abs_v(d as int), PI_FX as int);
        assert(abs_v(d as int) * (PI_FX as int) <= 3_141_593_000_000_000int) by (nonlinear_arith)
            requires
                0 <= abs_v(d as int) && abs_v(d as int) <= 1_000_000_000int,
        ;
    }
    let m: i64 = fx_mul(d, PI_FX);
    proof {
        let ad: int = abs_v(d as int);
        assert(ad * (PI_FX as int) <= (ad * 180) * (FX_ONE as int)) by (nonlinear_arith)
            requires
                0 <= ad,
        ;
        lemma_tdiv_le(0, ad * (PI_FX as int), FX_ONE as int);
        lemma_div_is_ordered(ad * (PI_FX as int), (ad * 180) * (FX_ONE as int), FX_ONE as int);
        lemma_div_by_multiple(ad * 180, FX_ONE as int);
        assert(abs_v(m as int) <= ad * 180);
        lemma_tdiv_abs(m as int, 180);
        lemma_tdiv_le(abs_v(m as int), ad * 180, 180);
        lemma_div_by_multiple(ad, 180);
    }
    idiv(m, 180)
}

} // verus!
