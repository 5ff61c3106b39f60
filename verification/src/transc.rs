//! Trigonometric and logarithmic functions on fixed-point values.
//!
//! Sine and cosine reduce the argument modulo 2*pi, fold it into a quarter
//! period, and evaluate a truncated Taylor series in Horner form; the
//! natural logarithm normalises the argument into [1, 2) against powers of
//! ten and two and sums a truncated artanh series. All arithmetic is
//! unsigned fixed-point with truncation at the 10^-12 grid; every result is
//! within a couple of grid units of the mathematical value on the inputs
//! the calculator meets.

use vstd::prelude::*;
use vstd::arithmetic::div_mod::lemma_div_is_ordered;
use vstd::arithmetic::div_mod::lemma_div_is_ordered_by_denominator;
use crate::ast::Op;
use crate::calculator::CalculatorError;
use crate::evaluator::apply_op_spec;
use crate::fx::{checked_div, fx_neg_s, fx_new_s, Fx, SCALE};

verus! {

/// 2*pi on the 10^-12 grid.
pub const TWO_PI: u128 = 6_283_185_307_180;

/// pi on the 10^-12 grid.
pub const PI_FX: u128 = 3_141_592_653_590;

/// pi/2 on the 10^-12 grid.
pub const HALF_PI: u128 = 1_570_796_326_795;

/// 3*pi/2 on the 10^-12 grid.
pub const PI_PLUS_HALF: u128 = 4_712_388_980_385;

/// ln 2 on the 10^-12 grid.
pub const LN_2: u128 = 693_147_180_560;

/// ln 10 on the 10^-12 grid.
pub const LN_10: u128 = 2_302_585_092_994;

/// Euler's number on the 10^-12 grid.
pub const E_FX: u128 = 2_718_281_828_459;

/// The fixed-point value of pi, as the `pi` constant resolves to.
pub fn pi_fx() -> (r: Fx)
    ensures
        r.wf(),
        !r.neg,
        r.mag == PI_FX,
{
    Fx { neg: false, mag: PI_FX }
}

/// The fixed-point value of Euler's number, as the `e` constant resolves to.
pub fn e_fx() -> (r: Fx)
    ensures
        r.wf(),
        !r.neg,
        r.mag == E_FX,
{
    Fx { neg: false, mag: E_FX }
}

/// Fixed-point product: `a * b` scaled back down, truncated.
fn mds(a: u128, b: u128) -> (r: u128)
    requires
        a <= 10_000_000_000_000_000,
        b <= 10_000_000_000_000_000,
    ensures
        r == (a as int) * (b as int) / (SCALE as int),
{
    proof {
        assert((a as int) * (b as int) <= 100_000_000_000_000_000_000_000_000_000_000int)
            by (nonlinear_arith)
            requires
                a <= 10_000_000_000_000_000,
                b <= 10_000_000_000_000_000,
        {
        }
    }
    (a * b) / SCALE
}

/// Products scaled down by `SCALE` are monotone in both factors.
proof fn lemma_mds_bound(a: int, b: int, aa: int, bb: int)
    requires
        0 <= a <= aa,
        0 <= b <= bb,
    ensures
        a * b / (SCALE as int) <= aa * bb / (SCALE as int),
{
    assert(a * b <= aa * bb) by (nonlinear_arith)
        requires
            0 <= a <= aa,
            0 <= b <= bb,
    {
    }
    lemma_div_is_ordered(a * b, aa * bb, SCALE as int);
}

/// Mirror of `sin_taylor`.
pub open spec fn sin_taylor_spec(t: int) -> int {
    let s = SCALE as int;
    let u = t * t / s;
    let f1 = s - (u * s / s) / 342;
    let f2 = s - (u * f1 / s) / 272;
    let f3 = s - (u * f2 / s) / 210;
    let f4 = s - (u * f3 / s) / 156;
    let f5 = s - (u * f4 / s) / 110;
    let f6 = s - (u * f5 / s) / 72;
    let f7 = s - (u * f6 / s) / 42;
    let f8 = s - (u * f7 / s) / 20;
    let f9 = s - (u * f8 / s) / 6;
    t * f9 / s
}

/// Sine of `t` for `t` in [0, pi/2], by a 9-term Taylor series in Horner
/// form: `sin t = t (1 - t^2/(2*3) (1 - t^2/(4*5) (1 - ...)))`.
fn sin_taylor(t: u128) -> (r: u128)
    requires
        t <= 1_600_000_000_000,
    ensures
        r <= 1_600_000_000_000,
        t == 0 ==> r == 0,
        r == sin_taylor_spec(t as int),
{
    let u: u128 = mds(t, t);
    proof {
        lemma_mds_bound(t as int, t as int, 1_600_000_000_000int, 1_600_000_000_000int);
    }
    assert(u <= 2_560_000_000_000);
    let mut f: u128 = SCALE;
    proof {
        lemma_mds_bound(u as int, f as int, 2_560_000_000_000int, SCALE as int);
    }
    f = SCALE - mds(u, f) / 342;
    proof {
        lemma_mds_bound(u as int, f as int, 2_560_000_000_000int, SCALE as int);
    }
    f = SCALE - mds(u, f) / 272;
    proof {
        lemma_mds_bound(u as int, f as int, 2_560_000_000_000int, SCALE as int);
    }
    f = SCALE - mds(u, f) / 210;
    proof {
        lemma_mds_bound(u as int, f as int, 2_560_000_000_000int, SCALE as int);
    }
    f = SCALE - mds(u, f) / 156;
    proof {
        lemma_mds_bound(u as int, f as int, 2_560_000_000_000int, SCALE as int);
    }
    f = SCALE - mds(u, f) / 110;
    proof {
        lemma_mds_bound(u as int, f as int, 2_560_000_000_000int, SCALE as int);
    }
    f = SCALE - mds(u, f) / 72;
    proof {
        lemma_mds_bound(u as int, f as int, 2_560_000_000_000int, SCALE as int);
    }
    f = SCALE - mds(u, f) / 42;
    proof {
        lemma_mds_bound(u as int, f as int, 2_560_000_000_000int, SCALE as int);
    }
    f = SCALE - mds(u, f) / 20;
    proof {
        lemma_mds_bound(u as int, f as int, 2_560_000_000_000int, SCALE as int);
    }
    f = SCALE - mds(u, f) / 6;
    proof {
        lemma_mds_bound(t as int, f as int, 1_600_000_000_000int, SCALE as int);
    }
    mds(t, f)
}

/// Mirror of `cos_taylor`.
pub open spec fn cos_taylor_spec(t: int) -> Fx {
    let s = SCALE as int;
    let u = t * t / s;
    let f1 = s - (u * s / s) / 306;
    let f2 = s - (u * f1 / s) / 240;
    let f3 = s - (u * f2 / s) / 182;
    let f4 = s - (u * f3 / s) / 132;
    let f5 = s - (u * f4 / s) / 90;
    let f6 = s - (u * f5 / s) / 56;
    let f7 = s - (u * f6 / s) / 30;
    let f8 = s - (u * f7 / s) / 12;
    let x = (u * f8 / s) / 2;
    if x >= s {
        fx_new_s(true, x - s)
    } else {
        fx_new_s(false, s - x)
    }
}

/// Cosine of `t` for `t` in [0, pi/2], by a 9-term Taylor series in Horner
/// form; the result can dip just below zero near pi/2, so it is signed.
fn cos_taylor(t: u128) -> (r: Fx)
    requires
        t <= 1_600_000_000_000,
    ensures
        r.wf(),
        r.mag <= 2 * SCALE,
        t == 0 ==> r.v() == SCALE as int,
        r == cos_taylor_spec(t as int),
{
    let u: u128 = mds(t, t);
    proof {
        lemma_mds_bound(t as int, t as int, 1_600_000_000_000int, 1_600_000_000_000int);
    }
    assert(u <= 2_560_000_000_000);
    let mut f: u128 = SCALE;
    proof {
        lemma_mds_bound(u as int, f as int, 2_560_000_000_000int, SCALE as int);
    }
    f = SCALE - mds(u, f) / 306;
    proof {
        lemma_mds_bound(u as int, f as int, 2_560_000_000_000int, SCALE as int);
    }
    f = SCALE - mds(u, f) / 240;
    proof {
        lemma_mds_bound(u as int, f as int, 2_560_000_000_000int, SCALE as int);
    }
    f = SCALE - mds(u, f) / 182;
    proof {
        lemma_mds_bound(u as int, f as int, 2_560_000_000_000int, SCALE as int);
    }
    f = SCALE - mds(u, f) / 132;
    proof {
        lemma_mds_bound(u as int, f as int, 2_560_000_000_000int, SCALE as int);
    }
    f = SCALE - mds(u, f) / 90;
    proof {
        lemma_mds_bound(u as int, f as int, 2_560_000_000_000int, SCALE as int);
    }
    f = SCALE - mds(u, f) / 56;
    proof {
        lemma_mds_bound(u as int, f as int, 2_560_000_000_000int, SCALE as int);
    }
    f = SCALE - mds(u, f) / 30;
    proof {
        lemma_mds_bound(u as int, f as int, 2_560_000_000_000int, SCALE as int);
    }
    f = SCALE - mds(u, f) / 12;
    proof {
        lemma_mds_bound(u as int, f as int, 2_560_000_000_000int, SCALE as int);
    }
    let x: u128 = mds(u, f) / 2;
    assert(x <= 1_280_000_000_000);
    if x >= SCALE {
        Fx::new(true, x - SCALE)
    } else {
        Fx::new(false, SCALE - x)
    }
}

/// Mirror of `sin_fx`.
pub open spec fn sin_fx_spec(x: Fx) -> Fx {
    let r0 = (x.mag as int) % (TWO_PI as int);
    let r = if x.neg && r0 > 0 {
        TWO_PI as int - r0
    } else {
        r0
    };
    if r <= HALF_PI as int {
        fx_new_s(false, sin_taylor_spec(r))
    } else if r <= PI_FX as int {
        fx_new_s(false, sin_taylor_spec(PI_FX as int - r))
    } else if r <= PI_PLUS_HALF as int {
        fx_new_s(true, sin_taylor_spec(r - PI_FX as int))
    } else {
        fx_new_s(true, sin_taylor_spec(TWO_PI as int - r))
    }
}

/// Sine: the argument is reduced modulo 2*pi and folded into [0, pi/2].
/// At an exact multiple of the grid's pi the result is exactly zero.
pub fn sin_fx(x: Fx) -> (r: Fx)
    requires
        x.wf(),
    ensures
        r.wf(),
        r == sin_fx_spec(x),
        x.mag % TWO_PI == 0 ==> r.v() == 0,
        (!x.neg && x.mag == PI_FX) ==> r.v() == 0,
{
    let r0: u128 = x.mag % TWO_PI;
    let r: u128 = if x.neg && r0 > 0 {
        TWO_PI - r0
    } else {
        r0
    };
    if r <= HALF_PI {
        Fx::new(false, sin_taylor(r))
    } else if r <= PI_FX {
        Fx::new(false, sin_taylor(PI_FX - r))
    } else if r <= PI_PLUS_HALF {
        Fx::new(true, sin_taylor(r - PI_FX))
    } else {
        Fx::new(true, sin_taylor(TWO_PI - r))
    }
}

/// Mirror of `cos_fx`.
pub open spec fn cos_fx_spec(x: Fx) -> Fx {
    let r = (x.mag as int) % (TWO_PI as int);
    if r <= HALF_PI as int {
        cos_taylor_spec(r)
    } else if r <= PI_FX as int {
        fx_neg_s(cos_taylor_spec(PI_FX as int - r))
    } else if r <= PI_PLUS_HALF as int {
        fx_neg_s(cos_taylor_spec(r - PI_FX as int))
    } else {
        cos_taylor_spec(TWO_PI as int - r)
    }
}

/// Cosine: the argument is reduced modulo 2*pi and folded into [0, pi/2];
/// cosine is even, so the sign of the argument is ignored. At an exact
/// multiple of the grid's 2*pi the result is exactly one.
pub fn cos_fx(x: Fx) -> (r: Fx)
    requires
        x.wf(),
    ensures
        r.wf(),
        r == cos_fx_spec(x),
        x.mag % TWO_PI == 0 ==> r.v() == SCALE as int,
{
    let r: u128 = x.mag % TWO_PI;
    if r <= HALF_PI {
        cos_taylor(r)
    } else if r <= PI_FX {
        cos_taylor(PI_FX - r).negate()
    } else if r <= PI_PLUS_HALF {
        cos_taylor(r - PI_FX).negate()
    } else {
        cos_taylor(TWO_PI - r)
    }
}

/// Mirror of `tan_fx`: the grid quotient of the sine and cosine mirrors,
/// with `DivisionByZero` for an exactly-zero cosine and `InvalidExpression`
/// for a quotient out of range.
pub open spec fn tan_fx_spec(x: Fx) -> Result<Fx, CalculatorError> {
    apply_op_spec(sin_fx_spec(x), Op::Div, cos_fx_spec(x))
}

/// Tangent: the quotient of sine and cosine; an exactly-zero cosine fails
/// with `DivisionByZero`, a quotient out of range with `InvalidExpression`.
pub fn tan_fx(x: Fx) -> (r: Result<Fx, CalculatorError>)
    requires
        x.wf(),
    ensures
        r == tan_fx_spec(x),
        r matches Ok(v) ==> v.wf(),
{
    let s = sin_fx(x);
    let c = cos_fx(x);
    if c.is_zero() {
        Err(CalculatorError::DivisionByZero)
    } else {
        match checked_div(s, c) {
            Some(v) => Ok(v),
            None => Err(CalculatorError::InvalidExpression),
        }
    }
}

/// Mirror of the decimal downward normalisation: divide by ten until the
/// value is below ten, counting the steps.
pub open spec fn norm_div10(m: int, e: int) -> (int, int)
    decreases 40 - e,
{
    if m >= 10 * (SCALE as int) && e < 40 {
        norm_div10(m / 10, e + 1)
    } else {
        (m, e)
    }
}

/// Mirror of the decimal upward normalisation: multiply by ten until the
/// value is at least one, counting the steps.
pub open spec fn norm_mul10(m: int, e: int) -> (int, int)
    decreases 40 - e,
{
    if m < SCALE as int && e < 40 {
        norm_mul10(m * 10, e + 1)
    } else {
        (m, e)
    }
}

/// Mirror of the binary normalisation: halve until the value is below two,
/// counting the steps.
pub open spec fn norm_div2(m: int, k: int) -> (int, int)
    decreases 8 - k,
{
    if m >= 2 * (SCALE as int) && k < 8 {
        norm_div2(m / 2, k + 1)
    } else {
        (m, k)
    }
}

/// Mirror of `ln_fx`: normalise into [1, 2) against powers of ten and two,
/// sum the truncated artanh series in Horner form, and recombine with the
/// counted multiples of ln 2 and ln 10.
pub open spec fn ln_fx_spec(x: Fx) -> Result<Fx, CalculatorError> {
    let s = SCALE as int;
    if x.neg || x.mag == 0 {
        Err(CalculatorError::InvalidExpression)
    } else if x.mag == SCALE {
        Ok(fx_new_s(false, 0))
    } else {
        let p1 = norm_div10(x.mag as int, 0);
        if p1.0 >= 10 * s {
            Err(CalculatorError::InvalidExpression)
        } else {
            let p2 = norm_mul10(p1.0, 0);
            if p2.0 < s {
                Err(CalculatorError::InvalidExpression)
            } else {
                let p3 = norm_div2(p2.0, 0);
                if p3.0 >= 2 * s {
                    Err(CalculatorError::InvalidExpression)
                } else {
                    let m = p3.0;
                    let t = (m - s) * s / (m + s);
                    let u = t * t / s;
                    let a1 = 43_478_260_869 + u * 40_000_000_000int / s;
                    let a2 = 47_619_047_619 + u * a1 / s;
                    let a3 = 52_631_578_947 + u * a2 / s;
                    let a4 = 58_823_529_411 + u * a3 / s;
                    let a5 = 66_666_666_666 + u * a4 / s;
                    let a6 = 76_923_076_923 + u * a5 / s;
                    let a7 = 90_909_090_909 + u * a6 / s;
                    let a8 = 111_111_111_111 + u * a7 / s;
                    let a9 = 142_857_142_857 + u * a8 / s;
                    let a10 = 200_000_000_000 + u * a9 / s;
                    let a11 = 333_333_333_333 + u * a10 / s;
                    let total = s + u * a11 / s;
                    let lnm = 2 * (t * total / s);
                    let pos = lnm + p3.1 * (LN_2 as int) + p1.1 * (LN_10 as int);
                    let neg = p2.1 * (LN_10 as int);
                    if pos >= neg {
                        Ok(fx_new_s(false, pos - neg))
                    } else {
                        Ok(fx_new_s(true, neg - pos))
                    }
                }
            }
        }
    }
}

/// Natural logarithm of a strictly positive value; zero or a negative
/// argument fails with `InvalidExpression`. The logarithm of an exact one
/// is exactly zero.
pub fn ln_fx(x: Fx) -> (r: Result<Fx, CalculatorError>)
    requires
        x.wf(),
    ensures
        r == ln_fx_spec(x),
        r matches Ok(v) ==> v.wf(),
        (x.neg || x.mag == 0) ==> r == Err::<Fx, CalculatorError>(CalculatorError::InvalidExpression),
        (!x.neg && x.mag == SCALE) ==> (r matches Ok(v) && v.v() == 0),
{
    if x.neg || x.mag == 0 {
        return Err(CalculatorError::InvalidExpression);
    }
    if x.mag == SCALE {
        // ln 1 is exactly zero
        return Ok(Fx::new(false, 0));
    }
    let mut m: u128 = x.mag;
    let mut epos: u128 = 0;
    let mut eneg: u128 = 0;
    let mut k2: u128 = 0;
    while m >= 10 * SCALE && epos < 40
        invariant
            1 <= m,
            epos <= 40,
            norm_div10(x.mag as int, 0) == norm_div10(m as int, epos as int),
        decreases m,
    {
        m = m / 10;
        epos = epos + 1;
    }
    proof {
        assert(norm_div10(x.mag as int, 0) == (m as int, epos as int));
    }
    if m >= 10 * SCALE {
        return Err(CalculatorError::InvalidExpression);
    }
    let ghost m1: int = m as int;
    while m < SCALE && eneg < 40
        invariant
            1 <= m,
            m < 10 * SCALE,
            eneg <= 40,
            norm_mul10(m1, 0) == norm_mul10(m as int, eneg as int),
        decreases 10 * SCALE - m,
    {
        m = m * 10;
        eneg = eneg + 1;
    }
    proof {
        assert(norm_mul10(m1, 0) == (m as int, eneg as int));
    }
    if m < SCALE {
        return Err(CalculatorError::InvalidExpression);
    }
    let ghost m2: int = m as int;
    while m >= 2 * SCALE && k2 < 8
        invariant
            SCALE <= m,
            m < 10 * SCALE,
            k2 <= 8,
            norm_div2(m2, 0) == norm_div2(m as int, k2 as int),
        decreases m,
    {
        proof {
            lemma_div_is_ordered(2 * SCALE as int, m as int, 2);
        }
        m = m / 2;
        k2 = k2 + 1;
    }
    proof {
        assert(norm_div2(m2, 0) == (m as int, k2 as int));
    }
    if m >= 2 * SCALE {
        return Err(CalculatorError::InvalidExpression);
    }
    assert(SCALE <= m && m < 2 * SCALE);
    // t = (m - 1) / (m + 1) on the grid; ln m = 2 artanh t.
    let t: u128 = ((m - SCALE) * SCALE) / (m + SCALE);
    proof {
        lemma_div_is_ordered_by_denominator(
            ((m - SCALE) * SCALE) as int,
            2 * SCALE as int,
            (m + SCALE) as int,
        );
        lemma_div_is_ordered(
            ((m - SCALE) * SCALE) as int,
            (SCALE as int - 1) * SCALE as int,
            2 * SCALE as int,
        );
        assert((SCALE as int - 1) * SCALE as int / (2 * SCALE as int) == 499_999_999_999int);
    }
    assert(t <= 499_999_999_999);
    let u: u128 = mds(t, t);
    proof {
        lemma_mds_bound(t as int, t as int, 499_999_999_999int, 499_999_999_999int);
    }
    assert(u <= 250_000_000_000);
    // artanh t / t = 1 + t^2/3 + t^4/5 + ..., summed in Horner form with
    // the reciprocal coefficients 1/25, 1/23, ..., 1/3 on the grid.
    let mut acc: u128 = 40_000_000_000;
    proof {
        lemma_mds_bound(u as int, acc as int, 250_000_000_000int, SCALE as int);
    }
    acc = 43_478_260_869 + mds(u, acc);
    proof {
        lemma_mds_bound(u as int, acc as int, 250_000_000_000int, SCALE as int);
    }
    acc = 47_619_047_619 + mds(u, acc);
    proof {
        lemma_mds_bound(u as int, acc as int, 250_000_000_000int, SCALE as int);
    }
    acc = 52_631_578_947 + mds(u, acc);
    proof {
        lemma_mds_bound(u as int, acc as int, 250_000_000_000int, SCALE as int);
    }
    acc = 58_823_529_411 + mds(u, acc);
    proof {
        lemma_mds_bound(u as int, acc as int, 250_000_000_000int, SCALE as int);
    }
    acc = 66_666_666_666 + mds(u, acc);
    proof {
        lemma_mds_bound(u as int, acc as int, 250_000_000_000int, SCALE as int);
    }
    acc = 76_923_076_923 + mds(u, acc);
    proof {
        lemma_mds_bound(u as int, acc as int, 250_000_000_000int, SCALE as int);
    }
    acc = 90_909_090_909 + mds(u, acc);
    proof {
        lemma_mds_bound(u as int, acc as int, 250_000_000_000int, SCALE as int);
    }
    acc = 111_111_111_111 + mds(u, acc);
    proof {
        lemma_mds_bound(u as int, acc as int, 250_000_000_000int, SCALE as int);
    }
    acc = 142_857_142_857 + mds(u, acc);
    proof {
        lemma_mds_bound(u as int, acc as int, 250_000_000_000int, SCALE as int);
    }
    acc = 200_000_000_000 + mds(u, acc);
    proof {
        lemma_mds_bound(u as int, acc as int, 250_000_000_000int, SCALE as int);
    }
    acc = 333_333_333_333 + mds(u, acc);
    proof {
        lemma_mds_bound(u as int, acc as int, 250_000_000_000int, SCALE as int);
    }
    let total: u128 = SCALE + mds(u, acc);
    assert(total <= 1_250_000_000_000);
    proof {
        lemma_mds_bound(t as int, total as int, 499_999_999_999int, 1_250_000_000_000int);
    }
    let lnm: u128 = 2 * mds(t, total);
    assert(lnm <= 1_250_000_000_000);
    // ln x = ln m + k2 ln 2 + (epos - eneg) ln 10.
    let pos_part: u128 = lnm + k2 * LN_2 + epos * LN_10;
    let neg_part: u128 = eneg * LN_10;
    if pos_part >= neg_part {
        Ok(Fx::new(false, pos_part - neg_part))
    } else {
        Ok(Fx::new(true, neg_part - pos_part))
    }
}

/// Mirror of `log_fx`: the grid quotient of the two logarithm mirrors.
pub open spec fn log_fx_spec(x: Fx, base: Fx) -> Result<Fx, CalculatorError> {
    match ln_fx_spec(x) {
        Err(e) => Err(e),
        Ok(lx) => match ln_fx_spec(base) {
            Err(e) => Err(e),
            Ok(lb) => apply_op_spec(lx, Op::Div, lb),
        },
    }
}

/// Logarithm of `x` in the base `base`, as `ln x / ln base`; a base whose
/// logarithm is exactly zero fails with `DivisionByZero`.
pub fn log_fx(x: Fx, base: Fx) -> (r: Result<Fx, CalculatorError>)
    requires
        x.wf(),
        base.wf(),
    ensures
        r == log_fx_spec(x, base),
        r matches Ok(v) ==> v.wf(),
{
    let lx = match ln_fx(x) {
        Err(e) => {
            return Err(e);
        },
        Ok(v) => v,
    };
    let lb = match ln_fx(base) {
        Err(e) => {
            return Err(e);
        },
        Ok(v) => v,
    };
    if lb.is_zero() {
        return Err(CalculatorError::DivisionByZero);
    }
    match checked_div(lx, lb) {
        Some(v) => Ok(v),
        None => Err(CalculatorError::InvalidExpression),
    }
}

} // verus!
