//! Fixed-point decimal numbers.
//!
//! A value is a count of 10^-12 units (`mag`) together with a sign (`neg`).
//! All arithmetic is exact integer arithmetic on the unit count; products and
//! quotients truncate toward zero at the 10^-12 grid. Results are rounded to
//! the 10^-8 grid only once, just before display.

use vstd::prelude::*;
use vstd::arithmetic::div_mod::lemma_div_is_ordered;
use vstd::arithmetic::div_mod::lemma_div_multiples_vanish_fancy;
use vstd::arithmetic::div_mod::lemma_fundamental_div_mod;
use vstd::string::StringExecFns;

verus! {

/// Number of units in 1 (the fixed-point scale, 10^12).
pub const SCALE: u128 = 1_000_000_000_000;

/// Largest unit count a well-formed value may hold (10^18 in ordinary units).
pub const MAX_MAG: u128 = 1_000_000_000_000_000_000_000_000_000_000;

/// Units in one step of the 8-decimal display grid (10^-8 is 10^4 units).
pub const QUANTUM: u128 = 10_000;

/// Half a display-grid step; rounding adds this before truncating.
pub const HALF_QUANTUM: u128 = 5_000;

/// A fixed-point decimal number: `mag` units of 10^-12, negative iff `neg`.
#[derive(Clone, Copy, Debug)]
pub struct Fx {
    pub neg: bool,
    pub mag: u128,
}

impl Fx {
    /// Well-formed: the magnitude is in range and zero carries no sign.
    pub open spec fn wf(self) -> bool {
        self.mag <= MAX_MAG && (self.mag == 0 ==> !self.neg)
    }

    /// The value as a signed count of 10^-12 units.
    pub open spec fn v(self) -> int {
        if self.neg {
            -(self.mag as int)
        } else {
            self.mag as int
        }
    }

    pub fn zero() -> (r: Fx)
        ensures
            r.wf(),
            r.v() == 0,
    {
        Fx { neg: false, mag: 0 }
    }

    pub fn one() -> (r: Fx)
        ensures
            r.wf(),
            r.v() == SCALE as int,
    {
        Fx { neg: false, mag: SCALE }
    }

    /// Builds a value from a sign and a magnitude, normalising zero.
    pub fn new(neg: bool, mag: u128) -> (r: Fx)
        requires
            mag <= MAX_MAG,
        ensures
            r.wf(),
            r.v() == if neg {
                -(mag as int)
            } else {
                mag as int
            },
            r.mag == mag,
            r.neg == (neg && mag != 0),
            r == fx_new_s(neg, mag as int),
    {
        Fx { neg: neg && mag != 0, mag }
    }

    pub fn negate(self) -> (r: Fx)
        requires
            self.wf(),
        ensures
            r.wf(),
            r.v() == -self.v(),
            r == fx_neg_s(self),
    {
        Fx::new(!self.neg, self.mag)
    }

    pub fn is_zero(&self) -> (r: bool)
        requires
            self.wf(),
        ensures
            r == (self.v() == 0),
    {
        self.mag == 0
    }
}

/// Mirror of `Fx::new`: a value from a sign and a non-negative magnitude,
/// with zero normalised to carry no sign.
pub open spec fn fx_new_s(neg: bool, mag: int) -> Fx {
    Fx { neg: neg && mag != 0, mag: mag as u128 }
}

/// Mirror of `Fx::negate`.
pub open spec fn fx_neg_s(a: Fx) -> Fx {
    fx_new_s(!a.neg, a.mag as int)
}

/// The well-formed value whose signed unit count is `v`.
pub open spec fn fx_of(v: int) -> Fx {
    if v < 0 {
        Fx { neg: true, mag: (-v) as u128 }
    } else {
        Fx { neg: false, mag: v as u128 }
    }
}

/// A well-formed value is determined by its signed unit count.
pub proof fn lemma_fx_of_v(a: Fx)
    requires
        a.wf(),
    ensures
        fx_of(a.v()) == a,
{
}

/// The sum, unless its magnitude leaves the representable range.
pub fn checked_add(a: Fx, b: Fx) -> (r: Option<Fx>)
    requires
        a.wf(),
        b.wf(),
    ensures
        match r {
            Some(s) => s.wf() && s.v() == a.v() + b.v(),
            None => a.v() + b.v() > MAX_MAG as int || a.v() + b.v() < -(MAX_MAG as int),
        },
        (r is None) <==> (a.v() + b.v() > MAX_MAG as int || a.v() + b.v() < -(MAX_MAG
            as int)),
{
    if a.neg == b.neg {
        let m: u128 = a.mag + b.mag;
        if m > MAX_MAG {
            None
        } else {
            Some(Fx::new(a.neg, m))
        }
    } else if a.mag >= b.mag {
        Some(Fx::new(a.neg, a.mag - b.mag))
    } else {
        Some(Fx::new(b.neg, b.mag - a.mag))
    }
}

/// The difference `a - b`, unless it leaves the representable range.
pub fn checked_sub(a: Fx, b: Fx) -> (r: Option<Fx>)
    requires
        a.wf(),
        b.wf(),
    ensures
        match r {
            Some(s) => s.wf() && s.v() == a.v() - b.v(),
            None => a.v() - b.v() > MAX_MAG as int || a.v() - b.v() < -(MAX_MAG as int),
        },
        (r is None) <==> (a.v() - b.v() > MAX_MAG as int || a.v() - b.v() < -(MAX_MAG
            as int)),
{
    checked_add(a, b.negate())
}

/// Magnitude of a product on the 10^-12 grid, truncated toward zero.
pub open spec fn mul_mag(a: Fx, b: Fx) -> int {
    (a.mag as int) * (b.mag as int) / (SCALE as int)
}

/// Whether multiplying overflows the machine word or the value range.
pub open spec fn mul_overflows(a: Fx, b: Fx) -> bool {
    (a.mag as int) * (b.mag as int) > u128::MAX as int || mul_mag(a, b) > MAX_MAG as int
}

/// The product, truncated toward zero at the 10^-12 grid.
pub fn checked_mul(a: Fx, b: Fx) -> (r: Option<Fx>)
    requires
        a.wf(),
        b.wf(),
    ensures
        (r is None) <==> mul_overflows(a, b),
        match r {
            Some(s) => {
                &&& s.wf()
                &&& s.mag == mul_mag(a, b)
                &&& s.neg == ((a.neg != b.neg) && s.mag != 0)
            },
            None => true,
        },
{
    match a.mag.checked_mul(b.mag) {
        Some(p) => {
            let m: u128 = p / SCALE;
            if m > MAX_MAG {
                None
            } else {
                Some(Fx::new(a.neg != b.neg, m))
            }
        },
        None => None,
    }
}

/// Magnitude of a quotient on the 10^-12 grid, truncated toward zero.
pub open spec fn div_mag(a: Fx, b: Fx) -> int {
    (a.mag as int) * (SCALE as int) / (b.mag as int)
}

/// Whether dividing overflows the machine word or the value range.
pub open spec fn div_overflows(a: Fx, b: Fx) -> bool {
    (a.mag as int) * (SCALE as int) > u128::MAX as int || div_mag(a, b) > MAX_MAG as int
}

/// The quotient `a / b`, truncated toward zero at the 10^-12 grid.
/// The divisor must not be zero; callers surface that case themselves.
pub fn checked_div(a: Fx, b: Fx) -> (r: Option<Fx>)
    requires
        a.wf(),
        b.wf(),
        b.mag != 0,
    ensures
        (r is None) <==> div_overflows(a, b),
        match r {
            Some(s) => {
                &&& s.wf()
                &&& s.mag == div_mag(a, b)
                &&& s.neg == ((a.neg != b.neg) && s.mag != 0)
            },
            None => true,
        },
{
    match a.mag.checked_mul(SCALE) {
        Some(p) => {
            let m: u128 = p / b.mag;
            if m > MAX_MAG {
                None
            } else {
                Some(Fx::new(a.neg != b.neg, m))
            }
        },
        None => None,
    }
}

/// A non-negative unit count rounded to the nearest multiple of `QUANTUM`,
/// halves away from zero.
pub open spec fn round8_mag(m: int) -> int {
    ((m + HALF_QUANTUM) / (QUANTUM as int)) * (QUANTUM as int)
}

/// A signed unit count rounded to the nearest multiple of `QUANTUM`,
/// halves away from zero.
pub open spec fn round8_v(v: int) -> int {
    if v < 0 {
        -round8_mag(-v)
    } else {
        round8_mag(v)
    }
}

/// The value `a` rounded to the nearest multiple of `QUANTUM`, halves away
/// from zero, with its sign normalised.
pub open spec fn round8_fx(a: Fx) -> Fx {
    Fx { neg: a.neg && round8_mag(a.mag as int) != 0, mag: round8_mag(a.mag as int) as u128 }
}

/// Rounds to the 8-decimal display grid, halves away from zero.
pub fn round8(a: Fx) -> (r: Fx)
    requires
        a.wf(),
    ensures
        r.wf(),
        r.v() == round8_v(a.v()),
        r.mag % QUANTUM == 0,
        r.mag == round8_mag(a.mag as int),
        r == round8_fx(a),
{
    let q: u128 = (a.mag + HALF_QUANTUM) / QUANTUM;
    proof {
        lemma_div_is_ordered(
            (a.mag + HALF_QUANTUM) as int,
            (MAX_MAG + HALF_QUANTUM) as int,
            QUANTUM as int,
        );
        assert((MAX_MAG + HALF_QUANTUM) as int / (QUANTUM as int)
            == 100_000_000_000_000_000_000_000_000int);
    }
    let m: u128 = q * QUANTUM;
    proof {
        assert(m % QUANTUM == 0) by (nonlinear_arith)
            requires m == q * QUANTUM, QUANTUM > 0,
        {
        }
    }
    Fx::new(a.neg, m)
}

/// Rounding to the 8-decimal grid is idempotent: a value already on the
/// grid rounds to itself.
pub proof fn lemma_round8_idempotent(m: int)
    requires
        0 <= m,
    ensures
        round8_mag(round8_mag(m)) == round8_mag(m),
{
    let q = (m + HALF_QUANTUM) / (QUANTUM as int);
    vstd::arithmetic::div_mod::lemma_div_pos_is_pos(m + HALF_QUANTUM, QUANTUM as int);
    lemma_div_multiples_vanish_fancy(q, HALF_QUANTUM as int, QUANTUM as int);
    assert((q * (QUANTUM as int) + HALF_QUANTUM) / (QUANTUM as int) == q);
    assert(((QUANTUM as int) * q + HALF_QUANTUM) == (q * (QUANTUM as int) + HALF_QUANTUM))
        by (nonlinear_arith);
}

/// Rounding a value that is already on the 8-decimal display grid is a
/// no-op: rounding twice gives exactly what rounding once gives.
pub proof fn lemma_round8_fx_idempotent(a: Fx)
    requires
        a.wf(),
    ensures
        round8_fx(round8_fx(a)) == round8_fx(a),
{
    lemma_round8_idempotent(a.mag as int);
    vstd::arithmetic::div_mod::lemma_div_pos_is_pos(a.mag + HALF_QUANTUM, QUANTUM as int);
    assert(round8_mag(a.mag as int) >= 0) by (nonlinear_arith)
        requires
            (a.mag + HALF_QUANTUM) as int / (QUANTUM as int) >= 0,
            QUANTUM > 0,
    {
    }
}

/// Rounding a signed unit count twice gives the same result as rounding it
/// once.
pub proof fn lemma_round8_v_idempotent(v: int)
    ensures
        round8_v(round8_v(v)) == round8_v(v),
{
    if v < 0 {
        lemma_round8_idempotent(-v);
        vstd::arithmetic::div_mod::lemma_div_pos_is_pos(-v + HALF_QUANTUM, QUANTUM as int);
        assert(round8_mag(-v) >= 0) by (nonlinear_arith)
            requires (-v + HALF_QUANTUM) / (QUANTUM as int) >= 0, QUANTUM > 0,
        {
        }
    } else {
        lemma_round8_idempotent(v);
        vstd::arithmetic::div_mod::lemma_div_pos_is_pos(v + HALF_QUANTUM, QUANTUM as int);
        assert(round8_mag(v) >= 0) by (nonlinear_arith)
            requires (v + HALF_QUANTUM) / (QUANTUM as int) >= 0, QUANTUM > 0,
        {
        }
    }
}

/// The decimal digit character for `d` in 0..10.
pub open spec fn digit_char(d: int) -> char {
    if d == 0 {
        '0'
    } else if d == 1 {
        '1'
    } else if d == 2 {
        '2'
    } else if d == 3 {
        '3'
    } else if d == 4 {
        '4'
    } else if d == 5 {
        '5'
    } else if d == 6 {
        '6'
    } else if d == 7 {
        '7'
    } else if d == 8 {
        '8'
    } else {
        '9'
    }
}

/// The decimal digits of a non-negative integer, most significant first.
pub open spec fn dec_digits(n: int) -> Seq<char>
    decreases n,
{
    if n < 10 {
        seq![digit_char(n)]
    } else {
        dec_digits(n / 10) + seq![digit_char(n % 10)]
    }
}

/// The last `w` decimal digits of `n`, zero-padded to exactly `w` places.
pub open spec fn dec_digits_pad(n: int, w: nat) -> Seq<char>
    decreases w,
{
    if w == 0 {
        Seq::empty()
    } else {
        dec_digits_pad(n / 10, (w - 1) as nat) + seq![digit_char(n % 10)]
    }
}

/// 10 to the power `w`.
pub open spec fn pow10(w: nat) -> int
    decreases w,
{
    if w == 0 {
        1
    } else {
        10 * pow10((w - 1) as nat)
    }
}

/// Drops trailing zero digits from an at-most-`w`-digit fraction, keeping
/// at least one digit: the digits left are `dec_digits_pad(r.0, r.1)`.
pub open spec fn strip_frac(n: int, w: nat) -> (int, nat)
    decreases w,
{
    if w <= 1 || n % 10 != 0 {
        (n, w)
    } else {
        strip_frac(n / 10, (w - 1) as nat)
    }
}

/// The display form of a rounded value: an optional minus sign, the integer
/// part in decimal, and, when the fractional part is not zero, a point and
/// the fractional digits on the 8-decimal grid with trailing zeros dropped.
pub open spec fn fmt_fx(a: Fx) -> Seq<char> {
    let sign = if a.neg {
        seq!['-']
    } else {
        Seq::<char>::empty()
    };
    let ip = dec_digits(a.mag as int / SCALE as int);
    let fr = a.mag as int % SCALE as int;
    if fr == 0 {
        sign + ip
    } else {
        let f8 = fr / QUANTUM as int;
        let st = strip_frac(f8, 8);
        sign + ip + seq!['.'] + dec_digits_pad(st.0, st.1)
    }
}

/// The one-character string for the decimal digit `d`.
fn digit_str(d: u128) -> (r: &'static str)
    requires
        d < 10,
    ensures
        r@ == seq![digit_char(d as int)],
{
    if d == 0 {
        proof {
            reveal_strlit("0");
            assert("0"@ =~= seq![digit_char(0int)]);
        }
        "0"
    } else if d == 1 {
        proof {
            reveal_strlit("1");
            assert("1"@ =~= seq![digit_char(1int)]);
        }
        "1"
    } else if d == 2 {
        proof {
            reveal_strlit("2");
            assert("2"@ =~= seq![digit_char(2int)]);
        }
        "2"
    } else if d == 3 {
        proof {
            reveal_strlit("3");
            assert("3"@ =~= seq![digit_char(3int)]);
        }
        "3"
    } else if d == 4 {
        proof {
            reveal_strlit("4");
            assert("4"@ =~= seq![digit_char(4int)]);
        }
        "4"
    } else if d == 5 {
        proof {
            reveal_strlit("5");
            assert("5"@ =~= seq![digit_char(5int)]);
        }
        "5"
    } else if d == 6 {
        proof {
            reveal_strlit("6");
            assert("6"@ =~= seq![digit_char(6int)]);
        }
        "6"
    } else if d == 7 {
        proof {
            reveal_strlit("7");
            assert("7"@ =~= seq![digit_char(7int)]);
        }
        "7"
    } else if d == 8 {
        proof {
            reveal_strlit("8");
            assert("8"@ =~= seq![digit_char(8int)]);
        }
        "8"
    } else {
        proof {
            reveal_strlit("9");
            assert("9"@ =~= seq![digit_char(9int)]);
        }
        "9"
    }
}

/// Appends the decimal digits of `n` to `s`.
fn push_digits(s: &mut String, n: u128)
    ensures
        final(s)@ == old(s)@ + dec_digits(n as int),
    decreases n,
{
    if n >= 10 {
        push_digits(s, n / 10);
    }
    let ghost mid = s@;
    s.append(digit_str(n % 10));
    proof {
        if n < 10 {
            assert(n as int % 10 == n as int);
            assert(s@ =~= old(s)@ + dec_digits(n as int));
        } else {
            assert(s@ =~= old(s)@ + dec_digits(n as int));
        }
    }
}

/// Appends exactly `w` decimal digits of `n` to `s`, zero-padded.
fn push_digits_pad(s: &mut String, n: u128, w: usize)
    ensures
        final(s)@ == old(s)@ + dec_digits_pad(n as int, w as nat),
    decreases w,
{
    if w > 0 {
        push_digits_pad(s, n / 10, w - 1);
        s.append(digit_str(n % 10));
        proof {
            assert(s@ =~= old(s)@ + dec_digits_pad(n as int, w as nat));
        }
    } else {
        proof {
            assert(s@ =~= old(s)@ + dec_digits_pad(n as int, 0));
        }
    }
}

/// Renders a value that is already on the 8-decimal grid.
pub fn format_fx(a: Fx) -> (r: String)
    requires
        a.wf(),
        a.mag % QUANTUM == 0,
    ensures
        r@ == fmt_fx(a),
{
    let mut s = String::new();
    if a.neg {
        proof {
            reveal_strlit("-");
        }
        s.append("-");
    }
    let ip: u128 = a.mag / SCALE;
    let fr: u128 = a.mag % SCALE;
    push_digits(&mut s, ip);
    if fr == 0 {
        proof {
            assert(s@ =~= fmt_fx(a));
        }
        s
    } else {
        proof {
            reveal_strlit(".");
            assert("."@ =~= seq!['.']);
        }
        s.append(".");
        proof {
            assert(SCALE as int % QUANTUM as int == 0);
            lemma_mod_of_mul_mod(a.mag as int, SCALE as int, QUANTUM as int);
            assert(fr as int % QUANTUM as int == 0);
        }
        let mut f: u128 = fr / QUANTUM;
        let mut w: usize = 8;
        proof {
            reveal_with_fuel(pow10, 9);
            lemma_div_is_ordered(fr as int, SCALE as int - 1, QUANTUM as int);
            assert((SCALE as int - 1) / (QUANTUM as int) == 99_999_999int);
            assert(f >= 1) by (nonlinear_arith)
                requires
                    fr as int % QUANTUM as int == 0,
                    fr >= 1,
                    f == fr / QUANTUM,
                    QUANTUM == 10_000,
            {
            }
        }
        let ghost f8: int = f as int;
        while f % 10 == 0
            invariant
                1 <= w <= 8,
                1 <= f,
                (f as int) < pow10(w as nat),
                strip_frac(f as int, w as nat) == strip_frac(f8, 8),
            decreases w,
        {
            proof {
                reveal_with_fuel(pow10, 2);
                if w == 1 {
                    assert(f < 10);
                    assert(f % 10 == f);
                    assert(false);
                }
                lemma_fundamental_div_mod(f as int, 10);
                assert(pow10(w as nat) == 10 * pow10((w - 1) as nat));
            }
            f = f / 10;
            w = w - 1;
        }
        push_digits_pad(&mut s, f, w);
        proof {
            assert(strip_frac(f as int, w as nat) == (f as int, w as nat));
            assert(s@ =~= fmt_fx(a));
        }
        s
    }
}

/// When `d` divides both the scale `m` is reduced by and `m` itself evenly,
/// the remainder of `m` at the scale keeps divisibility by `d`.
proof fn lemma_mod_of_mul_mod(m: int, s: int, d: int)
    requires
        0 <= m,
        0 < d,
        0 < s,
        s % d == 0,
        m % d == 0,
    ensures
        (m % s) % d == 0,
{
    lemma_fundamental_div_mod(m, s);
    let q = m / s;
    let r = m % s;
    assert(m == s * q + r);
    assert((s * q) % d == 0) by (nonlinear_arith)
        requires
            s % d == 0,
            0 < d,
    {
        lemma_fundamental_div_mod(s, d);
        assert(s == d * (s / d));
        assert(s * q == d * ((s / d) * q)) by (nonlinear_arith)
            requires
                s == d * (s / d),
        {
        }
        vstd::arithmetic::div_mod::lemma_mod_multiples_basic((s / d) * q, d);
    }
    lemma_fundamental_div_mod(s * q, d);
    assert(s * q == d * ((s * q) / d));
    assert(r == m - s * q);
    assert(m % d == 0);
    lemma_fundamental_div_mod(m, d);
    assert(m == d * (m / d));
    assert(r == d * (m / d) - d * ((s * q) / d));
    assert(r == d * ((m / d) - ((s * q) / d))) by (nonlinear_arith)
        requires
            r == d * (m / d) - d * ((s * q) / d),
    {
    }
    vstd::arithmetic::div_mod::lemma_mod_multiples_basic((m / d) - ((s * q) / d), d);
}

} // verus!
