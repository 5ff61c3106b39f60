//! The tokenizer: raw text to tokens.
//!
//! Besides the seven plain token kinds it resolves identifiers: the named
//! constants `pi` and `e` become numeric literals; the function names `sin`,
//! `cos`, `tan`, `ln` and `log` (the last optionally with glued base digits,
//! as in `log100`) are applied to a parenthesised argument, to a glued
//! constant (`sinpi`), or to the single operand that follows, and are
//! rewritten to their numeric value before parsing, since the grammar has no
//! function-call production. Implicit multiplication is synthesised between
//! a number and a following variable, constant, function application or
//! opening parenthesis. Unrecognised characters, and any input that is not
//! ASCII, fail fast with `UnexpectedToken`; a numeric run with a second
//! decimal point or no digit at all fails the same way; a numeric run too
//! large to represent fails with `InvalidExpression`.
//!
//! Every executable function returns exactly what its specification mirror
//! computes; `lex_spec` composes the mirrors into a complete functional
//! description of tokenization.

use vstd::prelude::*;
use vstd::pervasive::arbitrary;
use vstd::string::is_ascii;
use vstd::string::StrSliceExecFns;
use vstd::utf8::is_ascii_chars;
use crate::calculator::CalculatorError;
use crate::evaluator::{eval_spec, evaluate_infix};
use crate::fx::{fx_new_s, pow10, Fx, MAX_MAG, SCALE};
use crate::parser::{parse, parse_spec};
use crate::token::{tokens_span_ok, tokens_wf, Token};
use crate::transc::{
    cos_fx, cos_fx_spec, e_fx, ln_fx, ln_fx_spec, log_fx, log_fx_spec, pi_fx, sin_fx, sin_fx_spec,
    tan_fx, tan_fx_spec, E_FX, PI_FX,
};

verus! {

/// The whitespace the tokenizer skips.
pub open spec fn is_space_char(c: char) -> bool {
    c == ' ' || c == '\t' || c == '\n' || c == '\r'
}

pub open spec fn is_digit_char(c: char) -> bool {
    48 <= c as u32 <= 57
}

pub open spec fn is_alpha_char(c: char) -> bool {
    (65 <= c as u32 <= 90) || (97 <= c as u32 <= 122)
}

/// The numeric value of a digit character.
pub open spec fn digit_val(c: char) -> int {
    c as u32 - 48
}

fn is_space(c: char) -> (r: bool)
    ensures
        r == is_space_char(c),
{
    c == ' ' || c == '\t' || c == '\n' || c == '\r'
}

fn is_digit(c: char) -> (r: bool)
    ensures
        r == is_digit_char(c),
{
    let u: u32 = c as u32;
    48 <= u && u <= 57
}

fn is_alpha(c: char) -> (r: bool)
    ensures
        r == is_alpha_char(c),
{
    let u: u32 = c as u32;
    (65 <= u && u <= 90) || (97 <= u && u <= 122)
}

/// A function name an identifier can resolve to.
#[derive(Clone, Copy)]
pub enum FnKind {
    Sin,
    Cos,
    Tan,
    Ln,
    Log,
}

/// What a run of letters resolves to: a constant's value, a function with
/// an optional glued constant argument, or a variable name.
pub enum LetterKind {
    Value(Fx),
    Fun(FnKind, Option<Fx>),
    Name,
}

/// Mirror of `letters_class`: how the letter run `s[i..j]` resolves.
pub open spec fn letters_class_spec(s: Seq<char>, i: int, j: int) -> LetterKind {
    let n = j - i;
    if n == 2 && s[i] == 'p' && s[i + 1] == 'i' {
        LetterKind::Value(Fx { neg: false, mag: PI_FX })
    } else if n == 1 && s[i] == 'e' {
        LetterKind::Value(Fx { neg: false, mag: E_FX })
    } else {
        let head: Option<(FnKind, int)> = if n >= 3 && s[i] == 's' && s[i + 1] == 'i' && s[i + 2]
            == 'n' {
            Some((FnKind::Sin, 3))
        } else if n >= 3 && s[i] == 'c' && s[i + 1] == 'o' && s[i + 2] == 's' {
            Some((FnKind::Cos, 3))
        } else if n >= 3 && s[i] == 't' && s[i + 1] == 'a' && s[i + 2] == 'n' {
            Some((FnKind::Tan, 3))
        } else if n >= 3 && s[i] == 'l' && s[i + 1] == 'o' && s[i + 2] == 'g' {
            Some((FnKind::Log, 3))
        } else if n >= 2 && s[i] == 'l' && s[i + 1] == 'n' {
            Some((FnKind::Ln, 2))
        } else {
            None
        };
        match head {
            None => LetterKind::Name,
            Some(h) => {
                let w = h.1;
                if i + w == j {
                    LetterKind::Fun(h.0, None)
                } else if j - (i + w) == 2 && s[i + w] == 'p' && s[i + w + 1] == 'i' {
                    LetterKind::Fun(h.0, Some(Fx { neg: false, mag: PI_FX }))
                } else if j - (i + w) == 1 && s[i + w] == 'e' {
                    LetterKind::Fun(h.0, Some(Fx { neg: false, mag: E_FX }))
                } else {
                    LetterKind::Name
                }
            },
        }
    }
}

/// Resolves the letter run `input[i..j]`.
fn letters_class(input: &str, i: usize, j: usize) -> (r: LetterKind)
    requires
        i < j <= input@.len(),
    ensures
        r == letters_class_spec(input@, i as int, j as int),
        match r {
            LetterKind::Value(v) => v.wf(),
            LetterKind::Fun(_, arg) => match arg {
                Some(v) => v.wf(),
                None => true,
            },
            LetterKind::Name => true,
        },
{
    let n: usize = j - i;
    if n == 2 && input.get_char(i) == 'p' && input.get_char(i + 1) == 'i' {
        return LetterKind::Value(pi_fx());
    }
    if n == 1 && input.get_char(i) == 'e' {
        return LetterKind::Value(e_fx());
    }
    let head: Option<(FnKind, usize)> = if n >= 3 && input.get_char(i) == 's' && input.get_char(
        i + 1,
    ) == 'i' && input.get_char(i + 2) == 'n' {
        Some((FnKind::Sin, 3))
    } else if n >= 3 && input.get_char(i) == 'c' && input.get_char(i + 1) == 'o' && input.get_char(
        i + 2,
    ) == 's' {
        Some((FnKind::Cos, 3))
    } else if n >= 3 && input.get_char(i) == 't' && input.get_char(i + 1) == 'a' && input.get_char(
        i + 2,
    ) == 'n' {
        Some((FnKind::Tan, 3))
    } else if n >= 3 && input.get_char(i) == 'l' && input.get_char(i + 1) == 'o' && input.get_char(
        i + 2,
    ) == 'g' {
        Some((FnKind::Log, 3))
    } else if n >= 2 && input.get_char(i) == 'l' && input.get_char(i + 1) == 'n' {
        Some((FnKind::Ln, 2))
    } else {
        None
    };
    match head {
        None => LetterKind::Name,
        Some((f, w)) => {
            if i + w == j {
                LetterKind::Fun(f, None)
            } else if j - (i + w) == 2 && input.get_char(i + w) == 'p' && input.get_char(i + w + 1)
                == 'i' {
                LetterKind::Fun(f, Some(pi_fx()))
            } else if j - (i + w) == 1 && input.get_char(i + w) == 'e' {
                LetterKind::Fun(f, Some(e_fx()))
            } else {
                LetterKind::Name
            }
        },
    }
}

/// Mirror of the matching-parenthesis scan from `p` at the given depth.
pub open spec fn scan_close(s: Seq<char>, p: int, end: int, depth: int) -> Option<int>
    decreases end - p,
{
    if p >= end {
        None
    } else if s[p] == '(' {
        scan_close(s, p + 1, end, depth + 1)
    } else if s[p] == ')' {
        if depth == 1 {
            Some(p)
        } else {
            scan_close(s, p + 1, end, depth - 1)
        }
    } else {
        scan_close(s, p + 1, end, depth)
    }
}

/// The position of the parenthesis matching the one at `k`, if any closes
/// it before `end`.
fn find_close(input: &str, k: usize, end: usize) -> (r: Option<usize>)
    requires
        k < end <= input@.len(),
    ensures
        match r {
            Some(m) => k < m < end && scan_close(input@, k + 1, end as int, 1) == Some(m as int),
            None => scan_close(input@, k + 1, end as int, 1) is None,
        },
{
    let mut depth: usize = 1;
    let mut p: usize = k + 1;
    while p < end
        invariant
            k < p <= end,
            end <= input@.len(),
            1 <= depth <= p - k,
            scan_close(input@, k + 1, end as int, 1) == scan_close(
                input@,
                p as int,
                end as int,
                depth as int,
            ),
        decreases end - p,
    {
        let c: char = input.get_char(p);
        if c == '(' {
            depth = depth + 1;
        } else if c == ')' {
            if depth == 1 {
                return Some(p);
            }
            depth = depth - 1;
        }
        p = p + 1;
    }
    None
}

/// Mirror of the integer-run scan: accumulated digits, or
/// `InvalidExpression` once the run can no longer be represented.
pub open spec fn lex_int_rec(s: Seq<char>, pos: int, end: int, v: int) -> Result<
    (int, int),
    CalculatorError,
>
    decreases end - pos,
{
    if pos < end && is_digit_char(s[pos]) {
        if v >= 100_000_000_000_000_000 {
            Err(CalculatorError::InvalidExpression)
        } else {
            lex_int_rec(s, pos + 1, end, v * 10 + digit_val(s[pos]))
        }
    } else {
        Ok((v, pos))
    }
}

/// Reads a run of digits as an integer; a value of 10^18 or more fails with
/// `InvalidExpression`.
fn lex_integer(input: &str, i: usize, end: usize) -> (r: Result<(u128, usize), CalculatorError>)
    requires
        i < end <= input@.len(),
        is_digit_char(input@[i as int]),
    ensures
        match r {
            Ok(p) => lex_int_rec(input@, i as int, end as int, 0) == Ok::<
                (int, int),
                CalculatorError,
            >((p.0 as int, p.1 as int)) && p.0 < 1_000_000_000_000_000_000 && i < p.1 <= end,
            Err(e) => lex_int_rec(input@, i as int, end as int, 0) == Err::<
                (int, int),
                CalculatorError,
            >(e),
        },
{
    let mut v: u128 = 0;
    let mut pos: usize = i;
    while pos < end && is_digit(input.get_char(pos))
        invariant
            i <= pos <= end,
            end <= input@.len(),
            v < 1_000_000_000_000_000_000,
            lex_int_rec(input@, i as int, end as int, 0) == lex_int_rec(
                input@,
                pos as int,
                end as int,
                v as int,
            ),
        decreases end - pos,
    {
        if v >= 100_000_000_000_000_000 {
            return Err(CalculatorError::InvalidExpression);
        }
        let d: u128 = (input.get_char(pos) as u32 - 48) as u128;
        v = v * 10 + d;
        pos = pos + 1;
    }
    assert(pos > i);
    Ok((v, pos))
}

/// Mirror of the fraction-run scan: up to twelve digits are kept, the rest
/// are consumed and dropped; returns the digits, their count, and the
/// position just past the run.
pub open spec fn lex_frac_rec(s: Seq<char>, pos: int, end: int, f: int, cnt: int) -> (
    int,
    int,
    int,
)
    decreases end - pos,
{
    if pos < end && is_digit_char(s[pos]) {
        if cnt < 12 {
            lex_frac_rec(s, pos + 1, end, f * 10 + digit_val(s[pos]), cnt + 1)
        } else {
            lex_frac_rec(s, pos + 1, end, f, cnt)
        }
    } else {
        (f, cnt, pos)
    }
}

/// `f` padded with zero digits up to twelve places.
pub open spec fn pad12(f: int, cnt: int) -> int
    decreases 12 - cnt,
{
    if cnt < 12 {
        pad12(f * 10, cnt + 1)
    } else {
        f
    }
}

/// Mirror of `lex_number`: an integer part, at most one decimal point, and
/// at least one digit; the unit count on the 10^-12 grid and the position
/// just past the run.
pub open spec fn lex_number_spec(s: Seq<char>, i: int, end: int) -> Result<
    (int, int),
    CalculatorError,
> {
    match lex_int_rec(s, i, end, 0) {
        Err(e) => Err(e),
        Ok(ip) => {
            let dotted = ip.1 < end && s[ip.1] == '.';
            let q = if dotted {
                lex_frac_rec(s, ip.1 + 1, end, 0, 0)
            } else {
                (0int, 0int, ip.1)
            };
            let saw = ip.1 > i || (dotted && q.2 > ip.1 + 1);
            if !saw {
                Err(CalculatorError::UnexpectedToken)
            } else if q.2 < end && s[q.2] == '.' {
                Err(CalculatorError::UnexpectedToken)
            } else {
                Ok((ip.0 * (SCALE as int) + pad12(q.0, q.1), q.2))
            }
        },
    }
}

/// Reads a numeric run: digits, at most one decimal point, and at least one
/// digit. Fractional digits beyond the 10^-12 grid are truncated. Returns
/// the unit count and the position just past the run.
fn lex_number(input: &str, i: usize, end: usize) -> (r: Result<(u128, usize), CalculatorError>)
    requires
        i < end <= input@.len(),
        is_digit_char(input@[i as int]) || input@[i as int] == '.',
    ensures
        match r {
            Ok(p) => lex_number_spec(input@, i as int, end as int) == Ok::<
                (int, int),
                CalculatorError,
            >((p.0 as int, p.1 as int)) && p.0 <= MAX_MAG && i < p.1 <= end,
            Err(e) => lex_number_spec(input@, i as int, end as int) == Err::<
                (int, int),
                CalculatorError,
            >(e),
        },
{
    let mut intpart: u128 = 0;
    let mut pos: usize = i;
    while pos < end && is_digit(input.get_char(pos))
        invariant
            i <= pos <= end,
            end <= input@.len(),
            intpart < 1_000_000_000_000_000_000,
            lex_int_rec(input@, i as int, end as int, 0) == lex_int_rec(
                input@,
                pos as int,
                end as int,
                intpart as int,
            ),
        decreases end - pos,
    {
        if intpart >= 100_000_000_000_000_000 {
            return Err(CalculatorError::InvalidExpression);
        }
        let d: u128 = (input.get_char(pos) as u32 - 48) as u128;
        intpart = intpart * 10 + d;
        pos = pos + 1;
    }
    let mut frac: u128 = 0;
    let mut cnt: usize = 0;
    let mut saw_digit = pos > i;
    if pos < end && input.get_char(pos) == '.' {
        let dot: usize = pos;
        pos = pos + 1;
        while pos < end && is_digit(input.get_char(pos))
            invariant
                i <= dot,
                dot + 1 <= pos <= end,
                end <= input@.len(),
                cnt <= 12,
                frac < pow10(cnt as nat),
                saw_digit == (dot > i || pos > dot + 1),
                lex_frac_rec(input@, dot + 1, end as int, 0, 0) == lex_frac_rec(
                    input@,
                    pos as int,
                    end as int,
                    frac as int,
                    cnt as int,
                ),
            decreases end - pos,
        {
            let d: u128 = (input.get_char(pos) as u32 - 48) as u128;
            if cnt < 12 {
                proof {
                    assert(pow10((cnt + 1) as nat) == 10 * pow10(cnt as nat));
                    assert(pow10(cnt as nat) <= pow10(12nat) <= 1_000_000_000_000int) by {
                        lemma_pow10_le(cnt as nat, 12nat);
                        reveal_with_fuel(pow10, 13);
                    }
                }
                frac = frac * 10 + d;
                cnt = cnt + 1;
            }
            pos = pos + 1;
            saw_digit = true;
        }
    }
    if !saw_digit {
        return Err(CalculatorError::UnexpectedToken);
    }
    if pos < end && input.get_char(pos) == '.' {
        // a second decimal point in one numeric run
        return Err(CalculatorError::UnexpectedToken);
    }
    let ghost f0: int = frac as int;
    let ghost c0: int = cnt as int;
    while cnt < 12
        invariant
            cnt <= 12,
            frac < pow10(cnt as nat),
            pad12(f0, c0) == pad12(frac as int, cnt as int),
        decreases 12 - cnt,
    {
        proof {
            assert(pow10((cnt + 1) as nat) == 10 * pow10(cnt as nat));
            assert(pow10(cnt as nat) <= pow10(12nat) <= 1_000_000_000_000int) by {
                lemma_pow10_le(cnt as nat, 12nat);
                reveal_with_fuel(pow10, 13);
            }
        }
        frac = frac * 10;
        cnt = cnt + 1;
    }
    proof {
        reveal_with_fuel(pow10, 13);
        assert(frac < SCALE);
    }
    let mag: u128 = intpart * SCALE + frac;
    Ok((mag, pos))
}

/// Powers of ten are at least one.
proof fn lemma_pow10_pos(a: nat)
    ensures
        1 <= pow10(a),
    decreases a,
{
    if a > 0 {
        lemma_pow10_pos((a - 1) as nat);
    }
}

/// Powers of ten are monotone in the exponent.
proof fn lemma_pow10_le(a: nat, b: nat)
    requires
        a <= b,
    ensures
        pow10(a) <= pow10(b),
        1 <= pow10(a),
    decreases b,
{
    lemma_pow10_pos(a);
    if a < b {
        lemma_pow10_le(a, (b - 1) as nat);
        lemma_pow10_pos((b - 1) as nat);
    }
}

/// The end of the letter run that starts at `j`.
pub open spec fn alpha_end(s: Seq<char>, j: int, end: int) -> int
    decreases end - j,
{
    if j < end && is_alpha_char(s[j]) {
        alpha_end(s, j + 1, end)
    } else {
        j
    }
}

/// The first non-whitespace position at or after `k`.
pub open spec fn skip_spaces(s: Seq<char>, k: int, end: int) -> int
    decreases end - k,
{
    if k < end && is_space_char(s[k]) {
        skip_spaces(s, k + 1, end)
    } else {
        k
    }
}

/// `toks` with `t` appended, after an implicit `Multiply` when the previous
/// token was a number.
pub open spec fn with_value(toks: Seq<Token>, prev: bool, t: Token) -> Seq<Token> {
    if prev {
        toks.push(Token::Multiply).push(t)
    } else {
        toks.push(t)
    }
}

/// The value a resolved function application yields for its argument;
/// `base` is meaningful only for `log`.
pub open spec fn apply_fun_spec(kind: FnKind, arg: Fx, base: Fx) -> Result<Fx, CalculatorError> {
    match kind {
        FnKind::Sin => Ok(sin_fx_spec(arg)),
        FnKind::Cos => Ok(cos_fx_spec(arg)),
        FnKind::Tan => tan_fx_spec(arg),
        FnKind::Ln => ln_fx_spec(arg),
        FnKind::Log => log_fx_spec(arg, base),
    }
}

/// Applies a resolved function and continues the scan at `next` with its
/// value emitted.
pub open spec fn lex_fun_spec(
    s: Seq<char>,
    start: int,
    end: int,
    prev: bool,
    toks: Seq<Token>,
    kind: FnKind,
    base: Fx,
    arg: Fx,
    next: int,
) -> Result<Seq<Token>, CalculatorError>
    decreases end - start, end - next, 1int,
{
    if next > end {
        arbitrary()
    } else {
        match apply_fun_spec(kind, arg, base) {
            Err(e) => Err(e),
            Ok(v) => lex_step_spec(
                s,
                start,
                end,
                next,
                true,
                with_value(toks, prev, Token::Number(v)),
            ),
        }
    }
}

/// Mirror of the choice of a resolved function's base and argument: a glued
/// numeric base after `log`, then a parenthesised argument (tokenized,
/// parsed and evaluated), the glued base itself, a numeric operand, or a
/// glued or following constant. Returns the base, the argument, and the
/// position just past the application.
pub open spec fn fun_arg_spec(
    s: Seq<char>,
    end: int,
    j: int,
    kind: FnKind,
    inline_arg: Option<Fx>,
) -> Result<(Fx, Fx, int), CalculatorError>
    decreases end - j, 0int, 0int,
{
    if !(0 <= j <= end && end <= s.len()) {
        arbitrary()
    } else {
        let glued = kind is Log && inline_arg is None && j < end && is_digit_char(s[j]);
        let base_r = if glued {
            lex_int_rec(s, j, end, 0)
        } else {
            Ok((10int, j))
        };
        match base_r {
            Err(e) => Err(e),
            Ok(bp) => {
                if !(j <= bp.1 <= end) {
                    arbitrary()
                } else {
                    let pos = bp.1;
                    let base = if glued {
                        fx_new_s(false, bp.0 * (SCALE as int))
                    } else {
                        fx_new_s(false, 10 * (SCALE as int))
                    };
                    match inline_arg {
                        Some(v) => Ok((base, v, pos)),
                        None => {
                            let k = skip_spaces(s, pos, end);
                            if !(pos <= k <= end) {
                                arbitrary()
                            } else if k < end && s[k] == '(' {
                                match scan_close(s, k + 1, end, 1) {
                                    None => Err(CalculatorError::UnmatchedLeftParenthesis),
                                    Some(m) => if !(k < m < end) {
                                        arbitrary()
                                    } else {
                                        match lex_step_spec(s, k + 1, m, k + 1, false, Seq::empty()) {
                                            Err(e) => Err(e),
                                            Ok(inner) => match parse_spec(inner) {
                                                Err(e) => Err(e),
                                                Ok(a) => match eval_spec(a) {
                                                    Err(e) => Err(e),
                                                    Ok(v) => Ok((base, v, m + 1)),
                                                },
                                            },
                                        }
                                    },
                                }
                            } else if glued {
                                Ok((base, base, pos))
                            } else if k < end && (is_digit_char(s[k]) || s[k] == '.') {
                                match lex_number_spec(s, k, end) {
                                    Err(e) => Err(e),
                                    Ok(p) => Ok((base, fx_new_s(false, p.0), p.1)),
                                }
                            } else if k < end && is_alpha_char(s[k]) {
                                let j2 = alpha_end(s, k + 1, end);
                                match letters_class_spec(s, k, j2) {
                                    LetterKind::Value(v) => Ok((base, v, j2)),
                                    _ => Err(CalculatorError::ParseError),
                                }
                            } else {
                                Err(CalculatorError::ParseError)
                            }
                        },
                    }
                }
            },
        }
    }
}

/// Mirror of the tokenizer's scan of `s[start..end]` from position `i`,
/// with the implicit-multiplication flag and the tokens emitted so far.
pub open spec fn lex_step_spec(
    s: Seq<char>,
    start: int,
    end: int,
    i: int,
    prev: bool,
    toks: Seq<Token>,
) -> Result<Seq<Token>, CalculatorError>
    decreases end - start, end - i, 0int,
{
    if !(0 <= start <= i && i < end && end <= s.len()) {
        Ok(toks)
    } else {
        let c = s[i];
        if is_space_char(c) {
            lex_step_spec(s, start, end, i + 1, prev, toks)
        } else if is_digit_char(c) || c == '.' {
            match lex_number_spec(s, i, end) {
                Err(e) => Err(e),
                Ok(p) => if i < p.1 <= end {
                    lex_step_spec(
                        s,
                        start,
                        end,
                        p.1,
                        true,
                        toks.push(Token::Number(fx_new_s(false, p.0))),
                    )
                } else {
                    arbitrary()
                },
            }
        } else if is_alpha_char(c) {
            let j = alpha_end(s, i + 1, end);
            if !(i < j <= end) {
                arbitrary()
            } else {
                match letters_class_spec(s, i, j) {
                    LetterKind::Value(v) => lex_step_spec(
                        s,
                        start,
                        end,
                        j,
                        true,
                        with_value(toks, prev, Token::Number(v)),
                    ),
                    LetterKind::Name => lex_step_spec(
                        s,
                        start,
                        end,
                        j,
                        false,
                        with_value(toks, prev, Token::Variable(i as usize, j as usize)),
                    ),
                    LetterKind::Fun(kind, inline_arg) => {
                        match fun_arg_spec(s, end, j, kind, inline_arg) {
                            Err(e) => Err(e),
                            Ok(t) => if i < t.2 <= end {
                                lex_fun_spec(s, start, end, prev, toks, kind, t.0, t.1, t.2)
                            } else {
                                arbitrary()
                            },
                        }
                    },
                }
            }
        } else if c == '+' {
            lex_step_spec(s, start, end, i + 1, false, toks.push(Token::Plus))
        } else if c == '-' {
            lex_step_spec(s, start, end, i + 1, false, toks.push(Token::Minus))
        } else if c == '*' {
            lex_step_spec(s, start, end, i + 1, false, toks.push(Token::Multiply))
        } else if c == '/' {
            lex_step_spec(s, start, end, i + 1, false, toks.push(Token::Divide))
        } else if c == '(' {
            lex_step_spec(
                s,
                start,
                end,
                i + 1,
                false,
                with_value(toks, prev, Token::LeftParenthesis),
            )
        } else if c == ')' {
            lex_step_spec(s, start, end, i + 1, false, toks.push(Token::RightParenthesis))
        } else if c == '=' {
            lex_step_spec(s, start, end, i + 1, false, toks.push(Token::Equal))
        } else {
            Err(CalculatorError::UnexpectedToken)
        }
    }
}

/// Mirror of `lex_range`: the tokens of `s[start..end]`.
pub open spec fn lex_range_spec(s: Seq<char>, start: int, end: int) -> Result<
    Seq<Token>,
    CalculatorError,
> {
    lex_step_spec(s, start, end, start, false, Seq::empty())
}

/// Mirror of `lex`: input that is not ASCII fails with `UnexpectedToken`,
/// anything else tokenizes as `lex_range_spec` says.
pub open spec fn lex_spec(s: Seq<char>) -> Result<Seq<Token>, CalculatorError> {
    if !is_ascii_chars(s) {
        Err(CalculatorError::UnexpectedToken)
    } else {
        lex_range_spec(s, 0, s.len() as int)
    }
}

/// Scans to the end of a letter run.
fn scan_alpha(input: &str, j0: usize, end: usize) -> (j: usize)
    requires
        j0 <= end <= input@.len(),
    ensures
        j0 <= j <= end,
        j == alpha_end(input@, j0 as int, end as int),
{
    let mut j: usize = j0;
    while j < end && is_alpha(input.get_char(j))
        invariant
            j0 <= j <= end,
            end <= input@.len(),
            alpha_end(input@, j0 as int, end as int) == alpha_end(input@, j as int, end as int),
        decreases end - j,
    {
        j = j + 1;
    }
    j
}

/// Chooses a resolved function's base and argument, evaluating a
/// parenthesised argument by tokenizing, parsing and evaluating its text.
#[verifier::rlimit(100)]
fn lex_fun_arg(input: &str, end: usize, j: usize, kind: FnKind, inline_arg: Option<Fx>) -> (r:
    Result<(Fx, Fx, usize), CalculatorError>)
    requires
        j <= end <= input@.len(),
        inline_arg matches Some(v) ==> v.wf(),
    ensures
        match r {
            Ok(t) => fun_arg_spec(input@, end as int, j as int, kind, inline_arg) == Ok::<
                (Fx, Fx, int),
                CalculatorError,
            >((t.0, t.1, t.2 as int)) && j <= t.2 <= end && t.0.wf() && t.1.wf(),
            Err(e) => fun_arg_spec(input@, end as int, j as int, kind, inline_arg) == Err::<
                (Fx, Fx, int),
                CalculatorError,
            >(e),
        },
    decreases end - j, 0int,
{
    let is_log = match kind {
        FnKind::Log => true,
        _ => false,
    };
    let has_inline = match &inline_arg {
        Some(_) => true,
        None => false,
    };
    let glued = is_log && !has_inline && j < end && is_digit(input.get_char(j));
    let mut base: Fx = Fx { neg: false, mag: 10 * SCALE };
    let mut pos: usize = j;
    if glued {
        let (bint, nx) = match lex_integer(input, j, end) {
            Err(e) => {
                return Err(e);
            },
            Ok(p) => p,
        };
        base = Fx::new(false, bint * SCALE);
        pos = nx;
    }
    match inline_arg {
        Some(v) => Ok((base, v, pos)),
        None => {
            let mut k: usize = pos;
            while k < end && is_space(input.get_char(k))
                invariant
                    pos <= k <= end,
                    end <= input@.len(),
                    skip_spaces(input@, pos as int, end as int) == skip_spaces(
                        input@,
                        k as int,
                        end as int,
                    ),
                decreases end - k,
            {
                k = k + 1;
            }
            if k < end && input.get_char(k) == '(' {
                match find_close(input, k, end) {
                    None => {
                        return Err(CalculatorError::UnmatchedLeftParenthesis);
                    },
                    Some(m) => {
                        let inner = match lex_range(input, k + 1, m) {
                            Err(e) => {
                                return Err(e);
                            },
                            Ok(ts) => ts,
                        };
                        let ast = match parse(&inner) {
                            Err(e) => {
                                return Err(e);
                            },
                            Ok(a) => a,
                        };
                        let v = match evaluate_infix(&ast) {
                            Err(e) => {
                                return Err(e);
                            },
                            Ok(v) => v,
                        };
                        Ok((base, v, m + 1))
                    },
                }
            } else if glued {
                Ok((base, base, pos))
            } else if k < end && {
                let ck = input.get_char(k);
                is_digit(ck) || ck == '.'
            } {
                let (mag, nx) = match lex_number(input, k, end) {
                    Err(e) => {
                        return Err(e);
                    },
                    Ok(p) => p,
                };
                Ok((base, Fx::new(false, mag), nx))
            } else if k < end && is_alpha(input.get_char(k)) {
                let j2: usize = scan_alpha(input, k + 1, end);
                match letters_class(input, k, j2) {
                    LetterKind::Value(v) => Ok((base, v, j2)),
                    _ => Err(CalculatorError::ParseError),
                }
            } else {
                Err(CalculatorError::ParseError)
            }
        },
    }
}

/// Applies a resolved function to its argument.
fn apply_fun(kind: FnKind, arg: Fx, base: Fx) -> (r: Result<Fx, CalculatorError>)
    requires
        arg.wf(),
        base.wf(),
    ensures
        r == apply_fun_spec(kind, arg, base),
        r matches Ok(v) ==> v.wf(),
{
    match kind {
        FnKind::Sin => Ok(sin_fx(arg)),
        FnKind::Cos => Ok(cos_fx(arg)),
        FnKind::Tan => tan_fx(arg),
        FnKind::Ln => ln_fx(arg),
        FnKind::Log => log_fx(arg, base),
    }
}

/// The tokenizer's step for a letter run: a constant, a variable name, or
/// a function application resolved to its numeric value.
#[verifier::rlimit(100)]
fn lex_step_alpha(
    input: &str,
    start: usize,
    end: usize,
    i: usize,
    prev: bool,
    toks: &mut Vec<Token>,
) -> (r: Result<(usize, bool), CalculatorError>)
    requires
        start <= i < end,
        end <= input@.len(),
        is_alpha_char(input@[i as int]),
        tokens_wf(old(toks)@),
        tokens_span_ok(old(toks)@, input@.len() as int),
    ensures
        match r {
            Ok(st) => i < st.0 <= end && tokens_wf(final(toks)@) && tokens_span_ok(
                final(toks)@,
                input@.len() as int,
            ) && lex_step_spec(input@, start as int, end as int, i as int, prev, old(toks)@)
                == lex_step_spec(
                input@,
                start as int,
                end as int,
                st.0 as int,
                st.1,
                final(toks)@,
            ),
            Err(e) => lex_step_spec(input@, start as int, end as int, i as int, prev, old(toks)@)
                == Err::<Seq<Token>, CalculatorError>(e),
        },
    decreases end - start, 1int,
{
    let j: usize = scan_alpha(input, i + 1, end);
    match letters_class(input, i, j) {
        LetterKind::Value(v) => {
            if prev {
                toks.push(Token::Multiply);
            }
            toks.push(Token::Number(v));
            Ok((j, true))
        },
        LetterKind::Name => {
            if prev {
                toks.push(Token::Multiply);
            }
            toks.push(Token::Variable(i, j));
            Ok((j, false))
        },
        LetterKind::Fun(kind, inline_arg) => {
            let ghost s0 = input@;
            let ghost st0 = lex_step_spec(input@, start as int, end as int, i as int, prev, old(toks)@);
            let (base, arg, next) = match lex_fun_arg(input, end, j, kind, inline_arg) {
                Err(e) => {
                    return Err(e);
                },
                Ok(t) => t,
            };
            proof {
                assert(st0 == lex_fun_spec(
                    s0,
                    start as int,
                    end as int,
                    prev,
                    old(toks)@,
                    kind,
                    base,
                    arg,
                    next as int,
                ));
            }
            let value: Fx = match apply_fun(kind, arg, base) {
                Err(e) => {
                    return Err(e);
                },
                Ok(v) => v,
            };
            if prev {
                toks.push(Token::Multiply);
            }
            toks.push(Token::Number(value));
            proof {
                assert(toks@ == with_value(old(toks)@, prev, Token::Number(value)));
                assert(st0 == lex_step_spec(
                    s0,
                    start as int,
                    end as int,
                    next as int,
                    true,
                    toks@,
                ));
            }
            Ok((next, true))
        },
    }
}

/// One step of the tokenizer: handles the character at `i` and returns the
/// next position and implicit-multiplication flag, with the tokens it
/// emitted appended to `toks`.
#[verifier::rlimit(100)]
fn lex_step(
    input: &str,
    start: usize,
    end: usize,
    i: usize,
    prev: bool,
    toks: &mut Vec<Token>,
) -> (r: Result<(usize, bool), CalculatorError>)
    requires
        start <= i < end,
        end <= input@.len(),
        tokens_wf(old(toks)@),
        tokens_span_ok(old(toks)@, input@.len() as int),
    ensures
        match r {
            Ok(st) => i < st.0 <= end && tokens_wf(final(toks)@) && tokens_span_ok(
                final(toks)@,
                input@.len() as int,
            ) && lex_step_spec(input@, start as int, end as int, i as int, prev, old(toks)@)
                == lex_step_spec(
                input@,
                start as int,
                end as int,
                st.0 as int,
                st.1,
                final(toks)@,
            ) && (is_space_char(input@[i as int]) ==> final(toks)@ == old(toks)@),
            Err(e) => lex_step_spec(input@, start as int, end as int, i as int, prev, old(toks)@)
                == Err::<Seq<Token>, CalculatorError>(e) && !is_space_char(input@[i as int]),
        },
    decreases end - start, 2int,
{
    let c: char = input.get_char(i);
    if is_space(c) {
        Ok((i + 1, prev))
    } else if is_digit(c) || c == '.' {
        let (mag, nx) = match lex_number(input, i, end) {
            Err(e) => {
                return Err(e);
            },
            Ok(p) => p,
        };
        toks.push(Token::Number(Fx::new(false, mag)));
        Ok((nx, true))
    } else if is_alpha(c) {
        lex_step_alpha(input, start, end, i, prev, toks)
    } else if c == '+' {
        toks.push(Token::Plus);
        Ok((i + 1, false))
    } else if c == '-' {
        toks.push(Token::Minus);
        Ok((i + 1, false))
    } else if c == '*' {
        toks.push(Token::Multiply);
        Ok((i + 1, false))
    } else if c == '/' {
        toks.push(Token::Divide);
        Ok((i + 1, false))
    } else if c == '(' {
        if prev {
            toks.push(Token::Multiply);
        }
        toks.push(Token::LeftParenthesis);
        Ok((i + 1, false))
    } else if c == ')' {
        toks.push(Token::RightParenthesis);
        Ok((i + 1, false))
    } else if c == '=' {
        toks.push(Token::Equal);
        Ok((i + 1, false))
    } else {
        Err(CalculatorError::UnexpectedToken)
    }
}

/// Tokenizes `input[start..end]`.
fn lex_range(input: &str, start: usize, end: usize) -> (r: Result<Vec<Token>, CalculatorError>)
    requires
        start <= end <= input@.len(),
    ensures
        match r {
            Ok(ts) => tokens_wf(ts@) && tokens_span_ok(ts@, input@.len() as int) && lex_range_spec(
                input@,
                start as int,
                end as int,
            ) == Ok::<Seq<Token>, CalculatorError>(ts@),
            Err(e) => lex_range_spec(input@, start as int, end as int) == Err::<
                Seq<Token>,
                CalculatorError,
            >(e),
        },
        (forall|t: int| start <= t < end ==> is_space_char(#[trigger] input@[t])) ==> (r matches Ok(
            ts,
        ) && ts@.len() == 0),
    decreases end - start, 3int,
{
    let mut toks: Vec<Token> = Vec::new();
    let mut prev_num = false;
    let mut i: usize = start;
    while i < end
        invariant
            start <= i <= end,
            end <= input@.len(),
            tokens_wf(toks@),
            tokens_span_ok(toks@, input@.len() as int),
            lex_step_spec(input@, start as int, end as int, i as int, prev_num, toks@)
                == lex_range_spec(input@, start as int, end as int),
            ((forall|t: int| start <= t < i ==> is_space_char(#[trigger] input@[t])) ==> toks@.len()
                == 0),
        decreases end - i,
    {
        match lex_step(input, start, end, i, prev_num, &mut toks) {
            Err(e) => {
                return Err(e);
            },
            Ok(st) => {
                proof {
                    if forall|t: int| start <= t < st.0 ==> is_space_char(#[trigger] input@[t]) {
                        assert(is_space_char(input@[i as int]));
                    }
                }
                i = st.0;
                prev_num = st.1;
            },
        }
    }
    Ok(toks)
}

/// Tokenizes a whole input line. Input that is not ASCII fails fast with
/// `UnexpectedToken`; empty or all-whitespace input yields no tokens.
pub fn lex(input: &str) -> (r: Result<Vec<Token>, CalculatorError>)
    ensures
        match r {
            Ok(ts) => is_ascii(input) && tokens_wf(ts@) && tokens_span_ok(ts@, input@.len() as int)
                && lex_spec(input@) == Ok::<Seq<Token>, CalculatorError>(ts@),
            Err(e) => lex_spec(input@) == Err::<Seq<Token>, CalculatorError>(e),
        },
        (is_ascii(input) && (forall|t: int|
            0 <= t < input@.len() ==> is_space_char(#[trigger] input@[t]))) ==> (r matches Ok(ts)
            && ts@.len() == 0),
        input@.len() == 0 ==> (r matches Ok(ts) && ts@.len() == 0),
{
    if !input.is_ascii() {
        return Err(CalculatorError::UnexpectedToken);
    }
    let n: usize = input.unicode_len();
    lex_range(input, 0, n)
}

} // verus!
