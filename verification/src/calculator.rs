//! The public surface of the calculator: the error taxonomy, the notation
//! classifier, and the expression-processing entry point.

use vstd::prelude::*;
use vstd::string::is_ascii;
use vstd::string::StringExecFns;
use vstd::string::StrSliceExecFns;
use crate::evaluator::{
    eval_spec, evaluate_infix, evaluate_postfix, postfix_spec, solve_equation, solve_spec,
};
use crate::fx::{fmt_fx, format_fx, round8, round8_fx, Fx};
use crate::lexer::{is_space_char, lex, lex_spec};
use crate::parser::{parse, parse_spec};
use crate::token::{tokens_span_ok, tokens_wf, Token};

verus! {

/// Every way a calculation can fail. Errors are values, not exceptions:
/// each stage returns the first failure it meets and the pipeline forwards
/// it unchanged.
#[derive(Debug, PartialEq, Eq, Structural)]
pub enum CalculatorError {
    DivisionByZero,
    ParseError,
    UnexpectedToken,
    InvalidExpression,
    MultipleVariables,
    EmptyExpression,
    ExtraTokensDetected,
    UnmatchedRightParenthesis,
    UnmatchedLeftParenthesis,
}

/// Whether any parenthesis or `=` occurs: postfix notation is recognised
/// only for flat arithmetic.
pub open spec fn contains_paren_or_equal(ts: Seq<Token>) -> bool {
    exists|i: int|
        0 <= i < ts.len() && ((#[trigger] ts[i]) is LeftParenthesis || ts[i] is RightParenthesis
            || ts[i] is Equal)
}

/// Mirror of the postfix scan: walking left to right counting numbers and
/// operators, the sequence is postfix as soon as an operator follows a
/// number and, just after counting that operator, exactly one more number
/// than operators has been seen.
pub open spec fn postfix_scan_spec(
    ts: Seq<Token>,
    i: int,
    last_num: bool,
    nums: int,
    ops: int,
) -> bool
    decreases ts.len() - i,
{
    if i < 0 || i >= ts.len() {
        false
    } else {
        match ts[i] {
            Token::Number(_) => postfix_scan_spec(ts, i + 1, true, nums + 1, ops),
            Token::Plus | Token::Minus | Token::Multiply | Token::Divide => if last_num && nums
                == ops + 2 {
                true
            } else {
                postfix_scan_spec(ts, i + 1, false, nums, ops + 1)
            },
            _ => postfix_scan_spec(ts, i + 1, false, nums, ops),
        }
    }
}

/// Whether a token sequence is read as postfix notation.
pub open spec fn is_postfix_spec(ts: Seq<Token>) -> bool {
    !contains_paren_or_equal(ts) && postfix_scan_spec(ts, 0, false, 0, 0)
}

/// Decides whether a token sequence is postfix notation. This is the
/// heuristic the pipeline uses to disambiguate the two notations; it is not
/// a full postfix validator.
pub fn is_postfix_expression(tokens: &Vec<Token>) -> (r: bool)
    ensures
        r == is_postfix_spec(tokens@),
{
    let mut i: usize = 0;
    while i < tokens.len()
        invariant
            i <= tokens@.len(),
            forall|j: int|
                0 <= j < i ==> !((#[trigger] tokens@[j]) is LeftParenthesis
                    || tokens@[j] is RightParenthesis || tokens@[j] is Equal),
        decreases tokens@.len() - i,
    {
        match &tokens[i] {
            Token::LeftParenthesis | Token::RightParenthesis | Token::Equal => {
                return false;
            },
            _ => {},
        }
        i = i + 1;
    }
    let mut last_num = false;
    let mut nums: usize = 0;
    let mut ops: usize = 0;
    let mut k: usize = 0;
    while k < tokens.len()
        invariant
            k <= tokens@.len(),
            nums <= k,
            ops <= k,
            !contains_paren_or_equal(tokens@),
            postfix_scan_spec(tokens@, k as int, last_num, nums as int, ops as int)
                == postfix_scan_spec(tokens@, 0, false, 0, 0),
        decreases tokens@.len() - k,
    {
        match &tokens[k] {
            Token::Number(_) => {
                nums = nums + 1;
                last_num = true;
            },
            Token::Plus | Token::Minus | Token::Multiply | Token::Divide => {
                if last_num && nums >= 2 && nums - 2 == ops {
                    return true;
                }
                ops = ops + 1;
                last_num = false;
            },
            _ => {
                last_num = false;
            },
        }
        k = k + 1;
    }
    false
}

/// Whether any `Variable` token occurs.
pub open spec fn has_variable(ts: Seq<Token>) -> bool {
    exists|i: int| 0 <= i < ts.len() && (#[trigger] ts[i]) is Variable
}

/// Whether two `Variable` tokens with distinct names occur, names being the
/// spans the tokens point at in the input `s`.
pub open spec fn has_two_variables(s: Seq<char>, ts: Seq<Token>) -> bool {
    exists|i: int, j: int|
        0 <= i < ts.len() && 0 <= j < ts.len() && ((#[trigger] ts[i]) matches Token::Variable(
            a1,
            b1,
        ) && ((#[trigger] ts[j]) matches Token::Variable(a2, b2) && s.subrange(a1 as int, b1 as int)
            != s.subrange(a2 as int, b2 as int)))
}

/// The name of the first `Variable` token at or after `i`, or the empty
/// name where there is none.
pub open spec fn first_var_name(s: Seq<char>, ts: Seq<Token>, i: int) -> Seq<char>
    decreases ts.len() - i,
{
    if i < 0 || i >= ts.len() {
        Seq::empty()
    } else {
        match ts[i] {
            Token::Variable(a, b) => s.subrange(a as int, b as int),
            _ => first_var_name(s, ts, i + 1),
        }
    }
}

/// Whether two spans of the input hold the same text.
fn spans_equal(input: &str, a1: usize, b1: usize, a2: usize, b2: usize) -> (r: bool)
    requires
        a1 <= b1 <= input@.len(),
        a2 <= b2 <= input@.len(),
    ensures
        r == (input@.subrange(a1 as int, b1 as int) == input@.subrange(a2 as int, b2 as int)),
{
    let ghost s1 = input@.subrange(a1 as int, b1 as int);
    let ghost s2 = input@.subrange(a2 as int, b2 as int);
    if b1 - a1 != b2 - a2 {
        proof {
            assert(s1.len() != s2.len());
        }
        return false;
    }
    let n: usize = b1 - a1;
    let mut t: usize = 0;
    while t < n
        invariant
            t <= n,
            n == b1 - a1 == b2 - a2,
            a1 + n <= input@.len(),
            a2 + n <= input@.len(),
            s1 == input@.subrange(a1 as int, b1 as int),
            s2 == input@.subrange(a2 as int, b2 as int),
            forall|q: int| 0 <= q < t ==> s1[q] == s2[q],
        decreases n - t,
    {
        if input.get_char(a1 + t) != input.get_char(a2 + t) {
            proof {
                assert(s1[t as int] != s2[t as int]);
            }
            return false;
        }
        t = t + 1;
    }
    proof {
        assert(s1 =~= s2);
    }
    true
}

/// Scans for the single free variable. More than one distinct variable name
/// anywhere in the input fails with `MultipleVariables`; otherwise returns
/// the span of the name, if any variable occurs at all.
pub fn find_single_variable(input: &str, tokens: &Vec<Token>) -> (r: Result<
    Option<(usize, usize)>,
    CalculatorError,
>)
    requires
        tokens_span_ok(tokens@, input@.len() as int),
    ensures
        match r {
            Err(e) => e == CalculatorError::MultipleVariables && has_two_variables(
                input@,
                tokens@,
            ),
            Ok(opt) => !has_two_variables(input@, tokens@) && match opt {
                Some(sp) => has_variable(tokens@) && sp.0 < sp.1 <= input@.len() && input@.subrange(
                    sp.0 as int,
                    sp.1 as int,
                ) == first_var_name(input@, tokens@, 0) && (forall|i: int|
                    0 <= i < tokens@.len() ==> ((#[trigger] tokens@[i]) matches Token::Variable(
                        a,
                        b,
                    ) ==> input@.subrange(a as int, b as int) == input@.subrange(
                        sp.0 as int,
                        sp.1 as int,
                    ))),
                None => !has_variable(tokens@),
            },
        },
{
    let ghost s = input@;
    let mut seen: Option<(usize, usize)> = None;
    let mut i: usize = 0;
    while i < tokens.len()
        invariant
            i <= tokens@.len(),
            tokens_span_ok(tokens@, s.len() as int),
            s == input@,
            match seen {
                None => (forall|j: int| 0 <= j < i ==> !((#[trigger] tokens@[j]) is Variable))
                    && first_var_name(s, tokens@, 0) == first_var_name(s, tokens@, i as int),
                Some(sp) => sp.0 < sp.1 <= s.len() && s.subrange(sp.0 as int, sp.1 as int)
                    == first_var_name(s, tokens@, 0) && (exists|j: int|
                    0 <= j < i && (#[trigger] tokens@[j]) is Variable) && (forall|j: int|
                    0 <= j < i ==> ((#[trigger] tokens@[j]) matches Token::Variable(a, b)
                        ==> s.subrange(a as int, b as int) == s.subrange(
                        sp.0 as int,
                        sp.1 as int,
                    ))),
            },
        decreases tokens@.len() - i,
    {
        match &tokens[i] {
            Token::Variable(a, b) => {
                match &seen {
                    None => {
                        seen = Some((*a, *b));
                    },
                    Some(sp) => {
                        if !spans_equal(input, sp.0, sp.1, *a, *b) {
                            return Err(CalculatorError::MultipleVariables);
                        }
                    },
                }
            },
            _ => {},
        }
        i = i + 1;
    }
    Ok(seen)
}

/// Whether any `Equal` token occurs.
pub open spec fn has_equal(ts: Seq<Token>) -> bool {
    exists|i: int| 0 <= i < ts.len() && (#[trigger] ts[i]) is Equal
}

fn contains_equal(tokens: &Vec<Token>) -> (r: bool)
    ensures
        r == has_equal(tokens@),
{
    let mut i: usize = 0;
    while i < tokens.len()
        invariant
            i <= tokens@.len(),
            forall|j: int| 0 <= j < i ==> !((#[trigger] tokens@[j]) is Equal),
        decreases tokens@.len() - i,
    {
        match &tokens[i] {
            Token::Equal => {
                return true;
            },
            _ => {},
        }
        i = i + 1;
    }
    false
}

/// The rendering of a rounded numeric result.
pub open spec fn shown_value(v: Fx) -> Seq<char> {
    fmt_fx(round8_fx(v))
}

/// Mirror of `process_tokens`: no tokens fail with `EmptyExpression`; two
/// distinct variable names fail with `MultipleVariables`; a variable
/// together with an `=` solves the equation and renders `name=value`;
/// anything else is classified as postfix or infix, evaluated, and the
/// rounded numeric result rendered alone.
pub open spec fn process_tokens_spec(s: Seq<char>, ts: Seq<Token>) -> Result<
    Seq<char>,
    CalculatorError,
> {
    if ts.len() == 0 {
        Err(CalculatorError::EmptyExpression)
    } else if has_two_variables(s, ts) {
        Err(CalculatorError::MultipleVariables)
    } else if has_variable(ts) && has_equal(ts) {
        match solve_spec(ts) {
            Err(e) => Err(e),
            Ok(v) => Ok(first_var_name(s, ts, 0) + seq!['='] + shown_value(v)),
        }
    } else if is_postfix_spec(ts) {
        match postfix_spec(ts, 0, Seq::empty()) {
            Err(e) => Err(e),
            Ok(v) => Ok(shown_value(v)),
        }
    } else {
        match parse_spec(ts) {
            Err(e) => Err(e),
            Ok(a) => match eval_spec(a) {
                Err(e) => Err(e),
                Ok(v) => Ok(shown_value(v)),
            },
        }
    }
}

/// Selects the evaluation path for a token sequence, evaluates it, and
/// renders the result, exactly as `process_tokens_spec` says.
pub fn process_tokens(input: &str, tokens: &Vec<Token>) -> (r: Result<String, CalculatorError>)
    requires
        is_ascii(input),
        tokens_wf(tokens@),
        tokens_span_ok(tokens@, input@.len() as int),
    ensures
        match r {
            Ok(out) => process_tokens_spec(input@, tokens@) matches Ok(sq) && out@ == sq,
            Err(e) => process_tokens_spec(input@, tokens@) == Err::<Seq<char>, CalculatorError>(e),
        },
{
    if tokens.len() == 0 {
        return Err(CalculatorError::EmptyExpression);
    }
    let with_equal = contains_equal(tokens);
    let variable = match find_single_variable(input, tokens) {
        Err(e) => {
            return Err(e);
        },
        Ok(v) => v,
    };
    match variable {
        Some((a, b)) if with_equal => {
            let value = match solve_equation(tokens) {
                Err(e) => {
                    return Err(e);
                },
                Ok(v) => v,
            };
            let shown = format_fx(round8(value));
            let mut out = String::from_str(input.substring_ascii(a, b));
            proof {
                reveal_strlit("=");
                assert("="@ =~= seq!['=']);
            }
            out.append("=");
            out.append(shown.as_str());
            proof {
                assert(out@ =~= first_var_name(input@, tokens@, 0) + seq!['='] + shown_value(
                    value,
                ));
            }
            Ok(out)
        },
        _ => {
            let value = if is_postfix_expression(tokens) {
                match evaluate_postfix(tokens) {
                    Err(e) => {
                        return Err(e);
                    },
                    Ok(v) => v,
                }
            } else {
                let ast = match parse(tokens) {
                    Err(e) => {
                        return Err(e);
                    },
                    Ok(a) => a,
                };
                match evaluate_infix(&ast) {
                    Err(e) => {
                        return Err(e);
                    },
                    Ok(v) => v,
                }
            };
            Ok(format_fx(round8(value)))
        },
    }
}

/// Mirror of `process_expression`: tokenize, then run the token pipeline.
/// This is the complete functional description of the calculator, from the
/// input text to the rendered result or the error.
pub open spec fn process_spec(s: Seq<char>) -> Result<Seq<char>, CalculatorError> {
    match lex_spec(s) {
        Err(e) => Err(e),
        Ok(ts) => process_tokens_spec(s, ts),
    }
}

/// Evaluates one line of input and renders the result.
///
/// The input is tokenized; no tokens at all fail with `EmptyExpression`.
/// If a variable and an `=` are both present the equation is solved and the
/// answer rendered as `name=value`; otherwise the tokens are classified as
/// postfix or infix, evaluated, and the numeric result rendered alone. The
/// displayed value is rounded to 8 decimal places. The whole behaviour, for
/// every input, is `process_spec`.
pub fn process_expression(input: &str) -> (r: Result<String, CalculatorError>)
    ensures
        match r {
            Ok(out) => process_spec(input@) matches Ok(sq) && out@ == sq,
            Err(e) => process_spec(input@) == Err::<Seq<char>, CalculatorError>(e),
        },
        input@.len() == 0 ==> r == Err::<String, CalculatorError>(CalculatorError::EmptyExpression),
        (is_ascii(input) && (forall|i: int|
            0 <= i < input@.len() ==> is_space_char(#[trigger] input@[i]))) ==> r == Err::<
            String,
            CalculatorError,
        >(CalculatorError::EmptyExpression),
        !is_ascii(input) ==> r == Err::<String, CalculatorError>(CalculatorError::UnexpectedToken),
{
    let tokens = match lex(input) {
        Err(e) => {
            return Err(e);
        },
        Ok(ts) => ts,
    };
    process_tokens(input, &tokens)
}

} // verus!
