//! Semantic evaluation: tree walking for infix, a stack machine for postfix,
//! and linear-equation solving by affine coefficient extraction.
//!
//! Every executable function returns exactly what its specification mirror
//! computes, so numeric results and every failure are pinned down.

use vstd::prelude::*;
use crate::ast::{Ast, Op};
use crate::calculator::CalculatorError;
use crate::fx::{
    checked_add, checked_div, checked_mul, checked_sub, div_mag, div_overflows, fx_of,
    lemma_fx_of_v, mul_mag, mul_overflows, Fx, MAX_MAG, SCALE,
};
use crate::parser::{parse_expr_spec, parse_expression};
use crate::token::{tokens_wf, Token};

verus! {

/// What one arithmetic step returns: the exact fixed-point result, or
/// `DivisionByZero` for an exactly-zero divisor, or `InvalidExpression`
/// when a result leaves the representable range.
pub open spec fn apply_op_spec(a: Fx, op: Op, b: Fx) -> Result<Fx, CalculatorError> {
    match op {
        Op::Add => if -(MAX_MAG as int) <= a.v() + b.v() <= MAX_MAG as int {
            Ok(fx_of(a.v() + b.v()))
        } else {
            Err(CalculatorError::InvalidExpression)
        },
        Op::Sub => if -(MAX_MAG as int) <= a.v() - b.v() <= MAX_MAG as int {
            Ok(fx_of(a.v() - b.v()))
        } else {
            Err(CalculatorError::InvalidExpression)
        },
        Op::Mul => if mul_overflows(a, b) {
            Err(CalculatorError::InvalidExpression)
        } else {
            Ok(
                Fx {
                    neg: (a.neg != b.neg) && mul_mag(a, b) != 0,
                    mag: mul_mag(a, b) as u128,
                },
            )
        },
        Op::Div => if b.mag == 0 {
            Err(CalculatorError::DivisionByZero)
        } else if div_overflows(a, b) {
            Err(CalculatorError::InvalidExpression)
        } else {
            Ok(
                Fx {
                    neg: (a.neg != b.neg) && div_mag(a, b) != 0,
                    mag: div_mag(a, b) as u128,
                },
            )
        },
    }
}

/// Division by an exact zero always fails with `DivisionByZero`, whatever
/// the dividend.
pub proof fn lemma_apply_div_by_zero(a: Fx, b: Fx)
    requires
        b.v() == 0,
    ensures
        apply_op_spec(a, Op::Div, b) == Err::<Fx, CalculatorError>(CalculatorError::DivisionByZero),
{
}

/// Applies one arithmetic operation.
fn apply_op(a: Fx, op: Op, b: Fx) -> (r: Result<Fx, CalculatorError>)
    requires
        a.wf(),
        b.wf(),
    ensures
        r == apply_op_spec(a, op, b),
        r matches Ok(v) ==> v.wf(),
{
    match op {
        Op::Add => match checked_add(a, b) {
            Some(v) => {
                proof {
                    lemma_fx_of_v(v);
                }
                Ok(v)
            },
            None => Err(CalculatorError::InvalidExpression),
        },
        Op::Sub => match checked_sub(a, b) {
            Some(v) => {
                proof {
                    lemma_fx_of_v(v);
                }
                Ok(v)
            },
            None => Err(CalculatorError::InvalidExpression),
        },
        Op::Mul => match checked_mul(a, b) {
            Some(v) => Ok(v),
            None => Err(CalculatorError::InvalidExpression),
        },
        Op::Div => {
            if b.mag == 0 {
                Err(CalculatorError::DivisionByZero)
            } else {
                match checked_div(a, b) {
                    Some(v) => Ok(v),
                    None => Err(CalculatorError::InvalidExpression),
                }
            }
        },
    }
}

/// Mirror of `evaluate_infix`: a post-order walk. A number yields its value;
/// the unknown is illegal outside equation solving and fails with
/// `InvalidExpression`; an operation evaluates both children, left first,
/// then applies the operator.
pub open spec fn eval_spec(a: Ast) -> Result<Fx, CalculatorError>
    decreases a,
{
    match a {
        Ast::Num(x) => Ok(x),
        Ast::Var(..) => Err(CalculatorError::InvalidExpression),
        Ast::BinOp(l, op, r) => match eval_spec(*l) {
            Err(e) => Err(e),
            Ok(lv) => match eval_spec(*r) {
                Err(e) => Err(e),
                Ok(rv) => apply_op_spec(lv, op, rv),
            },
        },
    }
}

/// Evaluates an expression tree that holds no variable.
pub fn evaluate_infix(ast: &Ast) -> (r: Result<Fx, CalculatorError>)
    requires
        ast.wf(),
    ensures
        r == eval_spec(*ast),
        r matches Ok(v) ==> v.wf(),
    decreases *ast,
{
    match ast {
        Ast::Num(x) => Ok(*x),
        Ast::Var(..) => Err(CalculatorError::InvalidExpression),
        Ast::BinOp(l, op, r) => {
            match evaluate_infix(l) {
                Err(e) => Err(e),
                Ok(lv) => match evaluate_infix(r) {
                    Err(e) => Err(e),
                    Ok(rv) => apply_op(lv, *op, rv),
                },
            }
        },
    }
}

/// In plain evaluation, a division whose right child evaluates to an exact
/// zero fails with `DivisionByZero`.
pub proof fn lemma_eval_div_by_zero(ast: Ast)
    requires
        ast matches Ast::BinOp(l, op, r) && op is Div && eval_spec(*l) is Ok && (eval_spec(*r)
            matches Ok(v) && v.v() == 0),
    ensures
        eval_spec(ast) == Err::<Fx, CalculatorError>(CalculatorError::DivisionByZero),
{
}

/// The operator a token stands for; meaningful only for operator tokens.
pub open spec fn op_of_token(t: Token) -> Op {
    match t {
        Token::Plus => Op::Add,
        Token::Minus => Op::Sub,
        Token::Multiply => Op::Mul,
        Token::Divide => Op::Div,
        _ => Op::Add,
    }
}

/// Mirror of `evaluate_postfix` from position `i` with the given stack: a
/// number pushes; an operator pops the right operand, then the left, and
/// pushes the result; any other token fails with `UnexpectedToken`; at the
/// end exactly one value must remain.
pub open spec fn postfix_spec(ts: Seq<Token>, i: int, stack: Seq<Fx>) -> Result<
    Fx,
    CalculatorError,
>
    decreases ts.len() - i,
{
    if i < 0 || i >= ts.len() {
        if stack.len() == 1 {
            Ok(stack[0])
        } else {
            Err(CalculatorError::InvalidExpression)
        }
    } else {
        match ts[i] {
            Token::Number(x) => postfix_spec(ts, i + 1, stack.push(x)),
            Token::Plus | Token::Minus | Token::Multiply | Token::Divide => if stack.len() < 2 {
                Err(CalculatorError::InvalidExpression)
            } else {
                let rhs = stack[stack.len() - 1];
                let lhs = stack[stack.len() - 2];
                match apply_op_spec(lhs, op_of_token(ts[i]), rhs) {
                    Err(e) => Err(e),
                    Ok(v) => postfix_spec(ts, i + 1, stack.take(stack.len() - 2).push(v)),
                }
            },
            _ => Err(CalculatorError::UnexpectedToken),
        }
    }
}

/// Evaluates a postfix token sequence with a numeric stack.
pub fn evaluate_postfix(tokens: &Vec<Token>) -> (r: Result<Fx, CalculatorError>)
    requires
        tokens_wf(tokens@),
    ensures
        r == postfix_spec(tokens@, 0, Seq::empty()),
        r matches Ok(v) ==> v.wf(),
{
    let mut stack: Vec<Fx> = Vec::new();
    let mut i: usize = 0;
    while i < tokens.len()
        invariant
            tokens_wf(tokens@),
            i <= tokens@.len(),
            forall|j: int| 0 <= j < stack@.len() ==> (#[trigger] stack@[j]).wf(),
            postfix_spec(tokens@, i as int, stack@) == postfix_spec(
                tokens@,
                0,
                Seq::<Fx>::empty(),
            ),
        decreases tokens@.len() - i,
    {
        let ghost prev_stack = stack@;
        match &tokens[i] {
            Token::Number(x) => {
                stack.push(*x);
            },
            Token::Plus | Token::Minus | Token::Multiply | Token::Divide => {
                if stack.len() < 2 {
                    return Err(CalculatorError::InvalidExpression);
                }
                let rhs = stack.pop().unwrap();
                let lhs = stack.pop().unwrap();
                let op = match &tokens[i] {
                    Token::Plus => Op::Add,
                    Token::Minus => Op::Sub,
                    Token::Multiply => Op::Mul,
                    _ => Op::Div,
                };
                proof {
                    assert(rhs == prev_stack[prev_stack.len() - 1]);
                    assert(lhs == prev_stack[prev_stack.len() - 2]);
                    assert(op == op_of_token(tokens@[i as int]));
                }
                match apply_op(lhs, op, rhs) {
                    Err(e) => {
                        return Err(e);
                    },
                    Ok(v) => {
                        stack.push(v);
                        proof {
                            assert(stack@ =~= prev_stack.take(prev_stack.len() - 2).push(v));
                        }
                    },
                }
            },
            _ => {
                return Err(CalculatorError::UnexpectedToken);
            },
        }
        i = i + 1;
    }
    if stack.len() != 1 {
        return Err(CalculatorError::InvalidExpression);
    }
    let v = stack.pop().unwrap();
    Ok(v)
}

/// In postfix evaluation, a division whose top-of-stack operand is an exact
/// zero fails with `DivisionByZero`.
pub proof fn lemma_postfix_div_by_zero(ts: Seq<Token>, i: int, stack: Seq<Fx>)
    requires
        0 <= i < ts.len(),
        ts[i] is Divide,
        stack.len() >= 2,
        stack[stack.len() - 1].v() == 0,
    ensures
        postfix_spec(ts, i, stack) == Err::<Fx, CalculatorError>(CalculatorError::DivisionByZero),
{
}

/// Mirror of `extract_coefficients_and_constants`: reduces a tree to an
/// affine pair `(coefficient, constant)` over the single unknown, meaning
/// `value = coefficient * x + constant`. A product of two sides that both
/// carry the unknown, or a division by a term carrying it, is non-linear
/// and fails with `InvalidExpression`; division by an exactly-zero constant
/// fails with `DivisionByZero`.
pub open spec fn extract_spec(a: Ast) -> Result<(Fx, Fx), CalculatorError>
    decreases a,
{
    match a {
        Ast::Num(n) => Ok((Fx { neg: false, mag: 0 }, n)),
        Ast::Var(..) => Ok((Fx { neg: false, mag: SCALE }, Fx { neg: false, mag: 0 })),
        Ast::BinOp(l, op, r) => match extract_spec(*l) {
            Err(e) => Err(e),
            Ok(lp) => match extract_spec(*r) {
                Err(e) => Err(e),
                Ok(rp) => extract_op_spec(lp, op, rp),
            },
        },
    }
}

/// One reduction step of the affine extraction.
pub open spec fn extract_op_spec(lp: (Fx, Fx), op: Op, rp: (Fx, Fx)) -> Result<
    (Fx, Fx),
    CalculatorError,
> {
    match op {
        Op::Add => match apply_op_spec(lp.0, Op::Add, rp.0) {
            Err(e) => Err(e),
            Ok(c) => match apply_op_spec(lp.1, Op::Add, rp.1) {
                Err(e) => Err(e),
                Ok(k) => Ok((c, k)),
            },
        },
        Op::Sub => match apply_op_spec(lp.0, Op::Sub, rp.0) {
            Err(e) => Err(e),
            Ok(c) => match apply_op_spec(lp.1, Op::Sub, rp.1) {
                Err(e) => Err(e),
                Ok(k) => Ok((c, k)),
            },
        },
        Op::Mul => if lp.0.mag == 0 {
            match apply_op_spec(rp.0, Op::Mul, lp.1) {
                Err(e) => Err(e),
                Ok(c) => match apply_op_spec(rp.1, Op::Mul, lp.1) {
                    Err(e) => Err(e),
                    Ok(k) => Ok((c, k)),
                },
            }
        } else if rp.0.mag == 0 {
            match apply_op_spec(lp.0, Op::Mul, rp.1) {
                Err(e) => Err(e),
                Ok(c) => match apply_op_spec(lp.1, Op::Mul, rp.1) {
                    Err(e) => Err(e),
                    Ok(k) => Ok((c, k)),
                },
            }
        } else {
            Err(CalculatorError::InvalidExpression)
        },
        Op::Div => if rp.0.mag != 0 {
            Err(CalculatorError::InvalidExpression)
        } else if rp.1.mag == 0 {
            Err(CalculatorError::DivisionByZero)
        } else {
            match apply_op_spec(lp.0, Op::Div, rp.1) {
                Err(e) => Err(e),
                Ok(c) => match apply_op_spec(lp.1, Op::Div, rp.1) {
                    Err(e) => Err(e),
                    Ok(k) => Ok((c, k)),
                },
            }
        },
    }
}

/// In equation reduction, dividing by a pure constant that is exactly zero
/// always fails with `DivisionByZero`.
pub proof fn lemma_extract_div_by_zero(lp: (Fx, Fx), rp: (Fx, Fx))
    requires
        rp.0.mag == 0,
        rp.1.v() == 0,
    ensures
        extract_op_spec(lp, Op::Div, rp) == Err::<(Fx, Fx), CalculatorError>(
            CalculatorError::DivisionByZero,
        ),
{
}

/// Reduces a tree to its affine pair over the single unknown.
fn extract_coefficients_and_constants(ast: &Ast) -> (r: Result<(Fx, Fx), CalculatorError>)
    requires
        ast.wf(),
    ensures
        r == extract_spec(*ast),
        r matches Ok(p) ==> p.0.wf() && p.1.wf(),
    decreases *ast,
{
    match ast {
        Ast::Num(n) => Ok((Fx::zero(), *n)),
        Ast::Var(..) => Ok((Fx::one(), Fx::zero())),
        Ast::BinOp(l, op, r) => {
            let lp = match extract_coefficients_and_constants(l) {
                Err(e) => {
                    return Err(e);
                },
                Ok(p) => p,
            };
            let rp = match extract_coefficients_and_constants(r) {
                Err(e) => {
                    return Err(e);
                },
                Ok(p) => p,
            };
            match op {
                Op::Add => {
                    let c = match apply_op(lp.0, Op::Add, rp.0) {
                        Err(e) => {
                            return Err(e);
                        },
                        Ok(v) => v,
                    };
                    let k = match apply_op(lp.1, Op::Add, rp.1) {
                        Err(e) => {
                            return Err(e);
                        },
                        Ok(v) => v,
                    };
                    Ok((c, k))
                },
                Op::Sub => {
                    let c = match apply_op(lp.0, Op::Sub, rp.0) {
                        Err(e) => {
                            return Err(e);
                        },
                        Ok(v) => v,
                    };
                    let k = match apply_op(lp.1, Op::Sub, rp.1) {
                        Err(e) => {
                            return Err(e);
                        },
                        Ok(v) => v,
                    };
                    Ok((c, k))
                },
                Op::Mul => {
                    if lp.0.mag == 0 {
                        let c = match apply_op(rp.0, Op::Mul, lp.1) {
                            Err(e) => {
                                return Err(e);
                            },
                            Ok(v) => v,
                        };
                        let k = match apply_op(rp.1, Op::Mul, lp.1) {
                            Err(e) => {
                                return Err(e);
                            },
                            Ok(v) => v,
                        };
                        Ok((c, k))
                    } else if rp.0.mag == 0 {
                        let c = match apply_op(lp.0, Op::Mul, rp.1) {
                            Err(e) => {
                                return Err(e);
                            },
                            Ok(v) => v,
                        };
                        let k = match apply_op(lp.1, Op::Mul, rp.1) {
                            Err(e) => {
                                return Err(e);
                            },
                            Ok(v) => v,
                        };
                        Ok((c, k))
                    } else {
                        Err(CalculatorError::InvalidExpression)
                    }
                },
                Op::Div => {
                    if rp.0.mag != 0 {
                        Err(CalculatorError::InvalidExpression)
                    } else if rp.1.mag == 0 {
                        Err(CalculatorError::DivisionByZero)
                    } else {
                        let c = match apply_op(lp.0, Op::Div, rp.1) {
                            Err(e) => {
                                return Err(e);
                            },
                            Ok(v) => v,
                        };
                        let k = match apply_op(lp.1, Op::Div, rp.1) {
                            Err(e) => {
                                return Err(e);
                            },
                            Ok(v) => v,
                        };
                        Ok((c, k))
                    }
                },
            }
        },
    }
}

/// Trees built of numbers, the unknown, additions and subtractions only:
/// the fragment on which affine extraction is exact, since `*` and `/`
/// truncate at the grid.
pub open spec fn add_sub_only(a: Ast) -> bool
    decreases a,
{
    match a {
        Ast::Num(_) => true,
        Ast::Var(..) => true,
        Ast::BinOp(l, op, r) => (op is Add || op is Sub) && add_sub_only(*l) && add_sub_only(*r),
    }
}

/// The value of a tree with the unknown replaced by `x`.
pub open spec fn eval_subst(a: Ast, x: Fx) -> Result<Fx, CalculatorError>
    decreases a,
{
    match a {
        Ast::Num(n) => Ok(n),
        Ast::Var(..) => Ok(x),
        Ast::BinOp(l, op, r) => match eval_subst(*l, x) {
            Err(e) => Err(e),
            Ok(lv) => match eval_subst(*r, x) {
                Err(e) => Err(e),
                Ok(rv) => apply_op_spec(lv, op, rv),
            },
        },
    }
}

/// The sum of two multiples of `d` divides by `d` summand-wise.
proof fn lemma_div_add_multiples(a: int, b: int, d: int)
    requires
        d > 0,
        a % d == 0,
        b % d == 0,
    ensures
        (a + b) / d == a / d + b / d,
        (a + b) % d == 0,
{
    vstd::arithmetic::div_mod::lemma_fundamental_div_mod(a, d);
    vstd::arithmetic::div_mod::lemma_fundamental_div_mod(b, d);
    assert(a + b == d * (a / d + b / d)) by (nonlinear_arith)
        requires
            a == d * (a / d),
            b == d * (b / d),
    {
    }
    vstd::arithmetic::div_mod::lemma_div_multiples_vanish(a / d + b / d, d);
    vstd::arithmetic::div_mod::lemma_mod_multiples_basic(a / d + b / d, d);
}

/// A value built from an in-range signed unit count reads back as it.
proof fn lemma_fx_of_in_range(n: int)
    requires
        -(MAX_MAG as int) <= n <= MAX_MAG as int,
    ensures
        fx_of(n).v() == n,
        fx_of(n).wf(),
{
}

/// On the additive fragment the extracted pair is the tree's meaning: the
/// coefficient is a whole multiple of one, and for every substitution for
/// the unknown that evaluates without error, the value is
/// `coefficient * x + constant`.
#[verifier::rlimit(100)]
pub proof fn lemma_extract_affine(a: Ast, x: Fx)
    requires
        add_sub_only(a),
    ensures
        extract_spec(a) matches Ok(p) ==> p.0.v() % (SCALE as int) == 0,
        extract_spec(a) matches Ok(p) ==> (eval_subst(a, x) matches Ok(v) ==> v.v() == (p.0.v() / (
        SCALE as int)) * x.v() + p.1.v()),
    decreases a,
{
    let s = SCALE as int;
    assert(0int % s == 0) by (nonlinear_arith)
        requires
            s == SCALE as int,
    {
    }
    match a {
        Ast::Num(n) => {
            assert(0int / s == 0) by (nonlinear_arith)
                requires
                    s > 0,
            {
            }
            assert((0int / s) * x.v() == 0int * x.v());
        },
        Ast::Var(..) => {
            vstd::arithmetic::div_mod::lemma_mod_self_0(s);
            vstd::arithmetic::div_mod::lemma_div_by_self(s);
            assert((s / s) * x.v() == x.v()) by (nonlinear_arith)
                requires
                    s / s == 1,
            {
            }
        },
        Ast::BinOp(l, op, r) => {
            lemma_extract_affine(*l, x);
            lemma_extract_affine(*r, x);
            match (extract_spec(*l), extract_spec(*r)) {
                (Ok(lp), Ok(rp)) => {
                    match extract_spec(a) {
                        Ok(p) => {
                            let sum_c = if op is Add {
                                lp.0.v() + rp.0.v()
                            } else {
                                lp.0.v() - rp.0.v()
                            };
                            let sum_k = if op is Add {
                                lp.1.v() + rp.1.v()
                            } else {
                                lp.1.v() - rp.1.v()
                            };
                            assert(extract_op_spec(lp, op, rp) == extract_spec(a));
                            assert(-(MAX_MAG as int) <= sum_c <= MAX_MAG as int && p.0 == fx_of(
                                sum_c,
                            ) && -(MAX_MAG as int) <= sum_k <= MAX_MAG as int && p.1 == fx_of(
                                sum_k,
                            ));
                            lemma_fx_of_in_range(sum_c);
                            lemma_fx_of_in_range(sum_k);
                            let nrc = if op is Add {
                                rp.0.v()
                            } else {
                                -rp.0.v()
                            };
                            assert(nrc % s == 0 && nrc / s == (if op is Add {
                                rp.0.v() / s
                            } else {
                                -(rp.0.v() / s)
                            })) by {
                                vstd::arithmetic::div_mod::lemma_fundamental_div_mod(rp.0.v(), s);
                                assert(-rp.0.v() == s * (-(rp.0.v() / s))) by (nonlinear_arith)
                                    requires
                                        rp.0.v() == s * (rp.0.v() / s) + rp.0.v() % s,
                                        rp.0.v() % s == 0,
                                {
                                }
                                vstd::arithmetic::div_mod::lemma_div_multiples_vanish(
                                    -(rp.0.v() / s),
                                    s,
                                );
                                vstd::arithmetic::div_mod::lemma_mod_multiples_basic(
                                    -(rp.0.v() / s),
                                    s,
                                );
                            }
                            lemma_div_add_multiples(lp.0.v(), nrc, s);
                            assert(p.0.v() / s == lp.0.v() / s + nrc / s);
                            match (eval_subst(*l, x), eval_subst(*r, x)) {
                                (Ok(lv), Ok(rv)) => {
                                    match eval_subst(a, x) {
                                        Ok(v) => {
                                            let sum_v = if op is Add {
                                                lv.v() + rv.v()
                                            } else {
                                                lv.v() - rv.v()
                                            };
                                            assert(-(MAX_MAG as int) <= sum_v <= MAX_MAG as int
                                                && v == fx_of(sum_v));
                                            lemma_fx_of_in_range(sum_v);
                                            assert((lp.0.v() / s + nrc / s) * x.v() == (lp.0.v()
                                                / s) * x.v() + (nrc / s) * x.v())
                                                by (nonlinear_arith);
                                            assert((-(rp.0.v() / s)) * x.v() == -((rp.0.v() / s)
                                                * x.v())) by (nonlinear_arith);
                                            assert(v.v() == (p.0.v() / s) * x.v() + p.1.v());
                                        },
                                        Err(_) => {},
                                    }
                                },
                                _ => {},
                            }
                        },
                        Err(_) => {},
                    }
                },
                _ => {},
            }
        },
    }
}


/// The position of the first `Equal` token at or after `i`.
pub open spec fn find_equal_spec(ts: Seq<Token>, i: int) -> Option<int>
    decreases ts.len() - i,
{
    if i < 0 || i >= ts.len() {
        None
    } else if ts[i] is Equal {
        Some(i)
    } else {
        find_equal_spec(ts, i + 1)
    }
}

/// The last step of solving: from the two affine pairs, `a` is the
/// difference of the coefficients and `b` the difference of the constants;
/// a zero `a` is degenerate and fails with `InvalidExpression`, otherwise
/// the solution is `b / a`.
pub open spec fn solve_pairs_spec(lp: (Fx, Fx), rp: (Fx, Fx)) -> Result<Fx, CalculatorError> {
    match apply_op_spec(lp.0, Op::Sub, rp.0) {
        Err(e) => Err(e),
        Ok(a) => match apply_op_spec(rp.1, Op::Sub, lp.1) {
            Err(e) => Err(e),
            Ok(b) => if a.mag == 0 {
                Err(CalculatorError::InvalidExpression)
            } else {
                apply_op_spec(b, Op::Div, a)
            },
        },
    }
}

/// Mirror of `solve_equation`: split at the first `Equal`, parse each side
/// independently, reduce each side to its affine pair, and solve.
pub open spec fn solve_spec(ts: Seq<Token>) -> Result<Fx, CalculatorError> {
    match find_equal_spec(ts, 0) {
        None => Err(CalculatorError::ParseError),
        Some(p) => {
            let left = ts.subrange(0, p);
            let right = ts.subrange(p + 1, ts.len() as int);
            match parse_expr_spec(left, 0) {
                Err(e) => Err(e),
                Ok(la) => match parse_expr_spec(right, 0) {
                    Err(e) => Err(e),
                    Ok(ra) => match extract_spec(la.0) {
                        Err(e) => Err(e),
                        Ok(lp) => match extract_spec(ra.0) {
                            Err(e) => Err(e),
                            Ok(rp) => solve_pairs_spec(lp, rp),
                        },
                    },
                },
            }
        },
    }
}

/// Solves a linear equation given as a token sequence holding one `Equal`.
pub fn solve_equation(tokens: &Vec<Token>) -> (r: Result<Fx, CalculatorError>)
    requires
        tokens_wf(tokens@),
    ensures
        r == solve_spec(tokens@),
        r matches Ok(v) ==> v.wf(),
{
    let mut pos: usize = 0;
    let mut found = false;
    while pos < tokens.len() && !found
        invariant
            pos <= tokens@.len(),
            found ==> pos < tokens@.len() && tokens@[pos as int] is Equal,
            !found ==> find_equal_spec(tokens@, 0) == find_equal_spec(tokens@, pos as int),
            found ==> find_equal_spec(tokens@, 0) == Some(pos as int),
        decreases tokens@.len() - pos + (if found {
            0int
        } else {
            1int
        }),
    {
        match &tokens[pos] {
            Token::Equal => {
                found = true;
            },
            _ => {
                pos = pos + 1;
            },
        }
    }
    if !found {
        return Err(CalculatorError::ParseError);
    }
    let mut left: Vec<Token> = Vec::new();
    let mut i: usize = 0;
    while i < pos
        invariant
            pos <= tokens@.len(),
            i <= pos,
            tokens_wf(tokens@),
            left@ =~= tokens@.subrange(0, i as int),
        decreases pos - i,
    {
        left.push(tokens[i]);
        i = i + 1;
    }
    let mut right: Vec<Token> = Vec::new();
    let mut j: usize = pos + 1;
    while j < tokens.len()
        invariant
            pos < tokens@.len(),
            pos + 1 <= j <= tokens@.len(),
            tokens_wf(tokens@),
            right@ =~= tokens@.subrange(pos + 1, j as int),
        decreases tokens@.len() - j,
    {
        right.push(tokens[j]);
        j = j + 1;
    }
    proof {
        assert(left@ =~= tokens@.subrange(0, pos as int));
        assert(right@ =~= tokens@.subrange(pos + 1, tokens@.len() as int));
        assert(tokens_wf(left@));
        assert(tokens_wf(right@));
    }
    let la = match parse_expression(&left, 0) {
        Err(e) => {
            return Err(e);
        },
        Ok(p) => p.0,
    };
    let ra = match parse_expression(&right, 0) {
        Err(e) => {
            return Err(e);
        },
        Ok(p) => p.0,
    };
    let lp = match extract_coefficients_and_constants(&la) {
        Err(e) => {
            return Err(e);
        },
        Ok(p) => p,
    };
    let rp = match extract_coefficients_and_constants(&ra) {
        Err(e) => {
            return Err(e);
        },
        Ok(p) => p,
    };
    let a = match apply_op(lp.0, Op::Sub, rp.0) {
        Err(e) => {
            return Err(e);
        },
        Ok(v) => v,
    };
    let b = match apply_op(rp.1, Op::Sub, lp.1) {
        Err(e) => {
            return Err(e);
        },
        Ok(v) => v,
    };
    if a.mag == 0 {
        return Err(CalculatorError::InvalidExpression);
    }
    apply_op(b, Op::Div, a)
}

} // verus!
