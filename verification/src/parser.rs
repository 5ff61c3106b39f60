//! Recursive-descent parser for infix expressions.
//!
//! Grammar, with standard precedence and left associativity:
//! `expression := term (('+'|'-') term)*`;
//! `term := factor (('*'|'/') factor)*`;
//! `factor := Number | Variable | '(' expression ')'`.
//!
//! Each executable function returns exactly what its specification mirror
//! computes, so the parse result and each syntax error are pinned down.

use vstd::prelude::*;
use vstd::pervasive::arbitrary;
use crate::ast::{Ast, Op};
use crate::calculator::CalculatorError;
use crate::token::{tokens_wf, Token};

verus! {

/// Mirror of `parse_factor`: one number, variable, or parenthesised
/// expression starting at `i`; on success, the tree and the position just
/// past it.
pub open spec fn parse_factor_spec(ts: Seq<Token>, i: int) -> Result<
    (Ast, int),
    CalculatorError,
>
    decreases ts.len() - i, 0int,
{
    if i < 0 || i >= ts.len() {
        Err(CalculatorError::ParseError)
    } else {
        match ts[i] {
            Token::Number(x) => Ok((Ast::Num(x), i + 1)),
            Token::Variable(a, b) => Ok((Ast::Var(a, b), i + 1)),
            Token::LeftParenthesis => match parse_expr_spec(ts, i + 1) {
                Err(e) => Err(e),
                Ok(p) => if p.1 < ts.len() && ts[p.1] is RightParenthesis {
                    Ok((p.0, p.1 + 1))
                } else {
                    Err(CalculatorError::UnmatchedLeftParenthesis)
                },
            },
            Token::RightParenthesis => Err(CalculatorError::UnmatchedRightParenthesis),
            _ => Err(CalculatorError::ParseError),
        }
    }
}

/// Mirror of `parse_term_rest`: folds `*`/`/` factors onto `lhs`, left
/// associatively.
pub open spec fn parse_term_rest_spec(ts: Seq<Token>, i: int, lhs: Ast) -> Result<
    (Ast, int),
    CalculatorError,
>
    decreases ts.len() - i, 1int,
{
    if 0 <= i < ts.len() && (ts[i] is Multiply || ts[i] is Divide) {
        let op = if ts[i] is Multiply {
            Op::Mul
        } else {
            Op::Div
        };
        match parse_factor_spec(ts, i + 1) {
            Err(e) => Err(e),
            Ok(p) => if i + 1 < p.1 && p.1 <= ts.len() {
                parse_term_rest_spec(ts, p.1, Ast::BinOp(Box::new(lhs), op, Box::new(p.0)))
            } else {
                arbitrary()
            },
        }
    } else {
        Ok((lhs, i))
    }
}

/// Mirror of `parse_term`: a factor followed by any `*`/`/` factors.
pub open spec fn parse_term_spec(ts: Seq<Token>, i: int) -> Result<(Ast, int), CalculatorError>
    decreases ts.len() - i, 2int,
{
    match parse_factor_spec(ts, i) {
        Err(e) => Err(e),
        Ok(p) => if i < p.1 && p.1 <= ts.len() {
            parse_term_rest_spec(ts, p.1, p.0)
        } else {
            arbitrary()
        },
    }
}

/// Mirror of `parse_expr_rest`: folds `+`/`-` terms onto `lhs`, left
/// associatively.
pub open spec fn parse_expr_rest_spec(ts: Seq<Token>, i: int, lhs: Ast) -> Result<
    (Ast, int),
    CalculatorError,
>
    decreases ts.len() - i, 3int,
{
    if 0 <= i < ts.len() && (ts[i] is Plus || ts[i] is Minus) {
        let op = if ts[i] is Plus {
            Op::Add
        } else {
            Op::Sub
        };
        match parse_term_spec(ts, i + 1) {
            Err(e) => Err(e),
            Ok(p) => if i + 1 < p.1 && p.1 <= ts.len() {
                parse_expr_rest_spec(ts, p.1, Ast::BinOp(Box::new(lhs), op, Box::new(p.0)))
            } else {
                arbitrary()
            },
        }
    } else {
        Ok((lhs, i))
    }
}

/// Mirror of `parse_expression`: one whole expression starting at `i`; on
/// success, the tree and the position of the first unconsumed token.
pub open spec fn parse_expr_spec(ts: Seq<Token>, i: int) -> Result<(Ast, int), CalculatorError>
    decreases ts.len() - i, 4int,
{
    match parse_term_spec(ts, i) {
        Err(e) => Err(e),
        Ok(p) => if i < p.1 && p.1 <= ts.len() {
            parse_expr_rest_spec(ts, p.1, p.0)
        } else {
            arbitrary()
        },
    }
}

/// Mirror of `parse`: a whole expression that must consume every token.
pub open spec fn parse_spec(ts: Seq<Token>) -> Result<Ast, CalculatorError> {
    match parse_expr_spec(ts, 0) {
        Err(e) => Err(e),
        Ok(p) => if p.1 == ts.len() {
            Ok(p.0)
        } else {
            Err(CalculatorError::ExtraTokensDetected)
        },
    }
}

/// What a token adds to the running parenthesis balance.
pub open spec fn tok_bal(t: Token) -> int {
    match t {
        Token::LeftParenthesis => 1,
        Token::RightParenthesis => -1,
        _ => 0,
    }
}

/// The parenthesis balance of `ts[i..j]`: opening minus closing.
pub open spec fn bal(ts: Seq<Token>, i: int, j: int) -> int
    decreases j - i,
{
    if i >= j {
        0
    } else {
        tok_bal(ts[i]) + bal(ts, i + 1, j)
    }
}

/// The balance of a range is the sum of the balances of its parts.
proof fn lemma_bal_split(ts: Seq<Token>, i: int, j: int, k: int)
    requires
        i <= j <= k,
    ensures
        bal(ts, i, k) == bal(ts, i, j) + bal(ts, j, k),
    decreases j - i,
{
    if i < j {
        lemma_bal_split(ts, i + 1, j, k);
    }
}

proof fn lemma_factor_balance(ts: Seq<Token>, i: int)
    ensures
        parse_factor_spec(ts, i) matches Ok(p) ==> i < p.1 <= ts.len() && bal(ts, i, p.1) == 0,
    decreases ts.len() - i, 0int,
{
    if 0 <= i < ts.len() {
        match ts[i] {
            Token::LeftParenthesis => {
                lemma_expr_balance(ts, i + 1);
                match parse_expr_spec(ts, i + 1) {
                    Ok(p) => {
                        if p.1 < ts.len() && ts[p.1] is RightParenthesis {
                            lemma_bal_split(ts, i + 1, p.1, p.1 + 1);
                            assert(bal(ts, p.1, p.1 + 1) == tok_bal(ts[p.1]) + bal(
                                ts,
                                p.1 + 1,
                                p.1 + 1,
                            ));
                            assert(bal(ts, i, p.1 + 1) == tok_bal(ts[i]) + bal(ts, i + 1, p.1 + 1));
                        }
                    },
                    Err(_) => {},
                }
            },
            _ => {
                assert(bal(ts, i, i + 1) == tok_bal(ts[i]) + bal(ts, i + 1, i + 1));
            },
        }
    }
}

proof fn lemma_term_rest_balance(ts: Seq<Token>, i: int, lhs: Ast)
    requires
        0 <= i <= ts.len(),
    ensures
        parse_term_rest_spec(ts, i, lhs) matches Ok(p) ==> i <= p.1 <= ts.len() && bal(ts, i, p.1)
            == 0,
    decreases ts.len() - i, 1int,
{
    if 0 <= i < ts.len() && (ts[i] is Multiply || ts[i] is Divide) {
        let op = if ts[i] is Multiply {
            Op::Mul
        } else {
            Op::Div
        };
        lemma_factor_balance(ts, i + 1);
        match parse_factor_spec(ts, i + 1) {
            Ok(p) => {
                lemma_term_rest_balance(ts, p.1, Ast::BinOp(Box::new(lhs), op, Box::new(p.0)));
                match parse_term_rest_spec(ts, p.1, Ast::BinOp(Box::new(lhs), op, Box::new(p.0))) {
                    Ok(q) => {
                        lemma_bal_split(ts, i, i + 1, p.1);
                        lemma_bal_split(ts, i, p.1, q.1);
                        assert(bal(ts, i, i + 1) == tok_bal(ts[i]) + bal(ts, i + 1, i + 1));
                    },
                    Err(_) => {},
                }
            },
            Err(_) => {},
        }
    }
}

proof fn lemma_term_balance(ts: Seq<Token>, i: int)
    ensures
        parse_term_spec(ts, i) matches Ok(p) ==> i < p.1 <= ts.len() && bal(ts, i, p.1) == 0,
    decreases ts.len() - i, 2int,
{
    lemma_factor_balance(ts, i);
    match parse_factor_spec(ts, i) {
        Ok(p) => {
            lemma_term_rest_balance(ts, p.1, p.0);
            match parse_term_rest_spec(ts, p.1, p.0) {
                Ok(q) => {
                    lemma_bal_split(ts, i, p.1, q.1);
                },
                Err(_) => {},
            }
        },
        Err(_) => {},
    }
}

proof fn lemma_expr_rest_balance(ts: Seq<Token>, i: int, lhs: Ast)
    requires
        0 <= i <= ts.len(),
    ensures
        parse_expr_rest_spec(ts, i, lhs) matches Ok(p) ==> i <= p.1 <= ts.len() && bal(ts, i, p.1)
            == 0,
    decreases ts.len() - i, 3int,
{
    if 0 <= i < ts.len() && (ts[i] is Plus || ts[i] is Minus) {
        let op = if ts[i] is Plus {
            Op::Add
        } else {
            Op::Sub
        };
        lemma_term_balance(ts, i + 1);
        match parse_term_spec(ts, i + 1) {
            Ok(p) => {
                lemma_expr_rest_balance(ts, p.1, Ast::BinOp(Box::new(lhs), op, Box::new(p.0)));
                match parse_expr_rest_spec(ts, p.1, Ast::BinOp(Box::new(lhs), op, Box::new(p.0))) {
                    Ok(q) => {
                        lemma_bal_split(ts, i, i + 1, p.1);
                        lemma_bal_split(ts, i, p.1, q.1);
                        assert(bal(ts, i, i + 1) == tok_bal(ts[i]) + bal(ts, i + 1, i + 1));
                    },
                    Err(_) => {},
                }
            },
            Err(_) => {},
        }
    }
}

proof fn lemma_expr_balance(ts: Seq<Token>, i: int)
    ensures
        parse_expr_spec(ts, i) matches Ok(p) ==> i < p.1 <= ts.len() && bal(ts, i, p.1) == 0,
    decreases ts.len() - i, 4int,
{
    lemma_term_balance(ts, i);
    match parse_term_spec(ts, i) {
        Ok(p) => {
            lemma_expr_rest_balance(ts, p.1, p.0);
            match parse_expr_rest_spec(ts, p.1, p.0) {
                Ok(q) => {
                    lemma_bal_split(ts, i, p.1, q.1);
                },
                Err(_) => {},
            }
        },
        Err(_) => {},
    }
}

/// A token sequence the parser accepts has balanced parentheses; an
/// unbalanced sequence always fails.
pub proof fn lemma_parse_balanced(ts: Seq<Token>)
    requires
        parse_spec(ts) is Ok,
    ensures
        bal(ts, 0, ts.len() as int) == 0,
{
    lemma_expr_balance(ts, 0);
}

/// Parses one factor starting at `i`.
fn parse_factor(ts: &Vec<Token>, i: usize) -> (r: Result<(Ast, usize), CalculatorError>)
    requires
        tokens_wf(ts@),
        i <= ts@.len(),
    ensures
        match r {
            Ok(p) => parse_factor_spec(ts@, i as int) == Ok::<(Ast, int), CalculatorError>(
                (p.0, p.1 as int),
            ) && i < p.1 <= ts@.len() && p.0.wf(),
            Err(e) => parse_factor_spec(ts@, i as int) == Err::<(Ast, int), CalculatorError>(e),
        },
    decreases ts@.len() - i, 0int,
{
    if i >= ts.len() {
        return Err(CalculatorError::ParseError);
    }
    match &ts[i] {
        Token::Number(x) => Ok((Ast::Num(*x), i + 1)),
        Token::Variable(a, b) => Ok((Ast::Var(*a, *b), i + 1)),
        Token::LeftParenthesis => {
            match parse_expression(ts, i + 1) {
                Err(e) => Err(e),
                Ok((a, j)) => {
                    if j < ts.len() {
                        match &ts[j] {
                            Token::RightParenthesis => Ok((a, j + 1)),
                            _ => Err(CalculatorError::UnmatchedLeftParenthesis),
                        }
                    } else {
                        Err(CalculatorError::UnmatchedLeftParenthesis)
                    }
                },
            }
        },
        Token::RightParenthesis => Err(CalculatorError::UnmatchedRightParenthesis),
        _ => Err(CalculatorError::ParseError),
    }
}

/// Folds `*`/`/` factors onto `lhs`.
fn parse_term_rest(ts: &Vec<Token>, i: usize, lhs: Ast) -> (r: Result<
    (Ast, usize),
    CalculatorError,
>)
    requires
        tokens_wf(ts@),
        i <= ts@.len(),
        lhs.wf(),
    ensures
        match r {
            Ok(p) => parse_term_rest_spec(ts@, i as int, lhs) == Ok::<(Ast, int), CalculatorError>(
                (p.0, p.1 as int),
            ) && i <= p.1 <= ts@.len() && p.0.wf(),
            Err(e) => parse_term_rest_spec(ts@, i as int, lhs) == Err::<
                (Ast, int),
                CalculatorError,
            >(e),
        },
    decreases ts@.len() - i, 1int,
{
    if i < ts.len() {
        let is_mul = match &ts[i] {
            Token::Multiply => true,
            _ => false,
        };
        let is_div = match &ts[i] {
            Token::Divide => true,
            _ => false,
        };
        if is_mul || is_div {
            let op = if is_mul {
                Op::Mul
            } else {
                Op::Div
            };
            match parse_factor(ts, i + 1) {
                Err(e) => Err(e),
                Ok((rhs, j)) => parse_term_rest(ts, j, Ast::BinOp(Box::new(lhs), op, Box::new(rhs))),
            }
        } else {
            Ok((lhs, i))
        }
    } else {
        Ok((lhs, i))
    }
}

/// Parses one term starting at `i`.
fn parse_term(ts: &Vec<Token>, i: usize) -> (r: Result<(Ast, usize), CalculatorError>)
    requires
        tokens_wf(ts@),
        i <= ts@.len(),
    ensures
        match r {
            Ok(p) => parse_term_spec(ts@, i as int) == Ok::<(Ast, int), CalculatorError>(
                (p.0, p.1 as int),
            ) && i < p.1 <= ts@.len() && p.0.wf(),
            Err(e) => parse_term_spec(ts@, i as int) == Err::<(Ast, int), CalculatorError>(e),
        },
    decreases ts@.len() - i, 2int,
{
    match parse_factor(ts, i) {
        Err(e) => Err(e),
        Ok((lhs, j)) => parse_term_rest(ts, j, lhs),
    }
}

/// Folds `+`/`-` terms onto `lhs`.
fn parse_expr_rest(ts: &Vec<Token>, i: usize, lhs: Ast) -> (r: Result<
    (Ast, usize),
    CalculatorError,
>)
    requires
        tokens_wf(ts@),
        i <= ts@.len(),
        lhs.wf(),
    ensures
        match r {
            Ok(p) => parse_expr_rest_spec(ts@, i as int, lhs) == Ok::<(Ast, int), CalculatorError>(
                (p.0, p.1 as int),
            ) && i <= p.1 <= ts@.len() && p.0.wf(),
            Err(e) => parse_expr_rest_spec(ts@, i as int, lhs) == Err::<
                (Ast, int),
                CalculatorError,
            >(e),
        },
    decreases ts@.len() - i, 3int,
{
    if i < ts.len() {
        let is_add = match &ts[i] {
            Token::Plus => true,
            _ => false,
        };
        let is_sub = match &ts[i] {
            Token::Minus => true,
            _ => false,
        };
        if is_add || is_sub {
            let op = if is_add {
                Op::Add
            } else {
                Op::Sub
            };
            match parse_term(ts, i + 1) {
                Err(e) => Err(e),
                Ok((rhs, j)) => parse_expr_rest(ts, j, Ast::BinOp(Box::new(lhs), op, Box::new(rhs))),
            }
        } else {
            Ok((lhs, i))
        }
    } else {
        Ok((lhs, i))
    }
}

/// Parses one whole expression starting at `i` and returns the tree and the
/// position of the first token it did not consume.
pub fn parse_expression(ts: &Vec<Token>, i: usize) -> (r: Result<(Ast, usize), CalculatorError>)
    requires
        tokens_wf(ts@),
        i <= ts@.len(),
    ensures
        match r {
            Ok(p) => parse_expr_spec(ts@, i as int) == Ok::<(Ast, int), CalculatorError>(
                (p.0, p.1 as int),
            ) && i < p.1 <= ts@.len() && p.0.wf(),
            Err(e) => parse_expr_spec(ts@, i as int) == Err::<(Ast, int), CalculatorError>(e),
        },
    decreases ts@.len() - i, 4int,
{
    match parse_term(ts, i) {
        Err(e) => Err(e),
        Ok((lhs, j)) => parse_expr_rest(ts, j, lhs),
    }
}

/// Parses a whole token sequence; unconsumed tokens after a complete
/// expression fail with `ExtraTokensDetected`.
pub fn parse(ts: &Vec<Token>) -> (r: Result<Ast, CalculatorError>)
    requires
        tokens_wf(ts@),
    ensures
        r == parse_spec(ts@),
        r matches Ok(a) ==> a.wf(),
{
    match parse_expression(ts, 0) {
        Err(e) => Err(e),
        Ok((a, j)) => {
            if j == ts.len() {
                Ok(a)
            } else {
                Err(CalculatorError::ExtraTokensDetected)
            }
        },
    }
}

} // verus!
