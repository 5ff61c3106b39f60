//! A verified text calculator: arithmetic in infix or postfix notation,
//! named constants, trigonometric and logarithmic functions, and
//! single-variable linear equations, all over fixed-point decimal numbers.

pub mod ast;
pub mod calculator;
pub mod evaluator;
pub mod fx;
pub mod lexer;
pub mod parser;
pub mod token;
pub mod transc;

pub use calculator::is_postfix_expression;
pub use calculator::process_expression;
pub use calculator::CalculatorError;
