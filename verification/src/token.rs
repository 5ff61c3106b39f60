//! Lexical tokens. A token sequence is produced once per input and never
//! mutated; later stages consume it by position.

use vstd::prelude::*;
use crate::fx::Fx;

verus! {

/// One lexical unit. Named constants and function applications are resolved
/// by the tokenizer, so only these seven kinds reach the parser. A variable
/// carries its name as the span `[start, end)` of the identifier in the
/// input text, so a token is a plain value that contracts can state exactly.
#[derive(Clone, Copy, Debug)]
pub enum Token {
    Number(Fx),
    Variable(usize, usize),
    Plus,
    Minus,
    Multiply,
    Divide,
    LeftParenthesis,
    RightParenthesis,
    Equal,
}

impl Token {
    /// Every number a token carries is well-formed.
    pub open spec fn wf(self) -> bool {
        match self {
            Token::Number(x) => x.wf(),
            _ => true,
        }
    }

    /// A variable's span is a non-empty range inside an input of `n`
    /// characters.
    pub open spec fn span_ok(self, n: int) -> bool {
        match self {
            Token::Variable(a, b) => a < b <= n,
            _ => true,
        }
    }

    pub open spec fn is_operator(self) -> bool {
        match self {
            Token::Plus | Token::Minus | Token::Multiply | Token::Divide => true,
            _ => false,
        }
    }
}

pub open spec fn tokens_wf(ts: Seq<Token>) -> bool {
    forall|i: int| 0 <= i < ts.len() ==> (#[trigger] ts[i]).wf()
}

pub open spec fn tokens_span_ok(ts: Seq<Token>, n: int) -> bool {
    forall|i: int| 0 <= i < ts.len() ==> (#[trigger] ts[i]).span_ok(n)
}

} // verus!
