//! The expression tree an infix expression parses to. Trees are acyclic and
//! each node is owned solely by its parent.

use vstd::prelude::*;
use crate::fx::Fx;

verus! {

#[derive(Clone, Copy, Debug)]
pub enum Op {
    Add,
    Sub,
    Mul,
    Div,
}

/// An expression tree: a numeric leaf, the single unknown, or a binary
/// operation with two owned children. A variable leaf carries the span of
/// its name in the input text, as its token does.
#[derive(Debug)]
pub enum Ast {
    Num(Fx),
    Var(usize, usize),
    BinOp(Box<Ast>, Op, Box<Ast>),
}

impl Ast {
    /// Every number in the tree is well-formed.
    pub open spec fn wf(self) -> bool
        decreases self,
    {
        match self {
            Ast::Num(x) => x.wf(),
            Ast::Var(..) => true,
            Ast::BinOp(l, _, r) => l.wf() && r.wf(),
        }
    }
}

} // verus!
