use vstd::prelude::*;

verus! {

/// The binary operators, `+ - * / ^`.
#[derive(Debug, Clone, Copy, PartialEq, Eq, Structural)]
pub enum BinaryOp {
    Add,
    Sub,
    Mul,
    Div,
    Pow,
}

/// An expression tree as mathematics: numerals and names as their characters.
pub enum SpecExpr {
    Binary(BinaryOp, Box<SpecExpr>, Box<SpecExpr>),
    Negate(Box<SpecExpr>),
    Call(Seq<char>, Box<SpecExpr>),
    Number(Seq<char>),
}

/// An expression tree. Each node owns its children, so the tree is finite
/// and acyclic, and every node has exactly the children its variant names.
#[derive(Debug, PartialEq)]
pub enum Expr {
    /// `left op right`.
    Binary(BinaryOp, Box<Expr>, Box<Expr>),
    /// Prefix minus.
    Negate(Box<Expr>),
    /// A one-argument function call: the function's name and its argument.
    Call(String, Box<Expr>),
    /// A numeral: ASCII digits with at most one `.`, as written.
    Number(String),
}

impl View for Expr {
    type V = SpecExpr;

    open spec fn view(&self) -> SpecExpr
        decreases self,
    {
        match self {
            Expr::Binary(op, l, r) => SpecExpr::Binary(*op, Box::new((**l)@), Box::new((**r)@)),
            Expr::Negate(x) => SpecExpr::Negate(Box::new((**x)@)),
            Expr::Call(name, x) => SpecExpr::Call(name@, Box::new((**x)@)),
            Expr::Number(text) => SpecExpr::Number(text@),
        }
    }
}

} // verus!
