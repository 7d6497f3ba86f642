//! Terms of the untyped lambda calculus.

use vstd::prelude::*;

verus! {

/// A term, as a mathematical value: the model of [`ExprNode`].
pub enum Term {
    Var(Seq<char>),
    App(Box<Term>, Box<Term>),
    Abs(Seq<char>, Box<Term>),
}

pub type Expr = Box<ExprNode>;

/// A node of an abstract syntax tree.
#[derive(Debug)]
pub enum ExprNode {
    /// A variable.
    Var(String),
    /// An application of a function to an argument.
    App(Expr, Expr),
    /// An abstraction: the bound variable and the body.
    Abs(String, Expr),
}

impl ExprNode {
    /// The term that this tree stands for.
    pub open spec fn term(&self) -> Term
        decreases self,
    {
        match self {
            ExprNode::Var(name) => Term::Var(name@),
            ExprNode::App(fun, arg) => Term::App(Box::new(fun.term()), Box::new(arg.term())),
            ExprNode::Abs(name, body) => Term::Abs(name@, Box::new(body.term())),
        }
    }
}

impl View for ExprNode {
    type V = Term;

    open spec fn view(&self) -> Term {
        self.term()
    }
}

} // verus!
