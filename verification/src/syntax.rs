use std::rc::Rc;
use vstd::prelude::*;

verus! {

/// A shared pointer to a lambda term.
pub type Expr = Rc<ExprNode>;

/// A lambda term with named variables.
#[derive(Debug, Clone, PartialEq)]
pub enum ExprNode {
    Var(String),
    Num(i32),
    Add(Expr, Expr),
    Abs(String, Expr),
    App(Expr, Expr),
}

/// The mathematical model of a lambda term: names are character sequences.
pub enum Term {
    Var(Seq<char>),
    Num(i32),
    Add(Box<Term>, Box<Term>),
    Abs(Seq<char>, Box<Term>),
    App(Box<Term>, Box<Term>),
}

/// The model of an executable term.
pub open spec fn term_of(e: ExprNode) -> Term
    decreases e,
{
    match e {
        ExprNode::Var(x) => Term::Var(x@),
        ExprNode::Num(n) => Term::Num(n),
        ExprNode::Add(a, b) => Term::Add(Box::new(term_of(*a)), Box::new(term_of(*b))),
        ExprNode::Abs(x, b) => Term::Abs(x@, Box::new(term_of(*b))),
        ExprNode::App(a, b) => Term::App(Box::new(term_of(*a)), Box::new(term_of(*b))),
    }
}

impl View for ExprNode {
    type V = Term;

    open spec fn view(&self) -> Term {
        term_of(*self)
    }
}

/// The number of nodes of a term.
pub open spec fn term_size(t: Term) -> nat
    decreases t,
{
    match t {
        Term::Var(_) => 1,
        Term::Num(_) => 1,
        Term::Add(a, b) => 1 + term_size(*a) + term_size(*b),
        Term::Abs(_, b) => 1 + term_size(*b),
        Term::App(a, b) => 1 + term_size(*a) + term_size(*b),
    }
}

/// The greatest number of abstractions that enclose a subterm.
pub open spec fn term_depth(t: Term) -> nat
    decreases t,
{
    match t {
        Term::Var(_) => 0,
        Term::Num(_) => 0,
        Term::Add(a, b) => vstd::math::max(term_depth(*a) as int, term_depth(*b) as int) as nat,
        Term::Abs(_, b) => 1 + term_depth(*b),
        Term::App(a, b) => vstd::math::max(term_depth(*a) as int, term_depth(*b) as int) as nat,
    }
}

/// The free variables of a term.
pub open spec fn free_vars(t: Term) -> Set<Seq<char>>
    decreases t,
{
    match t {
        Term::Var(x) => set![x],
        Term::Num(_) => Set::empty(),
        Term::Add(a, b) => free_vars(*a) + free_vars(*b),
        Term::Abs(x, b) => free_vars(*b).remove(x),
        Term::App(a, b) => free_vars(*a) + free_vars(*b),
    }
}

/// A value of the substitution semantics: a variable, a number or an abstraction.
pub open spec fn is_term_value(t: Term) -> bool {
    t is Var || t is Num || t is Abs
}

impl ExprNode {
    /// Whether no subterm is enclosed by more than `limit` abstractions.
    pub fn depth_at_most(&self, limit: usize) -> (r: bool)
        ensures
            r == (term_depth(self@) <= limit),
        decreases self,
    {
        match self {
            ExprNode::Var(_) => true,
            ExprNode::Num(_) => true,
            ExprNode::Abs(_, b) => limit > 0 && b.depth_at_most(limit - 1),
            ExprNode::Add(a, b) => a.depth_at_most(limit) && b.depth_at_most(limit),
            ExprNode::App(a, b) => a.depth_at_most(limit) && b.depth_at_most(limit),
        }
    }

    /// A fresh shared pointer to a node equal to this one.
    pub fn share(&self) -> (r: Expr)
        ensures
            *r == *self,
    {
        let node = match self {
            ExprNode::Var(x) => ExprNode::Var(x.clone()),
            ExprNode::Num(n) => ExprNode::Num(*n),
            ExprNode::Add(a, b) => ExprNode::Add(a.clone(), b.clone()),
            ExprNode::Abs(x, b) => ExprNode::Abs(x.clone(), b.clone()),
            ExprNode::App(a, b) => ExprNode::App(a.clone(), b.clone()),
        };
        Rc::new(node)
    }
}

} // verus!
