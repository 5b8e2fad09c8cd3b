use std::rc::Rc;
use vstd::prelude::*;
use vstd::string::*;
use crate::names::{fresh_name, fresh_spec, next_counter};
use crate::syntax::{Expr, ExprNode, Term, term_size};

verus! {

/// How many nested evaluation calls `eval` allows before it gives up.
pub const EVAL_FUEL: u64 = 0xffff_ffff_ffff_ffff;

/// The error that an evaluator returns when it runs out of fuel.
pub open spec fn limit_message() -> Seq<char> {
    "Evaluation step limit reached"@
}

/// The error for an application whose function part is not an abstraction.
pub open spec fn not_abstraction_message() -> Seq<char> {
    "Not an abstraction"@
}

/// The error for an addition whose operands are not both numbers.
pub open spec fn expecting_integers_message() -> Seq<char> {
    "Expecting integers"@
}

/// The error for an addition whose sum does not fit in an `i32`.
pub open spec fn overflow_message() -> Seq<char> {
    "Integer overflow"@
}

/// Whether `x + y` fits in an `i32`.
pub open spec fn sum_fits(x: i32, y: i32) -> bool {
    i32::MIN <= x + y <= i32::MAX
}

/// Substitution of `val` for the free occurrences of `var` in `e`, with a counter `n`
/// for fresh names. Every abstraction whose parameter is not `var` gets a fresh
/// parameter: its body is first renamed to the fresh name, then substituted.
/// Returns the result and the counter after it.
pub open spec fn subst_term(e: Term, var: Seq<char>, val: Term, n: u64) -> (Term, u64)
    decreases term_size(e),
{
    match e {
        Term::Var(x) => if x == var {
            (val, n)
        } else {
            (e, n)
        },
        Term::Num(_) => (e, n),
        Term::Add(a, b) => {
            let (a2, n1) = subst_term(*a, var, val, n);
            let (b2, n2) = subst_term(*b, var, val, n1);
            (Term::Add(Box::new(a2), Box::new(b2)), n2)
        },
        Term::App(a, b) => {
            let (a2, n1) = subst_term(*a, var, val, n);
            let (b2, n2) = subst_term(*b, var, val, n1);
            (Term::App(Box::new(a2), Box::new(b2)), n2)
        },
        Term::Abs(x, b) => if x == var {
            (e, n)
        } else {
            let y = fresh_spec(x, n);
            let (b1, n1) = subst_term(*b, x, Term::Var(y), next_counter(n));
            // renaming keeps the size (lemma_rename_size), so the test always holds
            if term_size(b1) < term_size(e) {
                let (b2, n2) = subst_term(b1, var, val, n1);
                (Term::Abs(y, Box::new(b2)), n2)
            } else {
                (e, n)
            }
        },
    }
}

/// Substituting a variable for a variable keeps the size of a term.
pub proof fn lemma_rename_size(e: Term, var: Seq<char>, y: Seq<char>, n: u64)
    ensures
        term_size(subst_term(e, var, Term::Var(y), n).0) == term_size(e),
    decreases term_size(e),
{
    match e {
        Term::Var(x) => {},
        Term::Num(_) => {},
        Term::Add(a, b) => {
            let (a2, n1) = subst_term(*a, var, Term::Var(y), n);
            lemma_rename_size(*a, var, y, n);
            lemma_rename_size(*b, var, y, n1);
        },
        Term::App(a, b) => {
            let (a2, n1) = subst_term(*a, var, Term::Var(y), n);
            lemma_rename_size(*a, var, y, n);
            lemma_rename_size(*b, var, y, n1);
        },
        Term::Abs(x, b) => {
            if x != var {
                let z = fresh_spec(x, n);
                let (b1, n1) = subst_term(*b, x, Term::Var(z), next_counter(n));
                lemma_rename_size(*b, x, z, next_counter(n));
                lemma_rename_size(b1, var, y, n1);
            }
        },
    }
}

/// The model of an evaluation result.
pub open spec fn result_view(r: Result<Expr, String>) -> Result<Term, Seq<char>> {
    match r {
        Ok(e) => Ok(e@),
        Err(s) => Err(s@),
    }
}

/// Call-by-name evaluation by substitution, with at most `fuel` nested steps and the
/// counter `n` for fresh names. Variables, numbers and abstractions are values.
/// Returns the result and the counter after it.
pub open spec fn eval_term(fuel: nat, e: Term, n: u64) -> (Result<Term, Seq<char>>, u64)
    decreases fuel,
{
    if fuel == 0 {
        (Err(limit_message()), n)
    } else {
        match e {
            Term::Var(_) => (Ok(e), n),
            Term::Abs(_, _) => (Ok(e), n),
            Term::Num(_) => (Ok(e), n),
            Term::App(a, b) => {
                let (r1, n1) = eval_term((fuel - 1) as nat, *a, n);
                match r1 {
                    Ok(Term::Abs(p, body)) => {
                        let (body2, n2) = subst_term(*body, p, *b, n1);
                        eval_term((fuel - 1) as nat, body2, n2)
                    },
                    Ok(_) => (Err(not_abstraction_message()), n1),
                    Err(s) => (Err(s), n1),
                }
            },
            Term::Add(a, b) => {
                let (r1, n1) = eval_term((fuel - 1) as nat, *a, n);
                let (r2, n2) = eval_term((fuel - 1) as nat, *b, n1);
                (add_results(r1, r2), n2)
            },
        }
    }
}

/// The result of an addition from the results of its operands.
pub open spec fn add_results(r1: Result<Term, Seq<char>>, r2: Result<Term, Seq<char>>) -> Result<
    Term,
    Seq<char>,
> {
    match (r1, r2) {
        (Ok(Term::Num(x)), Ok(Term::Num(y))) => if sum_fits(x, y) {
            Ok(Term::Num((x + y) as i32))
        } else {
            Err(overflow_message())
        },
        (Ok(_), Ok(_)) => Err(expecting_integers_message()),
        (Err(s), _) => Err(s),
        (_, Err(s)) => Err(s),
    }
}

pub(crate) fn message(s: &str) -> (r: String)
    ensures
        r@ == s@,
{
    String::from_str(s)
}

impl ExprNode {
    /// Substitutes `val` for the free occurrences of `var`, renaming every abstraction
    /// on the way with a fresh name from `counter`.
    pub fn subst(&self, var: &String, val: &Expr, counter: &mut u64) -> (r: Expr)
        ensures
            (r@, *final(counter)) == subst_term(self@, var@, val@, *old(counter)),
        decreases term_size(self@),
    {
        match self {
            ExprNode::Var(x) => if x.eq(var) {
                val.clone()
            } else {
                self.share()
            },
            ExprNode::App(e1, e2) => {
                let a = e1.subst(var, val, counter);
                let b = e2.subst(var, val, counter);
                Rc::new(ExprNode::App(a, b))
            },
            ExprNode::Abs(x, e) => if x.eq(var) {
                self.share()
            } else {
                let new_x = fresh_name(x.as_str(), counter);
                let new_var = Rc::new(ExprNode::Var(new_x.clone()));
                let new_body = e.subst(x, &new_var, counter);
                proof {
                    lemma_rename_size(e@, x@, new_x@, next_counter(*old(counter)));
                }
                let body = new_body.subst(var, val, counter);
                Rc::new(ExprNode::Abs(new_x, body))
            },
            ExprNode::Num(_) => self.share(),
            ExprNode::Add(e1, e2) => {
                let a = e1.subst(var, val, counter);
                let b = e2.subst(var, val, counter);
                Rc::new(ExprNode::Add(a, b))
            },
        }
    }

    /// Evaluates by substitution with at most `fuel` nested steps, taking fresh names
    /// from `counter`.
    pub fn eval_with(&self, fuel: u64, counter: &mut u64) -> (r: Result<Expr, String>)
        ensures
            (result_view(r), *final(counter)) == eval_term(fuel as nat, self@, *old(counter)),
        decreases fuel,
    {
        if fuel == 0 {
            return Err(message("Evaluation step limit reached"));
        }
        match self {
            ExprNode::Var(_) => Ok(self.share()),
            ExprNode::Abs(..) => Ok(self.share()),
            ExprNode::Num(_) => Ok(self.share()),
            ExprNode::App(e1, e2) => {
                let r1 = e1.eval_with(fuel - 1, counter);
                match r1 {
                    Ok(rc) => match &*rc {
                        ExprNode::Abs(param, body) => {
                            let body2 = body.subst(param, e2, counter);
                            body2.eval_with(fuel - 1, counter)
                        },
                        _ => Err(message("Not an abstraction")),
                    },
                    Err(s) => Err(s),
                }
            },
            ExprNode::Add(e1, e2) => {
                let v1 = e1.eval_with(fuel - 1, counter);
                let v2 = e2.eval_with(fuel - 1, counter);
                match (v1, v2) {
                    (Ok(n), Ok(m)) => match (&*n, &*m) {
                        (ExprNode::Num(x), ExprNode::Num(y)) => match x.checked_add(*y) {
                            Some(z) => Ok(Rc::new(ExprNode::Num(z))),
                            None => Err(message("Integer overflow")),
                        },
                        _ => Err(message("Expecting integers")),
                    },
                    (Err(s), _) => Err(s),
                    (_, Err(s)) => Err(s),
                }
            },
        }
    }

    /// Evaluates by substitution (call by name), with fresh names counted from zero.
    /// Renaming makes names that contain `#`; the parser never makes such names, and
    /// substitution avoids capture on terms without them.
    pub fn eval(&self) -> (r: Result<Expr, String>)
        ensures
            result_view(r) == eval_term(EVAL_FUEL as nat, self@, 0).0,
    {
        let mut counter: u64 = 0;
        self.eval_with(EVAL_FUEL, &mut counter)
    }
}

} // verus!
