use std::rc::Rc;
use vstd::prelude::*;
use crate::env::Env;
use crate::subst::{
    expecting_integers_message, limit_message, message, overflow_message, sum_fits, EVAL_FUEL,
};
use crate::syntax::{Expr, ExprNode, Term};

verus! {

/// A shared pointer to a value of the environment semantics.
pub type Value = Rc<ValueNode>;

/// A value of the environment semantics: a free variable, a number, or a closure
/// (parameter, body and the environment it was made in).
#[derive(Debug, Clone, PartialEq)]
pub enum ValueNode {
    Var(String),
    Num(i32),
    Closure(String, Expr, Rc<Env<ValueNode>>),
}

/// The mathematical model of a value.
pub enum Val {
    Var(Seq<char>),
    Num(i32),
    Closure(Seq<char>, Term, Seq<(Seq<char>, Val)>),
}

/// The model of an executable value.
pub open spec fn val_of(v: ValueNode) -> Val
    decreases v,
{
    match v {
        ValueNode::Var(x) => Val::Var(x@),
        ValueNode::Num(n) => Val::Num(n),
        ValueNode::Closure(x, body, env) => Val::Closure(x@, body@, bindings_of(*env)),
    }
}

/// The model of an environment of values: its bindings, the most recent first.
pub open spec fn bindings_of(env: Env<ValueNode>) -> Seq<(Seq<char>, Val)>
    decreases env,
{
    match env {
        Env::Empty => Seq::empty(),
        Env::Node(x, v, next) => seq![(x@, val_of(*v))] + bindings_of(*next),
    }
}

impl View for ValueNode {
    type V = Val;

    open spec fn view(&self) -> Val {
        val_of(*self)
    }
}

/// The value of the most recent binding of `x`.
pub open spec fn lookup_val(env: Seq<(Seq<char>, Val)>, x: Seq<char>) -> Option<Val>
    decreases env.len(),
{
    if env.len() == 0 {
        None
    } else if env[0].0 == x {
        Some(env[0].1)
    } else {
        lookup_val(env.drop_first(), x)
    }
}

/// The result of an addition of two values of the environment semantics.
pub open spec fn add_results_val(r1: Result<Val, Seq<char>>, r2: Result<Val, Seq<char>>) -> Result<
    Val,
    Seq<char>,
> {
    match (r1, r2) {
        (Ok(Val::Num(x)), Ok(Val::Num(y))) => if sum_fits(x, y) {
            Ok(Val::Num((x + y) as i32))
        } else {
            Err(overflow_message())
        },
        (Ok(_), Ok(_)) => Err(expecting_integers_message()),
        (Err(s), _) => Err(s),
        (_, Err(s)) => Err(s),
    }
}

/// The error for an application whose function part is not a closure.
pub open spec fn invalid_application_message() -> Seq<char> {
    "Invalid application"@
}

/// Call-by-value evaluation in the environment `env` with at most `fuel` nested steps.
/// A variable bound in `env` evaluates to its value and an unbound one to itself; an
/// abstraction evaluates to a closure over `env`.
pub open spec fn eval_env_term(fuel: nat, e: Term, env: Seq<(Seq<char>, Val)>) -> Result<
    Val,
    Seq<char>,
>
    decreases fuel,
{
    if fuel == 0 {
        Err(limit_message())
    } else {
        match e {
            Term::Var(x) => match lookup_val(env, x) {
                Some(v) => Ok(v),
                None => Ok(Val::Var(x)),
            },
            Term::Abs(x, body) => Ok(Val::Closure(x, *body, env)),
            Term::App(a, b) => {
                let r1 = eval_env_term((fuel - 1) as nat, *a, env);
                let r2 = eval_env_term((fuel - 1) as nat, *b, env);
                match r1 {
                    Ok(Val::Closure(p, body, cenv)) => match r2 {
                        Ok(v2) => eval_env_term((fuel - 1) as nat, body, seq![(p, v2)] + cenv),
                        Err(s) => Err(s),
                    },
                    Ok(_) => Err(invalid_application_message()),
                    Err(s) => Err(s),
                }
            },
            Term::Num(n) => Ok(Val::Num(n)),
            Term::Add(a, b) => {
                let r1 = eval_env_term((fuel - 1) as nat, *a, env);
                let r2 = eval_env_term((fuel - 1) as nat, *b, env);
                add_results_val(r1, r2)
            },
        }
    }
}

/// The model of a result of the environment semantics.
pub open spec fn value_result_view(r: Result<Value, String>) -> Result<Val, Seq<char>> {
    match r {
        Ok(v) => Ok(v@),
        Err(s) => Err(s@),
    }
}

/// Looking a name up in an environment of values agrees with its model.
pub proof fn lemma_lookup_bindings(env: &Env<ValueNode>, x: Seq<char>)
    ensures
        match env.lookup(x) {
            Some(v) => lookup_val(bindings_of(*env), x) == Some(val_of(*v)),
            None => lookup_val(bindings_of(*env), x) is None,
        },
    decreases env,
{
    if let Env::Node(y, v, next) = env {
        lemma_lookup_bindings(&**next, x);
        assert(bindings_of(*env).drop_first() =~= bindings_of(**next));
    }
}

impl ExprNode {
    /// Evaluates by value in `env` with at most `fuel` nested steps.
    pub fn eval_env_with(&self, fuel: u64, env: Rc<Env<ValueNode>>) -> (r: Result<Value, String>)
        ensures
            value_result_view(r) == eval_env_term(fuel as nat, self@, bindings_of(*env)),
        decreases fuel,
    {
        if fuel == 0 {
            return Err(message("Evaluation step limit reached"));
        }
        match self {
            ExprNode::Var(x) => {
                proof {
                    lemma_lookup_bindings(&*env, x@);
                }
                match env.find(x) {
                    Ok(v) => Ok(v),
                    Err(_) => Ok(Rc::new(ValueNode::Var(x.clone()))),
                }
            },
            ExprNode::Abs(x, e) => Ok(Rc::new(ValueNode::Closure(x.clone(), e.clone(), env.clone()))),
            ExprNode::App(e1, e2) => {
                let v1 = e1.eval_env_with(fuel - 1, env.clone());
                let v2 = e2.eval_env_with(fuel - 1, env);
                match v1 {
                    Ok(rc) => match &*rc {
                        ValueNode::Closure(param, body, env_closure) => match v2 {
                            Ok(v2) => {
                                let inner = env_closure.push(param, v2);
                                body.eval_env_with(fuel - 1, Rc::new(inner))
                            },
                            Err(s) => Err(s),
                        },
                        _ => Err(message("Invalid application")),
                    },
                    Err(s) => Err(s),
                }
            },
            ExprNode::Num(x) => Ok(Rc::new(ValueNode::Num(*x))),
            ExprNode::Add(e1, e2) => {
                let v1 = e1.eval_env_with(fuel - 1, env.clone());
                let v2 = e2.eval_env_with(fuel - 1, env);
                match (v1, v2) {
                    (Ok(n), Ok(m)) => match (&*n, &*m) {
                        (ValueNode::Num(x), ValueNode::Num(y)) => match x.checked_add(*y) {
                            Some(z) => Ok(Rc::new(ValueNode::Num(z))),
                            None => Err(message("Integer overflow")),
                        },
                        _ => Err(message("Expecting integers")),
                    },
                    (Err(s), _) => Err(s),
                    (_, Err(s)) => Err(s),
                }
            },
        }
    }

    /// Evaluates by value in `env`, with environments and closures.
    pub fn eval_env(&self, env: Rc<Env<ValueNode>>) -> (r: Result<Value, String>)
        ensures
            value_result_view(r) == eval_env_term(EVAL_FUEL as nat, self@, bindings_of(*env)),
    {
        self.eval_env_with(EVAL_FUEL, env)
    }
}

} // verus!
