use std::rc::Rc;
use vstd::prelude::*;
use crate::env::{Env, first_index};
use crate::subst::{expecting_integers_message, limit_message, message, overflow_message, sum_fits, EVAL_FUEL};
use crate::closures::invalid_application_message;
use crate::syntax::{ExprNode, Term, term_depth};

verus! {

/// A shared pointer to a term with De Bruijn indices.
pub type ExprDb = Rc<ExprDbNode>;

/// A lambda term using De Bruijn indices: a bound variable is represented by its
/// binding depth (0 = the nearest enclosing `Abs`) and keeps its name for display, so
/// `Abs` no longer needs to carry a name. Free variables are kept by name.
#[derive(Debug, Clone, PartialEq)]
pub enum ExprDbNode {
    Var(usize, String),
    Free(String),
    Num(i32),
    Add(ExprDb, ExprDb),
    Abs(ExprDb),
    App(ExprDb, ExprDb),
}

/// The mathematical model of a term with De Bruijn indices.
pub enum DbTerm {
    Var(nat, Seq<char>),
    Free(Seq<char>),
    Num(i32),
    Add(Box<DbTerm>, Box<DbTerm>),
    Abs(Box<DbTerm>),
    App(Box<DbTerm>, Box<DbTerm>),
}

/// The model of an executable term with De Bruijn indices.
pub open spec fn db_of(e: ExprDbNode) -> DbTerm
    decreases e,
{
    match e {
        ExprDbNode::Var(i, x) => DbTerm::Var(i as nat, x@),
        ExprDbNode::Free(x) => DbTerm::Free(x@),
        ExprDbNode::Num(n) => DbTerm::Num(n),
        ExprDbNode::Add(a, b) => DbTerm::Add(Box::new(db_of(*a)), Box::new(db_of(*b))),
        ExprDbNode::Abs(b) => DbTerm::Abs(Box::new(db_of(*b))),
        ExprDbNode::App(a, b) => DbTerm::App(Box::new(db_of(*a)), Box::new(db_of(*b))),
    }
}

impl View for ExprDbNode {
    type V = DbTerm;

    open spec fn view(&self) -> DbTerm {
        db_of(*self)
    }
}

/// The conversion of `e` to De Bruijn indices, where `names` are the names bound
/// around it, the nearest first. A variable becomes the position of its nearest
/// binding in `names` (with its name), or stays free by name.
pub open spec fn to_db_term(e: Term, names: Seq<Seq<char>>) -> DbTerm
    decreases e,
{
    match e {
        Term::Var(x) => match first_index(names, x) {
            Some(i) => DbTerm::Var(i, x),
            None => DbTerm::Free(x),
        },
        Term::Abs(x, b) => DbTerm::Abs(Box::new(to_db_term(*b, seq![x] + names))),
        Term::App(a, b) => DbTerm::App(
            Box::new(to_db_term(*a, names)),
            Box::new(to_db_term(*b, names)),
        ),
        Term::Num(n) => DbTerm::Num(n),
        Term::Add(a, b) => DbTerm::Add(
            Box::new(to_db_term(*a, names)),
            Box::new(to_db_term(*b, names)),
        ),
    }
}

/// Adds one to every index at or above `barrier`; the barrier grows by one under
/// each abstraction.
pub open spec fn shift_db(t: DbTerm, barrier: nat) -> DbTerm
    decreases t,
{
    match t {
        DbTerm::Var(i, x) => if i >= barrier {
            DbTerm::Var(i + 1, x)
        } else {
            t
        },
        DbTerm::Free(_) => t,
        DbTerm::Num(_) => t,
        DbTerm::Abs(b) => DbTerm::Abs(Box::new(shift_db(*b, barrier + 1))),
        DbTerm::App(a, b) => DbTerm::App(
            Box::new(shift_db(*a, barrier)),
            Box::new(shift_db(*b, barrier)),
        ),
        DbTerm::Add(a, b) => DbTerm::Add(
            Box::new(shift_db(*a, barrier)),
            Box::new(shift_db(*b, barrier)),
        ),
    }
}

/// Whether shifting `t` at `barrier` keeps every index and barrier within `usize`.
pub open spec fn shift_fits(t: DbTerm, barrier: nat) -> bool
    decreases t,
{
    match t {
        DbTerm::Var(i, _) => i < barrier || i + 1 <= usize::MAX,
        DbTerm::Free(_) => true,
        DbTerm::Num(_) => true,
        DbTerm::Abs(b) => barrier + 1 <= usize::MAX && shift_fits(*b, barrier + 1),
        DbTerm::App(a, b) => shift_fits(*a, barrier) && shift_fits(*b, barrier),
        DbTerm::Add(a, b) => shift_fits(*a, barrier) && shift_fits(*b, barrier),
    }
}

/// Replaces the variables with index `var` by `val`; the index grows by one under
/// each abstraction (`val` itself is not shifted).
pub open spec fn subst_db(t: DbTerm, var: nat, val: DbTerm) -> DbTerm
    decreases t,
{
    match t {
        DbTerm::Var(i, _) => if i == var {
            val
        } else {
            t
        },
        DbTerm::Free(_) => t,
        DbTerm::Num(_) => t,
        DbTerm::Abs(b) => DbTerm::Abs(Box::new(subst_db(*b, var + 1, val))),
        DbTerm::App(a, b) => DbTerm::App(
            Box::new(subst_db(*a, var, val)),
            Box::new(subst_db(*b, var, val)),
        ),
        DbTerm::Add(a, b) => DbTerm::Add(
            Box::new(subst_db(*a, var, val)),
            Box::new(subst_db(*b, var, val)),
        ),
    }
}

/// Whether substituting at `var` in `t` keeps every index within `usize`.
pub open spec fn subst_fits(t: DbTerm, var: nat) -> bool
    decreases t,
{
    match t {
        DbTerm::Abs(b) => var + 1 <= usize::MAX && subst_fits(*b, var + 1),
        DbTerm::App(a, b) => subst_fits(*a, var) && subst_fits(*b, var),
        DbTerm::Add(a, b) => subst_fits(*a, var) && subst_fits(*b, var),
        _ => true,
    }
}

/// The error for a bound variable reached by evaluation.
pub open spec fn should_not_occur_message() -> Seq<char> {
    "Should not occur"@
}

/// The error for an index that would leave the range of `usize`.
pub open spec fn index_overflow_message() -> Seq<char> {
    "Index overflow"@
}

/// The result of an addition of two De Bruijn values.
pub open spec fn add_results_db(r1: Result<DbTerm, Seq<char>>, r2: Result<DbTerm, Seq<char>>) -> Result<
    DbTerm,
    Seq<char>,
> {
    match (r1, r2) {
        (Ok(DbTerm::Num(x)), Ok(DbTerm::Num(y))) => if sum_fits(x, y) {
            Ok(DbTerm::Num((x + y) as i32))
        } else {
            Err(overflow_message())
        },
        (Ok(_), Ok(_)) => Err(expecting_integers_message()),
        (Err(s), _) => Err(s),
        (_, Err(s)) => Err(s),
    }
}

/// Call-by-name evaluation of a term with De Bruijn indices, with at most `fuel` nested
/// steps. An application of `Abs(body)` to `arg` continues with `body` where index 0 is
/// replaced by `arg` shifted at 0.
pub open spec fn eval_db(fuel: nat, t: DbTerm) -> Result<DbTerm, Seq<char>>
    decreases fuel,
{
    if fuel == 0 {
        Err(limit_message())
    } else {
        match t {
            DbTerm::Var(_, _) => Err(should_not_occur_message()),
            DbTerm::Free(_) => Ok(t),
            DbTerm::Num(_) => Ok(t),
            DbTerm::Abs(_) => Ok(t),
            DbTerm::Add(a, b) => add_results_db(
                eval_db((fuel - 1) as nat, *a),
                eval_db((fuel - 1) as nat, *b),
            ),
            DbTerm::App(a, b) => match eval_db((fuel - 1) as nat, *a) {
                Ok(DbTerm::Abs(body)) => if !shift_fits(*b, 0) || !subst_fits(*body, 0) {
                    Err(index_overflow_message())
                } else {
                    eval_db((fuel - 1) as nat, subst_db(*body, 0, shift_db(*b, 0)))
                },
                Ok(_) => Err(invalid_application_message()),
                Err(s) => Err(s),
            },
        }
    }
}

/// The model of a result of the De Bruijn semantics.
pub open spec fn db_result_view(r: Result<ExprDb, String>) -> Result<DbTerm, Seq<char>> {
    match r {
        Ok(e) => Ok(e@),
        Err(s) => Err(s@),
    }
}

/// The position that `lookup_idx` finds is the first position of the name.
pub proof fn lemma_lookup_idx_names<V>(env: &Env<V>, x: Seq<char>)
    ensures
        env.lookup_idx(x) == first_index(env.names(), x),
    decreases env,
{
    if let Env::Node(y, v, next) = env {
        lemma_lookup_idx_names(&**next, x);
        assert(env.names().drop_first() =~= next.names());
    }
}

impl ExprNode {
    /// Converts to De Bruijn indices, where `env` holds the names bound around the term.
    pub fn to_debruijn(&self, env: &Env<()>) -> (r: ExprDb)
        requires
            env.len() + term_depth(self@) <= usize::MAX,
        ensures
            r@ == to_db_term(self@, env.names()),
        decreases self,
    {
        match self {
            ExprNode::Var(x) => {
                proof {
                    lemma_lookup_idx_names(env, x@);
                    crate::env::lemma_lookup_idx_bound(env, x@);
                }
                match env.find_idx(x) {
                    Ok(idx) => Rc::new(ExprDbNode::Var(idx, x.clone())),
                    Err(_) => Rc::new(ExprDbNode::Free(x.clone())),
                }
            },
            ExprNode::Abs(x, exp) => {
                let new_env = env.push(x, Rc::new(()));
                Rc::new(ExprDbNode::Abs(exp.to_debruijn(&new_env)))
            },
            ExprNode::App(e1, e2) => Rc::new(
                ExprDbNode::App(e1.to_debruijn(env), e2.to_debruijn(env)),
            ),
            ExprNode::Num(n) => Rc::new(ExprDbNode::Num(*n)),
            ExprNode::Add(e1, e2) => Rc::new(
                ExprDbNode::Add(e1.to_debruijn(env), e2.to_debruijn(env)),
            ),
        }
    }
}

impl ExprDbNode {
    /// A fresh shared pointer to a node equal to this one.
    pub fn share(&self) -> (r: ExprDb)
        ensures
            *r == *self,
    {
        let node = match self {
            ExprDbNode::Var(i, x) => ExprDbNode::Var(*i, x.clone()),
            ExprDbNode::Free(x) => ExprDbNode::Free(x.clone()),
            ExprDbNode::Num(n) => ExprDbNode::Num(*n),
            ExprDbNode::Add(a, b) => ExprDbNode::Add(a.clone(), b.clone()),
            ExprDbNode::Abs(b) => ExprDbNode::Abs(b.clone()),
            ExprDbNode::App(a, b) => ExprDbNode::App(a.clone(), b.clone()),
        };
        Rc::new(node)
    }

    /// Adds one to every index at or above `barrier` (the barrier grows by one under
    /// each abstraction).
    pub fn shift(&self, barrier: usize) -> (r: ExprDb)
        requires
            shift_fits(self@, barrier as nat),
        ensures
            r@ == shift_db(self@, barrier as nat),
        decreases self,
    {
        match self {
            ExprDbNode::Var(idx, name) => if *idx >= barrier {
                Rc::new(ExprDbNode::Var(idx + 1, name.clone()))
            } else {
                self.share()
            },
            ExprDbNode::Free(_) => self.share(),
            ExprDbNode::Abs(body) => Rc::new(ExprDbNode::Abs(body.shift(barrier + 1))),
            ExprDbNode::App(e1, e2) => Rc::new(ExprDbNode::App(e1.shift(barrier), e2.shift(barrier))),
            ExprDbNode::Num(_) => self.share(),
            ExprDbNode::Add(e1, e2) => Rc::new(ExprDbNode::Add(e1.shift(barrier), e2.shift(barrier))),
        }
    }

    /// Replaces the variables with index `var` by `val` (the index grows by one under
    /// each abstraction).
    pub fn subst(&self, var: &usize, val: &ExprDb) -> (r: ExprDb)
        requires
            subst_fits(self@, *var as nat),
        ensures
            r@ == subst_db(self@, *var as nat, val@),
        decreases self,
    {
        match self {
            ExprDbNode::Var(x, _) => if *x == *var {
                val.clone()
            } else {
                self.share()
            },
            ExprDbNode::App(e1, e2) => Rc::new(ExprDbNode::App(e1.subst(var, val), e2.subst(var, val))),
            ExprDbNode::Abs(body) => Rc::new(ExprDbNode::Abs(body.subst(&(var + 1), val))),
            ExprDbNode::Free(..) => self.share(),
            ExprDbNode::Num(_) => self.share(),
            ExprDbNode::Add(e1, e2) => Rc::new(ExprDbNode::Add(e1.subst(var, val), e2.subst(var, val))),
        }
    }

    /// Whether `shift(barrier)` stays within the range of `usize`.
    pub fn can_shift(&self, barrier: usize) -> (r: bool)
        ensures
            r == shift_fits(self@, barrier as nat),
        decreases self,
    {
        match self {
            ExprDbNode::Var(idx, _) => *idx < barrier || *idx < usize::MAX,
            ExprDbNode::Abs(body) => barrier < usize::MAX && body.can_shift(barrier + 1),
            ExprDbNode::App(e1, e2) => e1.can_shift(barrier) && e2.can_shift(barrier),
            ExprDbNode::Add(e1, e2) => e1.can_shift(barrier) && e2.can_shift(barrier),
            _ => true,
        }
    }

    /// Whether `subst(var, _)` stays within the range of `usize`.
    pub fn can_subst(&self, var: usize) -> (r: bool)
        ensures
            r == subst_fits(self@, var as nat),
        decreases self,
    {
        match self {
            ExprDbNode::Abs(body) => var < usize::MAX && body.can_subst(var + 1),
            ExprDbNode::App(e1, e2) => e1.can_subst(var) && e2.can_subst(var),
            ExprDbNode::Add(e1, e2) => e1.can_subst(var) && e2.can_subst(var),
            _ => true,
        }
    }

    /// Evaluates by name with at most `fuel` nested steps.
    pub fn eval_with(&self, fuel: u64) -> (r: Result<ExprDb, String>)
        ensures
            db_result_view(r) == eval_db(fuel as nat, self@),
        decreases fuel,
    {
        if fuel == 0 {
            return Err(message("Evaluation step limit reached"));
        }
        match self {
            ExprDbNode::Var(..) => Err(message("Should not occur")),
            ExprDbNode::Free(..) => Ok(self.share()),
            ExprDbNode::Num(_) => Ok(self.share()),
            ExprDbNode::Add(e1, e2) => {
                let v1 = e1.eval_with(fuel - 1);
                let v2 = e2.eval_with(fuel - 1);
                match (v1, v2) {
                    (Ok(n), Ok(m)) => match (&*n, &*m) {
                        (ExprDbNode::Num(x), ExprDbNode::Num(y)) => match x.checked_add(*y) {
                            Some(z) => Ok(Rc::new(ExprDbNode::Num(z))),
                            None => Err(message("Integer overflow")),
                        },
                        _ => Err(message("Expecting integers")),
                    },
                    (Err(s), _) => Err(s),
                    (_, Err(s)) => Err(s),
                }
            },
            ExprDbNode::Abs(..) => Ok(self.share()),
            ExprDbNode::App(e1, e2) => {
                let v1 = e1.eval_with(fuel - 1);
                match v1 {
                    Ok(rc) => match &*rc {
                        ExprDbNode::Abs(body) => {
                            if !e2.can_shift(0) || !body.can_subst(0) {
                                return Err(message("Index overflow"));
                            }
                            let shifted_arg = e2.shift(0);
                            let body2 = body.subst(&0, &shifted_arg);
                            body2.eval_with(fuel - 1)
                        },
                        _ => Err(message("Invalid application")),
                    },
                    Err(s) => Err(s),
                }
            },
        }
    }

    /// Evaluates by name on De Bruijn indices.
    pub fn eval(&self) -> (r: Result<ExprDb, String>)
        ensures
            db_result_view(r) == eval_db(EVAL_FUEL as nat, self@),
    {
        self.eval_with(EVAL_FUEL)
    }
}

} // verus!
