use vstd::prelude::*;
use crate::closures::{eval_env_term, Val};
use vstd::string::*;
use crate::closures::{add_results_val, invalid_application_message, lookup_val};
use crate::debruijn::{
    DbTerm, add_results_db, eval_db, index_overflow_message, shift_db, shift_fits, should_not_occur_message, subst_db,
    subst_fits, to_db_term,
};
use crate::names::{fresh_spec, next_counter};
use crate::subst::{
    add_results, eval_term, expecting_integers_message, limit_message, not_abstraction_message, overflow_message,
    subst_term, lemma_rename_size,
};
use crate::syntax::{Term, free_vars, is_term_value, term_depth, term_size};

verus! {

/// A value of the De Bruijn semantics: a free variable, a number or an abstraction.
pub open spec fn is_db_value(t: DbTerm) -> bool {
    t is Free || t is Num || t is Abs
}

/// Every index in `t` refers to an enclosing abstraction or to one of `k` names bound
/// around `t`.
pub open spec fn db_scoped(t: DbTerm, k: nat) -> bool
    decreases t,
{
    match t {
        DbTerm::Var(i, _) => i < k,
        DbTerm::Abs(b) => db_scoped(*b, k + 1),
        DbTerm::App(a, b) => db_scoped(*a, k) && db_scoped(*b, k),
        DbTerm::Add(a, b) => db_scoped(*a, k) && db_scoped(*b, k),
        _ => true,
    }
}

/// Evaluation by substitution ends in a value, a value evaluates to itself, and so
/// evaluating a result again gives it back unchanged.
pub proof fn law_eval_gives_value(fuel: nat, e: Term, n: u64, m: u64)
    ensures
        eval_term(fuel, e, n).0 matches Ok(v) ==> is_term_value(v),
        fuel > 0 && is_term_value(e) ==> eval_term(fuel, e, n) == (Ok::<Term, Seq<char>>(e), n),
        eval_term(fuel, e, n).0 matches Ok(v) ==> eval_term(fuel, v, m) == (Ok::<Term, Seq<char>>(v), m),
    decreases fuel,
{
    if fuel > 0 {
        match e {
            Term::App(a, b) => {
                let (r1, n1) = eval_term((fuel - 1) as nat, *a, n);
                if let Ok(Term::Abs(p, body)) = r1 {
                    let (body2, n2) = subst_term(*body, p, *b, n1);
                    law_eval_gives_value((fuel - 1) as nat, body2, n2, m);
                }
            },
            _ => {},
        }
    }
}

/// Evaluation on De Bruijn indices ends in a value, a value evaluates to itself, and so
/// evaluating a result again gives it back unchanged.
pub proof fn law_eval_db_gives_value(fuel: nat, t: DbTerm)
    ensures
        eval_db(fuel, t) matches Ok(v) ==> is_db_value(v),
        fuel > 0 && is_db_value(t) ==> eval_db(fuel, t) == Ok::<DbTerm, Seq<char>>(t),
        eval_db(fuel, t) matches Ok(v) ==> eval_db(fuel, v) == Ok::<DbTerm, Seq<char>>(v),
    decreases fuel,
{
    if fuel > 0 {
        if let DbTerm::App(a, b) = t {
            if let Ok(DbTerm::Abs(body)) = eval_db((fuel - 1) as nat, *a) {
                if crate::debruijn::shift_fits(*b, 0) && crate::debruijn::subst_fits(*body, 0) {
                    law_eval_db_gives_value((fuel - 1) as nat, subst_db(*body, 0, shift_db(*b, 0)));
                }
            }
        }
    }
}

/// More fuel does not change a result that was reached without running out of fuel;
/// when that result is a value, the name counter after it is unchanged too.
pub proof fn law_eval_fuel_monotone(fuel: nat, more: nat, e: Term, n: u64)
    requires
        fuel <= more,
        eval_term(fuel, e, n).0 != Err::<Term, Seq<char>>(limit_message()),
    ensures
        eval_term(more, e, n).0 == eval_term(fuel, e, n).0,
        eval_term(fuel, e, n).0 is Ok ==> eval_term(more, e, n).1 == eval_term(fuel, e, n).1,
    decreases fuel,
{
    let f1 = (fuel - 1) as nat;
    let m1 = (more - 1) as nat;
    match e {
        Term::App(a, b) => {
            let (r1, n1) = eval_term(f1, *a, n);
            if r1 != Err::<Term, Seq<char>>(limit_message()) {
                law_eval_fuel_monotone(f1, m1, *a, n);
            }
            if let Ok(Term::Abs(p, body)) = r1 {
                let (body2, n2) = subst_term(*body, p, *b, n1);
                law_eval_fuel_monotone(f1, m1, body2, n2);
            }
        },
        Term::Add(a, b) => {
            let (r1, n1) = eval_term(f1, *a, n);
            let (r2, n2) = eval_term(f1, *b, n1);
            if r1 != Err::<Term, Seq<char>>(limit_message()) {
                law_eval_fuel_monotone(f1, m1, *a, n);
            }
            if r1 is Ok && r2 != Err::<Term, Seq<char>>(limit_message()) {
                law_eval_fuel_monotone(f1, m1, *b, n1);
            }
        },
        _ => {},
    }
}

/// More fuel does not change a result of the De Bruijn semantics that was reached
/// without running out of fuel.
pub proof fn law_eval_db_fuel_monotone(fuel: nat, more: nat, t: DbTerm)
    requires
        fuel <= more,
        eval_db(fuel, t) != Err::<DbTerm, Seq<char>>(limit_message()),
    ensures
        eval_db(more, t) == eval_db(fuel, t),
    decreases fuel,
{
    let f1 = (fuel - 1) as nat;
    let m1 = (more - 1) as nat;
    match t {
        DbTerm::App(a, b) => {
            let r1 = eval_db(f1, *a);
            if r1 != Err::<DbTerm, Seq<char>>(limit_message()) {
                law_eval_db_fuel_monotone(f1, m1, *a);
            }
            if let Ok(DbTerm::Abs(body)) = r1 {
                if crate::debruijn::shift_fits(*b, 0) && crate::debruijn::subst_fits(*body, 0) {
                    law_eval_db_fuel_monotone(f1, m1, subst_db(*body, 0, shift_db(*b, 0)));
                }
            }
        },
        DbTerm::Add(a, b) => {
            if eval_db(f1, *a) != Err::<DbTerm, Seq<char>>(limit_message()) {
                law_eval_db_fuel_monotone(f1, m1, *a);
            }
            if eval_db(f1, *b) != Err::<DbTerm, Seq<char>>(limit_message()) {
                law_eval_db_fuel_monotone(f1, m1, *b);
            }
        },
        _ => {},
    }
}

/// More fuel does not change a result of the environment semantics that was reached
/// without running out of fuel.
pub proof fn law_eval_env_fuel_monotone(fuel: nat, more: nat, e: Term, env: Seq<(Seq<char>, Val)>)
    requires
        fuel <= more,
        eval_env_term(fuel, e, env) != Err::<Val, Seq<char>>(limit_message()),
    ensures
        eval_env_term(more, e, env) == eval_env_term(fuel, e, env),
    decreases fuel,
{
    let f1 = (fuel - 1) as nat;
    let m1 = (more - 1) as nat;
    match e {
        Term::App(a, b) => {
            let r1 = eval_env_term(f1, *a, env);
            let r2 = eval_env_term(f1, *b, env);
            if r1 != Err::<Val, Seq<char>>(limit_message()) {
                law_eval_env_fuel_monotone(f1, m1, *a, env);
            }
            if r2 != Err::<Val, Seq<char>>(limit_message()) {
                law_eval_env_fuel_monotone(f1, m1, *b, env);
            }
            if let (Ok(Val::Closure(p, body, cenv)), Ok(v2)) = (r1, r2) {
                law_eval_env_fuel_monotone(f1, m1, body, seq![(p, v2)] + cenv);
            }
        },
        Term::Add(a, b) => {
            if eval_env_term(f1, *a, env) != Err::<Val, Seq<char>>(limit_message()) {
                law_eval_env_fuel_monotone(f1, m1, *a, env);
            }
            if eval_env_term(f1, *b, env) != Err::<Val, Seq<char>>(limit_message()) {
                law_eval_env_fuel_monotone(f1, m1, *b, env);
            }
        },
        _ => {},
    }
}

/// Unless it runs out of fuel, an application evaluates by substitution as its parts
/// do with the same fuel: the function part is evaluated, and the body of the
/// abstraction it gives, with the unevaluated argument substituted, is evaluated next.
pub proof fn law_eval_app_parts(fuel: nat, a: Term, b: Term, n: u64)
    requires
        eval_term(fuel, Term::App(Box::new(a), Box::new(b)), n).0 != Err::<Term, Seq<char>>(limit_message()),
    ensures
        eval_term(fuel, Term::App(Box::new(a), Box::new(b)), n).0 == match eval_term(fuel, a, n) {
            (Ok(Term::Abs(p, body)), n1) => {
                let (body2, n2) = subst_term(*body, p, b, n1);
                eval_term(fuel, body2, n2).0
            },
            (Ok(_), _) => Err(not_abstraction_message()),
            (Err(s), _) => Err(s),
        },
{
    let f1 = (fuel - 1) as nat;
    law_eval_fuel_monotone(f1, fuel, a, n);
    let (r1, n1) = eval_term(f1, a, n);
    if let Ok(Term::Abs(p, body)) = r1 {
        let (body2, n2) = subst_term(*body, p, b, n1);
        law_eval_fuel_monotone(f1, fuel, body2, n2);
    }
}

/// Unless it runs out of fuel, a sum evaluates by substitution as its parts do with the
/// same fuel, the second part after the first.
pub proof fn law_eval_add_parts(fuel: nat, a: Term, b: Term, n: u64)
    requires
        eval_term(fuel, Term::Add(Box::new(a), Box::new(b)), n).0 != Err::<Term, Seq<char>>(limit_message()),
    ensures
        eval_term(fuel, Term::Add(Box::new(a), Box::new(b)), n).0 == add_results(
            eval_term(fuel, a, n).0,
            eval_term(fuel, b, eval_term(fuel, a, n).1).0,
        ),
{
    let f1 = (fuel - 1) as nat;
    law_eval_fuel_monotone(f1, fuel, a, n);
    let (r1, n1) = eval_term(f1, a, n);
    if r1 is Ok {
        law_eval_fuel_monotone(f1, fuel, b, n1);
    }
}

/// Unless it runs out of fuel, an application evaluates with environments as its parts
/// do with the same fuel: the body of the closure runs in the closure's own environment
/// with the parameter bound to the argument's value.
pub proof fn law_eval_env_app_parts(fuel: nat, a: Term, b: Term, env: Seq<(Seq<char>, Val)>)
    requires
        eval_env_term(fuel, Term::App(Box::new(a), Box::new(b)), env) != Err::<Val, Seq<char>>(limit_message()),
    ensures
        eval_env_term(fuel, Term::App(Box::new(a), Box::new(b)), env) == match eval_env_term(fuel, a, env) {
            Ok(Val::Closure(p, body, cenv)) => match eval_env_term(fuel, b, env) {
                Ok(v2) => eval_env_term(fuel, body, seq![(p, v2)] + cenv),
                Err(s) => Err(s),
            },
            Ok(_) => Err(invalid_application_message()),
            Err(s) => Err(s),
        },
{
    let f1 = (fuel - 1) as nat;
    law_eval_env_fuel_monotone(f1, fuel, a, env);
    if let Ok(Val::Closure(p, body, cenv)) = eval_env_term(f1, a, env) {
        law_eval_env_fuel_monotone(f1, fuel, b, env);
        if let Ok(v2) = eval_env_term(f1, b, env) {
            law_eval_env_fuel_monotone(f1, fuel, body, seq![(p, v2)] + cenv);
        }
    }
}

/// Unless it runs out of fuel, a sum evaluates with environments as its parts do with
/// the same fuel.
pub proof fn law_eval_env_add_parts(fuel: nat, a: Term, b: Term, env: Seq<(Seq<char>, Val)>)
    requires
        eval_env_term(fuel, Term::Add(Box::new(a), Box::new(b)), env) != Err::<Val, Seq<char>>(limit_message()),
    ensures
        eval_env_term(fuel, Term::Add(Box::new(a), Box::new(b)), env) == add_results_val(
            eval_env_term(fuel, a, env),
            eval_env_term(fuel, b, env),
        ),
{
    let f1 = (fuel - 1) as nat;
    law_eval_env_fuel_monotone(f1, fuel, a, env);
    if eval_env_term(f1, a, env) is Ok {
        law_eval_env_fuel_monotone(f1, fuel, b, env);
    }
}

/// Unless it runs out of fuel, an application evaluates on De Bruijn indices as its
/// parts do with the same fuel.
pub proof fn law_eval_db_app_parts(fuel: nat, a: DbTerm, b: DbTerm)
    requires
        eval_db(fuel, DbTerm::App(Box::new(a), Box::new(b))) != Err::<DbTerm, Seq<char>>(limit_message()),
    ensures
        eval_db(fuel, DbTerm::App(Box::new(a), Box::new(b))) == match eval_db(fuel, a) {
            Ok(DbTerm::Abs(body)) => if !shift_fits(b, 0) || !subst_fits(*body, 0) {
                Err(index_overflow_message())
            } else {
                eval_db(fuel, subst_db(*body, 0, shift_db(b, 0)))
            },
            Ok(_) => Err(invalid_application_message()),
            Err(s) => Err(s),
        },
{
    let f1 = (fuel - 1) as nat;
    law_eval_db_fuel_monotone(f1, fuel, a);
    if let Ok(DbTerm::Abs(body)) = eval_db(f1, a) {
        if shift_fits(b, 0) && subst_fits(*body, 0) {
            law_eval_db_fuel_monotone(f1, fuel, subst_db(*body, 0, shift_db(b, 0)));
        }
    }
}

/// Unless it runs out of fuel, a sum evaluates on De Bruijn indices as its parts do
/// with the same fuel.
pub proof fn law_eval_db_add_parts(fuel: nat, a: DbTerm, b: DbTerm)
    requires
        eval_db(fuel, DbTerm::Add(Box::new(a), Box::new(b))) != Err::<DbTerm, Seq<char>>(limit_message()),
    ensures
        eval_db(fuel, DbTerm::Add(Box::new(a), Box::new(b))) == add_results_db(eval_db(fuel, a), eval_db(fuel, b)),
{
    let f1 = (fuel - 1) as nat;
    law_eval_db_fuel_monotone(f1, fuel, a);
    if eval_db(f1, a) is Ok {
        law_eval_db_fuel_monotone(f1, fuel, b);
    }
}

/// Substitution brings in no free variable other than those of the substituted term:
/// the free variables of the result are among those of `e` other than `var`, and those
/// of `val`.
pub proof fn law_subst_free_vars(e: Term, var: Seq<char>, val: Term, n: u64)
    ensures
        free_vars(subst_term(e, var, val, n).0).subset_of(free_vars(e).remove(var) + free_vars(val)),
    decreases term_size(e),
{
    match e {
        Term::Var(x) => {},
        Term::Num(_) => {},
        Term::Add(a, b) => {
            let (a2, n1) = subst_term(*a, var, val, n);
            law_subst_free_vars(*a, var, val, n);
            law_subst_free_vars(*b, var, val, n1);
        },
        Term::App(a, b) => {
            let (a2, n1) = subst_term(*a, var, val, n);
            law_subst_free_vars(*a, var, val, n);
            law_subst_free_vars(*b, var, val, n1);
        },
        Term::Abs(x, b) => {
            if x != var {
                let y = fresh_spec(x, n);
                let (b1, n1) = subst_term(*b, x, Term::Var(y), next_counter(n));
                lemma_rename_size(*b, x, y, next_counter(n));
                law_subst_free_vars(*b, x, Term::Var(y), next_counter(n));
                law_subst_free_vars(b1, var, val, n1);
            }
        },
    }
}

/// The conversion to De Bruijn indices leaves no dangling index: every index points
/// to an enclosing abstraction or into the names bound around the term.
pub proof fn law_to_debruijn_scoped(e: Term, names: Seq<Seq<char>>)
    ensures
        db_scoped(to_db_term(e, names), names.len()),
    decreases e,
{
    match e {
        Term::Var(x) => {
            lemma_first_index_bound(names, x);
        },
        Term::Abs(x, b) => {
            law_to_debruijn_scoped(*b, seq![x] + names);
        },
        Term::App(a, b) => {
            law_to_debruijn_scoped(*a, names);
            law_to_debruijn_scoped(*b, names);
        },
        Term::Add(a, b) => {
            law_to_debruijn_scoped(*a, names);
            law_to_debruijn_scoped(*b, names);
        },
        Term::Num(_) => {},
    }
}

proof fn lemma_first_index_bound(names: Seq<Seq<char>>, x: Seq<char>)
    ensures
        crate::env::first_index(names, x) matches Some(i) ==> i < names.len() && names[i as int] == x,
    decreases names.len(),
{
    if names.len() > 0 && names[0] != x {
        lemma_first_index_bound(names.drop_first(), x);
    }
}

/// Shifting at or above the scope of a term changes nothing; in particular the
/// argument that evaluation shifts at 0 stays as it is when it is closed.
pub proof fn law_shift_scoped(t: DbTerm, k: nat, barrier: nat)
    requires
        db_scoped(t, k),
        k <= barrier,
    ensures
        shift_db(t, barrier) == t,
    decreases t,
{
    match t {
        DbTerm::Abs(b) => law_shift_scoped(*b, k + 1, barrier + 1),
        DbTerm::App(a, b) => {
            law_shift_scoped(*a, k, barrier);
            law_shift_scoped(*b, k, barrier);
        },
        DbTerm::Add(a, b) => {
            law_shift_scoped(*a, k, barrier);
            law_shift_scoped(*b, k, barrier);
        },
        _ => {},
    }
}

/// Substituting for an index outside the scope of a term changes nothing.
pub proof fn law_subst_db_scoped(t: DbTerm, k: nat, var: nat, val: DbTerm)
    requires
        db_scoped(t, k),
        k <= var,
    ensures
        subst_db(t, var, val) == t,
    decreases t,
{
    match t {
        DbTerm::Abs(b) => law_subst_db_scoped(*b, k + 1, var + 1, val),
        DbTerm::App(a, b) => {
            law_subst_db_scoped(*a, k, var, val);
            law_subst_db_scoped(*b, k, var, val);
        },
        DbTerm::Add(a, b) => {
            law_subst_db_scoped(*a, k, var, val);
            law_subst_db_scoped(*b, k, var, val);
        },
        _ => {},
    }
}

/// A term whose indices are scoped within `k` names is scoped within any larger number.
pub proof fn lemma_scoped_mono(t: DbTerm, k: nat, k2: nat)
    requires
        db_scoped(t, k),
        k <= k2,
    ensures
        db_scoped(t, k2),
    decreases t,
{
    match t {
        DbTerm::Abs(b) => lemma_scoped_mono(*b, k + 1, k2 + 1),
        DbTerm::App(a, b) => {
            lemma_scoped_mono(*a, k, k2);
            lemma_scoped_mono(*b, k, k2);
        },
        DbTerm::Add(a, b) => {
            lemma_scoped_mono(*a, k, k2);
            lemma_scoped_mono(*b, k, k2);
        },
        _ => {},
    }
}

/// Substituting a closed term for the outermost index `k` of a term scoped within
/// `k + 1` names leaves a term scoped within `k`: the beta step of De Bruijn evaluation
/// keeps a closed term closed.
pub proof fn law_subst_db_closes(t: DbTerm, k: nat, val: DbTerm)
    requires
        db_scoped(t, k + 1),
        db_scoped(val, 0),
    ensures
        db_scoped(subst_db(t, k, val), k),
    decreases t,
{
    match t {
        DbTerm::Var(i, _) => {
            if i == k {
                lemma_scoped_mono(val, 0, k);
            }
        },
        DbTerm::Abs(b) => law_subst_db_closes(*b, k + 1, val),
        DbTerm::App(a, b) => {
            law_subst_db_closes(*a, k, val);
            law_subst_db_closes(*b, k, val);
        },
        DbTerm::Add(a, b) => {
            law_subst_db_closes(*a, k, val);
            law_subst_db_closes(*b, k, val);
        },
        _ => {},
    }
}

/// Shifting at a barrier leaves no index equal to the barrier, so substituting at that
/// barrier afterwards changes nothing.
pub proof fn law_subst_after_shift(t: DbTerm, barrier: nat, val: DbTerm)
    ensures
        subst_db(shift_db(t, barrier), barrier, val) == shift_db(t, barrier),
    decreases t,
{
    match t {
        DbTerm::Abs(b) => law_subst_after_shift(*b, barrier + 1, val),
        DbTerm::App(a, b) => {
            law_subst_after_shift(*a, barrier, val);
            law_subst_after_shift(*b, barrier, val);
        },
        DbTerm::Add(a, b) => {
            law_subst_after_shift(*a, barrier, val);
            law_subst_after_shift(*b, barrier, val);
        },
        _ => {},
    }
}

/// Evaluation on De Bruijn indices of a closed term never reaches an unbound index
/// ("Should not occur"), and a value that it gives is closed too.
pub proof fn law_eval_db_closed(fuel: nat, t: DbTerm)
    requires
        db_scoped(t, 0),
    ensures
        eval_db(fuel, t) != Err::<DbTerm, Seq<char>>(should_not_occur_message()),
        eval_db(fuel, t) matches Ok(v) ==> db_scoped(v, 0),
    decreases fuel,
{
    lemma_messages_differ();
    if fuel > 0 {
        let f1 = (fuel - 1) as nat;
        match t {
            DbTerm::App(a, b) => {
                law_eval_db_closed(f1, *a);
                if let Ok(DbTerm::Abs(body)) = eval_db(f1, *a) {
                    if shift_fits(*b, 0) && subst_fits(*body, 0) {
                        law_shift_scoped(*b, 0, 0);
                        law_subst_db_closes(*body, 0, *b);
                        law_eval_db_closed(f1, subst_db(*body, 0, shift_db(*b, 0)));
                    }
                }
            },
            DbTerm::Add(a, b) => {
                law_eval_db_closed(f1, *a);
                law_eval_db_closed(f1, *b);
            },
            _ => {},
        }
    }
}

/// The De Bruijn form of a named term, converted with no names bound around it, never
/// reaches an unbound index when it is evaluated, and a value that it gives is closed.
pub proof fn law_converted_term_never_dangles(fuel: nat, e: Term)
    ensures
        eval_db(fuel, to_db_term(e, Seq::empty())) != Err::<DbTerm, Seq<char>>(should_not_occur_message()),
        eval_db(fuel, to_db_term(e, Seq::empty())) matches Ok(v) ==> db_scoped(v, 0),
{
    law_to_debruijn_scoped(e, Seq::empty());
    law_eval_db_closed(fuel, to_db_term(e, Seq::empty()));
}

proof fn lemma_messages_differ()
    ensures
        should_not_occur_message() != limit_message(),
        should_not_occur_message() != index_overflow_message(),
        should_not_occur_message() != invalid_application_message(),
        should_not_occur_message() != overflow_message(),
        should_not_occur_message() != expecting_integers_message(),
{
    reveal_strlit("Should not occur");
    reveal_strlit("Evaluation step limit reached");
    reveal_strlit("Index overflow");
    reveal_strlit("Invalid application");
    reveal_strlit("Integer overflow");
    reveal_strlit("Expecting integers");
    assert(should_not_occur_message().len() != limit_message().len());
    assert(should_not_occur_message().len() != index_overflow_message().len());
    assert(should_not_occur_message().len() != invalid_application_message().len());
    assert(should_not_occur_message()[0] != overflow_message()[0]);
    assert(should_not_occur_message().len() != expecting_integers_message().len());
}

/// The sum of two numbers: each evaluator adds two numbers whose sum lies within the
/// range of `i32` and gives that sum, and reports "Integer overflow" exactly when the
/// sum leaves that range.
pub proof fn law_sum_of_numbers(fuel: nat, x: i32, y: i32, n: u64, env: Seq<(Seq<char>, Val)>)
    requires
        fuel >= 2,
    ensures
        i32::MIN <= x + y <= i32::MAX ==> {
            &&& eval_term(fuel, Term::Add(Box::new(Term::Num(x)), Box::new(Term::Num(y))), n).0
                == Ok::<Term, Seq<char>>(Term::Num((x + y) as i32))
            &&& eval_env_term(fuel, Term::Add(Box::new(Term::Num(x)), Box::new(Term::Num(y))), env)
                == Ok::<Val, Seq<char>>(Val::Num((x + y) as i32))
            &&& eval_db(fuel, DbTerm::Add(Box::new(DbTerm::Num(x)), Box::new(DbTerm::Num(y))))
                == Ok::<DbTerm, Seq<char>>(DbTerm::Num((x + y) as i32))
        },
        !(i32::MIN <= x + y <= i32::MAX) ==> {
            &&& eval_term(fuel, Term::Add(Box::new(Term::Num(x)), Box::new(Term::Num(y))), n).0
                == Err::<Term, Seq<char>>(overflow_message())
            &&& eval_env_term(fuel, Term::Add(Box::new(Term::Num(x)), Box::new(Term::Num(y))), env)
                == Err::<Val, Seq<char>>(overflow_message())
            &&& eval_db(fuel, DbTerm::Add(Box::new(DbTerm::Num(x)), Box::new(DbTerm::Num(y))))
                == Err::<DbTerm, Seq<char>>(overflow_message())
        },
{
    let f1 = (fuel - 1) as nat;
    assert(eval_term(f1, Term::Num(x), n) == (Ok::<Term, Seq<char>>(Term::Num(x)), n));
    assert(eval_term(f1, Term::Num(y), n) == (Ok::<Term, Seq<char>>(Term::Num(y)), n));
    assert(eval_env_term(f1, Term::Num(x), env) == Ok::<Val, Seq<char>>(Val::Num(x)));
    assert(eval_env_term(f1, Term::Num(y), env) == Ok::<Val, Seq<char>>(Val::Num(y)));
    assert(eval_db(f1, DbTerm::Num(x)) == Ok::<DbTerm, Seq<char>>(DbTerm::Num(x)));
    assert(eval_db(f1, DbTerm::Num(y)) == Ok::<DbTerm, Seq<char>>(DbTerm::Num(y)));
}

/// A variable evaluates with environments to the value of its most recent binding, and
/// a variable that the environment does not bind evaluates to itself, whatever else the
/// environment binds.
pub proof fn law_eval_env_variable(fuel: nat, x: Seq<char>, env: Seq<(Seq<char>, Val)>, i: int)
    requires
        fuel > 0,
    ensures
        (forall|j: int| 0 <= j < env.len() ==> (#[trigger] env[j]).0 != x) ==> eval_env_term(fuel, Term::Var(x), env)
            == Ok::<Val, Seq<char>>(Val::Var(x)),
        0 <= i < env.len() && env[i].0 == x && (forall|j: int| 0 <= j < i ==> (#[trigger] env[j]).0 != x)
            ==> eval_env_term(fuel, Term::Var(x), env) == Ok::<Val, Seq<char>>(env[i].1),
{
    lemma_lookup_val_positions(env, x, i);
}

proof fn lemma_lookup_val_positions(env: Seq<(Seq<char>, Val)>, x: Seq<char>, i: int)
    ensures
        (forall|j: int| 0 <= j < env.len() ==> (#[trigger] env[j]).0 != x) ==> lookup_val(env, x) is None,
        0 <= i < env.len() && env[i].0 == x && (forall|j: int| 0 <= j < i ==> (#[trigger] env[j]).0 != x)
            ==> lookup_val(env, x) == Some(env[i].1),
    decreases env.len(),
{
    if env.len() > 0 {
        let rest = env.drop_first();
        lemma_lookup_val_positions(rest, x, i - 1);
        if forall|j: int| 0 <= j < env.len() ==> (#[trigger] env[j]).0 != x {
            assert(env[0].0 != x);
            assert forall|j: int| 0 <= j < rest.len() implies (#[trigger] rest[j]).0 != x by {
                assert(rest[j] == env[j + 1]);
            }
        }
        if 0 <= i < env.len() && env[i].0 == x && (forall|j: int| 0 <= j < i ==> (#[trigger] env[j]).0 != x) {
            if i > 0 {
                assert(env[0].0 != x);
                assert(rest[i - 1] == env[i]);
                assert forall|j: int| 0 <= j < i - 1 implies (#[trigger] rest[j]).0 != x by {
                    assert(rest[j] == env[j + 1]);
                }
            }
        }
    }
}

/// The number of abstractions that enclose a subterm, at most.
pub open spec fn db_depth(t: DbTerm) -> nat
    decreases t,
{
    match t {
        DbTerm::Abs(b) => 1 + db_depth(*b),
        DbTerm::App(a, b) => vstd::math::max(db_depth(*a) as int, db_depth(*b) as int) as nat,
        DbTerm::Add(a, b) => vstd::math::max(db_depth(*a) as int, db_depth(*b) as int) as nat,
        _ => 0,
    }
}

/// Every index in `t` is below `m`.
pub open spec fn indices_below(t: DbTerm, m: nat) -> bool
    decreases t,
{
    match t {
        DbTerm::Var(i, _) => i < m,
        DbTerm::Abs(b) => indices_below(*b, m),
        DbTerm::App(a, b) => indices_below(*a, m) && indices_below(*b, m),
        DbTerm::Add(a, b) => indices_below(*a, m) && indices_below(*b, m),
        _ => true,
    }
}

/// Shifting and substituting fail only where an index or a barrier would leave `usize`:
/// when every index is below `usize::MAX` and the barrier plus the nesting depth stays
/// within `usize`, both can be done.
pub proof fn law_shift_and_subst_fit(t: DbTerm, barrier: nat)
    requires
        indices_below(t, usize::MAX as nat),
        barrier + db_depth(t) <= usize::MAX,
    ensures
        shift_fits(t, barrier),
        subst_fits(t, barrier),
    decreases t,
{
    match t {
        DbTerm::Abs(b) => law_shift_and_subst_fit(*b, barrier + 1),
        DbTerm::App(a, b) => {
            law_shift_and_subst_fit(*a, barrier);
            law_shift_and_subst_fit(*b, barrier);
        },
        DbTerm::Add(a, b) => {
            law_shift_and_subst_fit(*a, barrier);
            law_shift_and_subst_fit(*b, barrier);
        },
        _ => {},
    }
}

proof fn lemma_scoped_indices(t: DbTerm, k: nat)
    requires
        db_scoped(t, k),
    ensures
        indices_below(t, k + db_depth(t)),
    decreases t,
{
    match t {
        DbTerm::Abs(b) => lemma_scoped_indices(*b, k + 1),
        DbTerm::App(a, b) => {
            lemma_scoped_indices(*a, k);
            lemma_scoped_indices(*b, k);
            lemma_indices_mono(*a, k + db_depth(*a), k + db_depth(t));
            lemma_indices_mono(*b, k + db_depth(*b), k + db_depth(t));
        },
        DbTerm::Add(a, b) => {
            lemma_scoped_indices(*a, k);
            lemma_scoped_indices(*b, k);
            lemma_indices_mono(*a, k + db_depth(*a), k + db_depth(t));
            lemma_indices_mono(*b, k + db_depth(*b), k + db_depth(t));
        },
        _ => {},
    }
}

proof fn lemma_indices_mono(t: DbTerm, m: nat, m2: nat)
    requires
        indices_below(t, m),
        m <= m2,
    ensures
        indices_below(t, m2),
    decreases t,
{
    match t {
        DbTerm::Abs(b) => lemma_indices_mono(*b, m, m2),
        DbTerm::App(a, b) => {
            lemma_indices_mono(*a, m, m2);
            lemma_indices_mono(*b, m, m2);
        },
        DbTerm::Add(a, b) => {
            lemma_indices_mono(*a, m, m2);
            lemma_indices_mono(*b, m, m2);
        },
        _ => {},
    }
}

proof fn lemma_to_db_depth(e: Term, names: Seq<Seq<char>>)
    ensures
        db_depth(to_db_term(e, names)) == term_depth(e),
    decreases e,
{
    match e {
        Term::Abs(x, b) => lemma_to_db_depth(*b, seq![x] + names),
        Term::App(a, b) => {
            lemma_to_db_depth(*a, names);
            lemma_to_db_depth(*b, names);
        },
        Term::Add(a, b) => {
            lemma_to_db_depth(*a, names);
            lemma_to_db_depth(*b, names);
        },
        Term::Var(x) => {},
        Term::Num(_) => {},
    }
}

/// A term converted to De Bruijn indices, within the bounds that the conversion itself
/// requires, can be shifted at 0 and substituted at 0 without leaving `usize`: an
/// argument of an application in it is never refused for its size.
pub proof fn law_converted_term_fits(e: Term, names: Seq<Seq<char>>)
    requires
        names.len() + term_depth(e) <= usize::MAX,
    ensures
        shift_fits(to_db_term(e, names), 0),
        subst_fits(to_db_term(e, names), 0),
{
    let t = to_db_term(e, names);
    law_to_debruijn_scoped(e, names);
    lemma_to_db_depth(e, names);
    lemma_scoped_indices(t, names.len());
    lemma_indices_mono(t, names.len() + db_depth(t), usize::MAX as nat);
    law_shift_and_subst_fit(t, 0);
}

/// A term without abstractions or applications: numbers, variables and sums.
pub open spec fn first_order(t: Term) -> bool
    decreases t,
{
    match t {
        Term::Var(_) => true,
        Term::Num(_) => true,
        Term::Add(a, b) => first_order(*a) && first_order(*b),
        _ => false,
    }
}

/// The value of the environment semantics that a first-order result stands for.
pub open spec fn first_order_val(r: Result<Term, Seq<char>>) -> Result<Val, Seq<char>> {
    match r {
        Ok(Term::Num(k)) => Ok(Val::Num(k)),
        Ok(Term::Var(x)) => Ok(Val::Var(x)),
        Ok(_) => Err(Seq::empty()),
        Err(s) => Err(s),
    }
}

/// On terms without abstractions, evaluation by substitution and evaluation with an
/// empty environment give the same number, the same free variable, or the same error.
pub proof fn law_first_order_agreement(fuel: nat, e: Term, n: u64)
    requires
        first_order(e),
    ensures
        eval_env_term(fuel, e, Seq::empty()) == first_order_val(eval_term(fuel, e, n).0),
        eval_term(fuel, e, n).1 == n,
    decreases fuel,
{
    if fuel > 0 {
        if let Term::Add(a, b) = e {
            law_first_order_agreement((fuel - 1) as nat, *a, n);
            law_first_order_agreement((fuel - 1) as nat, *b, n);
            law_eval_gives_value((fuel - 1) as nat, *a, n, n);
            law_eval_gives_value((fuel - 1) as nat, *b, n, n);
            lemma_first_order_result((fuel - 1) as nat, *a, n);
            lemma_first_order_result((fuel - 1) as nat, *b, n);
        }
    }
}

proof fn lemma_first_order_result(fuel: nat, e: Term, n: u64)
    requires
        first_order(e),
    ensures
        eval_term(fuel, e, n).0 matches Ok(v) ==> v is Num || v is Var,
    decreases fuel,
{
    if fuel > 0 {
        if let Term::Add(a, b) = e {
            lemma_first_order_result((fuel - 1) as nat, *a, n);
        }
    }
}

} // verus!
