use vstd::prelude::*;
use crate::closures::{eval_env_term, lookup_val, Val};
use crate::debruijn::{DbTerm, eval_db, index_overflow_message, shift_db, shift_fits, subst_db, subst_fits, to_db_term};
use crate::env::first_index;
use crate::laws::{db_scoped, lemma_scoped_mono, law_eval_db_fuel_monotone, law_shift_scoped, law_subst_db_scoped, law_to_debruijn_scoped};
use crate::subst::{limit_message, sum_fits};
use crate::syntax::Term;
use crate::agreement::{all_names, eval_ok, law_substitution_agrees_with_debruijn, results_agree};
use crate::subst::eval_term;

verus! {

/// The names bound by an environment of values, the most recent first.
pub open spec fn env_names(rho: Seq<(Seq<char>, Val)>) -> Seq<Seq<char>> {
    rho.map_values(|p: (Seq<char>, Val)| p.0)
}

/// Replaces each index `i` with `d <= i < d + sigma.len()` by `sigma[i - d]`; the
/// bound `d` grows by one under each abstraction.
pub open spec fn inst(t: DbTerm, sigma: Seq<DbTerm>, d: nat) -> DbTerm
    decreases t,
{
    match t {
        DbTerm::Var(i, _) => if d <= i && i < d + sigma.len() {
            sigma[i - d]
        } else {
            t
        },
        DbTerm::Free(_) => t,
        DbTerm::Num(_) => t,
        DbTerm::Abs(b) => DbTerm::Abs(Box::new(inst(*b, sigma, d + 1))),
        DbTerm::App(a, b) => DbTerm::App(Box::new(inst(*a, sigma, d)), Box::new(inst(*b, sigma, d))),
        DbTerm::Add(a, b) => DbTerm::Add(Box::new(inst(*a, sigma, d)), Box::new(inst(*b, sigma, d))),
    }
}

/// `w` is a De Bruijn value that stands for the value `v`: the same number, the same
/// free variable, or for a closure the abstraction whose body has, in place of each
/// variable of the closure's environment, a closed term that evaluates to its value.
pub open spec fn reads_back(v: Val, w: DbTerm) -> bool
    decreases v, 0nat,
{
    match v {
        Val::Num(k) => w == DbTerm::Num(k),
        Val::Var(x) => w == DbTerm::Free(x),
        Val::Closure(x, body, rho) => exists|sigma: Seq<DbTerm>|
            {
                &&& sigma.len() == rho.len()
                &&& forall|i: int|
                    0 <= i < rho.len() ==> db_scoped(#[trigger] sigma[i], 0) && evaluates_to(sigma[i], rho[i].1)
                &&& w == DbTerm::Abs(Box::new(inst(to_db_term(body, seq![x] + env_names(rho)), sigma, 1)))
            },
    }
}

/// Evaluation of `t` on De Bruijn indices, with enough fuel, gives a value that stands
/// for `v`, or reports an index beyond `usize`.
pub open spec fn evaluates_to(t: DbTerm, v: Val) -> bool
    decreases v, 1nat,
{
    exists|f: nat| {
        ||| eval_db(f, t) == Err::<DbTerm, Seq<char>>(index_overflow_message())
        ||| (eval_db(f, t) matches Ok(w) && reads_back(v, w))
    }
}

/// Environments and closed terms that stand for their values, position by position.
pub open spec fn stands_for(sigma: Seq<DbTerm>, rho: Seq<(Seq<char>, Val)>) -> bool {
    &&& sigma.len() == rho.len()
    &&& forall|i: int| 0 <= i < rho.len() ==> db_scoped(#[trigger] sigma[i], 0) && evaluates_to(sigma[i], rho[i].1)
}

proof fn lemma_inst_closed(t: DbTerm, sigma: Seq<DbTerm>, d: nat)
    requires
        db_scoped(t, d + sigma.len()),
        forall|i: int| 0 <= i < sigma.len() ==> db_scoped(#[trigger] sigma[i], 0),
    ensures
        db_scoped(inst(t, sigma, d), d),
    decreases t,
{
    match t {
        DbTerm::Var(i, _) => {
            if d <= i && i < d + sigma.len() {
                lemma_scoped_mono(sigma[i - d], 0, d);
            }
        },
        DbTerm::Abs(b) => lemma_inst_closed(*b, sigma, d + 1),
        DbTerm::App(a, b) => {
            lemma_inst_closed(*a, sigma, d);
            lemma_inst_closed(*b, sigma, d);
        },
        DbTerm::Add(a, b) => {
            lemma_inst_closed(*a, sigma, d);
            lemma_inst_closed(*b, sigma, d);
        },
        _ => {},
    }
}

proof fn lemma_inst_empty(t: DbTerm, d: nat)
    ensures
        inst(t, Seq::empty(), d) == t,
    decreases t,
{
    match t {
        DbTerm::Abs(b) => lemma_inst_empty(*b, d + 1),
        DbTerm::App(a, b) => {
            lemma_inst_empty(*a, d);
            lemma_inst_empty(*b, d);
        },
        DbTerm::Add(a, b) => {
            lemma_inst_empty(*a, d);
            lemma_inst_empty(*b, d);
        },
        _ => {},
    }
}

/// Substituting `u` at `d` after instantiating from `d + 1` instantiates with `u` in front.
proof fn lemma_subst_inst(t: DbTerm, sigma: Seq<DbTerm>, d: nat, u: DbTerm)
    requires
        forall|i: int| 0 <= i < sigma.len() ==> db_scoped(#[trigger] sigma[i], 0),
    ensures
        subst_db(inst(t, sigma, d + 1), d, u) == inst(t, seq![u] + sigma, d),
    decreases t,
{
    match t {
        DbTerm::Var(i, _) => {
            if d + 1 <= i && i < d + 1 + sigma.len() {
                law_subst_db_scoped(sigma[i - d - 1], 0, d, u);
                assert((seq![u] + sigma)[i - d] == sigma[i - d - 1]);
            }
        },
        DbTerm::Abs(b) => lemma_subst_inst(*b, sigma, d + 1, u),
        DbTerm::App(a, b) => {
            lemma_subst_inst(*a, sigma, d, u);
            lemma_subst_inst(*b, sigma, d, u);
        },
        DbTerm::Add(a, b) => {
            lemma_subst_inst(*a, sigma, d, u);
            lemma_subst_inst(*b, sigma, d, u);
        },
        _ => {},
    }
}

proof fn lemma_lookup_names(rho: Seq<(Seq<char>, Val)>, x: Seq<char>)
    ensures
        match first_index(env_names(rho), x) {
            Some(i) => i < rho.len() && lookup_val(rho, x) == Some(rho[i as int].1),
            None => lookup_val(rho, x) is None,
        },
    decreases rho.len(),
{
    if rho.len() > 0 {
        assert(env_names(rho)[0] == rho[0].0);
        assert(env_names(rho).drop_first() =~= env_names(rho.drop_first()));
        lemma_lookup_names(rho.drop_first(), x);
    }
}

/// The fuel that `evaluates_to(t, v)` promises.
spec fn fuel_for(t: DbTerm, v: Val) -> nat {
    choose|f: nat| {
        ||| eval_db(f, t) == Err::<DbTerm, Seq<char>>(index_overflow_message())
        ||| (eval_db(f, t) matches Ok(w) && reads_back(v, w))
    }
}

proof fn lemma_more_fuel(t: DbTerm, v: Val, f: nat)
    requires
        evaluates_to(t, v),
        fuel_for(t, v) <= f,
    ensures
        eval_db(f, t) == eval_db(fuel_for(t, v), t),
        eval_db(f, t) == Err::<DbTerm, Seq<char>>(index_overflow_message()) || (eval_db(f, t) matches Ok(w) && reads_back(v, w)),
{
    let f0 = fuel_for(t, v);
    reveal_strlit("Index overflow");
    reveal_strlit("Evaluation step limit reached");
    assert(index_overflow_message().len() != limit_message().len());
    law_eval_db_fuel_monotone(f0, f, t);
}

/// Evaluation with an environment of values, against evaluation by name of the term
/// with closed terms that stand for those values put in place of its variables.
proof fn lemma_env_to_db(fuel: nat, e: Term, rho: Seq<(Seq<char>, Val)>, sigma: Seq<DbTerm>)
    requires
        stands_for(sigma, rho),
        eval_env_term(fuel, e, rho) is Ok,
    ensures
        evaluates_to(inst(to_db_term(e, env_names(rho)), sigma, 0), eval_env_term(fuel, e, rho)->Ok_0),
    decreases fuel,
{
    let n = env_names(rho);
    let t = inst(to_db_term(e, n), sigma, 0);
    let v = eval_env_term(fuel, e, rho)->Ok_0;
    let f1 = (fuel - 1) as nat;
    assert(n.len() == rho.len());
    match e {
        Term::Var(x) => {
            lemma_lookup_names(rho, x);
            if let Some(i) = first_index(n, x) {
                assert(t == sigma[i as int]);
            } else {
                assert(eval_db(1, t) == Ok::<DbTerm, Seq<char>>(t));
            }
        },
        Term::Num(k) => {
            assert(eval_db(1, t) == Ok::<DbTerm, Seq<char>>(t));
        },
        Term::Abs(x, body) => {
            assert(eval_db(1, t) == Ok::<DbTerm, Seq<char>>(t));
            assert(reads_back(v, t));
        },
        Term::Add(a, b) => {
            let ta = inst(to_db_term(*a, n), sigma, 0);
            let tb = inst(to_db_term(*b, n), sigma, 0);
            let va = eval_env_term(f1, *a, rho)->Ok_0;
            let vb = eval_env_term(f1, *b, rho)->Ok_0;
            lemma_env_to_db(f1, *a, rho, sigma);
            lemma_env_to_db(f1, *b, rho, sigma);
            let big = fuel_for(ta, va) + fuel_for(tb, vb) + 1;
            lemma_more_fuel(ta, va, (big - 1) as nat);
            lemma_more_fuel(tb, vb, (big - 1) as nat);
            assert(eval_db(big, t) == Err::<DbTerm, Seq<char>>(index_overflow_message()) || (eval_db(big, t) matches Ok(w) && reads_back(v, w)));
        },
        Term::App(a, b) => {
            let ta = inst(to_db_term(*a, n), sigma, 0);
            let tb = inst(to_db_term(*b, n), sigma, 0);
            let va = eval_env_term(f1, *a, rho)->Ok_0;
            let vb = eval_env_term(f1, *b, rho)->Ok_0;
            lemma_env_to_db(f1, *a, rho, sigma);
            lemma_env_to_db(f1, *b, rho, sigma);
            law_to_debruijn_scoped(*b, n);
            lemma_inst_closed(to_db_term(*b, n), sigma, 0);
            let fa = fuel_for(ta, va);
            if eval_db(fa, ta) == Err::<DbTerm, Seq<char>>(index_overflow_message()) {
                assert(eval_db(fa + 1, t) == Err::<DbTerm, Seq<char>>(index_overflow_message()));
            } else {
                let w1 = eval_db(fa, ta)->Ok_0;
                let (p, body, rho2) = match va {
                    Val::Closure(p, body, rho2) => (p, body, rho2),
                    _ => (Seq::empty(), e, rho),
                };
                let sigma2 = choose|sigma2: Seq<DbTerm>| {
                    &&& sigma2.len() == rho2.len()
                    &&& forall|i: int|
                        0 <= i < rho2.len() ==> db_scoped(#[trigger] sigma2[i], 0) && evaluates_to(sigma2[i], rho2[i].1)
                    &&& w1 == DbTerm::Abs(Box::new(inst(to_db_term(body, seq![p] + env_names(rho2)), sigma2, 1)))
                };
                let bd = inst(to_db_term(body, seq![p] + env_names(rho2)), sigma2, 1);
                if !(shift_fits(tb, 0) && subst_fits(bd, 0)) {
                    assert(eval_db(fa + 1, t) == Err::<DbTerm, Seq<char>>(index_overflow_message()));
                } else {
                    law_shift_scoped(tb, 0, 0);
                    lemma_subst_inst(to_db_term(body, seq![p] + env_names(rho2)), sigma2, 0, tb);
                    let rho3 = seq![(p, vb)] + rho2;
                    let sigma3 = seq![tb] + sigma2;
                    assert(env_names(rho3) =~= seq![p] + env_names(rho2));
                    assert(stands_for(sigma3, rho3)) by {
                        assert forall|i: int| 0 <= i < rho3.len() implies db_scoped(#[trigger] sigma3[i], 0) && evaluates_to(sigma3[i], rho3[i].1) by {
                            if i > 0 {
                                assert(sigma3[i] == sigma2[i - 1]);
                                assert(rho3[i] == rho2[i - 1]);
                            }
                        }
                    }
                    lemma_env_to_db(f1, body, rho3, sigma3);
                    let t3 = inst(to_db_term(body, env_names(rho3)), sigma3, 0);
                    let big = fa + fuel_for(t3, v) + 1;
                    lemma_more_fuel(ta, va, (big - 1) as nat);
                    lemma_more_fuel(t3, v, (big - 1) as nat);
                    assert(eval_db(big, t) == eval_db((big - 1) as nat, t3));
                }
            }
        },
    }
}

/// Whenever evaluation with environments (call by value) gives a value, evaluation by
/// name on De Bruijn indices, with enough fuel, gives a value that stands for it: the
/// same number, the same free variable, or an abstraction whose body has, for each
/// variable of the closure's environment, a closed term that evaluates to its value;
/// or it reports an index beyond `usize`.
pub proof fn law_environment_agrees_with_debruijn(fuel: nat, e: Term)
    requires
        eval_env_term(fuel, e, Seq::empty()) is Ok,
    ensures
        evaluates_to(to_db_term(e, Seq::empty()), eval_env_term(fuel, e, Seq::empty())->Ok_0),
{
    let rho = Seq::<(Seq<char>, Val)>::empty();
    assert(env_names(rho) =~= Seq::<Seq<char>>::empty());
    lemma_inst_empty(to_db_term(e, Seq::empty()), 0);
    lemma_env_to_db(fuel, e, rho, Seq::empty());
}

/// The three evaluators agree: whenever evaluation with environments gives a value for
/// a term whose names have no `#`, there is a fuel with which evaluation on De Bruijn
/// indices gives a value that stands for it (or reports an index beyond `usize`), and
/// evaluation by substitution with that fuel gives the same result up to the display
/// names of bound variables, unless its name counter would wrap around.
pub proof fn law_three_evaluators_agree(fuel: nat, e: Term)
    requires
        eval_env_term(fuel, e, Seq::empty()) is Ok,
        forall|w: Seq<char>| #[trigger] all_names(e).contains(w) ==> !w.contains('#'),
    ensures
        exists|f: nat|
            #![trigger eval_db(f, to_db_term(e, Seq::empty()))]
            {
                ||| eval_db(f, to_db_term(e, Seq::empty())) == Err::<DbTerm, Seq<char>>(index_overflow_message())
                ||| {
                    &&& eval_db(f, to_db_term(e, Seq::empty())) matches Ok(w) && reads_back(
                        eval_env_term(fuel, e, Seq::empty())->Ok_0,
                        w,
                    )
                    &&& eval_ok(f, e, 0) ==> results_agree(
                        eval_term(f, e, 0).0,
                        eval_db(f, to_db_term(e, Seq::empty())),
                    )
                }
            },
{
    let t = to_db_term(e, Seq::empty());
    let v = eval_env_term(fuel, e, Seq::empty())->Ok_0;
    law_environment_agrees_with_debruijn(fuel, e);
    let f = fuel_for(t, v);
    if eval_ok(f, e, 0) {
        law_substitution_agrees_with_debruijn(f, e);
    }
    assert(eval_db(f, t) == Err::<DbTerm, Seq<char>>(index_overflow_message()) || {
        &&& eval_db(f, t) matches Ok(w) && reads_back(v, w)
        &&& eval_ok(f, e, 0) ==> results_agree(eval_term(f, e, 0).0, eval_db(f, t))
    });
}

} // verus!
