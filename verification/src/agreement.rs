use vstd::prelude::*;
use crate::names::{decimal, digit_char, fresh_spec, next_counter};
use crate::subst::{eval_term, lemma_rename_size, subst_term};
use crate::syntax::{Term, free_vars, term_size};
use crate::debruijn::{DbTerm, eval_db, index_overflow_message, shift_db, subst_db, to_db_term, shift_fits, subst_fits};
use crate::laws::{db_scoped, law_shift_scoped, law_to_debruijn_scoped};
use crate::env::first_index;
use crate::laws::law_subst_free_vars;

verus! {

/// Whether `w` cannot be a name that the counter makes from `n` on.
pub open spec fn stale(w: Seq<char>, n: u64) -> bool {
    forall|b: Seq<char>, m: u64| n <= m ==> w != #[trigger] fresh_spec(b, m)
}

proof fn lemma_digit_char_injective(a: nat, b: nat)
    requires
        a < 10,
        b < 10,
        digit_char(a) == digit_char(b),
    ensures
        a == b,
{
}

proof fn lemma_decimal_digits(n: nat)
    ensures
        decimal(n).len() >= 1,
        forall|i: int| 0 <= i < decimal(n).len() ==> decimal(n)[i] != '#',
    decreases n,
{
    if n >= 10 {
        lemma_decimal_digits(n / 10);
        assert forall|i: int| 0 <= i < decimal(n).len() implies decimal(n)[i] != '#' by {
            if i < decimal(n / 10).len() {
                assert(decimal(n)[i] == decimal(n / 10)[i]);
            }
        }
    }
}

proof fn lemma_decimal_injective(n: nat, m: nat)
    requires
        decimal(n) == decimal(m),
    ensures
        n == m,
    decreases n,
{
    lemma_decimal_digits(n);
    lemma_decimal_digits(m);
    if n < 10 && m < 10 {
        assert(decimal(n)[0] == digit_char(n));
        assert(decimal(m)[0] == digit_char(m));
        lemma_digit_char_injective(n, m);
    } else if n < 10 {
        lemma_decimal_digits(m / 10);
    } else if m < 10 {
        lemma_decimal_digits(n / 10);
    } else {
        let dn = decimal(n / 10);
        let dm = decimal(m / 10);
        assert(decimal(n).last() == digit_char(n % 10));
        assert(decimal(m).last() == digit_char(m % 10));
        lemma_digit_char_injective(n % 10, m % 10);
        assert(decimal(n).drop_last() =~= dn);
        assert(decimal(m).drop_last() =~= dm);
        lemma_decimal_injective(n / 10, m / 10);
        assert(n == 10 * (n / 10) + n % 10);
        assert(m == 10 * (m / 10) + m % 10);
    }
}

/// Two names that the counter made from different counter values are different.
pub proof fn lemma_fresh_injective(a: Seq<char>, n: u64, b: Seq<char>, m: u64)
    requires
        fresh_spec(a, n) == fresh_spec(b, m),
    ensures
        n == m,
{
    let s = fresh_spec(a, n);
    let dn = decimal(n as nat);
    let dm = decimal(m as nat);
    lemma_decimal_digits(n as nat);
    lemma_decimal_digits(m as nat);
    if dn.len() < dm.len() {
        let p = s.len() - dn.len() - 1;
        assert(s[p] == '#');
        assert(s[p] == dm[p - (b.len() + 1)]);
    } else if dm.len() < dn.len() {
        let p = s.len() - dm.len() - 1;
        assert(s[p] == '#');
        assert(s[p] == dn[p - (a.len() + 1)]);
    } else {
        assert(dn =~= s.subrange(s.len() - dn.len(), s.len() as int));
        assert(dm =~= s.subrange(s.len() - dm.len(), s.len() as int));
        lemma_decimal_injective(n as nat, m as nat);
    }
}

/// A name that the counter makes at `n` cannot be made again from `n + 1` on.
pub proof fn lemma_fresh_stale(x: Seq<char>, n: u64)
    requires
        n < u64::MAX,
    ensures
        stale(fresh_spec(x, n), next_counter(n)),
{
    assert forall|b: Seq<char>, m: u64| next_counter(n) <= m implies fresh_spec(x, n) != #[trigger] fresh_spec(b, m) by {
        if fresh_spec(x, n) == fresh_spec(b, m) {
            lemma_fresh_injective(x, n, b, m);
        }
    }
}

/// A name without `#` is never one that the counter makes.
pub proof fn lemma_plain_name_stale(w: Seq<char>, n: u64)
    requires
        !w.contains('#'),
    ensures
        stale(w, n),
{
    assert forall|b: Seq<char>, m: u64| n <= m implies w != #[trigger] fresh_spec(b, m) by {
        if w == fresh_spec(b, m) {
            assert(w[b.len() as int] == '#');
        }
    }
}

/// Every name of a term, free or bound.
pub open spec fn all_names(t: Term) -> Set<Seq<char>>
    decreases t,
{
    match t {
        Term::Var(x) => set![x],
        Term::Num(_) => Set::empty(),
        Term::Add(a, b) => all_names(*a) + all_names(*b),
        Term::Abs(x, b) => all_names(*b).insert(x),
        Term::App(a, b) => all_names(*a) + all_names(*b),
    }
}

/// No name of `t` is one that the counter can make from `n` on.
pub open spec fn names_stale(t: Term, n: u64) -> bool {
    forall|w: Seq<char>| #[trigger] all_names(t).contains(w) ==> stale(w, n)
}

/// The counter does not wrap around while `subst_term(t, var, val, n)` makes names.
pub open spec fn subst_ok(t: Term, var: Seq<char>, val: Term, n: u64) -> bool
    decreases term_size(t),
{
    match t {
        Term::Var(_) => true,
        Term::Num(_) => true,
        Term::Add(a, b) => subst_ok(*a, var, val, n) && subst_ok(*b, var, val, subst_term(*a, var, val, n).1),
        Term::App(a, b) => subst_ok(*a, var, val, n) && subst_ok(*b, var, val, subst_term(*a, var, val, n).1),
        Term::Abs(x, b) => x == var || {
            let y = fresh_spec(x, n);
            let (b1, n1) = subst_term(*b, x, Term::Var(y), next_counter(n));
            &&& n < u64::MAX
            &&& subst_ok(*b, x, Term::Var(y), next_counter(n))
            &&& (term_size(b1) < term_size(t) ==> subst_ok(b1, var, val, n1))
        },
    }
}

/// The counter does not wrap around while `eval_term(fuel, e, n)` makes names.
pub open spec fn eval_ok(fuel: nat, e: Term, n: u64) -> bool
    decreases fuel,
{
    if fuel == 0 {
        true
    } else {
        match e {
            Term::App(a, b) => {
                let (r1, n1) = eval_term((fuel - 1) as nat, *a, n);
                &&& eval_ok((fuel - 1) as nat, *a, n)
                &&& (r1 matches Ok(Term::Abs(p, body)) ==> {
                    let (body2, n2) = subst_term(*body, p, *b, n1);
                    subst_ok(*body, p, *b, n1) && eval_ok((fuel - 1) as nat, body2, n2)
                })
            },
            Term::Add(a, b) => {
                let (r1, n1) = eval_term((fuel - 1) as nat, *a, n);
                eval_ok((fuel - 1) as nat, *a, n) && eval_ok((fuel - 1) as nat, *b, n1)
            },
            _ => true,
        }
    }
}

proof fn lemma_stale_mono(w: Seq<char>, n: u64, m: u64)
    requires
        stale(w, n),
        n <= m,
    ensures
        stale(w, m),
{
}

proof fn lemma_names_stale_sub(t: Term, s: Term, n: u64)
    requires
        names_stale(t, n),
        all_names(s).subset_of(all_names(t)),
    ensures
        names_stale(s, n),
{
    assert forall|w: Seq<char>| #[trigger] all_names(s).contains(w) implies stale(w, n) by {
        assert(all_names(t).contains(w));
    }
}

/// The names of a compound term are those of its parts (and its parameter).
proof fn lemma_names_stale_parts(t: Term, n: u64)
    ensures
        names_stale(t, n) <==> match t {
            Term::Add(a, b) => names_stale(*a, n) && names_stale(*b, n),
            Term::App(a, b) => names_stale(*a, n) && names_stale(*b, n),
            Term::Abs(x, b) => names_stale(*b, n) && stale(x, n),
            Term::Var(x) => stale(x, n),
            Term::Num(_) => true,
        },
{
    match t {
        Term::Add(a, b) => {
            if names_stale(t, n) {
                lemma_names_stale_sub(t, *a, n);
                lemma_names_stale_sub(t, *b, n);
            }
            if names_stale(*a, n) && names_stale(*b, n) {
                assert forall|w: Seq<char>| #[trigger] all_names(t).contains(w) implies stale(w, n) by {
                    if all_names(*a).contains(w) {
                    } else {
                        assert(all_names(*b).contains(w));
                    }
                }
            }
        },
        Term::App(a, b) => {
            if names_stale(t, n) {
                lemma_names_stale_sub(t, *a, n);
                lemma_names_stale_sub(t, *b, n);
            }
            if names_stale(*a, n) && names_stale(*b, n) {
                assert forall|w: Seq<char>| #[trigger] all_names(t).contains(w) implies stale(w, n) by {
                    if all_names(*a).contains(w) {
                    } else {
                        assert(all_names(*b).contains(w));
                    }
                }
            }
        },
        Term::Abs(x, b) => {
            if names_stale(t, n) {
                lemma_names_stale_sub(t, *b, n);
                assert(all_names(t).contains(x));
            }
            if names_stale(*b, n) && stale(x, n) {
                assert forall|w: Seq<char>| #[trigger] all_names(t).contains(w) implies stale(w, n) by {
                    if w != x {
                        assert(all_names(*b).contains(w));
                    }
                }
            }
        },
        Term::Var(x) => {
            if names_stale(t, n) {
                assert(all_names(t).contains(x));
            }
            if stale(x, n) {
                assert forall|w: Seq<char>| #[trigger] all_names(t).contains(w) implies stale(w, n) by {
                    assert(w == x);
                }
            }
        },
        Term::Num(_) => {},
    }
}

proof fn lemma_names_stale_mono(t: Term, n: u64, m: u64)
    requires
        names_stale(t, n),
        n <= m,
    ensures
        names_stale(t, m),
{
}

/// Substitution keeps every name stale and moves the counter forward.
pub proof fn lemma_subst_stale(t: Term, var: Seq<char>, val: Term, n: u64)
    requires
        names_stale(t, n),
        names_stale(val, n),
        subst_ok(t, var, val, n),
    ensures
        n <= subst_term(t, var, val, n).1,
        names_stale(subst_term(t, var, val, n).0, subst_term(t, var, val, n).1),
    decreases term_size(t),
{
    lemma_names_stale_parts(t, n);
    match t {
        Term::Var(x) => {
            if x == var {
                assert(subst_term(t, var, val, n) == (val, n));
                assert(names_stale(val, n));
            } else {
                assert(subst_term(t, var, val, n) == (t, n));
                assert(names_stale(t, n));
            }
        },
        Term::Num(_) => {},
        Term::Add(a, b) => {
            let (a2, n1) = subst_term(*a, var, val, n);
            lemma_subst_stale(*a, var, val, n);
            lemma_names_stale_mono(*b, n, n1);
            lemma_names_stale_mono(val, n, n1);
            lemma_subst_stale(*b, var, val, n1);
            let (b2, n2) = subst_term(*b, var, val, n1);
            lemma_names_stale_mono(a2, n1, n2);
            lemma_names_stale_parts(Term::Add(Box::new(a2), Box::new(b2)), n2);
        },
        Term::App(a, b) => {
            let (a2, n1) = subst_term(*a, var, val, n);
            lemma_subst_stale(*a, var, val, n);
            lemma_names_stale_mono(*b, n, n1);
            lemma_names_stale_mono(val, n, n1);
            lemma_subst_stale(*b, var, val, n1);
            let (b2, n2) = subst_term(*b, var, val, n1);
            lemma_names_stale_mono(a2, n1, n2);
            lemma_names_stale_parts(Term::App(Box::new(a2), Box::new(b2)), n2);
        },
        Term::Abs(x, b) => {
            if x != var {
                let y = fresh_spec(x, n);
                let n0 = next_counter(n);
                lemma_fresh_stale(x, n);
                lemma_names_stale_mono(*b, n, n0);
                lemma_names_stale_parts(Term::Var(y), n0);
                lemma_subst_stale(*b, x, Term::Var(y), n0);
                let (b1, n1) = subst_term(*b, x, Term::Var(y), n0);
                lemma_rename_size(*b, x, y, n0);
                lemma_names_stale_mono(val, n, n1);
                lemma_subst_stale(b1, var, val, n1);
                let (b2, n2) = subst_term(b1, var, val, n1);
                lemma_stale_mono(y, n0, n2);
                lemma_names_stale_parts(Term::Abs(y, Box::new(b2)), n2);
            }
        },
    }
}

/// Evaluation keeps every name stale and moves the counter forward.
pub proof fn lemma_eval_stale(fuel: nat, e: Term, n: u64)
    requires
        names_stale(e, n),
        eval_ok(fuel, e, n),
    ensures
        n <= eval_term(fuel, e, n).1,
        eval_term(fuel, e, n).0 matches Ok(v) ==> names_stale(v, eval_term(fuel, e, n).1),
    decreases fuel,
{
    lemma_names_stale_parts(e, n);
    if fuel > 0 {
        let f1 = (fuel - 1) as nat;
        match e {
            Term::App(a, b) => {
                lemma_eval_stale(f1, *a, n);
                let (r1, n1) = eval_term(f1, *a, n);
                if let Ok(Term::Abs(p, body)) = r1 {
                    lemma_names_stale_parts(Term::Abs(p, body), n1);
                    lemma_names_stale_mono(*b, n, n1);
                    lemma_subst_stale(*body, p, *b, n1);
                    let (body2, n2) = subst_term(*body, p, *b, n1);
                    lemma_eval_stale(f1, body2, n2);
                }
            },
            Term::Add(a, b) => {
                lemma_eval_stale(f1, *a, n);
                let (r1, n1) = eval_term(f1, *a, n);
                lemma_names_stale_mono(*b, n, n1);
                lemma_eval_stale(f1, *b, n1);
            },
            _ => {},
        }
    }
}

/// A term with De Bruijn indices with the display names of bound variables forgotten.
pub open spec fn erase(t: DbTerm) -> DbTerm
    decreases t,
{
    match t {
        DbTerm::Var(i, _) => DbTerm::Var(i, Seq::empty()),
        DbTerm::Free(x) => DbTerm::Free(x),
        DbTerm::Num(n) => DbTerm::Num(n),
        DbTerm::Add(a, b) => DbTerm::Add(Box::new(erase(*a)), Box::new(erase(*b))),
        DbTerm::Abs(b) => DbTerm::Abs(Box::new(erase(*b))),
        DbTerm::App(a, b) => DbTerm::App(Box::new(erase(*a)), Box::new(erase(*b))),
    }
}

proof fn lemma_first_index_cons(x: Seq<char>, c: Seq<Seq<char>>, z: Seq<char>)
    ensures
        first_index(seq![x] + c, z) == if x == z {
            Some(0nat)
        } else {
            match first_index(c, z) {
                Some(i) => Some(i + 1),
                None => None,
            }
        },
{
    assert((seq![x] + c).drop_first() =~= c);
    assert((seq![x] + c)[0] == x);
}

proof fn lemma_first_index_found(c: Seq<Seq<char>>, z: Seq<char>)
    ensures
        first_index(c, z) matches Some(i) ==> i < c.len() && c[i as int] == z,
    decreases c.len(),
{
    if c.len() > 0 && c[0] != z {
        lemma_first_index_found(c.drop_first(), z);
    }
}

proof fn lemma_free_in_names(t: Term)
    ensures
        free_vars(t).subset_of(all_names(t)),
    decreases t,
{
    match t {
        Term::Add(a, b) => {
            lemma_free_in_names(*a);
            lemma_free_in_names(*b);
        },
        Term::App(a, b) => {
            lemma_free_in_names(*a);
            lemma_free_in_names(*b);
        },
        Term::Abs(x, b) => {
            lemma_free_in_names(*b);
        },
        _ => {},
    }
}

/// The conversion to De Bruijn indices only looks at where the free variables are bound.
proof fn lemma_context_agree(t: Term, c1: Seq<Seq<char>>, c2: Seq<Seq<char>>)
    requires
        forall|z: Seq<char>| #[trigger] free_vars(t).contains(z) ==> first_index(c1, z) == first_index(c2, z),
    ensures
        to_db_term(t, c1) == to_db_term(t, c2),
    decreases t,
{
    match t {
        Term::Var(x) => {
            assert(free_vars(t).contains(x));
        },
        Term::Num(_) => {},
        Term::Add(a, b) => {
            assert forall|z: Seq<char>| #[trigger] free_vars(*a).contains(z) implies first_index(c1, z) == first_index(c2, z) by {
                assert(free_vars(t).contains(z));
            }
            assert forall|z: Seq<char>| #[trigger] free_vars(*b).contains(z) implies first_index(c1, z) == first_index(c2, z) by {
                assert(free_vars(t).contains(z));
            }
            lemma_context_agree(*a, c1, c2);
            lemma_context_agree(*b, c1, c2);
        },
        Term::App(a, b) => {
            assert forall|z: Seq<char>| #[trigger] free_vars(*a).contains(z) implies first_index(c1, z) == first_index(c2, z) by {
                assert(free_vars(t).contains(z));
            }
            assert forall|z: Seq<char>| #[trigger] free_vars(*b).contains(z) implies first_index(c1, z) == first_index(c2, z) by {
                assert(free_vars(t).contains(z));
            }
            lemma_context_agree(*a, c1, c2);
            lemma_context_agree(*b, c1, c2);
        },
        Term::Abs(x, b) => {
            assert forall|z: Seq<char>| #[trigger] free_vars(*b).contains(z) implies first_index(seq![x] + c1, z) == first_index(seq![x] + c2, z) by {
                lemma_first_index_cons(x, c1, z);
                lemma_first_index_cons(x, c2, z);
                if z != x {
                    assert(free_vars(t).contains(z));
                }
            }
            lemma_context_agree(*b, seq![x] + c1, seq![x] + c2);
        },
    }
}

/// Substituting at a position that is shadowed in the context changes nothing.
proof fn lemma_subst_unused(t: Term, d: Seq<Seq<char>>, k: nat, v: DbTerm)
    requires
        k < d.len(),
        first_index(d, d[k as int]) != Some(k),
    ensures
        subst_db(to_db_term(t, d), k, v) == to_db_term(t, d),
    decreases t,
{
    match t {
        Term::Var(z) => {
            lemma_first_index_found(d, z);
        },
        Term::Num(_) => {},
        Term::Add(a, b) => {
            lemma_subst_unused(*a, d, k, v);
            lemma_subst_unused(*b, d, k, v);
        },
        Term::App(a, b) => {
            lemma_subst_unused(*a, d, k, v);
            lemma_subst_unused(*b, d, k, v);
        },
        Term::Abs(x, b) => {
            let d2 = seq![x] + d;
            assert(d2[k + 1int] == d[k as int]);
            lemma_first_index_cons(x, d, d[k as int]);
            lemma_subst_unused(*b, d2, k + 1, v);
        },
    }
}

/// Forgetting names commutes with substitution on De Bruijn terms.
proof fn lemma_erase_subst(t: DbTerm, k: nat, v: DbTerm)
    ensures
        erase(subst_db(t, k, v)) == subst_db(erase(t), k, erase(v)),
    decreases t,
{
    match t {
        DbTerm::Add(a, b) => {
            lemma_erase_subst(*a, k, v);
            lemma_erase_subst(*b, k, v);
        },
        DbTerm::App(a, b) => {
            lemma_erase_subst(*a, k, v);
            lemma_erase_subst(*b, k, v);
        },
        DbTerm::Abs(b) => {
            lemma_erase_subst(*b, k + 1, v);
        },
        _ => {},
    }
}

proof fn lemma_erase_idem(t: DbTerm)
    ensures
        erase(erase(t)) == erase(t),
    decreases t,
{
    match t {
        DbTerm::Add(a, b) => {
            lemma_erase_idem(*a);
            lemma_erase_idem(*b);
        },
        DbTerm::App(a, b) => {
            lemma_erase_idem(*a);
            lemma_erase_idem(*b);
        },
        DbTerm::Abs(b) => {
            lemma_erase_idem(*b);
        },
        _ => {},
    }
}

/// The free variables of a part are free in the whole unless the whole binds them.
proof fn lemma_free_parts(t: Term)
    ensures
        match t {
            Term::Add(a, b) => (forall|z: Seq<char>| #[trigger] free_vars(*a).contains(z) ==> free_vars(t).contains(z))
                && (forall|z: Seq<char>| #[trigger] free_vars(*b).contains(z) ==> free_vars(t).contains(z)),
            Term::App(a, b) => (forall|z: Seq<char>| #[trigger] free_vars(*a).contains(z) ==> free_vars(t).contains(z))
                && (forall|z: Seq<char>| #[trigger] free_vars(*b).contains(z) ==> free_vars(t).contains(z)),
            Term::Abs(x, b) => forall|z: Seq<char>| #[trigger] free_vars(*b).contains(z) && z != x ==> free_vars(t).contains(z),
            _ => true,
        },
{
}

/// Renaming `x` to `y` where both are bound at the same position gives the same
/// De Bruijn term up to display names, when every name made on the way is fresh.
proof fn lemma_rename_commutes(
    t: Term,
    x: Seq<char>,
    y: Seq<char>,
    n: u64,
    c1: Seq<Seq<char>>,
    c2: Seq<Seq<char>>,
    j: nat,
)
    requires
        first_index(c1, x) == Some(j),
        first_index(c2, y) == Some(j),
        forall|z: Seq<char>| #[trigger] free_vars(t).contains(z) && z != x ==> first_index(c1, z) == first_index(c2, z),
        names_stale(t, n),
        stale(x, n),
        stale(y, n),
        subst_ok(t, x, Term::Var(y), n),
    ensures
        erase(to_db_term(subst_term(t, x, Term::Var(y), n).0, c2)) == erase(to_db_term(t, c1)),
    decreases term_size(t),
{
    lemma_names_stale_parts(t, n);
    lemma_names_stale_parts(Term::Var(y), n);
    lemma_free_parts(t);
    match t {
        Term::Var(z) => {
            assert(free_vars(t).contains(z));
        },
        Term::Num(_) => {},
        Term::Add(a, b) => {
            lemma_rename_commutes(*a, x, y, n, c1, c2, j);
            lemma_subst_stale(*a, x, Term::Var(y), n);
            let (a2, n1) = subst_term(*a, x, Term::Var(y), n);
            lemma_names_stale_mono(*b, n, n1);
            lemma_rename_commutes(*b, x, y, n1, c1, c2, j);
        },
        Term::App(a, b) => {
            lemma_rename_commutes(*a, x, y, n, c1, c2, j);
            lemma_subst_stale(*a, x, Term::Var(y), n);
            let (a2, n1) = subst_term(*a, x, Term::Var(y), n);
            lemma_names_stale_mono(*b, n, n1);
            lemma_rename_commutes(*b, x, y, n1, c1, c2, j);
        },
        Term::Abs(x2, b) => {
            if x2 == x {
                lemma_context_agree(t, c1, c2);
            } else {
                let w = fresh_spec(x2, n);
                let n0 = next_counter(n);
                lemma_fresh_stale(x2, n);
                lemma_names_stale_mono(*b, n, n0);
                lemma_free_in_names(*b);
                // the body, renamed from x2 to w
                assert forall|z: Seq<char>| #[trigger] free_vars(*b).contains(z) && z != x2 implies first_index(seq![x2] + c1, z) == first_index(seq![w] + c1, z) by {
                    lemma_first_index_cons(x2, c1, z);
                    lemma_first_index_cons(w, c1, z);
                    assert(all_names(*b).contains(z));
                }
                lemma_first_index_cons(x2, c1, x2);
                lemma_first_index_cons(w, c1, w);
                lemma_rename_commutes(*b, x2, w, n0, seq![x2] + c1, seq![w] + c1, 0);
                let (b1, n1) = subst_term(*b, x2, Term::Var(w), n0);
                lemma_rename_size(*b, x2, w, n0);
                lemma_names_stale_parts(Term::Var(w), n0);
                lemma_subst_stale(*b, x2, Term::Var(w), n0);
                law_subst_free_vars(*b, x2, Term::Var(w), n0);
                // then from x to y
                lemma_first_index_cons(w, c1, x);
                lemma_first_index_cons(w, c2, y);
                assert forall|z: Seq<char>| #[trigger] free_vars(b1).contains(z) && z != x implies first_index(seq![w] + c1, z) == first_index(seq![w] + c2, z) by {
                    lemma_first_index_cons(w, c1, z);
                    lemma_first_index_cons(w, c2, z);
                    if z != w {
                        assert(free_vars(*b).remove(x2).contains(z) || free_vars(Term::Var(w)).contains(z));
                    }
                }
                lemma_stale_mono(y, n, n1);
                lemma_stale_mono(x, n, n1);
                lemma_rename_commutes(b1, x, y, n1, seq![w] + c1, seq![w] + c2, j + 1);
            }
        },
    }
}

/// Named substitution followed by the conversion to indices is the conversion followed by
/// substitution on indices, up to display names, when every name made on the way is
/// fresh and the substituted term is not captured.
proof fn lemma_subst_commutes(
    t: Term,
    var: Seq<char>,
    val: Term,
    n: u64,
    c1: Seq<Seq<char>>,
    c2: Seq<Seq<char>>,
    k: nat,
)
    requires
        first_index(c1, var) == Some(k),
        forall|z: Seq<char>| #[trigger] free_vars(t).contains(z) && z != var ==> first_index(c1, z) == first_index(c2, z),
        forall|z: Seq<char>| #[trigger] free_vars(val).contains(z) ==> first_index(c2, z) is None,
        names_stale(t, n),
        names_stale(val, n),
        stale(var, n),
        subst_ok(t, var, val, n),
    ensures
        erase(to_db_term(subst_term(t, var, val, n).0, c2)) == subst_db(
            erase(to_db_term(t, c1)),
            k,
            erase(to_db_term(val, Seq::empty())),
        ),
    decreases term_size(t),
{
    let v = erase(to_db_term(val, Seq::empty()));
    lemma_names_stale_parts(t, n);
    lemma_free_parts(t);
    lemma_first_index_found(c1, var);
    match t {
        Term::Var(z) => {
            assert(free_vars(t).contains(z));
            if z == var {
                assert forall|u: Seq<char>| #[trigger] free_vars(val).contains(u) implies first_index(c2, u) == first_index(Seq::<Seq<char>>::empty(), u) by {}
                lemma_context_agree(val, c2, Seq::empty());
            } else {
                lemma_first_index_found(c1, z);
            }
        },
        Term::Num(_) => {},
        Term::Add(a, b) => {
            lemma_subst_commutes(*a, var, val, n, c1, c2, k);
            lemma_subst_stale(*a, var, val, n);
            let (a2, n1) = subst_term(*a, var, val, n);
            lemma_names_stale_mono(*b, n, n1);
            lemma_names_stale_mono(val, n, n1);
            lemma_stale_mono(var, n, n1);
            lemma_subst_commutes(*b, var, val, n1, c1, c2, k);
        },
        Term::App(a, b) => {
            lemma_subst_commutes(*a, var, val, n, c1, c2, k);
            lemma_subst_stale(*a, var, val, n);
            let (a2, n1) = subst_term(*a, var, val, n);
            lemma_names_stale_mono(*b, n, n1);
            lemma_names_stale_mono(val, n, n1);
            lemma_stale_mono(var, n, n1);
            lemma_subst_commutes(*b, var, val, n1, c1, c2, k);
        },
        Term::Abs(x, b) => {
            if x == var {
                lemma_context_agree(t, c1, c2);
                let d = seq![var] + c1;
                assert(d[k + 1int] == c1[k as int]);
                lemma_first_index_cons(var, c1, var);
                lemma_subst_unused(*b, d, k + 1, v);
                lemma_erase_idem(to_db_term(val, Seq::empty()));
                lemma_erase_subst(to_db_term(*b, d), k + 1, v);
            } else {
                let y = fresh_spec(x, n);
                let n0 = next_counter(n);
                lemma_fresh_stale(x, n);
                lemma_names_stale_mono(*b, n, n0);
                lemma_free_in_names(*b);
                lemma_free_in_names(val);
                // rename the parameter to y
                assert forall|z: Seq<char>| #[trigger] free_vars(*b).contains(z) && z != x implies first_index(seq![x] + c1, z) == first_index(seq![y] + c1, z) by {
                    lemma_first_index_cons(x, c1, z);
                    lemma_first_index_cons(y, c1, z);
                    assert(all_names(*b).contains(z));
                }
                lemma_first_index_cons(x, c1, x);
                lemma_first_index_cons(y, c1, y);
                lemma_stale_mono(x, n, n0);
                lemma_rename_commutes(*b, x, y, n0, seq![x] + c1, seq![y] + c1, 0);
                let (b1, n1) = subst_term(*b, x, Term::Var(y), n0);
                lemma_rename_size(*b, x, y, n0);
                lemma_names_stale_parts(Term::Var(y), n0);
                lemma_subst_stale(*b, x, Term::Var(y), n0);
                law_subst_free_vars(*b, x, Term::Var(y), n0);
                // then substitute in the renamed body
                lemma_first_index_cons(y, c1, var);
                assert forall|z: Seq<char>| #[trigger] free_vars(b1).contains(z) && z != var implies first_index(seq![y] + c1, z) == first_index(seq![y] + c2, z) by {
                    lemma_first_index_cons(y, c1, z);
                    lemma_first_index_cons(y, c2, z);
                    if z != y {
                        assert(free_vars(*b).remove(x).contains(z) || free_vars(Term::Var(y)).contains(z));
                    }
                }
                assert forall|z: Seq<char>| #[trigger] free_vars(val).contains(z) implies first_index(seq![y] + c2, z) is None by {
                    lemma_first_index_cons(y, c2, z);
                    assert(all_names(val).contains(z));
                }
                lemma_names_stale_mono(val, n, n1);
                lemma_stale_mono(var, n, n1);
                lemma_subst_commutes(b1, var, val, n1, seq![y] + c1, seq![y] + c2, k + 1);
            }
        },
    }
}

/// `t` with every free occurrence of `x` replaced by `y`; binders stay as they are.
pub open spec fn rename_free(t: Term, x: Seq<char>, y: Seq<char>) -> Term
    decreases t,
{
    match t {
        Term::Var(z) => if z == x {
            Term::Var(y)
        } else {
            t
        },
        Term::Num(_) => t,
        Term::Add(a, b) => Term::Add(Box::new(rename_free(*a, x, y)), Box::new(rename_free(*b, x, y))),
        Term::App(a, b) => Term::App(Box::new(rename_free(*a, x, y)), Box::new(rename_free(*b, x, y))),
        Term::Abs(z, b) => if z == x {
            t
        } else {
            Term::Abs(z, Box::new(rename_free(*b, x, y)))
        },
    }
}

proof fn lemma_rename_free_agree(t: Term, x: Seq<char>, y: Seq<char>, c1: Seq<Seq<char>>, c2: Seq<Seq<char>>, j: nat)
    requires
        first_index(c1, x) == Some(j),
        first_index(c2, y) == Some(j),
        forall|z: Seq<char>| #[trigger] free_vars(t).contains(z) && z != x ==> first_index(c1, z) == first_index(c2, z),
        !all_names(t).contains(y),
    ensures
        erase(to_db_term(rename_free(t, x, y), c2)) == erase(to_db_term(t, c1)),
    decreases t,
{
    lemma_free_parts(t);
    match t {
        Term::Var(z) => {
            assert(free_vars(t).contains(z));
        },
        Term::Num(_) => {},
        Term::Add(a, b) => {
            lemma_rename_free_agree(*a, x, y, c1, c2, j);
            lemma_rename_free_agree(*b, x, y, c1, c2, j);
        },
        Term::App(a, b) => {
            lemma_rename_free_agree(*a, x, y, c1, c2, j);
            lemma_rename_free_agree(*b, x, y, c1, c2, j);
        },
        Term::Abs(z, b) => {
            if z == x {
                lemma_context_agree(t, c1, c2);
            } else {
                lemma_first_index_cons(z, c1, x);
                lemma_first_index_cons(z, c2, y);
                assert forall|w: Seq<char>| #[trigger] free_vars(*b).contains(w) && w != x implies first_index(seq![z] + c1, w) == first_index(seq![z] + c2, w) by {
                    lemma_first_index_cons(z, c1, w);
                    lemma_first_index_cons(z, c2, w);
                }
                lemma_rename_free_agree(*b, x, y, seq![z] + c1, seq![z] + c2, j + 1);
            }
        },
    }
}

/// Renaming the parameter of an abstraction, together with its free occurrences in the
/// body, to a name that does not occur in the body changes the conversion to De Bruijn
/// indices only in the display names of bound variables.
pub proof fn law_to_debruijn_renaming(x: Seq<char>, b: Term, y: Seq<char>, names: Seq<Seq<char>>)
    requires
        !all_names(b).contains(y),
    ensures
        erase(to_db_term(Term::Abs(y, Box::new(rename_free(b, x, y))), names)) == erase(
            to_db_term(Term::Abs(x, Box::new(b)), names),
        ),
{
    lemma_free_in_names(b);
    lemma_first_index_cons(x, names, x);
    lemma_first_index_cons(y, names, y);
    assert forall|w: Seq<char>| #[trigger] free_vars(b).contains(w) && w != x implies first_index(seq![x] + names, w) == first_index(seq![y] + names, w) by {
        lemma_first_index_cons(x, names, w);
        lemma_first_index_cons(y, names, w);
    }
    lemma_rename_free_agree(b, x, y, seq![x] + names, seq![y] + names, 0);
}

/// Substitution avoids capture: when no name of `t` or `val`, nor `var`, is one that the
/// counter makes from `n` on, and the counter does not wrap around, substituting and
/// then converting to De Bruijn indices gives, up to the display names of bound
/// variables, the body `t` (with `var` bound at index 0) with `val` put in place of
/// index 0. The free variables of `val` stay free names there: no binder of `t` takes
/// them.
pub proof fn law_subst_avoids_capture(t: Term, var: Seq<char>, val: Term, n: u64)
    requires
        names_stale(t, n),
        names_stale(val, n),
        stale(var, n),
        subst_ok(t, var, val, n),
    ensures
        erase(to_db_term(subst_term(t, var, val, n).0, Seq::empty())) == subst_db(
            erase(to_db_term(t, seq![var])),
            0,
            erase(to_db_term(val, Seq::empty())),
        ),
{
    let empty = Seq::<Seq<char>>::empty();
    lemma_first_index_cons(var, empty, var);
    assert(seq![var] + empty =~= seq![var]);
    assert forall|z: Seq<char>| #[trigger] free_vars(t).contains(z) && z != var implies first_index(seq![var], z) == first_index(empty, z) by {
        lemma_first_index_cons(var, empty, z);
    }
    lemma_subst_commutes(t, var, val, n, seq![var], empty, 0);
}

proof fn lemma_erase_shift(t: DbTerm, b: nat)
    ensures
        erase(shift_db(t, b)) == shift_db(erase(t), b),
        shift_fits(erase(t), b) == shift_fits(t, b),
        db_scoped(erase(t), b) == db_scoped(t, b),
    decreases t,
{
    match t {
        DbTerm::Add(x, y) => {
            lemma_erase_shift(*x, b);
            lemma_erase_shift(*y, b);
        },
        DbTerm::App(x, y) => {
            lemma_erase_shift(*x, b);
            lemma_erase_shift(*y, b);
        },
        DbTerm::Abs(x) => {
            lemma_erase_shift(*x, b + 1);
        },
        _ => {},
    }
}

proof fn lemma_erase_subst_fits(t: DbTerm, k: nat)
    ensures
        subst_fits(erase(t), k) == subst_fits(t, k),
    decreases t,
{
    match t {
        DbTerm::Add(x, y) => {
            lemma_erase_subst_fits(*x, k);
            lemma_erase_subst_fits(*y, k);
        },
        DbTerm::App(x, y) => {
            lemma_erase_subst_fits(*x, k);
            lemma_erase_subst_fits(*y, k);
        },
        DbTerm::Abs(x) => {
            lemma_erase_subst_fits(*x, k + 1);
        },
        _ => {},
    }
}

/// Two results agree: both values, the same up to display names once the term is
/// converted to De Bruijn indices, or both errors.
pub open spec fn results_agree(rn: Result<Term, Seq<char>>, rd: Result<DbTerm, Seq<char>>) -> bool {
    match (rn, rd) {
        (Ok(v), Ok(w)) => erase(w) == erase(to_db_term(v, Seq::empty())),
        (Err(_), Err(_)) => true,
        _ => false,
    }
}

proof fn lemma_eval_agree(fuel: nat, e: Term, n: u64, t: DbTerm)
    requires
        erase(t) == erase(to_db_term(e, Seq::empty())),
        names_stale(e, n),
        eval_ok(fuel, e, n),
    ensures
        eval_db(fuel, t) != Err::<DbTerm, Seq<char>>(index_overflow_message()) ==> results_agree(
            eval_term(fuel, e, n).0,
            eval_db(fuel, t),
        ),
    decreases fuel,
{
    lemma_names_stale_parts(e, n);
    if fuel > 0 {
        let f1 = (fuel - 1) as nat;
        let empty = Seq::<Seq<char>>::empty();
        match e {
            Term::App(a, b) => {
                let (ta, tb) = match t {
                    DbTerm::App(x, y) => (*x, *y),
                    _ => (t, t),
                };
                lemma_eval_agree(f1, *a, n, ta);
                lemma_eval_stale(f1, *a, n);
                let (r1, n1) = eval_term(f1, *a, n);
                let d1 = eval_db(f1, ta);
                if let (Ok(Term::Abs(p, body)), Ok(DbTerm::Abs(bd))) = (r1, d1) {
                    if shift_fits(tb, 0) && subst_fits(*bd, 0) {
                        lemma_names_stale_parts(Term::Abs(p, body), n1);
                        lemma_names_stale_mono(*b, n, n1);
                        let (body2, n2) = subst_term(*body, p, *b, n1);
                        // the De Bruijn side of the step
                        lemma_erase_subst(*bd, 0, shift_db(tb, 0));
                        lemma_erase_shift(tb, 0);
                        law_to_debruijn_scoped(*b, empty);
                        lemma_erase_shift(to_db_term(*b, empty), 0);
                        law_shift_scoped(erase(to_db_term(*b, empty)), 0, 0);
                        // the named side of the step
                        lemma_first_index_cons(p, empty, p);
                        assert(seq![p] + empty =~= seq![p]);
                        assert forall|z: Seq<char>| #[trigger] free_vars(*body).contains(z) && z != p implies first_index(seq![p], z) == first_index(empty, z) by {
                            lemma_first_index_cons(p, empty, z);
                        }
                        lemma_subst_commutes(*body, p, *b, n1, seq![p], empty, 0);
                        lemma_subst_stale(*body, p, *b, n1);
                        lemma_eval_agree(f1, body2, n2, subst_db(*bd, 0, shift_db(tb, 0)));
                    }
                }
            },
            Term::Add(a, b) => {
                let (ta, tb) = match t {
                    DbTerm::Add(x, y) => (*x, *y),
                    _ => (t, t),
                };
                lemma_eval_agree(f1, *a, n, ta);
                lemma_eval_stale(f1, *a, n);
                let (r1, n1) = eval_term(f1, *a, n);
                lemma_names_stale_mono(*b, n, n1);
                lemma_eval_agree(f1, *b, n1, tb);
            },
            _ => {},
        }
    }
}

/// Evaluation by substitution and evaluation on De Bruijn indices agree: for a term
/// whose names have no `#` (as every parsed term), the two give both values, the same
/// term up to the display names of bound variables, or both errors, unless the De
/// Bruijn side reports an index beyond `usize` or the name counter would wrap around.
pub proof fn law_substitution_agrees_with_debruijn(fuel: nat, e: Term)
    requires
        forall|w: Seq<char>| #[trigger] all_names(e).contains(w) ==> !w.contains('#'),
        eval_ok(fuel, e, 0),
    ensures
        eval_db(fuel, to_db_term(e, Seq::empty())) != Err::<DbTerm, Seq<char>>(index_overflow_message())
            ==> results_agree(eval_term(fuel, e, 0).0, eval_db(fuel, to_db_term(e, Seq::empty()))),
{
    assert forall|w: Seq<char>| #[trigger] all_names(e).contains(w) implies stale(w, 0) by {
        lemma_plain_name_stale(w, 0);
    }
    lemma_eval_agree(fuel, e, 0, to_db_term(e, Seq::empty()));
}

} // verus!
