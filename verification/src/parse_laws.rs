use vstd::prelude::*;
use crate::lexer::{
    cons_tok, digits_end, ident_end, is_digit, is_ident_char, lex_from, lex_spec, num_value, PErr, STok, Tok,
};
use crate::names::{decimal, digit_char};
use crate::parser::{p_app, p_app_rest, p_atom, p_expr, p_sum, p_sum_rest, parse_spec};
use crate::syntax::Term;

verus! {

/// A letter or `_`.
pub open spec fn is_letter(c: char) -> bool {
    ('a' <= c && c <= 'z') || ('A' <= c && c <= 'Z') || c == '_'
}

/// A name that reads as one identifier: a letter or `_`, then letters, digits and `_`.
pub open spec fn is_identifier(x: Seq<char>) -> bool {
    &&& x.len() > 0
    &&& is_letter(x[0])
    &&& forall|k: int| 1 <= k < x.len() ==> is_letter(#[trigger] x[k]) || ('0' <= x[k] && x[k] <= '9')
}

/// An atom written as one word: a variable named by an identifier, or a number that is
/// not negative.
pub open spec fn is_word_atom(t: Term) -> bool {
    match t {
        Term::Var(x) => is_identifier(x),
        Term::Num(n) => n >= 0,
        _ => false,
    }
}

/// The text of such an atom: the name, or the number in decimal.
pub open spec fn atom_text(t: Term) -> Seq<char> {
    match t {
        Term::Var(x) => x,
        Term::Num(n) => decimal(n as nat),
        _ => Seq::empty(),
    }
}

/// The token of such an atom.
spec fn atom_tok(t: Term) -> Tok {
    match t {
        Term::Var(x) => Tok::Ident(x),
        Term::Num(n) => Tok::Num(n),
        _ => Tok::Plus,
    }
}

proof fn lemma_digit_value(d: nat)
    requires
        d < 10,
    ensures
        digit_char(d) as int - '0' as int == d,
        is_digit(digit_char(d)),
{
}

/// The decimal notation of a number is a run of digits, without a leading zero unless
/// the number is 0, whose value is the number.
pub proof fn law_decimal_reads_back(n: nat)
    ensures
        decimal(n).len() >= 1,
        forall|k: int| 0 <= k < decimal(n).len() ==> is_digit(#[trigger] decimal(n)[k]),
        n > 0 ==> decimal(n)[0] != '0',
        n < 10 ==> decimal(n).len() == 1,
        num_value(decimal(n)) == n,
    decreases n,
{
    if n < 10 {
        lemma_digit_value(n);
        assert(decimal(n).drop_last() =~= Seq::<char>::empty());
        assert(decimal(n).last() == digit_char(n));
        assert(num_value(decimal(n)) == num_value(Seq::<char>::empty()) * 10 + (digit_char(n) as int - '0' as int) as nat);
    } else {
        let d = decimal(n / 10);
        law_decimal_reads_back(n / 10);
        lemma_digit_value(n % 10);
        assert forall|k: int| 0 <= k < decimal(n).len() implies is_digit(#[trigger] decimal(n)[k]) by {
            if k < d.len() {
                assert(decimal(n)[k] == d[k]);
            }
        }
        assert(decimal(n)[0] == d[0]);
        assert(decimal(n).drop_last() =~= d);
        assert(decimal(n).last() == digit_char(n % 10));
        assert(num_value(decimal(n)) == num_value(d) * 10 + (digit_char(n % 10) as int - '0' as int) as nat);
        assert(n == (n / 10) * 10 + n % 10);
    }
}

proof fn lemma_ident_end_at(s: Seq<char>, j: nat, e: nat)
    requires
        j <= e <= s.len(),
        forall|k: int| j <= k < e ==> is_ident_char(#[trigger] s[k]),
        e == s.len() || !is_ident_char(s[e as int]),
    ensures
        ident_end(s, j) == e,
    decreases e - j,
{
    if j < e {
        lemma_ident_end_at(s, j + 1, e);
    }
}

proof fn lemma_digits_end_at(s: Seq<char>, j: nat, e: nat)
    requires
        j <= e <= s.len(),
        forall|k: int| j <= k < e ==> is_digit(#[trigger] s[k]),
        e == s.len() || !is_digit(s[e as int]),
    ensures
        digits_end(s, j) == e,
    decreases e - j,
{
    if j < e {
        lemma_digits_end_at(s, j + 1, e);
    }
}

/// An atom's text at position `i` of `s`, followed by the end or by a character that
/// cannot continue a word, lexes to one token.
proof fn lemma_lex_atom(s: Seq<char>, i: nat, a: Term)
    requires
        is_word_atom(a),
        i + atom_text(a).len() <= s.len(),
        s.subrange(i as int, (i + atom_text(a).len()) as int) == atom_text(a),
        i + atom_text(a).len() == s.len() || !is_ident_char(s[(i + atom_text(a).len()) as int]),
    ensures
        atom_text(a).len() > 0,
        lex_from(s, i) == cons_tok((i, atom_tok(a), i + atom_text(a).len()), lex_from(s, i + atom_text(a).len())),
{
    let w = atom_text(a);
    let e = (i + w.len()) as nat;
    match a {
        Term::Var(x) => {
            assert(s[i as int] == w[0]);
            assert forall|k: int| i + 1 <= k < e implies is_ident_char(#[trigger] s[k]) by {
                assert(s[k] == w[k - i]);
            }
            lemma_ident_end_at(s, i + 1, e);
        },
        Term::Num(n) => {
            law_decimal_reads_back(n as nat);
            assert(s[i as int] == w[0]);
            assert forall|k: int| i + 1 <= k < e implies is_digit(#[trigger] s[k]) by {
                assert(s[k] == w[k - i]);
            }
            lemma_digits_end_at(s, i + 1, e);
        },
        _ => {},
    }
}

/// Every decimal numeral without a leading zero whose value is at most `i32::MAX` lexes
/// to one number token that carries its value, and parses to that number.
pub proof fn law_decimal_numbers_read_back(n: nat)
    requires
        n <= i32::MAX,
    ensures
        lex_spec(decimal(n)) == Ok::<Seq<STok>, PErr>(seq![(0nat, Tok::Num(n as i32), decimal(n).len())]),
        parse_spec(decimal(n)) == Ok::<Term, PErr>(Term::Num(n as i32)),
{
    let s = decimal(n);
    let a = Term::Num(n as i32);
    assert(atom_text(a) == s);
    assert(s.subrange(0, s.len() as int) =~= s);
    lemma_lex_atom(s, 0, a);
    let toks = seq![(0nat, Tok::Num(n as i32), s.len())];
    assert(lex_spec(s) == Ok::<Seq<STok>, PErr>(toks)) by {
        assert(seq![(0nat, Tok::Num(n as i32), s.len())] + Seq::<STok>::empty() =~= toks);
    }
    assert(p_atom(s, toks, 0) == Ok::<(Term, nat), PErr>((a, 1nat)));
    assert(p_app_rest(s, toks, 1, a) == Ok::<(Term, nat), PErr>((a, 1nat)));
    assert(p_app(s, toks, 0) == Ok::<(Term, nat), PErr>((a, 1nat)));
    assert(p_sum_rest(s, toks, 1, a) == Ok::<(Term, nat), PErr>((a, 1nat)));
    assert(p_sum(s, toks, 0) == Ok::<(Term, nat), PErr>((a, 1nat)));
    assert(p_expr(s, toks, 0) == Ok::<(Term, nat), PErr>((a, 1nat)));
}

/// A sum of two words reads as the sum of their atoms, in the order written:
/// `a + b` parses to `Add(a, b)`.
pub proof fn law_sum_of_words_reads_back(a: Term, b: Term)
    requires
        is_word_atom(a),
        is_word_atom(b),
    ensures
        parse_spec(atom_text(a) + seq![' ', '+', ' '] + atom_text(b)) == Ok::<Term, PErr>(
            Term::Add(Box::new(a), Box::new(b)),
        ),
{
    let ta = atom_text(a);
    let tb = atom_text(b);
    let s = ta + seq![' ', '+', ' '] + tb;
    let p = ta.len();
    let q = tb.len();
    assert(s.subrange(0, p as int) =~= ta);
    assert(s.subrange(p + 3int, p + 3int + q) =~= tb);
    assert(s[p as int] == ' ');
    assert(s[p + 1int] == '+');
    assert(s[p + 2int] == ' ');
    lemma_lex_atom(s, 0, a);
    lemma_lex_atom(s, (p + 3) as nat, b);
    let tok_a: STok = (0nat, atom_tok(a), p);
    let tok_plus: STok = ((p + 1) as nat, Tok::Plus, (p + 2) as nat);
    let tok_b: STok = ((p + 3) as nat, atom_tok(b), (p + 3 + q) as nat);
    let toks = seq![tok_a, tok_plus, tok_b];
    assert(lex_from(s, (p + 3 + q) as nat) == Ok::<Seq<STok>, PErr>(Seq::empty()));
    assert(lex_from(s, (p + 3) as nat) == Ok::<Seq<STok>, PErr>(seq![tok_b])) by {
        assert(seq![tok_b] + Seq::<STok>::empty() =~= seq![tok_b]);
    }
    assert(lex_from(s, (p + 2) as nat) == lex_from(s, (p + 3) as nat));
    assert(lex_from(s, (p + 1) as nat) == Ok::<Seq<STok>, PErr>(seq![tok_plus, tok_b])) by {
        assert(seq![tok_plus] + seq![tok_b] =~= seq![tok_plus, tok_b]);
    }
    assert(lex_from(s, p) == lex_from(s, (p + 1) as nat));
    assert(lex_spec(s) == Ok::<Seq<STok>, PErr>(toks)) by {
        assert(seq![tok_a] + seq![tok_plus, tok_b] =~= toks);
    }
    let sum = Term::Add(Box::new(a), Box::new(b));
    assert(p_atom(s, toks, 0) == Ok::<(Term, nat), PErr>((a, 1nat)));
    assert(p_app_rest(s, toks, 1, a) == Ok::<(Term, nat), PErr>((a, 1nat)));
    assert(p_app(s, toks, 0) == Ok::<(Term, nat), PErr>((a, 1nat)));
    assert(p_atom(s, toks, 2) == Ok::<(Term, nat), PErr>((b, 3nat)));
    assert(p_app_rest(s, toks, 3, b) == Ok::<(Term, nat), PErr>((b, 3nat)));
    assert(p_app(s, toks, 2) == Ok::<(Term, nat), PErr>((b, 3nat)));
    assert(p_sum_rest(s, toks, 3, sum) == Ok::<(Term, nat), PErr>((sum, 3nat)));
    assert(p_sum_rest(s, toks, 1, a) == Ok::<(Term, nat), PErr>((sum, 3nat)));
    assert(p_sum(s, toks, 0) == Ok::<(Term, nat), PErr>((sum, 3nat)));
    assert(p_expr(s, toks, 0) == Ok::<(Term, nat), PErr>((sum, 3nat)));
}

/// Every identifier lexes to one identifier token and parses to the variable of that
/// name.
pub proof fn law_identifiers_read_back(x: Seq<char>)
    requires
        is_identifier(x),
    ensures
        lex_spec(x) == Ok::<Seq<STok>, PErr>(seq![(0nat, Tok::Ident(x), x.len())]),
        parse_spec(x) == Ok::<Term, PErr>(Term::Var(x)),
{
    let a = Term::Var(x);
    assert(x.subrange(0, x.len() as int) =~= x);
    lemma_lex_atom(x, 0, a);
    let toks = seq![(0nat, Tok::Ident(x), x.len())];
    assert(lex_spec(x) == Ok::<Seq<STok>, PErr>(toks)) by {
        assert(seq![(0nat, Tok::Ident(x), x.len())] + Seq::<STok>::empty() =~= toks);
    }
    assert(p_atom(x, toks, 0) == Ok::<(Term, nat), PErr>((a, 1nat)));
    assert(p_app_rest(x, toks, 1, a) == Ok::<(Term, nat), PErr>((a, 1nat)));
    assert(p_app(x, toks, 0) == Ok::<(Term, nat), PErr>((a, 1nat)));
    assert(p_sum_rest(x, toks, 1, a) == Ok::<(Term, nat), PErr>((a, 1nat)));
    assert(p_sum(x, toks, 0) == Ok::<(Term, nat), PErr>((a, 1nat)));
    assert(p_expr(x, toks, 0) == Ok::<(Term, nat), PErr>((a, 1nat)));
}

/// Two words side by side read as an application of the first to the second:
/// `a b` parses to `App(a, b)`.
pub proof fn law_application_of_words_reads_back(a: Term, b: Term)
    requires
        is_word_atom(a),
        is_word_atom(b),
    ensures
        parse_spec(atom_text(a) + seq![' '] + atom_text(b)) == Ok::<Term, PErr>(
            Term::App(Box::new(a), Box::new(b)),
        ),
{
    let ta = atom_text(a);
    let tb = atom_text(b);
    let s = ta + seq![' '] + tb;
    let p = ta.len();
    let q = tb.len();
    assert(s.subrange(0, p as int) =~= ta);
    assert(s.subrange(p + 1int, p + 1int + q) =~= tb);
    assert(s[p as int] == ' ');
    lemma_lex_atom(s, 0, a);
    lemma_lex_atom(s, (p + 1) as nat, b);
    let tok_a: STok = (0nat, atom_tok(a), p);
    let tok_b: STok = ((p + 1) as nat, atom_tok(b), (p + 1 + q) as nat);
    let toks = seq![tok_a, tok_b];
    assert(lex_from(s, (p + 1 + q) as nat) == Ok::<Seq<STok>, PErr>(Seq::empty()));
    assert(lex_from(s, (p + 1) as nat) == Ok::<Seq<STok>, PErr>(seq![tok_b])) by {
        assert(seq![tok_b] + Seq::<STok>::empty() =~= seq![tok_b]);
    }
    assert(lex_from(s, p) == lex_from(s, (p + 1) as nat));
    assert(lex_spec(s) == Ok::<Seq<STok>, PErr>(toks)) by {
        assert(seq![tok_a] + seq![tok_b] =~= toks);
    }
    let app = Term::App(Box::new(a), Box::new(b));
    assert(p_atom(s, toks, 0) == Ok::<(Term, nat), PErr>((a, 1nat)));
    assert(p_atom(s, toks, 1) == Ok::<(Term, nat), PErr>((b, 2nat)));
    assert(p_app_rest(s, toks, 2, app) == Ok::<(Term, nat), PErr>((app, 2nat)));
    assert(p_app_rest(s, toks, 1, a) == Ok::<(Term, nat), PErr>((app, 2nat)));
    assert(p_app(s, toks, 0) == Ok::<(Term, nat), PErr>((app, 2nat)));
    assert(p_sum_rest(s, toks, 2, app) == Ok::<(Term, nat), PErr>((app, 2nat)));
    assert(p_sum(s, toks, 0) == Ok::<(Term, nat), PErr>((app, 2nat)));
    assert(p_expr(s, toks, 0) == Ok::<(Term, nat), PErr>((app, 2nat)));
}

/// An abstraction over a word reads back: `\x. a` parses to `Abs(x, a)`.
pub proof fn law_abstraction_reads_back(x: Seq<char>, a: Term)
    requires
        is_identifier(x),
        is_word_atom(a),
    ensures
        parse_spec(seq!['\\'] + x + seq!['.', ' '] + atom_text(a)) == Ok::<Term, PErr>(
            Term::Abs(x, Box::new(a)),
        ),
{
    let ta = atom_text(a);
    let s = seq!['\\'] + x + seq!['.', ' '] + ta;
    let p = x.len();
    let q = ta.len();
    let v = Term::Var(x);
    assert(atom_text(v) == x);
    assert(s[0] == '\\');
    assert(s.subrange(1, 1 + p as int) =~= x);
    assert(s[1 + p as int] == '.');
    assert(s[2 + p as int] == ' ');
    assert(s.subrange(3 + p as int, 3 + p + q as int) =~= ta);
    lemma_lex_atom(s, 1, v);
    lemma_lex_atom(s, (3 + p) as nat, a);
    let tok_l: STok = (0nat, Tok::Lambda, 1nat);
    let tok_x: STok = (1nat, Tok::Ident(x), (1 + p) as nat);
    let tok_d: STok = ((1 + p) as nat, Tok::Dot, (2 + p) as nat);
    let tok_a: STok = ((3 + p) as nat, atom_tok(a), (3 + p + q) as nat);
    let toks = seq![tok_l, tok_x, tok_d, tok_a];
    assert(lex_from(s, (3 + p + q) as nat) == Ok::<Seq<STok>, PErr>(Seq::empty()));
    assert(lex_from(s, (3 + p) as nat) == Ok::<Seq<STok>, PErr>(seq![tok_a])) by {
        assert(seq![tok_a] + Seq::<STok>::empty() =~= seq![tok_a]);
    }
    assert(lex_from(s, (2 + p) as nat) == lex_from(s, (3 + p) as nat));
    assert(lex_from(s, (1 + p) as nat) == Ok::<Seq<STok>, PErr>(seq![tok_d, tok_a])) by {
        assert(seq![tok_d] + seq![tok_a] =~= seq![tok_d, tok_a]);
    }
    assert(lex_from(s, 1) == Ok::<Seq<STok>, PErr>(seq![tok_x, tok_d, tok_a])) by {
        assert(seq![tok_x] + seq![tok_d, tok_a] =~= seq![tok_x, tok_d, tok_a]);
    }
    assert(lex_spec(s) == Ok::<Seq<STok>, PErr>(toks)) by {
        assert(seq![tok_l] + seq![tok_x, tok_d, tok_a] =~= toks);
    }
    assert(p_atom(s, toks, 3) == Ok::<(Term, nat), PErr>((a, 4nat)));
    assert(p_app_rest(s, toks, 4, a) == Ok::<(Term, nat), PErr>((a, 4nat)));
    assert(p_app(s, toks, 3) == Ok::<(Term, nat), PErr>((a, 4nat)));
    assert(p_sum_rest(s, toks, 4, a) == Ok::<(Term, nat), PErr>((a, 4nat)));
    assert(p_sum(s, toks, 3) == Ok::<(Term, nat), PErr>((a, 4nat)));
    assert(p_expr(s, toks, 3) == Ok::<(Term, nat), PErr>((a, 4nat)));
    assert(p_expr(s, toks, 0) == Ok::<(Term, nat), PErr>((Term::Abs(x, Box::new(a)), 4nat)));
}

/// Sums group to the left: `a + b + c` parses to `Add(Add(a, b), c)`.
pub proof fn law_sums_group_left(a: Term, b: Term, c: Term)
    requires
        is_word_atom(a),
        is_word_atom(b),
        is_word_atom(c),
    ensures
        parse_spec(atom_text(a) + seq![' ', '+', ' '] + atom_text(b) + seq![' ', '+', ' '] + atom_text(c))
            == Ok::<Term, PErr>(Term::Add(Box::new(Term::Add(Box::new(a), Box::new(b))), Box::new(c))),
{
    let ta = atom_text(a);
    let tb = atom_text(b);
    let tc = atom_text(c);
    let s = ta + seq![' ', '+', ' '] + tb + seq![' ', '+', ' '] + tc;
    let p = ta.len();
    let q = tb.len();
    let r = tc.len();
    let pb = p + 3;
    let pc = p + q + 6;
    let tok_a: STok = (0nat, atom_tok(a), p);
    let tok_p1: STok = ((p + 1) as nat, Tok::Plus, (p + 2) as nat);
    let tok_b: STok = (pb as nat, atom_tok(b), (pb + q) as nat);
    let tok_p2: STok = ((pb + q + 1) as nat, Tok::Plus, (pb + q + 2) as nat);
    let tok_c: STok = (pc as nat, atom_tok(c), (pc + r) as nat);
    let toks = seq![tok_a, tok_p1, tok_b, tok_p2, tok_c];
    assert(lex_spec(s) == Ok::<Seq<STok>, PErr>(toks)) by {
        assert(s.subrange(0, p as int) =~= ta);
        assert(s.subrange(pb as int, pb + q as int) =~= tb);
        assert(s.subrange(pc as int, pc + r as int) =~= tc);
        assert(s[p as int] == ' ');
        assert(s[p + 1int] == '+');
        assert(s[p + 2int] == ' ');
        assert(s[pb + q as int] == ' ');
        assert(s[pb + q + 1int] == '+');
        assert(s[pb + q + 2int] == ' ');
        lemma_lex_atom(s, 0, a);
        lemma_lex_atom(s, pb as nat, b);
        lemma_lex_atom(s, pc as nat, c);
        assert(lex_from(s, (pc + r) as nat) == Ok::<Seq<STok>, PErr>(Seq::empty()));
        assert(lex_from(s, pc as nat) == Ok::<Seq<STok>, PErr>(seq![tok_c])) by {
            assert(seq![tok_c] + Seq::<STok>::empty() =~= seq![tok_c]);
        }
        assert(lex_from(s, (pb + q + 2) as nat) == lex_from(s, pc as nat));
        assert(lex_from(s, (pb + q + 1) as nat) == Ok::<Seq<STok>, PErr>(seq![tok_p2, tok_c])) by {
            assert(seq![tok_p2] + seq![tok_c] =~= seq![tok_p2, tok_c]);
        }
        assert(lex_from(s, (pb + q) as nat) == lex_from(s, (pb + q + 1) as nat));
        assert(lex_from(s, pb as nat) == Ok::<Seq<STok>, PErr>(seq![tok_b, tok_p2, tok_c])) by {
            assert(seq![tok_b] + seq![tok_p2, tok_c] =~= seq![tok_b, tok_p2, tok_c]);
        }
        assert(lex_from(s, (p + 2) as nat) == lex_from(s, pb as nat));
        assert(lex_from(s, (p + 1) as nat) == Ok::<Seq<STok>, PErr>(seq![tok_p1, tok_b, tok_p2, tok_c])) by {
            assert(seq![tok_p1] + seq![tok_b, tok_p2, tok_c] =~= seq![tok_p1, tok_b, tok_p2, tok_c]);
        }
        assert(lex_from(s, p) == lex_from(s, (p + 1) as nat));
        assert(seq![tok_a] + seq![tok_p1, tok_b, tok_p2, tok_c] =~= toks);
    }
    let ab = Term::Add(Box::new(a), Box::new(b));
    let abc = Term::Add(Box::new(ab), Box::new(c));
    assert(p_atom(s, toks, 0) == Ok::<(Term, nat), PErr>((a, 1nat)));
    assert(p_app_rest(s, toks, 1, a) == Ok::<(Term, nat), PErr>((a, 1nat)));
    assert(p_app(s, toks, 0) == Ok::<(Term, nat), PErr>((a, 1nat)));
    assert(p_atom(s, toks, 2) == Ok::<(Term, nat), PErr>((b, 3nat)));
    assert(p_app_rest(s, toks, 3, b) == Ok::<(Term, nat), PErr>((b, 3nat)));
    assert(p_app(s, toks, 2) == Ok::<(Term, nat), PErr>((b, 3nat)));
    assert(p_atom(s, toks, 4) == Ok::<(Term, nat), PErr>((c, 5nat)));
    assert(p_app_rest(s, toks, 5, c) == Ok::<(Term, nat), PErr>((c, 5nat)));
    assert(p_app(s, toks, 4) == Ok::<(Term, nat), PErr>((c, 5nat)));
    assert(p_sum_rest(s, toks, 5, abc) == Ok::<(Term, nat), PErr>((abc, 5nat)));
    assert(p_sum_rest(s, toks, 3, ab) == Ok::<(Term, nat), PErr>((abc, 5nat)));
    assert(p_sum_rest(s, toks, 1, a) == Ok::<(Term, nat), PErr>((abc, 5nat)));
    assert(p_sum(s, toks, 0) == Ok::<(Term, nat), PErr>((abc, 5nat)));
    assert(p_expr(s, toks, 0) == Ok::<(Term, nat), PErr>((abc, 5nat)));
}

/// Application binds tighter than addition: `a + b c` parses to `Add(a, App(b, c))`.
pub proof fn law_application_binds_tighter_than_sum(a: Term, b: Term, c: Term)
    requires
        is_word_atom(a),
        is_word_atom(b),
        is_word_atom(c),
    ensures
        parse_spec(atom_text(a) + seq![' ', '+', ' '] + atom_text(b) + seq![' '] + atom_text(c)) == Ok::<
            Term,
            PErr,
        >(Term::Add(Box::new(a), Box::new(Term::App(Box::new(b), Box::new(c))))),
{
    let ta = atom_text(a);
    let tb = atom_text(b);
    let tc = atom_text(c);
    let s = ta + seq![' ', '+', ' '] + tb + seq![' '] + tc;
    let p = ta.len();
    let q = tb.len();
    let r = tc.len();
    let pb = p + 3;
    let pc = p + q + 4;
    let tok_a: STok = (0nat, atom_tok(a), p);
    let tok_p1: STok = ((p + 1) as nat, Tok::Plus, (p + 2) as nat);
    let tok_b: STok = (pb as nat, atom_tok(b), (pb + q) as nat);
    let tok_c: STok = (pc as nat, atom_tok(c), (pc + r) as nat);
    let toks = seq![tok_a, tok_p1, tok_b, tok_c];
    assert(lex_spec(s) == Ok::<Seq<STok>, PErr>(toks)) by {
        assert(s.subrange(0, p as int) =~= ta);
        assert(s.subrange(pb as int, pb + q as int) =~= tb);
        assert(s.subrange(pc as int, pc + r as int) =~= tc);
        assert(s[p as int] == ' ');
        assert(s[p + 1int] == '+');
        assert(s[p + 2int] == ' ');
        assert(s[pb + q as int] == ' ');
        lemma_lex_atom(s, 0, a);
        lemma_lex_atom(s, pb as nat, b);
        lemma_lex_atom(s, pc as nat, c);
        assert(lex_from(s, (pc + r) as nat) == Ok::<Seq<STok>, PErr>(Seq::empty()));
        assert(lex_from(s, pc as nat) == Ok::<Seq<STok>, PErr>(seq![tok_c])) by {
            assert(seq![tok_c] + Seq::<STok>::empty() =~= seq![tok_c]);
        }
        assert(lex_from(s, (pb + q) as nat) == lex_from(s, pc as nat));
        assert(lex_from(s, pb as nat) == Ok::<Seq<STok>, PErr>(seq![tok_b, tok_c])) by {
            assert(seq![tok_b] + seq![tok_c] =~= seq![tok_b, tok_c]);
        }
        assert(lex_from(s, (p + 2) as nat) == lex_from(s, pb as nat));
        assert(lex_from(s, (p + 1) as nat) == Ok::<Seq<STok>, PErr>(seq![tok_p1, tok_b, tok_c])) by {
            assert(seq![tok_p1] + seq![tok_b, tok_c] =~= seq![tok_p1, tok_b, tok_c]);
        }
        assert(lex_from(s, p) == lex_from(s, (p + 1) as nat));
        assert(seq![tok_a] + seq![tok_p1, tok_b, tok_c] =~= toks);
    }
    let bc = Term::App(Box::new(b), Box::new(c));
    let sum = Term::Add(Box::new(a), Box::new(bc));
    assert(p_atom(s, toks, 0) == Ok::<(Term, nat), PErr>((a, 1nat)));
    assert(p_app_rest(s, toks, 1, a) == Ok::<(Term, nat), PErr>((a, 1nat)));
    assert(p_app(s, toks, 0) == Ok::<(Term, nat), PErr>((a, 1nat)));
    assert(p_atom(s, toks, 2) == Ok::<(Term, nat), PErr>((b, 3nat)));
    assert(p_atom(s, toks, 3) == Ok::<(Term, nat), PErr>((c, 4nat)));
    assert(p_app_rest(s, toks, 4, bc) == Ok::<(Term, nat), PErr>((bc, 4nat)));
    assert(p_app_rest(s, toks, 3, b) == Ok::<(Term, nat), PErr>((bc, 4nat)));
    assert(p_app(s, toks, 2) == Ok::<(Term, nat), PErr>((bc, 4nat)));
    assert(p_sum_rest(s, toks, 4, sum) == Ok::<(Term, nat), PErr>((sum, 4nat)));
    assert(p_sum_rest(s, toks, 1, a) == Ok::<(Term, nat), PErr>((sum, 4nat)));
    assert(p_sum(s, toks, 0) == Ok::<(Term, nat), PErr>((sum, 4nat)));
    assert(p_expr(s, toks, 0) == Ok::<(Term, nat), PErr>((sum, 4nat)));
}

} // verus!
