use std::rc::Rc;
use vstd::prelude::*;
use vstd::string::*;
use crate::lexer::{lex, lex_spec, stok_of, perr_of, ParseError, PErr, STok, Tok, Token, TokenKind};
use crate::syntax::{Expr, ExprNode, Term};

verus! {

/// The model of a partial parse: the term and the position of the next token.
pub type PRes = Result<(Term, nat), PErr>;

/// The model of a sequence of tokens.
pub open spec fn toks_view(toks: Seq<Token>) -> Seq<STok> {
    toks.map_values(|t: Token| stok_of(t))
}

/// Every token lies within the input, in order.
pub open spec fn toks_fit(toks: Seq<Token>, n: nat) -> bool {
    forall|k: int| 0 <= k < toks.len() ==> (#[trigger] toks[k]).start < toks[k].end <= n
}

/// The location of the end of input: the end of the last token, or 0.
pub open spec fn eof_location(toks: Seq<STok>) -> nat {
    if toks.len() == 0 {
        0
    } else {
        toks.last().2
    }
}

/// The error for the token at `i`, or for the end of input when there is none.
pub open spec fn unexpected(s: Seq<char>, toks: Seq<STok>, i: nat) -> PErr {
    if i >= toks.len() {
        PErr::UnrecognizedEof(eof_location(toks))
    } else {
        PErr::UnrecognizedToken(
            toks[i as int].0,
            toks[i as int].2,
            s.subrange(toks[i as int].0 as int, toks[i as int].2 as int),
        )
    }
}

/// Whether a token can start an atom.
pub open spec fn starts_atom(t: Tok) -> bool {
    t is Ident || t is Num || t is LParen
}

/// `Expr := "\" Ident "." Expr | Sum`
pub open spec fn p_expr(s: Seq<char>, toks: Seq<STok>, i: nat) -> PRes
    decreases toks.len() - i, 5nat,
{
    if i < toks.len() && toks[i as int].1 is Lambda {
        if i + 1 < toks.len() && toks[i + 1int].1 is Ident {
            if i + 2 < toks.len() && toks[i + 2int].1 is Dot {
                match p_expr(s, toks, i + 3) {
                    Ok((b, j)) => Ok((Term::Abs(toks[i + 1int].1->Ident_0, Box::new(b)), j)),
                    Err(e) => Err(e),
                }
            } else {
                Err(unexpected(s, toks, i + 2))
            }
        } else {
            Err(unexpected(s, toks, i + 1))
        }
    } else {
        p_sum(s, toks, i)
    }
}

/// `Sum := Sum "+" App | App`
///
/// Here and below, a part that was parsed always ends after it starts (the parsing
/// functions ensure it), so the tests on positions always hold.
pub open spec fn p_sum(s: Seq<char>, toks: Seq<STok>, i: nat) -> PRes
    decreases toks.len() - i, 4nat,
{
    match p_app(s, toks, i) {
        Ok((t, j)) => if i < j <= toks.len() {
            p_sum_rest(s, toks, j, t)
        } else {
            Ok((t, j))
        },
        Err(e) => Err(e),
    }
}

/// The rest of a sum after its left operand `left`, from position `j`.
pub open spec fn p_sum_rest(s: Seq<char>, toks: Seq<STok>, j: nat, left: Term) -> PRes
    decreases toks.len() - j, 3nat,
{
    if j < toks.len() && toks[j as int].1 is Plus {
        match p_app(s, toks, j + 1) {
            Ok((t, k)) => if j < k <= toks.len() {
                p_sum_rest(s, toks, k, Term::Add(Box::new(left), Box::new(t)))
            } else {
                Ok((t, k))
            },
            Err(e) => Err(e),
        }
    } else {
        Ok((left, j))
    }
}

/// `App := App Atom | Atom`
pub open spec fn p_app(s: Seq<char>, toks: Seq<STok>, i: nat) -> PRes
    decreases toks.len() - i, 2nat,
{
    match p_atom(s, toks, i) {
        Ok((t, j)) => if i < j <= toks.len() {
            p_app_rest(s, toks, j, t)
        } else {
            Ok((t, j))
        },
        Err(e) => Err(e),
    }
}

/// The rest of an application after its function part `left`, from position `j`.
pub open spec fn p_app_rest(s: Seq<char>, toks: Seq<STok>, j: nat, left: Term) -> PRes
    decreases toks.len() - j, 2nat,
{
    if j < toks.len() && starts_atom(toks[j as int].1) {
        match p_atom(s, toks, j) {
            Ok((t, k)) => if j < k <= toks.len() {
                p_app_rest(s, toks, k, Term::App(Box::new(left), Box::new(t)))
            } else {
                Ok((t, k))
            },
            Err(e) => Err(e),
        }
    } else {
        Ok((left, j))
    }
}

/// `Atom := Ident | Num | "(" Expr ")"`
pub open spec fn p_atom(s: Seq<char>, toks: Seq<STok>, i: nat) -> PRes
    decreases toks.len() - i, 1nat,
{
    if i >= toks.len() {
        Err(unexpected(s, toks, i))
    } else {
        match toks[i as int].1 {
            Tok::Ident(x) => Ok((Term::Var(x), i + 1)),
            Tok::Num(n) => Ok((Term::Num(n), i + 1)),
            Tok::LParen => match p_expr(s, toks, i + 1) {
                Ok((t, j)) => if j < toks.len() && toks[j as int].1 is RParen {
                    Ok((t, j + 1))
                } else {
                    Err(unexpected(s, toks, j))
                },
                Err(e) => Err(e),
            },
            _ => Err(unexpected(s, toks, i)),
        }
    }
}

/// The term that the text `s` denotes: its tokens must form exactly one `Expr`.
pub open spec fn parse_spec(s: Seq<char>) -> Result<Term, PErr> {
    match lex_spec(s) {
        Err(e) => Err(e),
        Ok(toks) => match p_expr(s, toks, 0) {
            Ok((t, j)) => if j == toks.len() {
                Ok(t)
            } else {
                Err(unexpected(s, toks, j))
            },
            Err(e) => Err(e),
        },
    }
}

/// The model of a partial parse result.
pub open spec fn pres_view(r: Result<(Expr, usize), ParseError>) -> PRes {
    match r {
        Ok((e, j)) => Ok((e@, j as nat)),
        Err(e) => Err(perr_of(e)),
    }
}

/// The model of a parse result.
pub open spec fn parse_result_view(r: Result<Expr, ParseError>) -> Result<Term, PErr> {
    match r {
        Ok(e) => Ok(e@),
        Err(e) => Err(perr_of(e)),
    }
}

fn unexpected_exec(s: &str, toks: &Vec<Token>, i: usize) -> (r: ParseError)
    requires
        toks_fit(toks@, s@.len()),
    ensures
        perr_of(r) == unexpected(s@, toks_view(toks@), i as nat),
{
    let n = toks.len();
    if i >= n {
        let location = if n == 0 {
            0
        } else {
            toks[n - 1].end
        };
        ParseError::UnrecognizedEof { location }
    } else {
        let start = toks[i].start;
        let end = toks[i].end;
        ParseError::UnrecognizedToken {
            start,
            end,
            token: String::from_str(s.substring_char(start, end)),
        }
    }
}

fn is_kind_lambda(toks: &Vec<Token>, i: usize) -> (b: bool)
    ensures
        b == (i < toks@.len() && toks_view(toks@)[i as int].1 is Lambda),
{
    i < toks.len() && matches!(toks[i].kind, TokenKind::Lambda)
}

fn parse_expr(s: &str, toks: &Vec<Token>, i: usize) -> (r: Result<(Expr, usize), ParseError>)
    requires
        i <= toks.len(),
        toks_fit(toks@, s@.len()),
    ensures
        pres_view(r) == p_expr(s@, toks_view(toks@), i as nat),
        r matches Ok((_, j)) ==> i < j <= toks.len(),
    decreases toks.len() - i, 5nat,
{
    let ghost tv = toks_view(toks@);
    if is_kind_lambda(toks, i) {
        if i + 1 < toks.len() {
            if let TokenKind::Ident(x) = &toks[i + 1].kind {
                if i + 2 < toks.len() && matches!(toks[i + 2].kind, TokenKind::Dot) {
                    match parse_expr(s, toks, i + 3) {
                        Ok((b, j)) => Ok((Rc::new(ExprNode::Abs(x.clone(), b)), j)),
                        Err(e) => Err(e),
                    }
                } else {
                    Err(unexpected_exec(s, toks, i + 2))
                }
            } else {
                Err(unexpected_exec(s, toks, i + 1))
            }
        } else {
            Err(unexpected_exec(s, toks, i + 1))
        }
    } else {
        parse_sum(s, toks, i)
    }
}

fn parse_sum(s: &str, toks: &Vec<Token>, i: usize) -> (r: Result<(Expr, usize), ParseError>)
    requires
        i <= toks.len(),
        toks_fit(toks@, s@.len()),
    ensures
        pres_view(r) == p_sum(s@, toks_view(toks@), i as nat),
        r matches Ok((_, j)) ==> i < j <= toks.len(),
    decreases toks.len() - i, 4nat,
{
    match parse_app(s, toks, i) {
        Ok((t, j)) => parse_sum_rest(s, toks, j, t),
        Err(e) => Err(e),
    }
}

fn parse_sum_rest(s: &str, toks: &Vec<Token>, j: usize, left: Expr) -> (r: Result<(Expr, usize), ParseError>)
    requires
        j <= toks.len(),
        toks_fit(toks@, s@.len()),
    ensures
        pres_view(r) == p_sum_rest(s@, toks_view(toks@), j as nat, left@),
        r matches Ok((_, k)) ==> j <= k <= toks.len(),
    decreases toks.len() - j, 3nat,
{
    if j < toks.len() && matches!(toks[j].kind, TokenKind::Plus) {
        match parse_app(s, toks, j + 1) {
            Ok((t, k)) => parse_sum_rest(s, toks, k, Rc::new(ExprNode::Add(left, t))),
            Err(e) => Err(e),
        }
    } else {
        Ok((left, j))
    }
}

fn parse_app(s: &str, toks: &Vec<Token>, i: usize) -> (r: Result<(Expr, usize), ParseError>)
    requires
        i <= toks.len(),
        toks_fit(toks@, s@.len()),
    ensures
        pres_view(r) == p_app(s@, toks_view(toks@), i as nat),
        r matches Ok((_, j)) ==> i < j <= toks.len(),
    decreases toks.len() - i, 2nat,
{
    match parse_atom(s, toks, i) {
        Ok((t, j)) => parse_app_rest(s, toks, j, t),
        Err(e) => Err(e),
    }
}

fn starts_atom_exec(toks: &Vec<Token>, j: usize) -> (b: bool)
    requires
        j < toks.len(),
    ensures
        b == starts_atom(toks_view(toks@)[j as int].1),
{
    match toks[j].kind {
        TokenKind::Ident(_) => true,
        TokenKind::Num(_) => true,
        TokenKind::LParen => true,
        _ => false,
    }
}

fn parse_app_rest(s: &str, toks: &Vec<Token>, j: usize, left: Expr) -> (r: Result<(Expr, usize), ParseError>)
    requires
        j <= toks.len(),
        toks_fit(toks@, s@.len()),
    ensures
        pres_view(r) == p_app_rest(s@, toks_view(toks@), j as nat, left@),
        r matches Ok((_, k)) ==> j <= k <= toks.len(),
    decreases toks.len() - j, 2nat,
{
    if j < toks.len() && starts_atom_exec(toks, j) {
        match parse_atom(s, toks, j) {
            Ok((t, k)) => parse_app_rest(s, toks, k, Rc::new(ExprNode::App(left, t))),
            Err(e) => Err(e),
        }
    } else {
        Ok((left, j))
    }
}

fn parse_atom(s: &str, toks: &Vec<Token>, i: usize) -> (r: Result<(Expr, usize), ParseError>)
    requires
        i <= toks.len(),
        toks_fit(toks@, s@.len()),
    ensures
        pres_view(r) == p_atom(s@, toks_view(toks@), i as nat),
        r matches Ok((_, j)) ==> i < j <= toks.len(),
    decreases toks.len() - i, 1nat,
{
    if i >= toks.len() {
        return Err(unexpected_exec(s, toks, i));
    }
    match &toks[i].kind {
        TokenKind::Ident(x) => Ok((Rc::new(ExprNode::Var(x.clone())), i + 1)),
        TokenKind::Num(n) => Ok((Rc::new(ExprNode::Num(*n)), i + 1)),
        TokenKind::LParen => match parse_expr(s, toks, i + 1) {
            Ok((t, j)) => if j < toks.len() && matches!(toks[j].kind, TokenKind::RParen) {
                Ok((t, j + 1))
            } else {
                Err(unexpected_exec(s, toks, j))
            },
            Err(e) => Err(e),
        },
        _ => Err(unexpected_exec(s, toks, i)),
    }
}

/// Parses the whole of `input` as one term.
pub fn parse_term(input: &str) -> (r: Result<Expr, ParseError>)
    ensures
        parse_result_view(r) == parse_spec(input@),
{
    let toks = match lex(input) {
        Ok(ts) => ts,
        Err(e) => return Err(e),
    };
    match parse_expr(input, &toks, 0) {
        Ok((t, j)) => if j == toks.len() {
            Ok(t)
        } else {
            Err(unexpected_exec(input, &toks, j))
        },
        Err(e) => Err(e),
    }
}

/// A parser for terms of the surface syntax:
/// `Expr := "\" Ident "." Expr | Sum`, `Sum := Sum "+" App | App`,
/// `App := App Atom | Atom`, `Atom := Ident | Num | "(" Expr ")"`.
pub struct ExprParser {}

impl ExprParser {
    pub fn new() -> (r: ExprParser) {
        ExprParser {  }
    }

    /// Parses the whole of `input` as one term.
    pub fn parse(&self, input: &str) -> (r: Result<Expr, ParseError>)
        ensures
            parse_result_view(r) == parse_spec(input@),
    {
        parse_term(input)
    }
}

} // verus!
