use vstd::prelude::*;
use vstd::string::*;

verus! {

/// The kinds of tokens of the surface syntax.
#[derive(Debug, Clone, PartialEq)]
pub enum TokenKind {
    Lambda,
    Dot,
    LParen,
    RParen,
    Plus,
    Ident(String),
    Num(i32),
}

/// A token with the character positions where it starts and ends.
#[derive(Debug, Clone, PartialEq)]
pub struct Token {
    pub start: usize,
    pub kind: TokenKind,
    pub end: usize,
}

/// An error of the lexer or the parser. Locations are character positions.
#[derive(Debug, Clone, PartialEq)]
pub enum ParseError {
    /// A character (or a number with a leading zero) that starts no token.
    InvalidToken { location: usize },
    /// The input ended where more was needed; the location is the end of the last token.
    UnrecognizedEof { location: usize },
    /// A token that cannot stand where it stands, with its span and its text.
    UnrecognizedToken { start: usize, end: usize, token: String },
    /// A number that does not fit in an `i32`.
    User { error: String },
}

/// The model of a token kind.
pub enum Tok {
    Lambda,
    Dot,
    LParen,
    RParen,
    Plus,
    Ident(Seq<char>),
    Num(i32),
}

/// The model of a parse error.
pub enum PErr {
    InvalidToken(nat),
    UnrecognizedEof(nat),
    UnrecognizedToken(nat, nat, Seq<char>),
    User(Seq<char>),
}

/// The model of a token: start, kind, end.
pub type STok = (nat, Tok, nat);

pub open spec fn tok_of(k: TokenKind) -> Tok {
    match k {
        TokenKind::Lambda => Tok::Lambda,
        TokenKind::Dot => Tok::Dot,
        TokenKind::LParen => Tok::LParen,
        TokenKind::RParen => Tok::RParen,
        TokenKind::Plus => Tok::Plus,
        TokenKind::Ident(x) => Tok::Ident(x@),
        TokenKind::Num(n) => Tok::Num(n),
    }
}

pub open spec fn stok_of(t: Token) -> STok {
    (t.start as nat, tok_of(t.kind), t.end as nat)
}

pub open spec fn perr_of(e: ParseError) -> PErr {
    match e {
        ParseError::InvalidToken { location } => PErr::InvalidToken(location as nat),
        ParseError::UnrecognizedEof { location } => PErr::UnrecognizedEof(location as nat),
        ParseError::UnrecognizedToken { start, end, token } => PErr::UnrecognizedToken(
            start as nat,
            end as nat,
            token@,
        ),
        ParseError::User { error } => PErr::User(error@),
    }
}

pub open spec fn is_space(c: char) -> bool {
    c == ' ' || c == '\t' || c == '\n' || c == '\r'
}

pub open spec fn is_digit(c: char) -> bool {
    '0' <= c && c <= '9'
}

pub open spec fn is_ident_start(c: char) -> bool {
    ('a' <= c && c <= 'z') || ('A' <= c && c <= 'Z') || c == '_'
}

pub open spec fn is_ident_char(c: char) -> bool {
    is_ident_start(c) || is_digit(c)
}

/// The token of a character that is a token by itself.
pub open spec fn single_tok(c: char) -> Option<Tok> {
    if c == '\\' {
        Some(Tok::Lambda)
    } else if c == '.' {
        Some(Tok::Dot)
    } else if c == '(' {
        Some(Tok::LParen)
    } else if c == ')' {
        Some(Tok::RParen)
    } else if c == '+' {
        Some(Tok::Plus)
    } else {
        None
    }
}

/// The end of the run of identifier characters that starts at `j`.
pub open spec fn ident_end(s: Seq<char>, j: nat) -> nat
    decreases s.len() - j,
{
    if j < s.len() && is_ident_char(s[j as int]) {
        ident_end(s, j + 1)
    } else {
        j
    }
}

/// The end of the run of digits that starts at `j`.
pub open spec fn digits_end(s: Seq<char>, j: nat) -> nat
    decreases s.len() - j,
{
    if j < s.len() && is_digit(s[j as int]) {
        digits_end(s, j + 1)
    } else {
        j
    }
}

/// The number that a sequence of decimal digits denotes.
pub open spec fn num_value(s: Seq<char>) -> nat
    decreases s.len(),
{
    if s.len() == 0 {
        0
    } else {
        num_value(s.drop_last()) * 10 + (s.last() as int - '0' as int) as nat
    }
}

/// The message for a number that does not fit in an `i32`.
pub open spec fn number_too_large_message() -> Seq<char> {
    "number is too large"@
}

pub open spec fn cons_tok(t: STok, r: Result<Seq<STok>, PErr>) -> Result<Seq<STok>, PErr> {
    match r {
        Ok(ts) => Ok(seq![t] + ts),
        Err(e) => Err(e),
    }
}

pub open spec fn prepend_toks(p: Seq<STok>, r: Result<Seq<STok>, PErr>) -> Result<Seq<STok>, PErr> {
    match r {
        Ok(ts) => Ok(p + ts),
        Err(e) => Err(e),
    }
}

pub proof fn lemma_ident_end(s: Seq<char>, j: nat)
    requires
        j <= s.len(),
    ensures
        j <= ident_end(s, j) <= s.len(),
    decreases s.len() - j,
{
    if j < s.len() && is_ident_char(s[j as int]) {
        lemma_ident_end(s, j + 1);
    }
}

pub proof fn lemma_digits_end(s: Seq<char>, j: nat)
    requires
        j <= s.len(),
    ensures
        j <= digits_end(s, j) <= s.len(),
    decreases s.len() - j,
{
    if j < s.len() && is_digit(s[j as int]) {
        lemma_digits_end(s, j + 1);
    }
}

/// The tokens of `s` from position `i` on: white space separates tokens; an identifier
/// is a letter or `_` followed by letters, digits and `_`; a number is `0` or a digit
/// run without a leading zero, at most `i32::MAX`.
pub open spec fn lex_from(s: Seq<char>, i: nat) -> Result<Seq<STok>, PErr>
    decreases s.len() - i,
{
    if i >= s.len() {
        Ok(Seq::empty())
    } else {
        let c = s[i as int];
        if is_space(c) {
            lex_from(s, i + 1)
        } else if single_tok(c) is Some {
            cons_tok((i, single_tok(c).unwrap(), i + 1), lex_from(s, i + 1))
        } else if is_ident_start(c) {
            let k = ident_end(s, i + 1);
            proof {
                lemma_ident_end(s, i + 1);
            }
            cons_tok((i, Tok::Ident(s.subrange(i as int, k as int)), k), lex_from(s, k))
        } else if is_digit(c) {
            let k = digits_end(s, i + 1);
            proof {
                lemma_digits_end(s, i + 1);
            }
            if c == '0' && k > i + 1 {
                Err(PErr::InvalidToken(i))
            } else if num_value(s.subrange(i as int, k as int)) > i32::MAX {
                Err(PErr::User(number_too_large_message()))
            } else {
                cons_tok(
                    (i, Tok::Num(num_value(s.subrange(i as int, k as int)) as i32), k),
                    lex_from(s, k),
                )
            }
        } else {
            Err(PErr::InvalidToken(i))
        }
    }
}

/// The tokens of `s`.
pub open spec fn lex_spec(s: Seq<char>) -> Result<Seq<STok>, PErr> {
    lex_from(s, 0)
}

pub open spec fn toks_result_view(r: Result<Vec<Token>, ParseError>) -> Result<Seq<STok>, PErr> {
    match r {
        Ok(ts) => Ok(ts@.map_values(|t: Token| stok_of(t))),
        Err(e) => Err(perr_of(e)),
    }
}

proof fn lemma_prepend_cons(p: Seq<STok>, t: STok, r: Result<Seq<STok>, PErr>)
    ensures
        prepend_toks(p + seq![t], r) == prepend_toks(p, cons_tok(t, r)),
{
    if let Ok(ts) = r {
        assert(p + seq![t] + ts =~= p + (seq![t] + ts));
    }
}

proof fn lemma_num_value_step(s: Seq<char>, i: int, j: int)
    requires
        0 <= i <= j < s.len(),
    ensures
        num_value(s.subrange(i, j + 1)) == num_value(s.subrange(i, j)) * 10 + (s[j] as int
            - '0' as int) as nat,
{
    assert(s.subrange(i, j + 1).drop_last() =~= s.subrange(i, j));
}

proof fn lemma_num_value_mono(s: Seq<char>, i: int, j: int, k: int)
    requires
        0 <= i <= j <= k <= s.len(),
        forall|m: int| i <= m < k ==> is_digit(#[trigger] s[m]),
    ensures
        num_value(s.subrange(i, j)) <= num_value(s.subrange(i, k)),
    decreases k - j,
{
    if j < k {
        lemma_num_value_mono(s, i, j, k - 1);
        lemma_num_value_step(s, i, k - 1);
    }
}

proof fn lemma_digits_run(s: Seq<char>, j: nat)
    requires
        j <= s.len(),
    ensures
        forall|m: int| j <= m < digits_end(s, j) ==> is_digit(#[trigger] s[m]),
        digits_end(s, j) < s.len() ==> !is_digit(s[digits_end(s, j) as int]),
    decreases s.len() - j,
{
    if j < s.len() && is_digit(s[j as int]) {
        lemma_digits_run(s, j + 1);
    }
}

fn is_space_exec(c: char) -> (b: bool)
    ensures
        b == is_space(c),
{
    c == ' ' || c == '\t' || c == '\n' || c == '\r'
}

fn is_digit_exec(c: char) -> (b: bool)
    ensures
        b == is_digit(c),
{
    '0' <= c && c <= '9'
}

fn is_ident_start_exec(c: char) -> (b: bool)
    ensures
        b == is_ident_start(c),
{
    ('a' <= c && c <= 'z') || ('A' <= c && c <= 'Z') || c == '_'
}

fn single_tok_exec(c: char) -> (r: Option<TokenKind>)
    ensures
        match r {
            Some(k) => single_tok(c) == Some(tok_of(k)),
            None => single_tok(c) is None,
        },
{
    if c == '\\' {
        Some(TokenKind::Lambda)
    } else if c == '.' {
        Some(TokenKind::Dot)
    } else if c == '(' {
        Some(TokenKind::LParen)
    } else if c == ')' {
        Some(TokenKind::RParen)
    } else if c == '+' {
        Some(TokenKind::Plus)
    } else {
        None
    }
}

/// The characters of `input`.
pub fn chars_of(input: &str) -> (r: Vec<char>)
    ensures
        r@ == input@,
{
    let n = input.unicode_len();
    let mut v: Vec<char> = Vec::new();
    let mut i: usize = 0;
    while i < n
        invariant
            n == input@.len(),
            i <= n,
            v@ == input@.subrange(0, i as int),
        decreases n - i,
    {
        let c = input.get_char(i);
        v.push(c);
        i = i + 1;
        assert(v@ =~= input@.subrange(0, i as int));
    }
    assert(v@ =~= input@);
    v
}

/// Splits `input` into tokens.
pub fn lex(input: &str) -> (r: Result<Vec<Token>, ParseError>)
    ensures
        toks_result_view(r) == lex_spec(input@),
        r matches Ok(ts) ==> forall|k: int|
            0 <= k < ts.len() ==> (#[trigger] ts@[k]).start < ts@[k].end <= input@.len(),
{
    let s = chars_of(input);
    let n = s.len();
    let mut toks: Vec<Token> = Vec::new();
    let mut i: usize = 0;
    while i < n
        invariant
            n == s@.len(),
            s@ == input@,
            i <= n,
            lex_spec(s@) == prepend_toks(toks@.map_values(|t: Token| stok_of(t)), lex_from(s@, i as nat)),
            forall|k: int| 0 <= k < toks.len() ==> (#[trigger] toks@[k]).start < toks@[k].end <= i,
        decreases n - i,
    {
        let ghost old_toks = toks@;
        let c = s[i];
        if is_space_exec(c) {
            assert(lex_from(s@, i as nat) == lex_from(s@, (i + 1) as nat));
            i = i + 1;
        } else if let Some(kind) = single_tok_exec(c) {
            proof {
                lemma_prepend_cons(old_toks.map_values(|t: Token| stok_of(t)), (i as nat, single_tok(c).unwrap(), (i + 1) as nat), lex_from(s@, (i + 1) as nat));
            }
            toks.push(Token { start: i, kind, end: i + 1 });
            assert(toks@.map_values(|t: Token| stok_of(t)) =~= old_toks.map_values(
                |t: Token| stok_of(t),
            ) + seq![(i as nat, single_tok(c).unwrap(), (i + 1) as nat)]);
            i = i + 1;
        } else if is_ident_start_exec(c) {
            let mut k = i + 1;
            while k < n && (is_ident_start_exec(s[k]) || is_digit_exec(s[k]))
                invariant
                    n == s@.len(),
                    i < k <= n,
                    ident_end(s@, (i + 1) as nat) == ident_end(s@, k as nat),
                decreases n - k,
            {
                k = k + 1;
            }
            assert(ident_end(s@, k as nat) == k as nat);
            proof {
                lemma_ident_end(s@, (i + 1) as nat);
                lemma_prepend_cons(old_toks.map_values(|t: Token| stok_of(t)), (i as nat, Tok::Ident(s@.subrange(i as int, k as int)), k as nat), lex_from(s@, k as nat));
            }
            let text = String::from_str(input.substring_char(i, k));
            toks.push(Token { start: i, kind: TokenKind::Ident(text), end: k });
            assert(toks@.map_values(|t: Token| stok_of(t)) =~= old_toks.map_values(
                |t: Token| stok_of(t),
            ) + seq![(i as nat, Tok::Ident(s@.subrange(i as int, k as int)), k as nat)]);
            i = k;
        } else if is_digit_exec(c) {
            let mut k = i + 1;
            while k < n && is_digit_exec(s[k])
                invariant
                    n == s@.len(),
                    i < k <= n,
                    digits_end(s@, (i + 1) as nat) == digits_end(s@, k as nat),
                decreases n - k,
            {
                k = k + 1;
            }
            assert(digits_end(s@, k as nat) == k as nat);
            proof {
                lemma_digits_run(s@, (i + 1) as nat);
                lemma_digits_end(s@, (i + 1) as nat);
            }
            if c == '0' && k > i + 1 {
                return Err(ParseError::InvalidToken { location: i });
            }
            let mut v: u64 = 0;
            let mut j: usize = i;
            #[verifier::loop_isolation(false)]
            while j < k
                invariant
                    n == s@.len(),
                    i <= j <= k <= n,
                    k == digits_end(s@, (i + 1) as nat),
                    is_digit(s@[i as int]),
                    forall|m: int| i + 1 <= m < k ==> is_digit(#[trigger] s@[m]),
                    v == num_value(s@.subrange(i as int, j as int)),
                    v <= i32::MAX,
                decreases k - j,
            {
                assert(is_digit(s@[j as int]));
                let d = (s[j] as u32 - '0' as u32) as u64;
                proof {
                    lemma_num_value_step(s@, i as int, j as int);
                }
                let nv = v * 10 + d;
                if nv > i32::MAX as u64 {
                    proof {
                        assert forall|m: int| i <= m < k implies is_digit(#[trigger] s@[m]) by {
                            if m == i {
                            }
                        }
                        lemma_num_value_mono(s@, i as int, (j + 1) as int, k as int);
                    }
                    return Err(ParseError::User { error: String::from_str("number is too large") });
                }
                v = nv;
                j = j + 1;
            }
            proof {
                lemma_prepend_cons(old_toks.map_values(|t: Token| stok_of(t)), (i as nat, Tok::Num(v as i32), k as nat), lex_from(s@, k as nat));
            }
            toks.push(Token { start: i, kind: TokenKind::Num(v as i32), end: k });
            assert(toks@.map_values(|t: Token| stok_of(t)) =~= old_toks.map_values(
                |t: Token| stok_of(t),
            ) + seq![(i as nat, Tok::Num(v as i32), k as nat)]);
            i = k;
        } else {
            return Err(ParseError::InvalidToken { location: i });
        }
    }
    assert(toks@.map_values(|t: Token| stok_of(t)) + Seq::<STok>::empty() =~= toks@.map_values(
        |t: Token| stok_of(t),
    ));
    Ok(toks)
}

} // verus!
