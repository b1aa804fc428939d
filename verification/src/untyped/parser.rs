use vstd::prelude::*;

use crate::names::{
    char_debug_text, chars_of, debug_char, debug_string, is_alphabetic, is_alphanumeric,
    push_char, string_debug_text, alphabetic, alphanumeric,
};
use crate::untyped::ast::{STerm, Term};

verus! {

// ===== tokens =====

pub enum Tok {
    Lambda,
    Dot,
    LParen,
    RParen,
    Ident(String),
}

pub enum STok {
    Lambda,
    Dot,
    LParen,
    RParen,
    Ident(Seq<char>),
}

impl View for Tok {
    type V = STok;

    open spec fn view(&self) -> STok {
        match self {
            Tok::Lambda => STok::Lambda,
            Tok::Dot => STok::Dot,
            Tok::LParen => STok::LParen,
            Tok::RParen => STok::RParen,
            Tok::Ident(s) => STok::Ident(s@),
        }
    }
}

pub open spec fn toks_view(v: Seq<Tok>) -> Seq<STok> {
    v.map_values(|t: Tok| t@)
}

impl Tok {
    fn copy(&self) -> (r: Tok)
        ensures
            r@ == self@,
    {
        match self {
            Tok::Lambda => Tok::Lambda,
            Tok::Dot => Tok::Dot,
            Tok::LParen => Tok::LParen,
            Tok::RParen => Tok::RParen,
            Tok::Ident(s) => Tok::Ident(s.clone()),
        }
    }
}

/// The Debug text of a token, as error messages show it.
pub open spec fn tok_text(t: STok) -> Seq<char> {
    match t {
        STok::Lambda => "Lambda"@,
        STok::Dot => "Dot"@,
        STok::LParen => "LParen"@,
        STok::RParen => "RParen"@,
        STok::Ident(s) => "Ident("@ + string_debug_text(s) + ")"@,
    }
}

/// The Debug text of an optional token.
pub open spec fn opt_tok_text(t: Option<STok>) -> Seq<char> {
    match t {
        Some(t) => "Some("@ + tok_text(t) + ")"@,
        None => "None"@,
    }
}

fn tok_text_exec(t: &Tok) -> (s: String)
    ensures
        s@ == tok_text(t@),
{
    match t {
        Tok::Lambda => String::from_str("Lambda"),
        Tok::Dot => String::from_str("Dot"),
        Tok::LParen => String::from_str("LParen"),
        Tok::RParen => String::from_str("RParen"),
        Tok::Ident(s) => {
            let mut out = String::from_str("Ident(");
            let d = debug_string(s.as_str());
            out.append(d.as_str());
            out.append(")");
            out
        },
    }
}

fn opt_tok_text_exec(t: Option<&Tok>) -> (s: String)
    ensures
        s@ == opt_tok_text(
            match t {
                Some(x) => Some(x@),
                None => None,
            },
        ),
{
    match t {
        Some(x) => {
            let mut out = String::from_str("Some(");
            let d = tok_text_exec(x);
            out.append(d.as_str());
            out.append(")");
            out
        },
        None => String::from_str("None"),
    }
}

// ===== lexing =====

pub open spec fn is_space(c: char) -> bool {
    c == ' ' || c == '\t' || c == '\n' || c == '\r'
}

pub open spec fn is_ident_start(c: char) -> bool {
    alphabetic(c) || c == '_'
}

pub open spec fn is_ident_char(c: char) -> bool {
    alphanumeric(c) || c == '_' || c == '\''
}

/// The end of the run of identifier characters that starts at `i`.
pub open spec fn ident_end(cs: Seq<char>, i: nat) -> nat
    decreases cs.len() - i,
{
    if i < cs.len() && is_ident_char(cs[i as int]) {
        ident_end(cs, i + 1)
    } else {
        i
    }
}

pub open spec fn cons_tok(t: STok, r: Result<Seq<STok>, Seq<char>>) -> Result<Seq<STok>, Seq<char>> {
    match r {
        Ok(rest) => Ok(seq![t] + rest),
        Err(e) => Err(e),
    }
}

pub open spec fn prepend_toks(ts: Seq<STok>, r: Result<Seq<STok>, Seq<char>>) -> Result<
    Seq<STok>,
    Seq<char>,
> {
    match r {
        Ok(rest) => Ok(ts + rest),
        Err(e) => Err(e),
    }
}

/// The tokens of `cs` from position `i` on, or the lexing error.
pub open spec fn lex(cs: Seq<char>, i: nat) -> Result<Seq<STok>, Seq<char>>
    decreases cs.len() - i,
{
    if i >= cs.len() {
        Ok(Seq::<STok>::empty())
    } else {
        let c = cs[i as int];
        if is_space(c) {
            lex(cs, i + 1)
        } else if c == '\\' || c == 'λ' {
            cons_tok(STok::Lambda, lex(cs, i + 1))
        } else if c == '.' {
            cons_tok(STok::Dot, lex(cs, i + 1))
        } else if c == '(' {
            cons_tok(STok::LParen, lex(cs, i + 1))
        } else if c == ')' {
            cons_tok(STok::RParen, lex(cs, i + 1))
        } else if is_ident_start(c) {
            let j = ident_end(cs, i);
            if i < j <= cs.len() {
                cons_tok(STok::Ident(cs.subrange(i as int, j as int)), lex(cs, j))
            } else {
                Err(Seq::<char>::empty())
            }
        } else {
            Err("unexpected character: "@ + char_debug_text(c))
        }
    }
}

proof fn lemma_prepend_push(a: Seq<STok>, t: STok, r: Result<Seq<STok>, Seq<char>>)
    ensures
        prepend_toks(a, cons_tok(t, r)) == prepend_toks(a.push(t), r),
{
    if let Ok(rest) = r {
        assert(a + (seq![t] + rest) =~= a.push(t) + rest);
    }
}

proof fn lemma_ident_end(cs: Seq<char>, i: nat, j: nat)
    requires
        i <= j <= cs.len(),
        forall|k: int| i <= k < j ==> is_ident_char(cs[k]),
        j == cs.len() || !is_ident_char(cs[j as int]),
    ensures
        ident_end(cs, i) == j,
    decreases j - i,
{
    if i < j {
        lemma_ident_end(cs, i + 1, j);
    }
}

fn tokenize(input: &str) -> (r: Result<Vec<Tok>, String>)
    ensures
        match r {
            Ok(ts) => lex(input@, 0) == Ok::<Seq<STok>, Seq<char>>(toks_view(ts@)),
            Err(e) => lex(input@, 0) == Err::<Seq<STok>, Seq<char>>(e@),
        },
{
    let cs = chars_of(input);
    let mut tokens: Vec<Tok> = Vec::new();
    let mut i: usize = 0;
    while i < cs.len()
        invariant
            i <= cs.len(),
            cs@ == input@,
            lex(cs@, 0) == prepend_toks(toks_view(tokens@), lex(cs@, i as nat)),
        decreases cs.len() - i,
    {
        let c = cs[i];
        let ghost before = tokens@;
        if c == ' ' || c == '\t' || c == '\n' || c == '\r' {
            i = i + 1;
        } else if c == '\\' || c == 'λ' {
            tokens.push(Tok::Lambda);
            i = i + 1;
        } else if c == '.' {
            tokens.push(Tok::Dot);
            i = i + 1;
        } else if c == '(' {
            tokens.push(Tok::LParen);
            i = i + 1;
        } else if c == ')' {
            tokens.push(Tok::RParen);
            i = i + 1;
        } else if is_alphabetic(c) || c == '_' {
            let start = i;
            let mut s = String::new();
            while i < cs.len() && (is_alphanumeric(cs[i]) || cs[i] == '_' || cs[i] == '\'')
                invariant
                    start <= i <= cs.len(),
                    cs@ == input@,
                    s@ == cs@.subrange(start as int, i as int),
                    forall|k: int| start <= k < i ==> is_ident_char(cs@[k]),
                    i == start ==> is_ident_start(cs@[start as int]),
                    start < cs.len(),
                decreases cs.len() - i,
            {
                push_char(&mut s, cs[i]);
                assert(cs@.subrange(start as int, i as int).push(cs@[i as int]) =~= cs@.subrange(
                    start as int,
                    i + 1,
                ));
                i = i + 1;
            }
            proof {
                lemma_ident_end(cs@, start as nat, i as nat);
            }
            tokens.push(Tok::Ident(s));
        } else {
            let mut msg = String::from_str("unexpected character: ");
            let d = debug_char(c);
            msg.append(d.as_str());
            return Err(msg);
        }
        proof {
            if tokens@.len() > before.len() {
                let t = tokens@[before.len() as int];
                assert(toks_view(tokens@) =~= toks_view(before).push(t@));
                lemma_prepend_push(toks_view(before), t@, lex(cs@, i as nat));
            }
        }
    }
    assert(lex(cs@, i as nat) == Ok::<Seq<STok>, Seq<char>>(Seq::<STok>::empty()));
    assert(toks_view(tokens@) + Seq::<STok>::empty() =~= toks_view(tokens@));
    Ok(tokens)
}


// ===== grammar =====
//
//   expr   := lambda | app
//   lambda := ('\' | 'λ') IDENT+ '.' expr
//   app    := atom atom*          (left-associative)
//   atom   := IDENT | '(' expr ')'

/// The result of parsing from a position: the term and the position after
/// it, or an error message.
pub type PResult = Result<(STerm, nat), Seq<char>>;

pub open spec fn tok_at(ts: Seq<STok>, p: nat) -> Option<STok> {
    if p < ts.len() {
        Some(ts[p as int])
    } else {
        None
    }
}

/// `\x y z. body` is `\x. \y. \z. body`.
pub open spec fn abs_chain(ps: Seq<Seq<char>>, body: STerm) -> STerm
    decreases ps.len(),
{
    if ps.len() == 0 {
        body
    } else {
        STerm::Abs(ps[0], Box::new(abs_chain(ps.drop_first(), body)))
    }
}

/// The identifiers from position `p` on, and the position after them.
pub open spec fn idents_from(ts: Seq<STok>, p: nat) -> (Seq<Seq<char>>, nat)
    decreases ts.len() - p,
{
    match tok_at(ts, p) {
        Some(STok::Ident(x)) => {
            let (rest, q) = idents_from(ts, p + 1);
            (seq![x] + rest, q)
        },
        _ => (Seq::<Seq<char>>::empty(), p),
    }
}

pub open spec fn p_expr(ts: Seq<STok>, p: nat) -> PResult
    decreases ts.len() - p, 2nat,
{
    if p > ts.len() {
        Err(Seq::<char>::empty())
    } else if tok_at(ts, p) == Some(STok::Lambda) {
        p_lambda(ts, p)
    } else {
        p_app(ts, p)
    }
}

pub open spec fn p_lambda(ts: Seq<STok>, p: nat) -> PResult
    decreases ts.len() - p, 1nat,
{
    let (params, q) = idents_from(ts, p + 1);
    if params.len() == 0 {
        Err("expected at least one parameter after λ"@)
    } else if tok_at(ts, q) == Some(STok::Dot) {
        if p < q + 1 <= ts.len() {
            match p_expr(ts, q + 1) {
                Ok((body, r)) => Ok((abs_chain(params, body), r)),
                Err(e) => Err(e),
            }
        } else {
            Err(Seq::<char>::empty())
        }
    } else {
        Err("expected '.', got "@ + opt_tok_text(tok_at(ts, q)))
    }
}

pub open spec fn p_app(ts: Seq<STok>, p: nat) -> PResult
    decreases ts.len() - p, 1nat,
{
    match p_atom(ts, p) {
        Ok((left, q)) => if p < q <= ts.len() {
            p_app_rest(ts, q, left)
        } else {
            Err(Seq::<char>::empty())
        },
        Err(e) => Err(e),
    }
}

pub open spec fn starts_atom(t: Option<STok>) -> bool {
    match t {
        Some(STok::Ident(_)) => true,
        Some(STok::LParen) => true,
        _ => false,
    }
}

pub open spec fn p_app_rest(ts: Seq<STok>, p: nat, left: STerm) -> PResult
    decreases ts.len() - p, 1nat,
{
    if p > ts.len() {
        Err(Seq::<char>::empty())
    } else if starts_atom(tok_at(ts, p)) {
        match p_atom(ts, p) {
            Ok((right, q)) => if p < q <= ts.len() {
                p_app_rest(ts, q, STerm::App(Box::new(left), Box::new(right)))
            } else {
                Err(Seq::<char>::empty())
            },
            Err(e) => Err(e),
        }
    } else {
        Ok((left, p))
    }
}

pub open spec fn p_atom(ts: Seq<STok>, p: nat) -> PResult
    decreases ts.len() - p, 0nat,
{
    match tok_at(ts, p) {
        Some(STok::Ident(x)) => Ok((STerm::Var(x), p + 1)),
        Some(STok::LParen) => match p_expr(ts, p + 1) {
            Ok((e, q)) => if tok_at(ts, q) == Some(STok::RParen) {
                Ok((e, q + 1))
            } else {
                Err("expected ')', got "@ + opt_tok_text(tok_at(ts, q)))
            },
            Err(e) => Err(e),
        },
        other => Err("unexpected token: "@ + opt_tok_text(other)),
    }
}

/// The term a whole token sequence denotes, or the error.
pub open spec fn parse_tokens(ts: Seq<STok>) -> Result<STerm, Seq<char>> {
    match p_expr(ts, 0) {
        Ok((t, q)) => if q < ts.len() {
            Err("unexpected token after expression: "@ + opt_tok_text(tok_at(ts, q)))
        } else {
            Ok(t)
        },
        Err(e) => Err(e),
    }
}

/// What `parse` gives for an input string.
pub open spec fn parse_spec(input: Seq<char>) -> Result<STerm, Seq<char>> {
    match lex(input, 0) {
        Ok(ts) => parse_tokens(ts),
        Err(e) => Err(e),
    }
}

struct Parser {
    tokens: Vec<Tok>,
    pos: usize,
}

impl Parser {
    spec fn ts(&self) -> Seq<STok> {
        toks_view(self.tokens@)
    }

    fn peek(&self) -> (r: Option<&Tok>)
        ensures
            match r {
                Some(t) => tok_at(self.ts(), self.pos as nat) == Some(t@),
                None => tok_at(self.ts(), self.pos as nat) is None,
            },
    {
        if self.pos < self.tokens.len() {
            Some(&self.tokens[self.pos])
        } else {
            None
        }
    }

    fn advance(&mut self) -> (r: Option<Tok>)
        requires
            old(self).pos <= old(self).tokens.len(),
        ensures
            final(self).tokens == old(self).tokens,
            match r {
                Some(t) => tok_at(old(self).ts(), old(self).pos as nat) == Some(t@)
                    && final(self).pos == old(self).pos + 1,
                None => tok_at(old(self).ts(), old(self).pos as nat) is None
                    && final(self).pos == old(self).pos,
            },
            final(self).pos <= final(self).tokens.len(),
    {
        if self.pos < self.tokens.len() {
            let t = self.tokens[self.pos].copy();
            self.pos = self.pos + 1;
            Some(t)
        } else {
            None
        }
    }

    fn parse_expr(&mut self) -> (r: Result<Term, String>)
        requires
            old(self).pos <= old(self).tokens.len(),
        ensures
            final(self).tokens == old(self).tokens,
            final(self).pos <= final(self).tokens.len(),
            match r {
                Ok(t) => p_expr(old(self).ts(), old(self).pos as nat) == Ok::<(STerm, nat), Seq<char>>(
                    (t@, final(self).pos as nat),
                ) && old(self).pos < final(self).pos,
                Err(e) => p_expr(old(self).ts(), old(self).pos as nat) == Err::<(STerm, nat), Seq<char>>(e@),
            },
        decreases old(self).tokens.len() - old(self).pos, 2nat,
    {
        let is_lambda = match self.peek() {
            Some(Tok::Lambda) => true,
            _ => false,
        };
        if is_lambda {
            self.parse_lambda()
        } else {
            self.parse_app()
        }
    }

    fn parse_lambda(&mut self) -> (r: Result<Term, String>)
        requires
            old(self).pos < old(self).tokens.len(),
            tok_at(old(self).ts(), old(self).pos as nat) == Some(STok::Lambda),
        ensures
            final(self).tokens == old(self).tokens,
            final(self).pos <= final(self).tokens.len(),
            match r {
                Ok(t) => p_lambda(old(self).ts(), old(self).pos as nat) == Ok::<(STerm, nat), Seq<char>>(
                    (t@, final(self).pos as nat),
                ) && old(self).pos < final(self).pos,
                Err(e) => p_lambda(old(self).ts(), old(self).pos as nat) == Err::<(STerm, nat), Seq<char>>(e@),
            },
        decreases old(self).tokens.len() - old(self).pos, 1nat,
    {
        let ghost ts = self.ts();
        let ghost p0 = self.pos as nat;
        self.advance();
        let mut params: Vec<String> = Vec::new();
        let ghost p1 = self.pos as nat;
        loop
            invariant_except_break
                self.pos <= self.tokens.len(),
                self.tokens == old(self).tokens,
                self.ts() == ts,
                p1 == old(self).pos + 1,
                p1 <= self.pos,
                idents_from(ts, p1) == ({
                    let (rest, q) = idents_from(ts, self.pos as nat);
                    (params@.map_values(|s: String| s@) + rest, q)
                }),
            ensures
                self.pos <= self.tokens.len(),
                self.tokens == old(self).tokens,
                self.ts() == ts,
                p1 == old(self).pos + 1,
                p1 <= self.pos,
                idents_from(ts, p1) == (params@.map_values(|s: String| s@), self.pos as nat),
            decreases self.tokens.len() - self.pos,
        {
            let is_ident = match self.peek() {
                Some(Tok::Ident(_)) => true,
                _ => false,
            };
            if !is_ident {
                assert(params@.map_values(|s: String| s@) + Seq::<Seq<char>>::empty() =~= params@.map_values(|s: String| s@));
                break;
            }
            let ghost before = params@;
            if let Some(Tok::Ident(name)) = self.advance() {
                params.push(name);
                assert(params@.map_values(|s: String| s@) =~= before.map_values(|s: String| s@).push(name@));
                assert forall|rest: Seq<Seq<char>>| before.map_values(|s: String| s@) + (seq![name@] + rest) =~= params@.map_values(|s: String| s@) + rest by {}
            }
        }
        let ghost ps = params@.map_values(|s: String| s@);
        assert(p1 == p0 + 1);
        if params.len() == 0 {
            return Err(String::from_str("expected at least one parameter after λ"));
        }
        let ghost q = self.pos as nat;
        match self.advance() {
            Some(Tok::Dot) => {},
            other => {
                let mut msg = String::from_str("expected '.', got ");
                let d = opt_tok_text_exec(
                    match &other {
                        Some(t) => Some(t),
                        None => None,
                    },
                );
                msg.append(d.as_str());
                return Err(msg);
            },
        }
        let body = self.parse_expr()?;
        assert(ps.take(ps.len() as int) =~= ps);
        let ghost body_v = body@;
        let mut term = body;
        let mut k = params.len();
        while k > 0
            invariant
                k <= params.len(),
                params@.map_values(|s: String| s@) == ps,
                abs_chain(ps, body_v) == abs_chain(ps.take(k as int), term@),
            decreases k,
        {
            k = k - 1;
            let name = params[k].clone();
            proof {
                lemma_abs_chain_take(ps, k as nat, term@);
            }
            term = Term::Abs(name, Box::new(term));
        }
        assert(ps.take(0) =~= Seq::<Seq<char>>::empty());
        Ok(term)
    }

    fn parse_app(&mut self) -> (r: Result<Term, String>)
        requires
            old(self).pos <= old(self).tokens.len(),
        ensures
            final(self).tokens == old(self).tokens,
            final(self).pos <= final(self).tokens.len(),
            match r {
                Ok(t) => p_app(old(self).ts(), old(self).pos as nat) == Ok::<(STerm, nat), Seq<char>>(
                    (t@, final(self).pos as nat),
                ) && old(self).pos < final(self).pos,
                Err(e) => p_app(old(self).ts(), old(self).pos as nat) == Err::<(STerm, nat), Seq<char>>(e@),
            },
        decreases old(self).tokens.len() - old(self).pos, 1nat,
    {
        let ghost ts = self.ts();
        let ghost p0 = self.pos as nat;
        let mut left = self.parse_atom()?;
        loop
            invariant
                self.pos <= self.tokens.len(),
                self.tokens == old(self).tokens,
                ts == old(self).ts(),
                self.ts() == ts,
                p0 == old(self).pos,
                p0 < self.pos,
                p_app(ts, p0) == p_app_rest(ts, self.pos as nat, left@),
            decreases self.tokens.len() - self.pos,
        {
            let more = match self.peek() {
                Some(Tok::Ident(_)) => true,
                Some(Tok::LParen) => true,
                _ => false,
            };
            if !more {
                return Ok(left);
            }
            let right = self.parse_atom()?;
            left = Term::App(Box::new(left), Box::new(right));
        }
    }

    fn parse_atom(&mut self) -> (r: Result<Term, String>)
        requires
            old(self).pos <= old(self).tokens.len(),
        ensures
            final(self).tokens == old(self).tokens,
            final(self).pos <= final(self).tokens.len(),
            match r {
                Ok(t) => p_atom(old(self).ts(), old(self).pos as nat) == Ok::<(STerm, nat), Seq<char>>(
                    (t@, final(self).pos as nat),
                ) && old(self).pos < final(self).pos,
                Err(e) => p_atom(old(self).ts(), old(self).pos as nat) == Err::<(STerm, nat), Seq<char>>(e@),
            },
        decreases old(self).tokens.len() - old(self).pos, 0nat,
    {
        match self.advance() {
            Some(Tok::Ident(name)) => Ok(Term::Var(name)),
            Some(Tok::LParen) => {
                let e = self.parse_expr()?;
                match self.advance() {
                    Some(Tok::RParen) => Ok(e),
                    other => {
                        let mut msg = String::from_str("expected ')', got ");
                        let d = opt_tok_text_exec(
                            match &other {
                                Some(t) => Some(t),
                                None => None,
                            },
                        );
                        msg.append(d.as_str());
                        Err(msg)
                    },
                }
            },
            other => {
                let mut msg = String::from_str("unexpected token: ");
                let d = opt_tok_text_exec(
                    match &other {
                        Some(t) => Some(t),
                        None => None,
                    },
                );
                msg.append(d.as_str());
                Err(msg)
            },
        }
    }
}

proof fn lemma_abs_chain_take(ps: Seq<Seq<char>>, k: nat, b: STerm)
    requires
        k < ps.len(),
    ensures
        abs_chain(ps.take((k + 1) as int), b) == abs_chain(ps.take(k as int), STerm::Abs(ps[k as int], Box::new(b))),
    decreases k,
{
    if k == 0 {
        assert(ps.take(1).drop_first() =~= Seq::<Seq<char>>::empty());
        assert(ps.take(0) =~= Seq::<Seq<char>>::empty());
        assert(ps.take(1)[0] == ps[0]);
        assert(abs_chain(ps.take(1).drop_first(), b) == b);
    } else {
        assert(ps.take((k + 1) as int).drop_first() =~= ps.drop_first().take(k as int));
        assert(ps.take(k as int).drop_first() =~= ps.drop_first().take(k - 1));
        assert(ps.take((k + 1) as int)[0] == ps[0]);
        assert(ps.take(k as int)[0] == ps[0]);
        assert(ps.drop_first()[k - 1] == ps[k as int]);
        lemma_abs_chain_take(ps.drop_first(), (k - 1) as nat, b);
    }
}

/// Parses a term of the untyped lambda calculus.
pub fn parse(input: &str) -> (r: Result<Term, String>)
    ensures
        match r {
            Ok(t) => parse_spec(input@) == Ok::<STerm, Seq<char>>(t@),
            Err(e) => parse_spec(input@) == Err::<STerm, Seq<char>>(e@),
        },
{
    let tokens = tokenize(input)?;
    let mut p = Parser { tokens, pos: 0 };
    let t = p.parse_expr()?;
    if p.pos < p.tokens.len() {
        let mut msg = String::from_str("unexpected token after expression: ");
        let d = opt_tok_text_exec(p.tokens.get(p.pos));
        msg.append(d.as_str());
        return Err(msg);
    }
    Ok(t)
}

} // verus!
