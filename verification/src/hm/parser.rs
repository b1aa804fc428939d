use vstd::prelude::*;

use crate::hm::ast::{BinOp, STerm, Term};
use crate::names::{
    char_debug_text, chars_of, debug_char, debug_string, is_alphabetic, is_alphanumeric,
    is_digit_char, lemma_numeral_prefix, names_of, numeral_value, push_char, str_eq,
    string_debug_text, alphabetic, alphanumeric,
};

verus! {

// ===== tokens =====

pub enum Tok {
    Lambda,
    Dot,
    LParen,
    RParen,
    Eq,
    EqEq,
    Lt,
    Plus,
    Minus,
    Star,
    If,
    Then,
    Else,
    Let,
    Rec,
    In,
    True,
    False,
    Ident(String),
    IntLit(i64),
}

pub enum STok {
    Lambda,
    Dot,
    LParen,
    RParen,
    Eq,
    EqEq,
    Lt,
    Plus,
    Minus,
    Star,
    If,
    Then,
    Else,
    Let,
    Rec,
    In,
    True,
    False,
    Ident(Seq<char>),
    IntLit(i64),
}

impl View for Tok {
    type V = STok;

    open spec fn view(&self) -> STok {
        match self {
            Tok::Lambda => STok::Lambda,
            Tok::Dot => STok::Dot,
            Tok::LParen => STok::LParen,
            Tok::RParen => STok::RParen,
            Tok::Eq => STok::Eq,
            Tok::EqEq => STok::EqEq,
            Tok::Lt => STok::Lt,
            Tok::Plus => STok::Plus,
            Tok::Minus => STok::Minus,
            Tok::Star => STok::Star,
            Tok::If => STok::If,
            Tok::Then => STok::Then,
            Tok::Else => STok::Else,
            Tok::Let => STok::Let,
            Tok::Rec => STok::Rec,
            Tok::In => STok::In,
            Tok::True => STok::True,
            Tok::False => STok::False,
            Tok::Ident(s) => STok::Ident(s@),
            Tok::IntLit(n) => STok::IntLit(*n),
        }
    }
}

pub open spec fn toks_view(v: Seq<Tok>) -> Seq<STok> {
    v.map_values(|t: Tok| t@)
}

/// The Debug text of a token, as error messages show it.
pub open spec fn tok_text(t: STok) -> Seq<char> {
    match t {
        STok::Lambda => "Lambda"@,
        STok::Dot => "Dot"@,
        STok::LParen => "LParen"@,
        STok::RParen => "RParen"@,
        STok::Eq => "Eq"@,
        STok::EqEq => "EqEq"@,
        STok::Lt => "Lt"@,
        STok::Plus => "Plus"@,
        STok::Minus => "Minus"@,
        STok::Star => "Star"@,
        STok::If => "If"@,
        STok::Then => "Then"@,
        STok::Else => "Else"@,
        STok::Let => "Let"@,
        STok::Rec => "Rec"@,
        STok::In => "In"@,
        STok::True => "True"@,
        STok::False => "False"@,
        STok::Ident(s) => "Ident("@ + string_debug_text(s) + ")"@,
        STok::IntLit(n) => "IntLit("@ + crate::names::dec_int(n as int) + ")"@,
    }
}

/// The Debug text of an optional token.
pub open spec fn opt_tok_text(t: Option<STok>) -> Seq<char> {
    match t {
        Some(t) => "Some("@ + tok_text(t) + ")"@,
        None => "None"@,
    }
}

impl Tok {
    fn copy(&self) -> (r: Tok)
        ensures
            r@ == self@,
    {
        match self {
            Tok::Lambda => Tok::Lambda,
            Tok::Dot => Tok::Dot,
            Tok::LParen => Tok::LParen,
            Tok::RParen => Tok::RParen,
            Tok::Eq => Tok::Eq,
            Tok::EqEq => Tok::EqEq,
            Tok::Lt => Tok::Lt,
            Tok::Plus => Tok::Plus,
            Tok::Minus => Tok::Minus,
            Tok::Star => Tok::Star,
            Tok::If => Tok::If,
            Tok::Then => Tok::Then,
            Tok::Else => Tok::Else,
            Tok::Let => Tok::Let,
            Tok::Rec => Tok::Rec,
            Tok::In => Tok::In,
            Tok::True => Tok::True,
            Tok::False => Tok::False,
            Tok::Ident(s) => Tok::Ident(s.clone()),
            Tok::IntLit(n) => Tok::IntLit(*n),
        }
    }

    fn same(&self, other: &Tok) -> (r: bool)
        ensures
            r == (self@ == other@),
    {
        match (self, other) {
            (Tok::Ident(a), Tok::Ident(b)) => *a == *b,
            (Tok::IntLit(a), Tok::IntLit(b)) => *a == *b,
            (Tok::Ident(_), _) | (_, Tok::Ident(_)) | (Tok::IntLit(_), _) | (_, Tok::IntLit(_)) => false,
            _ => {
                let a = self.tag();
                let b = other.tag();
                a == b
            },
        }
    }

    spec fn spec_tag(t: STok) -> u8 {
        match t {
            STok::Lambda => 0,
            STok::Dot => 1,
            STok::LParen => 2,
            STok::RParen => 3,
            STok::Eq => 4,
            STok::EqEq => 5,
            STok::Lt => 6,
            STok::Plus => 7,
            STok::Minus => 8,
            STok::Star => 9,
            STok::If => 10,
            STok::Then => 11,
            STok::Else => 12,
            STok::Let => 13,
            STok::Rec => 14,
            STok::In => 15,
            STok::True => 16,
            STok::False => 17,
            STok::Ident(_) => 18,
            STok::IntLit(_) => 19,
        }
    }

    fn tag(&self) -> (r: u8)
        ensures
            r == Self::spec_tag(self@),
    {
        match self {
            Tok::Lambda => 0,
            Tok::Dot => 1,
            Tok::LParen => 2,
            Tok::RParen => 3,
            Tok::Eq => 4,
            Tok::EqEq => 5,
            Tok::Lt => 6,
            Tok::Plus => 7,
            Tok::Minus => 8,
            Tok::Star => 9,
            Tok::If => 10,
            Tok::Then => 11,
            Tok::Else => 12,
            Tok::Let => 13,
            Tok::Rec => 14,
            Tok::In => 15,
            Tok::True => 16,
            Tok::False => 17,
            Tok::Ident(_) => 18,
            Tok::IntLit(_) => 19,
        }
    }

    fn text(&self) -> (s: String)
        ensures
            s@ == tok_text(self@),
    {
        match self {
            Tok::Lambda => String::from_str("Lambda"),
            Tok::Dot => String::from_str("Dot"),
            Tok::LParen => String::from_str("LParen"),
            Tok::RParen => String::from_str("RParen"),
            Tok::Eq => String::from_str("Eq"),
            Tok::EqEq => String::from_str("EqEq"),
            Tok::Lt => String::from_str("Lt"),
            Tok::Plus => String::from_str("Plus"),
            Tok::Minus => String::from_str("Minus"),
            Tok::Star => String::from_str("Star"),
            Tok::If => String::from_str("If"),
            Tok::Then => String::from_str("Then"),
            Tok::Else => String::from_str("Else"),
            Tok::Let => String::from_str("Let"),
            Tok::Rec => String::from_str("Rec"),
            Tok::In => String::from_str("In"),
            Tok::True => String::from_str("True"),
            Tok::False => String::from_str("False"),
            Tok::Ident(s) => {
                let mut out = String::from_str("Ident(");
                let d = debug_string(s.as_str());
                out.append(d.as_str());
                out.append(")");
                out
            },
            Tok::IntLit(n) => {
                let mut out = String::from_str("IntLit(");
                let d = crate::names::decimal_i64(*n);
                out.append(d.as_str());
                out.append(")");
                out
            },
        }
    }
}

fn opt_tok_text_exec(t: Option<&Tok>) -> (s: String)
    ensures
        s@ == opt_tok_text(
            match t {
                Some(x) => Some(x@),
                None => None,
            },
        ),
{
    match t {
        Some(x) => {
            let mut out = String::from_str("Some(");
            let d = x.text();
            out.append(d.as_str());
            out.append(")");
            out
        },
        None => String::from_str("None"),
    }
}

// ===== lexing =====

pub open spec fn is_space(c: char) -> bool {
    c == ' ' || c == '\t' || c == '\n' || c == '\r'
}

pub open spec fn is_ident_start(c: char) -> bool {
    alphabetic(c) || c == '_'
}

pub open spec fn is_ident_char(c: char) -> bool {
    alphanumeric(c) || c == '_' || c == '\''
}

/// The end of the run of identifier characters that starts at `i`.
pub open spec fn ident_end(cs: Seq<char>, i: nat) -> nat
    decreases cs.len() - i,
{
    if i < cs.len() && is_ident_char(cs[i as int]) {
        ident_end(cs, i + 1)
    } else {
        i
    }
}

/// The end of the run of ASCII digits that starts at `i`.
pub open spec fn digits_end(cs: Seq<char>, i: nat) -> nat
    decreases cs.len() - i,
{
    if i < cs.len() && is_digit_char(cs[i as int]) {
        digits_end(cs, i + 1)
    } else {
        i
    }
}

/// The token of a word: a keyword or an identifier.
pub open spec fn word_tok(s: Seq<char>) -> STok {
    if s == "if"@ {
        STok::If
    } else if s == "then"@ {
        STok::Then
    } else if s == "else"@ {
        STok::Else
    } else if s == "let"@ {
        STok::Let
    } else if s == "rec"@ {
        STok::Rec
    } else if s == "in"@ {
        STok::In
    } else if s == "true"@ {
        STok::True
    } else if s == "false"@ {
        STok::False
    } else {
        STok::Ident(s)
    }
}

fn word_tok_exec(s: String) -> (t: Tok)
    ensures
        t@ == word_tok(s@),
{
    if str_eq(s.as_str(), "if") {
        Tok::If
    } else if str_eq(s.as_str(), "then") {
        Tok::Then
    } else if str_eq(s.as_str(), "else") {
        Tok::Else
    } else if str_eq(s.as_str(), "let") {
        Tok::Let
    } else if str_eq(s.as_str(), "rec") {
        Tok::Rec
    } else if str_eq(s.as_str(), "in") {
        Tok::In
    } else if str_eq(s.as_str(), "true") {
        Tok::True
    } else if str_eq(s.as_str(), "false") {
        Tok::False
    } else {
        Tok::Ident(s)
    }
}

pub open spec fn cons_tok(t: STok, r: Result<Seq<STok>, Seq<char>>) -> Result<Seq<STok>, Seq<char>> {
    match r {
        Ok(rest) => Ok(seq![t] + rest),
        Err(e) => Err(e),
    }
}

pub open spec fn prepend_toks(ts: Seq<STok>, r: Result<Seq<STok>, Seq<char>>) -> Result<
    Seq<STok>,
    Seq<char>,
> {
    match r {
        Ok(rest) => Ok(ts + rest),
        Err(e) => Err(e),
    }
}

/// The tokens of `cs` from position `i` on, or the lexing error.
pub open spec fn lex(cs: Seq<char>, i: nat) -> Result<Seq<STok>, Seq<char>>
    decreases cs.len() - i,
{
    if i >= cs.len() {
        Ok(Seq::<STok>::empty())
    } else {
        let c = cs[i as int];
        let next: Option<char> = if i + 1 < cs.len() {
            Some(cs[i + 1 as int])
        } else {
            None
        };
        if is_space(c) {
            lex(cs, i + 1)
        } else if c == 'λ' || c == '\\' {
            cons_tok(STok::Lambda, lex(cs, i + 1))
        } else if c == '.' {
            cons_tok(STok::Dot, lex(cs, i + 1))
        } else if c == '(' {
            cons_tok(STok::LParen, lex(cs, i + 1))
        } else if c == ')' {
            cons_tok(STok::RParen, lex(cs, i + 1))
        } else if c == '+' {
            cons_tok(STok::Plus, lex(cs, i + 1))
        } else if c == '*' {
            cons_tok(STok::Star, lex(cs, i + 1))
        } else if c == '<' {
            cons_tok(STok::Lt, lex(cs, i + 1))
        } else if c == '-' {
            cons_tok(STok::Minus, lex(cs, i + 1))
        } else if c == '=' {
            if next == Some('=') {
                cons_tok(STok::EqEq, lex(cs, i + 2))
            } else {
                cons_tok(STok::Eq, lex(cs, i + 1))
            }
        } else if is_digit_char(c) {
            let j = digits_end(cs, i);
            let v = numeral_value(cs.subrange(i as int, j as int));
            if i < j <= cs.len() {
                if v > i64::MAX {
                    Err("integer literal overflow"@)
                } else {
                    cons_tok(STok::IntLit(v as i64), lex(cs, j))
                }
            } else {
                Err(Seq::<char>::empty())
            }
        } else if is_ident_start(c) {
            let j = ident_end(cs, i);
            if i < j <= cs.len() {
                cons_tok(word_tok(cs.subrange(i as int, j as int)), lex(cs, j))
            } else {
                Err(Seq::<char>::empty())
            }
        } else {
            Err("unexpected character: "@ + char_debug_text(c))
        }
    }
}

proof fn lemma_prepend_push(a: Seq<STok>, t: STok, r: Result<Seq<STok>, Seq<char>>)
    ensures
        prepend_toks(a, cons_tok(t, r)) == prepend_toks(a.push(t), r),
{
    if let Ok(rest) = r {
        assert(a + (seq![t] + rest) =~= a.push(t) + rest);
    }
}

proof fn lemma_ident_end(cs: Seq<char>, i: nat, j: nat)
    requires
        i <= j <= cs.len(),
        forall|k: int| i <= k < j ==> is_ident_char(cs[k]),
        j == cs.len() || !is_ident_char(cs[j as int]),
    ensures
        ident_end(cs, i) == j,
    decreases j - i,
{
    if i < j {
        lemma_ident_end(cs, i + 1, j);
    }
}

proof fn lemma_digits_end(cs: Seq<char>, i: nat, j: nat)
    requires
        i <= j <= cs.len(),
        forall|k: int| i <= k < j ==> is_digit_char(cs[k]),
        j == cs.len() || !is_digit_char(cs[j as int]),
    ensures
        digits_end(cs, i) == j,
    decreases j - i,
{
    if i < j {
        lemma_digits_end(cs, i + 1, j);
    }
}

fn read_number(cs: &Vec<char>, start: usize) -> (r: Result<(i64, usize), String>)
    requires
        start < cs.len(),
        is_digit_char(cs@[start as int]),
    ensures
        match r {
            Ok((n, j)) => j == digits_end(cs@, start as nat) && start < j <= cs.len()
                && n as int == numeral_value(cs@.subrange(start as int, j as int)),
            Err(e) => e@ == "integer literal overflow"@ && numeral_value(
                cs@.subrange(start as int, digits_end(cs@, start as nat) as int),
            ) > i64::MAX,
        },
{
    let mut n: i64 = 0;
    let mut i = start;
    while i < cs.len() && '0' <= cs[i] && cs[i] <= '9'
        invariant
            start <= i <= cs.len(),
            forall|k: int| start <= k < i ==> is_digit_char(cs@[k]),
            n as int == numeral_value(cs@.subrange(start as int, i as int)),
            i == start ==> is_digit_char(cs@[start as int]),
            start < cs.len(),
            n >= 0,
        decreases cs.len() - i,
    {
        let d = (cs[i] as u32 - 48) as i64;
        let ghost pre = cs@.subrange(start as int, i as int);
        let ghost ext = cs@.subrange(start as int, i + 1);
        assert(ext.drop_last() =~= pre);
        assert(ext.last() == cs@[i as int]);
        assert(numeral_value(ext) == n * 10 + d);
        assert(forall|k: int| start <= k < i + 1 ==> is_digit_char(cs@[k]));
        match n.checked_mul(10) {
            Some(m) => match m.checked_add(d) {
                Some(v) => {
                    n = v;
                },
                None => {
                    proof {
                        lemma_digits_overflow(cs@, start as nat, (i + 1) as nat);
                    }
                    return Err(String::from_str("integer literal overflow"));
                },
            },
            None => {
                proof {
                    lemma_digits_overflow(cs@, start as nat, (i + 1) as nat);
                }
                return Err(String::from_str("integer literal overflow"));
            },
        }
        i = i + 1;
    }
    proof {
        lemma_digits_end(cs@, start as nat, i as nat);
    }
    Ok((n, i))
}

/// A numeral whose prefix is already too large is too large.
proof fn lemma_digits_overflow(cs: Seq<char>, start: nat, k: nat)
    requires
        start < k <= cs.len(),
        forall|m: int| start <= m < k ==> is_digit_char(cs[m]),
        numeral_value(cs.subrange(start as int, k as int)) > i64::MAX,
    ensures
        numeral_value(cs.subrange(start as int, digits_end(cs, start as nat) as int)) > i64::MAX,
{
    let j = digits_end_ge(cs, start, k);
    let whole = cs.subrange(start as int, j as int);
    assert(whole.take(k - start) =~= cs.subrange(start as int, k as int));
    assert forall|m: int| 0 <= m < whole.len() implies is_digit_char(#[trigger] whole[m]) by {
        lemma_digits_end_digits(cs, start, j, start + m);
    }
    lemma_numeral_prefix(whole, k - start);
}

/// `digits_end` from `start` reaches past every all-digit prefix.
proof fn digits_end_ge(cs: Seq<char>, start: nat, k: nat) -> (j: nat)
    requires
        start <= k <= cs.len(),
        forall|m: int| start <= m < k ==> is_digit_char(cs[m]),
    ensures
        j == digits_end(cs, start),
        k <= j <= cs.len(),
    decreases k - start,
{
    if start < k {
        let j = digits_end_ge(cs, start + 1, k);
        j
    } else {
        lemma_digits_end_bound(cs, start);
        digits_end(cs, start)
    }
}

proof fn lemma_digits_end_bound(cs: Seq<char>, i: nat)
    requires
        i <= cs.len(),
    ensures
        i <= digits_end(cs, i) <= cs.len(),
    decreases cs.len() - i,
{
    if i < cs.len() && is_digit_char(cs[i as int]) {
        lemma_digits_end_bound(cs, i + 1);
    }
}

proof fn lemma_digits_end_digits(cs: Seq<char>, i: nat, j: nat, m: int)
    requires
        j == digits_end(cs, i),
        i <= m < j,
    ensures
        is_digit_char(cs[m]),
    decreases cs.len() - i,
{
    if i < cs.len() && is_digit_char(cs[i as int]) {
        if m > i {
            lemma_digits_end_digits(cs, i + 1, j, m);
        }
    }
}

fn tokenize(input: &str) -> (r: Result<Vec<Tok>, String>)
    ensures
        match r {
            Ok(ts) => lex(input@, 0) == Ok::<Seq<STok>, Seq<char>>(toks_view(ts@)),
            Err(e) => lex(input@, 0) == Err::<Seq<STok>, Seq<char>>(e@),
        },
{
    let cs = chars_of(input);
    let mut tokens: Vec<Tok> = Vec::new();
    let mut i: usize = 0;
    while i < cs.len()
        invariant
            i <= cs.len(),
            cs@ == input@,
            lex(cs@, 0) == prepend_toks(toks_view(tokens@), lex(cs@, i as nat)),
        decreases cs.len() - i,
    {
        let c = cs[i];
        let ghost before = tokens@;
        let ghost i0 = i;
        let next: Option<char> = if i + 1 < cs.len() {
            Some(cs[i + 1])
        } else {
            None
        };
        if c == ' ' || c == '\t' || c == '\n' || c == '\r' {
            i = i + 1;
        } else if c == 'λ' || c == '\\' {
            tokens.push(Tok::Lambda);
            i = i + 1;
        } else if c == '.' {
            tokens.push(Tok::Dot);
            i = i + 1;
        } else if c == '(' {
            tokens.push(Tok::LParen);
            i = i + 1;
        } else if c == ')' {
            tokens.push(Tok::RParen);
            i = i + 1;
        } else if c == '+' {
            tokens.push(Tok::Plus);
            i = i + 1;
        } else if c == '*' {
            tokens.push(Tok::Star);
            i = i + 1;
        } else if c == '<' {
            tokens.push(Tok::Lt);
            i = i + 1;
        } else if c == '-' {
            tokens.push(Tok::Minus);
            i = i + 1;
        } else if c == '=' {
            if next == Some('=') {
                tokens.push(Tok::EqEq);
                i = i + 2;
            } else {
                tokens.push(Tok::Eq);
                i = i + 1;
            }
        } else if '0' <= c && c <= '9' {
            match read_number(&cs, i) {
                Ok((n, j)) => {
                    tokens.push(Tok::IntLit(n));
                    i = j;
                },
                Err(e) => {
                    proof {
                        lemma_digits_end_bound(cs@, (i + 1) as nat);
                        assert(digits_end(cs@, i as nat) == digits_end(cs@, (i + 1) as nat));
                        assert(lex(cs@, i as nat) == Err::<Seq<STok>, Seq<char>>(e@));
                    }
                    return Err(e);
                },
            }
        } else if is_alphabetic(c) || c == '_' {
            let start = i;
            let mut s = String::new();
            while i < cs.len() && (is_alphanumeric(cs[i]) || cs[i] == '_' || cs[i] == '\'')
                invariant
                    start <= i <= cs.len(),
                    cs@ == input@,
                    s@ == cs@.subrange(start as int, i as int),
                    forall|k: int| start <= k < i ==> is_ident_char(cs@[k]),
                    i == start ==> is_ident_start(cs@[start as int]),
                    start < cs.len(),
                decreases cs.len() - i,
            {
                push_char(&mut s, cs[i]);
                assert(cs@.subrange(start as int, i as int).push(cs@[i as int]) =~= cs@.subrange(
                    start as int,
                    i + 1,
                ));
                i = i + 1;
            }
            proof {
                lemma_ident_end(cs@, start as nat, i as nat);
            }
            tokens.push(word_tok_exec(s));
        } else {
            let mut msg = String::from_str("unexpected character: ");
            let d = debug_char(c);
            msg.append(d.as_str());
            return Err(msg);
        }
        proof {
            if tokens@.len() > before.len() {
                let t = tokens@[before.len() as int];
                assert(toks_view(tokens@) =~= toks_view(before).push(t@));
                lemma_prepend_push(toks_view(before), t@, lex(cs@, i as nat));
            }
        }
    }
    assert(toks_view(tokens@) + Seq::<STok>::empty() =~= toks_view(tokens@));
    Ok(tokens)
}

// ===== grammar =====
//
//   expr   := let | if | lambda | comparison
//   let    := 'let' 'rec'? IDENT '=' expr 'in' expr
//   if     := 'if' expr 'then' expr 'else' expr
//   lambda := ('\' | 'λ') IDENT+ '.' expr
//   comparison := add (('==' | '<') add)?
//   add    := mul (('+' | '-') mul)*
//   mul    := app ('*' app)*
//   app    := atom atom*
//   atom   := IDENT | 'true' | 'false' | INT | '(' expr ')'

pub type PResult = Result<(STerm, nat), Seq<char>>;

pub open spec fn tok_at(ts: Seq<STok>, p: nat) -> Option<STok> {
    if p < ts.len() {
        Some(ts[p as int])
    } else {
        None
    }
}

/// Consuming an expected token: the position after it, or the error.
pub open spec fn p_expect(ts: Seq<STok>, p: nat, want: STok, ctx: Seq<char>) -> Result<nat, Seq<char>> {
    if tok_at(ts, p) == Some(want) {
        Ok(p + 1)
    } else {
        Err("expected "@ + tok_text(want) + " "@ + ctx + ", got "@ + opt_tok_text(tok_at(ts, p)))
    }
}

pub open spec fn p_expr(ts: Seq<STok>, p: nat) -> PResult
    decreases ts.len() - p, 6nat,
{
    if p > ts.len() {
        Err(Seq::<char>::empty())
    } else {
        match tok_at(ts, p) {
            Some(STok::Let) => p_let(ts, p),
            Some(STok::If) => p_if(ts, p),
            Some(STok::Lambda) => p_lambda(ts, p),
            _ => p_comparison(ts, p),
        }
    }
}

/// `let x = e1 in e2`, or `let rec` when the token after `let` is `rec`.
pub open spec fn p_let(ts: Seq<STok>, p: nat) -> PResult
    decreases ts.len() - p, 5nat,
{
    let is_rec = tok_at(ts, p + 1) == Some(STok::Rec);
    let q0: nat = if is_rec {
        p + 2
    } else {
        p + 1
    };
    match tok_at(ts, q0) {
        Some(STok::Ident(name)) => match p_expect(ts, q0 + 1, STok::Eq, "after let-bound name"@) {
            Ok(q) => if p < q <= ts.len() {
                match p_expr(ts, q) {
                    Ok((e1, q2)) => match p_expect(ts, q2, STok::In, "after let binding"@) {
                        Ok(q3) => if p < q3 <= ts.len() {
                            match p_expr(ts, q3) {
                                Ok((e2, q4)) => Ok(
                                    (
                                        if is_rec {
                                            STerm::LetRec(name, Box::new(e1), Box::new(e2))
                                        } else {
                                            STerm::Let(name, Box::new(e1), Box::new(e2))
                                        },
                                        q4,
                                    ),
                                ),
                                Err(e) => Err(e),
                            }
                        } else {
                            Err(Seq::<char>::empty())
                        },
                        Err(e) => Err(e),
                    },
                    Err(e) => Err(e),
                }
            } else {
                Err(Seq::<char>::empty())
            },
            Err(e) => Err(e),
        },
        other => Err("expected identifier after 'let', got "@ + opt_tok_text(other)),
    }
}

pub open spec fn p_if(ts: Seq<STok>, p: nat) -> PResult
    decreases ts.len() - p, 5nat,
{
    if p + 1 <= ts.len() {
        match p_expr(ts, p + 1) {
            Ok((c, q)) => match p_expect(ts, q, STok::Then, "after if condition"@) {
                Ok(q2) => if p < q2 <= ts.len() {
                    match p_expr(ts, q2) {
                        Ok((t, q3)) => match p_expect(ts, q3, STok::Else, "after then-branch"@) {
                            Ok(q4) => if p < q4 <= ts.len() {
                                match p_expr(ts, q4) {
                                    Ok((e, q5)) => Ok(
                                        (STerm::If(Box::new(c), Box::new(t), Box::new(e)), q5),
                                    ),
                                    Err(e) => Err(e),
                                }
                            } else {
                                Err(Seq::<char>::empty())
                            },
                            Err(e) => Err(e),
                        },
                        Err(e) => Err(e),
                    }
                } else {
                    Err(Seq::<char>::empty())
                },
                Err(e) => Err(e),
            },
            Err(e) => Err(e),
        }
    } else {
        Err(Seq::<char>::empty())
    }
}

/// The parameter names from position `q` up to the `.`, and the position
/// of the `.`.
pub open spec fn p_params(ts: Seq<STok>, q: nat) -> Result<(Seq<Seq<char>>, nat), Seq<char>>
    decreases ts.len() - q,
{
    match tok_at(ts, q) {
        Some(STok::Ident(name)) => if tok_at(ts, q + 1) == Some(STok::Dot) {
            Ok((seq![name], q + 1))
        } else {
            match p_params(ts, q + 1) {
                Ok((rest, d)) => Ok((seq![name] + rest, d)),
                Err(e) => Err(e),
            }
        },
        other => Err("expected parameter name, got "@ + opt_tok_text(other)),
    }
}

/// Nested abstractions over the names, innermost last.
pub open spec fn abs_over(names: Seq<Seq<char>>, body: STerm) -> STerm
    decreases names.len(),
{
    if names.len() == 0 {
        body
    } else {
        STerm::Abs(names[0], Box::new(abs_over(names.drop_first(), body)))
    }
}

/// `λx y. body`: one abstraction per parameter name.
pub open spec fn p_lambda(ts: Seq<STok>, p: nat) -> PResult
    decreases ts.len() - p, 5nat,
{
    match p_params(ts, p + 1) {
        Ok((names, d)) => match p_expect(ts, d, STok::Dot, "after parameter list"@) {
            Ok(q) => if p < q <= ts.len() {
                match p_expr(ts, q) {
                    Ok((body, q2)) => Ok((abs_over(names, body), q2)),
                    Err(e) => Err(e),
                }
            } else {
                Err(Seq::<char>::empty())
            },
            Err(e) => Err(e),
        },
        Err(e) => Err(e),
    }
}

pub open spec fn comparison_op(t: Option<STok>) -> Option<BinOp> {
    match t {
        Some(STok::EqEq) => Some(BinOp::Eq),
        Some(STok::Lt) => Some(BinOp::Lt),
        _ => None,
    }
}

pub open spec fn p_comparison(ts: Seq<STok>, p: nat) -> PResult
    decreases ts.len() - p, 4nat,
{
    match p_add(ts, p) {
        Ok((left, q)) => match comparison_op(tok_at(ts, q)) {
            Some(op) => if p < q + 1 <= ts.len() {
                match p_add(ts, q + 1) {
                    Ok((right, q2)) => Ok((STerm::BinOp(op, Box::new(left), Box::new(right)), q2)),
                    Err(e) => Err(e),
                }
            } else {
                Err(Seq::<char>::empty())
            },
            None => Ok((left, q)),
        },
        Err(e) => Err(e),
    }
}

pub open spec fn add_op(t: Option<STok>) -> Option<BinOp> {
    match t {
        Some(STok::Plus) => Some(BinOp::Add),
        Some(STok::Minus) => Some(BinOp::Sub),
        _ => None,
    }
}

pub open spec fn p_add(ts: Seq<STok>, p: nat) -> PResult
    decreases ts.len() - p, 3nat,
{
    match p_mul(ts, p) {
        Ok((left, q)) => if p < q <= ts.len() {
            p_add_rest(ts, q, left)
        } else {
            Err(Seq::<char>::empty())
        },
        Err(e) => Err(e),
    }
}

pub open spec fn p_add_rest(ts: Seq<STok>, p: nat, left: STerm) -> PResult
    decreases ts.len() - p, 3nat,
{
    match add_op(tok_at(ts, p)) {
        Some(op) => if p + 1 <= ts.len() {
            match p_mul(ts, p + 1) {
                Ok((right, q)) => if p < q <= ts.len() {
                    p_add_rest(ts, q, STerm::BinOp(op, Box::new(left), Box::new(right)))
                } else {
                    Err(Seq::<char>::empty())
                },
                Err(e) => Err(e),
            }
        } else {
            Err(Seq::<char>::empty())
        },
        None => Ok((left, p)),
    }
}

pub open spec fn p_mul(ts: Seq<STok>, p: nat) -> PResult
    decreases ts.len() - p, 2nat,
{
    match p_app(ts, p) {
        Ok((left, q)) => if p < q <= ts.len() {
            p_mul_rest(ts, q, left)
        } else {
            Err(Seq::<char>::empty())
        },
        Err(e) => Err(e),
    }
}

pub open spec fn p_mul_rest(ts: Seq<STok>, p: nat, left: STerm) -> PResult
    decreases ts.len() - p, 2nat,
{
    if tok_at(ts, p) == Some(STok::Star) {
        if p + 1 <= ts.len() {
            match p_app(ts, p + 1) {
                Ok((right, q)) => if p < q <= ts.len() {
                    p_mul_rest(ts, q, STerm::BinOp(BinOp::Mul, Box::new(left), Box::new(right)))
                } else {
                    Err(Seq::<char>::empty())
                },
                Err(e) => Err(e),
            }
        } else {
            Err(Seq::<char>::empty())
        }
    } else {
        Ok((left, p))
    }
}

pub open spec fn starts_atom(t: Option<STok>) -> bool {
    match t {
        Some(STok::Ident(_)) | Some(STok::LParen) | Some(STok::True) | Some(STok::False) | Some(
            STok::IntLit(_),
        ) => true,
        _ => false,
    }
}

pub open spec fn p_app(ts: Seq<STok>, p: nat) -> PResult
    decreases ts.len() - p, 1nat,
{
    match p_atom(ts, p) {
        Ok((left, q)) => if p < q <= ts.len() {
            p_app_rest(ts, q, left)
        } else {
            Err(Seq::<char>::empty())
        },
        Err(e) => Err(e),
    }
}

pub open spec fn p_app_rest(ts: Seq<STok>, p: nat, left: STerm) -> PResult
    decreases ts.len() - p, 1nat,
{
    if p > ts.len() {
        Err(Seq::<char>::empty())
    } else if starts_atom(tok_at(ts, p)) {
        match p_atom(ts, p) {
            Ok((right, q)) => if p < q <= ts.len() {
                p_app_rest(ts, q, STerm::App(Box::new(left), Box::new(right)))
            } else {
                Err(Seq::<char>::empty())
            },
            Err(e) => Err(e),
        }
    } else {
        Ok((left, p))
    }
}

pub open spec fn p_atom(ts: Seq<STok>, p: nat) -> PResult
    decreases ts.len() - p, 0nat,
{
    match tok_at(ts, p) {
        Some(STok::Ident(x)) => Ok((STerm::Var(x), p + 1)),
        Some(STok::True) => Ok((STerm::BoolLit(true), p + 1)),
        Some(STok::False) => Ok((STerm::BoolLit(false), p + 1)),
        Some(STok::IntLit(n)) => Ok((STerm::IntLit(n), p + 1)),
        Some(STok::LParen) => match p_expr(ts, p + 1) {
            Ok((e, q)) => match p_expect(ts, q, STok::RParen, "after expression"@) {
                Ok(q2) => Ok((e, q2)),
                Err(err) => Err(err),
            },
            Err(e) => Err(e),
        },
        other => Err("unexpected token: "@ + opt_tok_text(other)),
    }
}

/// The term a whole token sequence denotes, or the error.
pub open spec fn parse_tokens(ts: Seq<STok>) -> Result<STerm, Seq<char>> {
    match p_expr(ts, 0) {
        Ok((t, q)) => if q < ts.len() {
            Err("unexpected token after expression: "@ + opt_tok_text(tok_at(ts, q)))
        } else {
            Ok(t)
        },
        Err(e) => Err(e),
    }
}

/// What `parse` gives for an input string.
pub open spec fn parse_spec(input: Seq<char>) -> Result<STerm, Seq<char>> {
    match lex(input, 0) {
        Ok(ts) => parse_tokens(ts),
        Err(e) => Err(e),
    }
}

/// A parse result matches its specification from position `p0`, ending at
/// `p1`.
pub open spec fn agrees(r: Result<Term, String>, s: PResult, p0: nat, p1: nat) -> bool {
    match r {
        Ok(t) => s == Ok::<(STerm, nat), Seq<char>>((t@, p1)) && p0 < p1,
        Err(e) => s == Err::<(STerm, nat), Seq<char>>(e@),
    }
}

struct Parser {
    tokens: Vec<Tok>,
    pos: usize,
}

impl Parser {
    spec fn ts(&self) -> Seq<STok> {
        toks_view(self.tokens@)
    }

    fn peek(&self) -> (r: Option<&Tok>)
        ensures
            match r {
                Some(t) => tok_at(self.ts(), self.pos as nat) == Some(t@),
                None => tok_at(self.ts(), self.pos as nat) is None,
            },
    {
        if self.pos < self.tokens.len() {
            Some(&self.tokens[self.pos])
        } else {
            None
        }
    }

    fn advance(&mut self) -> (r: Option<Tok>)
        requires
            old(self).pos <= old(self).tokens.len(),
        ensures
            final(self).tokens == old(self).tokens,
            match r {
                Some(t) => tok_at(old(self).ts(), old(self).pos as nat) == Some(t@)
                    && final(self).pos == old(self).pos + 1,
                None => tok_at(old(self).ts(), old(self).pos as nat) is None
                    && final(self).pos == old(self).pos,
            },
            final(self).pos <= final(self).tokens.len(),
    {
        if self.pos < self.tokens.len() {
            let t = self.tokens[self.pos].copy();
            self.pos = self.pos + 1;
            Some(t)
        } else {
            None
        }
    }

    fn expect(&mut self, want: &Tok, ctx: &str) -> (r: Result<(), String>)
        requires
            old(self).pos <= old(self).tokens.len(),
        ensures
            final(self).tokens == old(self).tokens,
            final(self).pos <= final(self).tokens.len(),
            match r {
                Ok(_) => p_expect(old(self).ts(), old(self).pos as nat, want@, ctx@) == Ok::<nat, Seq<char>>(final(self).pos as nat),
                Err(e) => p_expect(old(self).ts(), old(self).pos as nat, want@, ctx@) == Err::<nat, Seq<char>>(e@),
            },
    {
        let got = self.advance();
        match got {
            Some(t) => {
                if t.same(want) {
                    return Ok(());
                }
                let mut msg = String::from_str("expected ");
                msg.append(want.text().as_str());
                msg.append(" ");
                msg.append(ctx);
                msg.append(", got ");
                msg.append(opt_tok_text_exec(Some(&t)).as_str());
                Err(msg)
            },
            None => {
                let mut msg = String::from_str("expected ");
                msg.append(want.text().as_str());
                msg.append(" ");
                msg.append(ctx);
                msg.append(", got ");
                msg.append(opt_tok_text_exec(None).as_str());
                Err(msg)
            },
        }
    }

    fn parse_expr(&mut self) -> (r: Result<Term, String>)
        requires
            old(self).pos <= old(self).tokens.len(),
        ensures
            final(self).tokens == old(self).tokens,
            final(self).pos <= final(self).tokens.len(),
            agrees(r, p_expr(old(self).ts(), old(self).pos as nat), old(self).pos as nat, final(self).pos as nat),
        decreases old(self).tokens.len() - old(self).pos, 6nat,
    {
        let which: u8 = match self.peek() {
            Some(Tok::Let) => 0,
            Some(Tok::If) => 1,
            Some(Tok::Lambda) => 2,
            _ => 3,
        };
        if which == 0 {
            self.parse_let()
        } else if which == 1 {
            self.parse_if()
        } else if which == 2 {
            self.parse_lambda()
        } else {
            self.parse_comparison()
        }
    }

    fn parse_let(&mut self) -> (r: Result<Term, String>)
        requires
            old(self).pos < old(self).tokens.len(),
            tok_at(old(self).ts(), old(self).pos as nat) == Some(STok::Let),
        ensures
            final(self).tokens == old(self).tokens,
            final(self).pos <= final(self).tokens.len(),
            agrees(r, p_let(old(self).ts(), old(self).pos as nat), old(self).pos as nat, final(self).pos as nat),
        decreases old(self).tokens.len() - old(self).pos, 5nat,
    {
        self.advance();
        let is_rec = match self.peek() {
            Some(Tok::Rec) => true,
            _ => false,
        };
        if is_rec {
            self.advance();
        }
        let name = match self.advance() {
            Some(Tok::Ident(s)) => s,
            other => {
                let mut msg = String::from_str("expected identifier after 'let', got ");
                msg.append(opt_tok_text_exec(match &other { Some(t) => Some(t), None => None }).as_str());
                return Err(msg);
            },
        };
        self.expect(&Tok::Eq, "after let-bound name")?;
        let e1 = self.parse_expr()?;
        self.expect(&Tok::In, "after let binding")?;
        let e2 = self.parse_expr()?;
        if is_rec {
            Ok(Term::LetRec(name, Box::new(e1), Box::new(e2)))
        } else {
            Ok(Term::Let(name, Box::new(e1), Box::new(e2)))
        }
    }

    fn parse_if(&mut self) -> (r: Result<Term, String>)
        requires
            old(self).pos < old(self).tokens.len(),
            tok_at(old(self).ts(), old(self).pos as nat) == Some(STok::If),
        ensures
            final(self).tokens == old(self).tokens,
            final(self).pos <= final(self).tokens.len(),
            agrees(r, p_if(old(self).ts(), old(self).pos as nat), old(self).pos as nat, final(self).pos as nat),
        decreases old(self).tokens.len() - old(self).pos, 5nat,
    {
        self.advance();
        let c = self.parse_expr()?;
        self.expect(&Tok::Then, "after if condition")?;
        let t = self.parse_expr()?;
        self.expect(&Tok::Else, "after then-branch")?;
        let e = self.parse_expr()?;
        Ok(Term::If(Box::new(c), Box::new(t), Box::new(e)))
    }

    fn parse_lambda(&mut self) -> (r: Result<Term, String>)
        requires
            old(self).pos < old(self).tokens.len(),
            tok_at(old(self).ts(), old(self).pos as nat) == Some(STok::Lambda),
        ensures
            final(self).tokens == old(self).tokens,
            final(self).pos <= final(self).tokens.len(),
            agrees(r, p_lambda(old(self).ts(), old(self).pos as nat), old(self).pos as nat, final(self).pos as nat),
        decreases old(self).tokens.len() - old(self).pos, 5nat,
    {
        let ghost ts = self.ts();
        let ghost p0 = self.pos as nat;
        self.advance();
        let mut params: Vec<String> = Vec::new();
        let mut done = false;
        while !done
            invariant
                self.pos <= self.tokens.len(),
                self.tokens == old(self).tokens,
                ts == old(self).ts(),
                self.ts() == ts,
                p0 == old(self).pos,
                p0 < self.pos,
                !done ==> p_params(ts, p0 + 1) == (match p_params(ts, self.pos as nat) {
                    Ok((rest, d)) => Ok((names_of(params@) + rest, d)),
                    Err(e) => Err(e),
                }),
                done ==> p_params(ts, p0 + 1) == Ok::<(Seq<Seq<char>>, nat), Seq<char>>(
                    (names_of(params@), self.pos as nat),
                ) && tok_at(ts, self.pos as nat) == Some(STok::Dot),
            decreases self.tokens.len() - self.pos,
        {
            let ghost q = self.pos as nat;
            let ghost before = names_of(params@);
            let name = match self.advance() {
                Some(Tok::Ident(s)) => s,
                other => {
                    let mut msg = String::from_str("expected parameter name, got ");
                    msg.append(opt_tok_text_exec(match &other { Some(t) => Some(t), None => None }).as_str());
                    return Err(msg);
                },
            };
            params.push(name);
            proof {
                assert(names_of(params@) =~= before + seq![params@.last()@]);
                assert forall|rest: Seq<Seq<char>>| #[trigger] (before + (seq![params@.last()@] + rest)) == names_of(params@) + rest by {
                    assert(before + (seq![params@.last()@] + rest) =~= names_of(params@) + rest);
                }
            }
            let at_dot = match self.peek() {
                Some(Tok::Dot) => true,
                _ => false,
            };
            if at_dot {
                done = true;
            }
        }
        self.expect(&Tok::Dot, "after parameter list")?;
        let body = self.parse_expr()?;
        let ghost names = names_of(params@);
        let mut t = body;
        let mut i = params.len();
        assert(names.skip(i as int) =~= Seq::<Seq<char>>::empty());
        while i > 0
            invariant
                i <= params.len(),
                names == names_of(params@),
                t@ == abs_over(names.skip(i as int), body@),
            decreases i,
        {
            i = i - 1;
            assert(names.skip(i as int).drop_first() =~= names.skip(i + 1));
            t = Term::Abs(params[i].clone(), Box::new(t));
        }
        assert(names.skip(0) =~= names);
        Ok(t)
    }

    fn parse_comparison(&mut self) -> (r: Result<Term, String>)
        requires
            old(self).pos <= old(self).tokens.len(),
        ensures
            final(self).tokens == old(self).tokens,
            final(self).pos <= final(self).tokens.len(),
            agrees(r, p_comparison(old(self).ts(), old(self).pos as nat), old(self).pos as nat, final(self).pos as nat),
        decreases old(self).tokens.len() - old(self).pos, 4nat,
    {
        let left = self.parse_add()?;
        let op = match self.peek() {
            Some(Tok::EqEq) => Some(BinOp::Eq),
            Some(Tok::Lt) => Some(BinOp::Lt),
            _ => None,
        };
        if let Some(op) = op {
            self.advance();
            let right = self.parse_add()?;
            Ok(Term::BinOp(op, Box::new(left), Box::new(right)))
        } else {
            Ok(left)
        }
    }

    fn parse_add(&mut self) -> (r: Result<Term, String>)
        requires
            old(self).pos <= old(self).tokens.len(),
        ensures
            final(self).tokens == old(self).tokens,
            final(self).pos <= final(self).tokens.len(),
            agrees(r, p_add(old(self).ts(), old(self).pos as nat), old(self).pos as nat, final(self).pos as nat),
        decreases old(self).tokens.len() - old(self).pos, 3nat,
    {
        let ghost ts = self.ts();
        let ghost p0 = self.pos as nat;
        let mut left = self.parse_mul()?;
        loop
            invariant
                self.pos <= self.tokens.len(),
                self.tokens == old(self).tokens,
                ts == old(self).ts(),
                self.ts() == ts,
                p0 == old(self).pos,
                p0 < self.pos,
                p_add(ts, p0) == p_add_rest(ts, self.pos as nat, left@),
            decreases self.tokens.len() - self.pos,
        {
            let op = match self.peek() {
                Some(Tok::Plus) => BinOp::Add,
                Some(Tok::Minus) => BinOp::Sub,
                _ => {
                    return Ok(left);
                },
            };
            self.advance();
            let right = self.parse_mul()?;
            left = Term::BinOp(op, Box::new(left), Box::new(right));
        }
    }

    fn parse_mul(&mut self) -> (r: Result<Term, String>)
        requires
            old(self).pos <= old(self).tokens.len(),
        ensures
            final(self).tokens == old(self).tokens,
            final(self).pos <= final(self).tokens.len(),
            agrees(r, p_mul(old(self).ts(), old(self).pos as nat), old(self).pos as nat, final(self).pos as nat),
        decreases old(self).tokens.len() - old(self).pos, 2nat,
    {
        let ghost ts = self.ts();
        let ghost p0 = self.pos as nat;
        let mut left = self.parse_app()?;
        loop
            invariant
                self.pos <= self.tokens.len(),
                self.tokens == old(self).tokens,
                ts == old(self).ts(),
                self.ts() == ts,
                p0 == old(self).pos,
                p0 < self.pos,
                p_mul(ts, p0) == p_mul_rest(ts, self.pos as nat, left@),
            decreases self.tokens.len() - self.pos,
        {
            let is_star = match self.peek() {
                Some(Tok::Star) => true,
                _ => false,
            };
            if !is_star {
                return Ok(left);
            }
            self.advance();
            let right = self.parse_app()?;
            left = Term::BinOp(BinOp::Mul, Box::new(left), Box::new(right));
        }
    }

    fn parse_app(&mut self) -> (r: Result<Term, String>)
        requires
            old(self).pos <= old(self).tokens.len(),
        ensures
            final(self).tokens == old(self).tokens,
            final(self).pos <= final(self).tokens.len(),
            agrees(r, p_app(old(self).ts(), old(self).pos as nat), old(self).pos as nat, final(self).pos as nat),
        decreases old(self).tokens.len() - old(self).pos, 1nat,
    {
        let ghost ts = self.ts();
        let ghost p0 = self.pos as nat;
        let mut left = self.parse_atom()?;
        loop
            invariant
                self.pos <= self.tokens.len(),
                self.tokens == old(self).tokens,
                ts == old(self).ts(),
                self.ts() == ts,
                p0 == old(self).pos,
                p0 < self.pos,
                p_app(ts, p0) == p_app_rest(ts, self.pos as nat, left@),
            decreases self.tokens.len() - self.pos,
        {
            let more = match self.peek() {
                Some(Tok::Ident(_)) | Some(Tok::LParen) | Some(Tok::True) | Some(Tok::False)
                | Some(Tok::IntLit(_)) => true,
                _ => false,
            };
            if !more {
                return Ok(left);
            }
            let right = self.parse_atom()?;
            left = Term::App(Box::new(left), Box::new(right));
        }
    }

    fn parse_atom(&mut self) -> (r: Result<Term, String>)
        requires
            old(self).pos <= old(self).tokens.len(),
        ensures
            final(self).tokens == old(self).tokens,
            final(self).pos <= final(self).tokens.len(),
            agrees(r, p_atom(old(self).ts(), old(self).pos as nat), old(self).pos as nat, final(self).pos as nat),
        decreases old(self).tokens.len() - old(self).pos, 0nat,
    {
        match self.advance() {
            Some(Tok::Ident(s)) => Ok(Term::Var(s)),
            Some(Tok::True) => Ok(Term::BoolLit(true)),
            Some(Tok::False) => Ok(Term::BoolLit(false)),
            Some(Tok::IntLit(n)) => Ok(Term::IntLit(n)),
            Some(Tok::LParen) => {
                let e = self.parse_expr()?;
                self.expect(&Tok::RParen, "after expression")?;
                Ok(e)
            },
            other => {
                let mut msg = String::from_str("unexpected token: ");
                msg.append(opt_tok_text_exec(match &other { Some(t) => Some(t), None => None }).as_str());
                Err(msg)
            },
        }
    }
}

/// Parses a term.
pub fn parse(input: &str) -> (r: Result<Term, String>)
    ensures
        match r {
            Ok(t) => parse_spec(input@) == Ok::<STerm, Seq<char>>(t@),
            Err(e) => parse_spec(input@) == Err::<STerm, Seq<char>>(e@),
        },
{
    let tokens = tokenize(input)?;
    let mut p = Parser { tokens, pos: 0 };
    let t = p.parse_expr()?;
    if p.pos < p.tokens.len() {
        let mut msg = String::from_str("unexpected token after expression: ");
        let d = opt_tok_text_exec(p.tokens.get(p.pos));
        msg.append(d.as_str());
        return Err(msg);
    }
    Ok(t)
}

} // verus!
