use vstd::prelude::*;

use crate::fomega::ast::{BinOp, Kind, STerm, SType, Term, Type};
use crate::names::{
    char_debug_text, chars_of, debug_char, debug_string, is_alphabetic, is_alphanumeric,
    is_digit_char, lemma_numeral_prefix, numeral_value, push_char, str_eq, string_debug_text,
    alphabetic, alphanumeric,
};

verus! {

// ===== tokens =====

pub enum Tok {
    Lambda,
    BigLambda,
    Dot,
    Colon,
    ColonColon,
    Arrow,
    LParen,
    RParen,
    LBracket,
    RBracket,
    Eq,
    EqEq,
    Lt,
    Plus,
    Minus,
    Star,
    If,
    Then,
    Else,
    Let,
    In,
    True,
    False,
    BoolKw,
    IntKw,
    ForAll,
    Ident(String),
    IntLit(i64),
}

pub enum STok {
    Lambda,
    BigLambda,
    Dot,
    Colon,
    ColonColon,
    Arrow,
    LParen,
    RParen,
    LBracket,
    RBracket,
    Eq,
    EqEq,
    Lt,
    Plus,
    Minus,
    Star,
    If,
    Then,
    Else,
    Let,
    In,
    True,
    False,
    BoolKw,
    IntKw,
    ForAll,
    Ident(Seq<char>),
    IntLit(i64),
}

impl View for Tok {
    type V = STok;

    open spec fn view(&self) -> STok {
        match self {
            Tok::Lambda => STok::Lambda,
            Tok::BigLambda => STok::BigLambda,
            Tok::Dot => STok::Dot,
            Tok::Colon => STok::Colon,
            Tok::ColonColon => STok::ColonColon,
            Tok::Arrow => STok::Arrow,
            Tok::LParen => STok::LParen,
            Tok::RParen => STok::RParen,
            Tok::LBracket => STok::LBracket,
            Tok::RBracket => STok::RBracket,
            Tok::Eq => STok::Eq,
            Tok::EqEq => STok::EqEq,
            Tok::Lt => STok::Lt,
            Tok::Plus => STok::Plus,
            Tok::Minus => STok::Minus,
            Tok::Star => STok::Star,
            Tok::If => STok::If,
            Tok::Then => STok::Then,
            Tok::Else => STok::Else,
            Tok::Let => STok::Let,
            Tok::In => STok::In,
            Tok::True => STok::True,
            Tok::False => STok::False,
            Tok::BoolKw => STok::BoolKw,
            Tok::IntKw => STok::IntKw,
            Tok::ForAll => STok::ForAll,
            Tok::Ident(s) => STok::Ident(s@),
            Tok::IntLit(n) => STok::IntLit(*n),
        }
    }
}

pub open spec fn toks_view(v: Seq<Tok>) -> Seq<STok> {
    v.map_values(|t: Tok| t@)
}

/// The Debug text of a token, as error messages show it.
pub open spec fn tok_text(t: STok) -> Seq<char> {
    match t {
        STok::Lambda => "Lambda"@,
        STok::BigLambda => "BigLambda"@,
        STok::Dot => "Dot"@,
        STok::Colon => "Colon"@,
        STok::ColonColon => "ColonColon"@,
        STok::Arrow => "Arrow"@,
        STok::LParen => "LParen"@,
        STok::RParen => "RParen"@,
        STok::LBracket => "LBracket"@,
        STok::RBracket => "RBracket"@,
        STok::Eq => "Eq"@,
        STok::EqEq => "EqEq"@,
        STok::Lt => "Lt"@,
        STok::Plus => "Plus"@,
        STok::Minus => "Minus"@,
        STok::Star => "Star"@,
        STok::If => "If"@,
        STok::Then => "Then"@,
        STok::Else => "Else"@,
        STok::Let => "Let"@,
        STok::In => "In"@,
        STok::True => "True"@,
        STok::False => "False"@,
        STok::BoolKw => "BoolKw"@,
        STok::IntKw => "IntKw"@,
        STok::ForAll => "ForAll"@,
        STok::Ident(s) => "Ident("@ + string_debug_text(s) + ")"@,
        STok::IntLit(n) => "IntLit("@ + crate::names::dec_int(n as int) + ")"@,
    }
}

/// The Debug text of an optional token.
pub open spec fn opt_tok_text(t: Option<STok>) -> Seq<char> {
    match t {
        Some(t) => "Some("@ + tok_text(t) + ")"@,
        None => "None"@,
    }
}

impl Tok {
    fn copy(&self) -> (r: Tok)
        ensures
            r@ == self@,
    {
        match self {
            Tok::Lambda => Tok::Lambda,
            Tok::BigLambda => Tok::BigLambda,
            Tok::Dot => Tok::Dot,
            Tok::Colon => Tok::Colon,
            Tok::ColonColon => Tok::ColonColon,
            Tok::Arrow => Tok::Arrow,
            Tok::LParen => Tok::LParen,
            Tok::RParen => Tok::RParen,
            Tok::LBracket => Tok::LBracket,
            Tok::RBracket => Tok::RBracket,
            Tok::Eq => Tok::Eq,
            Tok::EqEq => Tok::EqEq,
            Tok::Lt => Tok::Lt,
            Tok::Plus => Tok::Plus,
            Tok::Minus => Tok::Minus,
            Tok::Star => Tok::Star,
            Tok::If => Tok::If,
            Tok::Then => Tok::Then,
            Tok::Else => Tok::Else,
            Tok::Let => Tok::Let,
            Tok::In => Tok::In,
            Tok::True => Tok::True,
            Tok::False => Tok::False,
            Tok::BoolKw => Tok::BoolKw,
            Tok::IntKw => Tok::IntKw,
            Tok::ForAll => Tok::ForAll,
            Tok::Ident(s) => Tok::Ident(s.clone()),
            Tok::IntLit(n) => Tok::IntLit(*n),
        }
    }

    fn same(&self, other: &Tok) -> (r: bool)
        ensures
            r == (self@ == other@),
    {
        match (self, other) {
            (Tok::Ident(a), Tok::Ident(b)) => *a == *b,
            (Tok::IntLit(a), Tok::IntLit(b)) => *a == *b,
            (Tok::Ident(_), _) | (_, Tok::Ident(_)) | (Tok::IntLit(_), _) | (_, Tok::IntLit(_)) => false,
            _ => {
                let a = self.tag();
                let b = other.tag();
                a == b
            },
        }
    }

    spec fn spec_tag(t: STok) -> u8 {
        match t {
            STok::Lambda => 0,
            STok::BigLambda => 1,
            STok::Dot => 2,
            STok::Colon => 3,
            STok::ColonColon => 4,
            STok::Arrow => 5,
            STok::LParen => 6,
            STok::RParen => 7,
            STok::LBracket => 8,
            STok::RBracket => 9,
            STok::Eq => 10,
            STok::EqEq => 11,
            STok::Lt => 12,
            STok::Plus => 13,
            STok::Minus => 14,
            STok::Star => 15,
            STok::If => 16,
            STok::Then => 17,
            STok::Else => 18,
            STok::Let => 19,
            STok::In => 20,
            STok::True => 21,
            STok::False => 22,
            STok::BoolKw => 23,
            STok::IntKw => 24,
            STok::ForAll => 25,
            STok::Ident(_) => 26,
            STok::IntLit(_) => 27,
        }
    }

    fn tag(&self) -> (r: u8)
        ensures
            r == Self::spec_tag(self@),
    {
        match self {
            Tok::Lambda => 0,
            Tok::BigLambda => 1,
            Tok::Dot => 2,
            Tok::Colon => 3,
            Tok::ColonColon => 4,
            Tok::Arrow => 5,
            Tok::LParen => 6,
            Tok::RParen => 7,
            Tok::LBracket => 8,
            Tok::RBracket => 9,
            Tok::Eq => 10,
            Tok::EqEq => 11,
            Tok::Lt => 12,
            Tok::Plus => 13,
            Tok::Minus => 14,
            Tok::Star => 15,
            Tok::If => 16,
            Tok::Then => 17,
            Tok::Else => 18,
            Tok::Let => 19,
            Tok::In => 20,
            Tok::True => 21,
            Tok::False => 22,
            Tok::BoolKw => 23,
            Tok::IntKw => 24,
            Tok::ForAll => 25,
            Tok::Ident(_) => 26,
            Tok::IntLit(_) => 27,
        }
    }

    fn text(&self) -> (s: String)
        ensures
            s@ == tok_text(self@),
    {
        match self {
            Tok::Lambda => String::from_str("Lambda"),
            Tok::BigLambda => String::from_str("BigLambda"),
            Tok::Dot => String::from_str("Dot"),
            Tok::Colon => String::from_str("Colon"),
            Tok::ColonColon => String::from_str("ColonColon"),
            Tok::Arrow => String::from_str("Arrow"),
            Tok::LParen => String::from_str("LParen"),
            Tok::RParen => String::from_str("RParen"),
            Tok::LBracket => String::from_str("LBracket"),
            Tok::RBracket => String::from_str("RBracket"),
            Tok::Eq => String::from_str("Eq"),
            Tok::EqEq => String::from_str("EqEq"),
            Tok::Lt => String::from_str("Lt"),
            Tok::Plus => String::from_str("Plus"),
            Tok::Minus => String::from_str("Minus"),
            Tok::Star => String::from_str("Star"),
            Tok::If => String::from_str("If"),
            Tok::Then => String::from_str("Then"),
            Tok::Else => String::from_str("Else"),
            Tok::Let => String::from_str("Let"),
            Tok::In => String::from_str("In"),
            Tok::True => String::from_str("True"),
            Tok::False => String::from_str("False"),
            Tok::BoolKw => String::from_str("BoolKw"),
            Tok::IntKw => String::from_str("IntKw"),
            Tok::ForAll => String::from_str("ForAll"),
            Tok::Ident(s) => {
                let mut out = String::from_str("Ident(");
                let d = debug_string(s.as_str());
                out.append(d.as_str());
                out.append(")");
                out
            },
            Tok::IntLit(n) => {
                let mut out = String::from_str("IntLit(");
                let d = crate::names::decimal_i64(*n);
                out.append(d.as_str());
                out.append(")");
                out
            },
        }
    }
}

fn opt_tok_text_exec(t: Option<&Tok>) -> (s: String)
    ensures
        s@ == opt_tok_text(
            match t {
                Some(x) => Some(x@),
                None => None,
            },
        ),
{
    match t {
        Some(x) => {
            let mut out = String::from_str("Some(");
            let d = x.text();
            out.append(d.as_str());
            out.append(")");
            out
        },
        None => String::from_str("None"),
    }
}

// ===== lexing =====

pub open spec fn is_space(c: char) -> bool {
    c == ' ' || c == '\t' || c == '\n' || c == '\r'
}

pub open spec fn is_ident_start(c: char) -> bool {
    alphabetic(c) || c == '_'
}

pub open spec fn is_ident_char(c: char) -> bool {
    alphanumeric(c) || c == '_' || c == '\''
}

/// The end of the run of identifier characters that starts at `i`.
pub open spec fn ident_end(cs: Seq<char>, i: nat) -> nat
    decreases cs.len() - i,
{
    if i < cs.len() && is_ident_char(cs[i as int]) {
        ident_end(cs, i + 1)
    } else {
        i
    }
}

/// The end of the run of ASCII digits that starts at `i`.
pub open spec fn digits_end(cs: Seq<char>, i: nat) -> nat
    decreases cs.len() - i,
{
    if i < cs.len() && is_digit_char(cs[i as int]) {
        digits_end(cs, i + 1)
    } else {
        i
    }
}

/// The token of a word: a keyword or an identifier.
pub open spec fn word_tok(s: Seq<char>) -> STok {
    if s == "if"@ {
        STok::If
    } else if s == "then"@ {
        STok::Then
    } else if s == "else"@ {
        STok::Else
    } else if s == "let"@ {
        STok::Let
    } else if s == "in"@ {
        STok::In
    } else if s == "true"@ {
        STok::True
    } else if s == "false"@ {
        STok::False
    } else if s == "Bool"@ {
        STok::BoolKw
    } else if s == "Int"@ {
        STok::IntKw
    } else if s == "forall"@ {
        STok::ForAll
    } else {
        STok::Ident(s)
    }
}

fn word_tok_exec(s: String) -> (t: Tok)
    ensures
        t@ == word_tok(s@),
{
    if str_eq(s.as_str(), "if") {
        Tok::If
    } else if str_eq(s.as_str(), "then") {
        Tok::Then
    } else if str_eq(s.as_str(), "else") {
        Tok::Else
    } else if str_eq(s.as_str(), "let") {
        Tok::Let
    } else if str_eq(s.as_str(), "in") {
        Tok::In
    } else if str_eq(s.as_str(), "true") {
        Tok::True
    } else if str_eq(s.as_str(), "false") {
        Tok::False
    } else if str_eq(s.as_str(), "Bool") {
        Tok::BoolKw
    } else if str_eq(s.as_str(), "Int") {
        Tok::IntKw
    } else if str_eq(s.as_str(), "forall") {
        Tok::ForAll
    } else {
        Tok::Ident(s)
    }
}

pub open spec fn cons_tok(t: STok, r: Result<Seq<STok>, Seq<char>>) -> Result<Seq<STok>, Seq<char>> {
    match r {
        Ok(rest) => Ok(seq![t] + rest),
        Err(e) => Err(e),
    }
}

pub open spec fn prepend_toks(ts: Seq<STok>, r: Result<Seq<STok>, Seq<char>>) -> Result<
    Seq<STok>,
    Seq<char>,
> {
    match r {
        Ok(rest) => Ok(ts + rest),
        Err(e) => Err(e),
    }
}

/// The tokens of `cs` from position `i` on, or the lexing error.
pub open spec fn lex(cs: Seq<char>, i: nat) -> Result<Seq<STok>, Seq<char>>
    decreases cs.len() - i,
{
    if i >= cs.len() {
        Ok(Seq::<STok>::empty())
    } else {
        let c = cs[i as int];
        let next: Option<char> = if i + 1 < cs.len() {
            Some(cs[i + 1 as int])
        } else {
            None
        };
        if is_space(c) {
            lex(cs, i + 1)
        } else if c == 'λ' || c == '\\' {
            cons_tok(STok::Lambda, lex(cs, i + 1))
        } else if c == 'Λ' {
            cons_tok(STok::BigLambda, lex(cs, i + 1))
        } else if c == '∀' {
            cons_tok(STok::ForAll, lex(cs, i + 1))
        } else if c == '/' {
            if next == Some('\\') {
                cons_tok(STok::BigLambda, lex(cs, i + 2))
            } else {
                Err("expected '/\\' for type abstraction"@)
            }
        } else if c == '.' {
            cons_tok(STok::Dot, lex(cs, i + 1))
        } else if c == ':' {
            if next == Some(':') {
                cons_tok(STok::ColonColon, lex(cs, i + 2))
            } else {
                cons_tok(STok::Colon, lex(cs, i + 1))
            }
        } else if c == '[' {
            cons_tok(STok::LBracket, lex(cs, i + 1))
        } else if c == ']' {
            cons_tok(STok::RBracket, lex(cs, i + 1))
        } else if c == '(' {
            cons_tok(STok::LParen, lex(cs, i + 1))
        } else if c == ')' {
            cons_tok(STok::RParen, lex(cs, i + 1))
        } else if c == '+' {
            cons_tok(STok::Plus, lex(cs, i + 1))
        } else if c == '*' {
            cons_tok(STok::Star, lex(cs, i + 1))
        } else if c == '<' {
            cons_tok(STok::Lt, lex(cs, i + 1))
        } else if c == '-' {
            if next == Some('>') {
                cons_tok(STok::Arrow, lex(cs, i + 2))
            } else {
                cons_tok(STok::Minus, lex(cs, i + 1))
            }
        } else if c == '=' {
            if next == Some('=') {
                cons_tok(STok::EqEq, lex(cs, i + 2))
            } else {
                cons_tok(STok::Eq, lex(cs, i + 1))
            }
        } else if is_digit_char(c) {
            let j = digits_end(cs, i);
            let v = numeral_value(cs.subrange(i as int, j as int));
            if i < j <= cs.len() {
                if v > i64::MAX {
                    Err("integer literal overflow"@)
                } else {
                    cons_tok(STok::IntLit(v as i64), lex(cs, j))
                }
            } else {
                Err(Seq::<char>::empty())
            }
        } else if is_ident_start(c) {
            let j = ident_end(cs, i);
            if i < j <= cs.len() {
                cons_tok(word_tok(cs.subrange(i as int, j as int)), lex(cs, j))
            } else {
                Err(Seq::<char>::empty())
            }
        } else {
            Err("unexpected character: "@ + char_debug_text(c))
        }
    }
}

proof fn lemma_prepend_push(a: Seq<STok>, t: STok, r: Result<Seq<STok>, Seq<char>>)
    ensures
        prepend_toks(a, cons_tok(t, r)) == prepend_toks(a.push(t), r),
{
    if let Ok(rest) = r {
        assert(a + (seq![t] + rest) =~= a.push(t) + rest);
    }
}

proof fn lemma_ident_end(cs: Seq<char>, i: nat, j: nat)
    requires
        i <= j <= cs.len(),
        forall|k: int| i <= k < j ==> is_ident_char(cs[k]),
        j == cs.len() || !is_ident_char(cs[j as int]),
    ensures
        ident_end(cs, i) == j,
    decreases j - i,
{
    if i < j {
        lemma_ident_end(cs, i + 1, j);
    }
}

proof fn lemma_digits_end(cs: Seq<char>, i: nat, j: nat)
    requires
        i <= j <= cs.len(),
        forall|k: int| i <= k < j ==> is_digit_char(cs[k]),
        j == cs.len() || !is_digit_char(cs[j as int]),
    ensures
        digits_end(cs, i) == j,
    decreases j - i,
{
    if i < j {
        lemma_digits_end(cs, i + 1, j);
    }
}

fn read_number(cs: &Vec<char>, start: usize) -> (r: Result<(i64, usize), String>)
    requires
        start < cs.len(),
        is_digit_char(cs@[start as int]),
    ensures
        match r {
            Ok((n, j)) => j == digits_end(cs@, start as nat) && start < j <= cs.len()
                && n as int == numeral_value(cs@.subrange(start as int, j as int)),
            Err(e) => e@ == "integer literal overflow"@ && numeral_value(
                cs@.subrange(start as int, digits_end(cs@, start as nat) as int),
            ) > i64::MAX,
        },
{
    let mut n: i64 = 0;
    let mut i = start;
    while i < cs.len() && '0' <= cs[i] && cs[i] <= '9'
        invariant
            start <= i <= cs.len(),
            forall|k: int| start <= k < i ==> is_digit_char(cs@[k]),
            n as int == numeral_value(cs@.subrange(start as int, i as int)),
            i == start ==> is_digit_char(cs@[start as int]),
            start < cs.len(),
            n >= 0,
        decreases cs.len() - i,
    {
        let d = (cs[i] as u32 - 48) as i64;
        let ghost pre = cs@.subrange(start as int, i as int);
        let ghost ext = cs@.subrange(start as int, i + 1);
        assert(ext.drop_last() =~= pre);
        assert(ext.last() == cs@[i as int]);
        assert(numeral_value(ext) == n * 10 + d);
        assert(forall|k: int| start <= k < i + 1 ==> is_digit_char(cs@[k]));
        match n.checked_mul(10) {
            Some(m) => match m.checked_add(d) {
                Some(v) => {
                    n = v;
                },
                None => {
                    proof {
                        lemma_digits_overflow(cs@, start as nat, (i + 1) as nat);
                    }
                    return Err(String::from_str("integer literal overflow"));
                },
            },
            None => {
                proof {
                    lemma_digits_overflow(cs@, start as nat, (i + 1) as nat);
                }
                return Err(String::from_str("integer literal overflow"));
            },
        }
        i = i + 1;
    }
    proof {
        lemma_digits_end(cs@, start as nat, i as nat);
    }
    Ok((n, i))
}

/// A numeral whose prefix is already too large is too large.
proof fn lemma_digits_overflow(cs: Seq<char>, start: nat, k: nat)
    requires
        start < k <= cs.len(),
        forall|m: int| start <= m < k ==> is_digit_char(cs[m]),
        numeral_value(cs.subrange(start as int, k as int)) > i64::MAX,
    ensures
        numeral_value(cs.subrange(start as int, digits_end(cs, start as nat) as int)) > i64::MAX,
{
    let j = digits_end_ge(cs, start, k);
    let whole = cs.subrange(start as int, j as int);
    assert(whole.take(k - start) =~= cs.subrange(start as int, k as int));
    assert forall|m: int| 0 <= m < whole.len() implies is_digit_char(#[trigger] whole[m]) by {
        lemma_digits_end_digits(cs, start, j, start + m);
    }
    lemma_numeral_prefix(whole, k - start);
}

/// `digits_end` from `start` reaches past every all-digit prefix.
proof fn digits_end_ge(cs: Seq<char>, start: nat, k: nat) -> (j: nat)
    requires
        start <= k <= cs.len(),
        forall|m: int| start <= m < k ==> is_digit_char(cs[m]),
    ensures
        j == digits_end(cs, start),
        k <= j <= cs.len(),
    decreases k - start,
{
    if start < k {
        let j = digits_end_ge(cs, start + 1, k);
        j
    } else {
        lemma_digits_end_bound(cs, start);
        digits_end(cs, start)
    }
}

proof fn lemma_digits_end_bound(cs: Seq<char>, i: nat)
    requires
        i <= cs.len(),
    ensures
        i <= digits_end(cs, i) <= cs.len(),
    decreases cs.len() - i,
{
    if i < cs.len() && is_digit_char(cs[i as int]) {
        lemma_digits_end_bound(cs, i + 1);
    }
}

proof fn lemma_digits_end_digits(cs: Seq<char>, i: nat, j: nat, m: int)
    requires
        j == digits_end(cs, i),
        i <= m < j,
    ensures
        is_digit_char(cs[m]),
    decreases cs.len() - i,
{
    if i < cs.len() && is_digit_char(cs[i as int]) {
        if m > i {
            lemma_digits_end_digits(cs, i + 1, j, m);
        }
    }
}

fn tokenize(input: &str) -> (r: Result<Vec<Tok>, String>)
    ensures
        match r {
            Ok(ts) => lex(input@, 0) == Ok::<Seq<STok>, Seq<char>>(toks_view(ts@)),
            Err(e) => lex(input@, 0) == Err::<Seq<STok>, Seq<char>>(e@),
        },
{
    let cs = chars_of(input);
    let mut tokens: Vec<Tok> = Vec::new();
    let mut i: usize = 0;
    while i < cs.len()
        invariant
            i <= cs.len(),
            cs@ == input@,
            lex(cs@, 0) == prepend_toks(toks_view(tokens@), lex(cs@, i as nat)),
        decreases cs.len() - i,
    {
        let c = cs[i];
        let ghost before = tokens@;
        let ghost i0 = i;
        let next: Option<char> = if i + 1 < cs.len() {
            Some(cs[i + 1])
        } else {
            None
        };
        if c == ' ' || c == '\t' || c == '\n' || c == '\r' {
            i = i + 1;
        } else if c == 'λ' || c == '\\' {
            tokens.push(Tok::Lambda);
            i = i + 1;
        } else if c == 'Λ' {
            tokens.push(Tok::BigLambda);
            i = i + 1;
        } else if c == '∀' {
            tokens.push(Tok::ForAll);
            i = i + 1;
        } else if c == '/' {
            if next == Some('\\') {
                tokens.push(Tok::BigLambda);
                i = i + 2;
            } else {
                return Err(String::from_str("expected '/\\' for type abstraction"));
            }
        } else if c == '.' {
            tokens.push(Tok::Dot);
            i = i + 1;
        } else if c == ':' {
            if next == Some(':') {
                tokens.push(Tok::ColonColon);
                i = i + 2;
            } else {
                tokens.push(Tok::Colon);
                i = i + 1;
            }
        } else if c == '[' {
            tokens.push(Tok::LBracket);
            i = i + 1;
        } else if c == ']' {
            tokens.push(Tok::RBracket);
            i = i + 1;
        } else if c == '(' {
            tokens.push(Tok::LParen);
            i = i + 1;
        } else if c == ')' {
            tokens.push(Tok::RParen);
            i = i + 1;
        } else if c == '+' {
            tokens.push(Tok::Plus);
            i = i + 1;
        } else if c == '*' {
            tokens.push(Tok::Star);
            i = i + 1;
        } else if c == '<' {
            tokens.push(Tok::Lt);
            i = i + 1;
        } else if c == '-' {
            if next == Some('>') {
                tokens.push(Tok::Arrow);
                i = i + 2;
            } else {
                tokens.push(Tok::Minus);
                i = i + 1;
            }
        } else if c == '=' {
            if next == Some('=') {
                tokens.push(Tok::EqEq);
                i = i + 2;
            } else {
                tokens.push(Tok::Eq);
                i = i + 1;
            }
        } else if '0' <= c && c <= '9' {
            match read_number(&cs, i) {
                Ok((n, j)) => {
                    tokens.push(Tok::IntLit(n));
                    i = j;
                },
                Err(e) => {
                    proof {
                        lemma_digits_end_bound(cs@, (i + 1) as nat);
                        assert(digits_end(cs@, i as nat) == digits_end(cs@, (i + 1) as nat));
                        assert(lex(cs@, i as nat) == Err::<Seq<STok>, Seq<char>>(e@));
                    }
                    return Err(e);
                },
            }
        } else if is_alphabetic(c) || c == '_' {
            let start = i;
            let mut s = String::new();
            while i < cs.len() && (is_alphanumeric(cs[i]) || cs[i] == '_' || cs[i] == '\'')
                invariant
                    start <= i <= cs.len(),
                    cs@ == input@,
                    s@ == cs@.subrange(start as int, i as int),
                    forall|k: int| start <= k < i ==> is_ident_char(cs@[k]),
                    i == start ==> is_ident_start(cs@[start as int]),
                    start < cs.len(),
                decreases cs.len() - i,
            {
                push_char(&mut s, cs[i]);
                assert(cs@.subrange(start as int, i as int).push(cs@[i as int]) =~= cs@.subrange(
                    start as int,
                    i + 1,
                ));
                i = i + 1;
            }
            proof {
                lemma_ident_end(cs@, start as nat, i as nat);
            }
            tokens.push(word_tok_exec(s));
        } else {
            let mut msg = String::from_str("unexpected character: ");
            let d = debug_char(c);
            msg.append(d.as_str());
            return Err(msg);
        }
        proof {
            if tokens@.len() > before.len() {
                let t = tokens@[before.len() as int];
                assert(toks_view(tokens@) =~= toks_view(before).push(t@));
                lemma_prepend_push(toks_view(before), t@, lex(cs@, i as nat));
            }
        }
    }
    assert(toks_view(tokens@) + Seq::<STok>::empty() =~= toks_view(tokens@));
    Ok(tokens)
}

// ===== grammar =====
//
//   kind     := katom ('->' kind)?
//   katom    := '*' | '(' kind ')'
//   type     := forall | tlambda | tarrow
//   forall   := ('forall' | '∀') binders '.' type
//   tlambda  := ('\' | 'λ') binders '.' type
//   binders  := (IDENT ('::' kind)?)+
//   tarrow   := tapp ('->' type)?
//   tapp     := tatom tatom*
//   tatom    := 'Bool' | 'Int' | IDENT | '(' type ')'
//   expr     := let | if | lambda | tylambda | comparison
//   let      := 'let' IDENT '=' expr 'in' expr
//   if       := 'if' expr 'then' expr 'else' expr
//   lambda   := ('\' | 'λ') (IDENT ':' type)+ '.' expr
//   tylambda := ('/\' | 'Λ') binders '.' expr
//   comparison := add (('==' | '<') add)?
//   add      := mul (('+' | '-') mul)*
//   mul      := app ('*' app)*
//   app      := atom (atom | '[' type ']')*
//   atom     := IDENT | 'true' | 'false' | INT | '(' expr ')'

pub type PResult = Result<(STerm, nat), Seq<char>>;

pub type TResult = Result<(SType, nat), Seq<char>>;

pub type KResult = Result<(Kind, nat), Seq<char>>;

pub open spec fn tok_at(ts: Seq<STok>, p: nat) -> Option<STok> {
    if p < ts.len() {
        Some(ts[p as int])
    } else {
        None
    }
}

/// Consuming an expected token: the position after it, or the error.
pub open spec fn p_expect(ts: Seq<STok>, p: nat, want: STok, ctx: Seq<char>) -> Result<nat, Seq<char>> {
    if tok_at(ts, p) == Some(want) {
        Ok(p + 1)
    } else {
        Err("expected "@ + tok_text(want) + " "@ + ctx + ", got "@ + opt_tok_text(tok_at(ts, p)))
    }
}

// ----- kinds -----

pub open spec fn p_kind(ts: Seq<STok>, p: nat) -> KResult
    decreases ts.len() - p, 1nat,
{
    match p_kind_atom(ts, p) {
        Ok((left, q)) => if tok_at(ts, q) == Some(STok::Arrow) {
            if p < q + 1 <= ts.len() {
                match p_kind(ts, q + 1) {
                    Ok((right, q2)) => Ok((Kind::Arrow(Box::new(left), Box::new(right)), q2)),
                    Err(e) => Err(e),
                }
            } else {
                Err(Seq::<char>::empty())
            }
        } else {
            Ok((left, q))
        },
        Err(e) => Err(e),
    }
}

pub open spec fn p_kind_atom(ts: Seq<STok>, p: nat) -> KResult
    decreases ts.len() - p, 0nat,
{
    match tok_at(ts, p) {
        Some(STok::Star) => Ok((Kind::Star, p + 1)),
        Some(STok::LParen) => match p_kind(ts, p + 1) {
            Ok((k, q)) => match p_expect(ts, q, STok::RParen, "after kind"@) {
                Ok(q2) => Ok((k, q2)),
                Err(e) => Err(e),
            },
            Err(e) => Err(e),
        },
        other => Err("expected kind, got "@ + opt_tok_text(other)),
    }
}

// ----- types -----

/// The bindings `X` or `X::K` from position `q` on, as many as there are,
/// and the position after them.
pub open spec fn p_bindings_rest(ts: Seq<STok>, q: nat) -> Result<(Seq<(Seq<char>, Kind)>, nat), Seq<char>>
    decreases ts.len() - q,
{
    match tok_at(ts, q) {
        Some(STok::Ident(name)) => {
            let kind_r: KResult = if tok_at(ts, q + 1) == Some(STok::ColonColon) {
                p_kind(ts, q + 2)
            } else {
                Ok((Kind::Star, q + 1))
            };
            match kind_r {
                Ok((k, q2)) => if q < q2 <= ts.len() {
                    match p_bindings_rest(ts, q2) {
                        Ok((rest, q3)) => Ok((seq![(name, k)] + rest, q3)),
                        Err(e) => Err(e),
                    }
                } else {
                    Err(Seq::<char>::empty())
                },
                Err(e) => Err(e),
            }
        },
        _ => Ok((Seq::empty(), q)),
    }
}

/// At least one binding.
pub open spec fn p_bindings(ts: Seq<STok>, q: nat) -> Result<(Seq<(Seq<char>, Kind)>, nat), Seq<char>> {
    match p_bindings_rest(ts, q) {
        Ok((bs, q2)) => if bs.len() == 0 {
            Err("expected at least one binder"@)
        } else {
            Ok((bs, q2))
        },
        Err(e) => Err(e),
    }
}

/// Nested `∀`s (or type-level `λ`s when `is_abs`) over the bindings,
/// innermost last.
pub open spec fn bind_types(bs: Seq<(Seq<char>, Kind)>, body: SType, is_abs: bool) -> SType
    decreases bs.len(),
{
    if bs.len() == 0 {
        body
    } else if is_abs {
        SType::Abs(bs[0].0, bs[0].1, Box::new(bind_types(bs.drop_first(), body, is_abs)))
    } else {
        SType::ForAll(bs[0].0, bs[0].1, Box::new(bind_types(bs.drop_first(), body, is_abs)))
    }
}

pub open spec fn p_type(ts: Seq<STok>, p: nat) -> TResult
    decreases ts.len() - p, 3nat,
{
    if p > ts.len() {
        Err(Seq::<char>::empty())
    } else {
        match tok_at(ts, p) {
            Some(STok::ForAll) => p_type_binder(ts, p, false),
            Some(STok::Lambda) => p_type_binder(ts, p, true),
            _ => p_type_arrow(ts, p),
        }
    }
}

/// `∀ binders. type` or, when `is_abs`, `λ binders. type`.
pub open spec fn p_type_binder(ts: Seq<STok>, p: nat, is_abs: bool) -> TResult
    decreases ts.len() - p, 2nat,
{
    let ctx = if is_abs {
        "after type-level lambda binders"@
    } else {
        "after forall binders"@
    };
    match p_bindings(ts, p + 1) {
        Ok((bs, q)) => match p_expect(ts, q, STok::Dot, ctx) {
            Ok(q2) => if p < q2 <= ts.len() {
                match p_type(ts, q2) {
                    Ok((body, q3)) => Ok((bind_types(bs, body, is_abs), q3)),
                    Err(e) => Err(e),
                }
            } else {
                Err(Seq::<char>::empty())
            },
            Err(e) => Err(e),
        },
        Err(e) => Err(e),
    }
}

pub open spec fn p_type_arrow(ts: Seq<STok>, p: nat) -> TResult
    decreases ts.len() - p, 2nat,
{
    match p_type_app(ts, p) {
        Ok((left, q)) => if tok_at(ts, q) == Some(STok::Arrow) {
            if p < q + 1 <= ts.len() {
                match p_type(ts, q + 1) {
                    Ok((right, q2)) => Ok((SType::Arrow(Box::new(left), Box::new(right)), q2)),
                    Err(e) => Err(e),
                }
            } else {
                Err(Seq::<char>::empty())
            }
        } else {
            Ok((left, q))
        },
        Err(e) => Err(e),
    }
}

pub open spec fn starts_type_atom(t: Option<STok>) -> bool {
    match t {
        Some(STok::Ident(_)) | Some(STok::LParen) | Some(STok::BoolKw) | Some(STok::IntKw) => true,
        _ => false,
    }
}

pub open spec fn p_type_app(ts: Seq<STok>, p: nat) -> TResult
    decreases ts.len() - p, 1nat,
{
    match p_type_atom(ts, p) {
        Ok((left, q)) => if p < q <= ts.len() {
            p_type_app_rest(ts, q, left)
        } else {
            Err(Seq::<char>::empty())
        },
        Err(e) => Err(e),
    }
}

pub open spec fn p_type_app_rest(ts: Seq<STok>, p: nat, left: SType) -> TResult
    decreases ts.len() - p, 1nat,
{
    if p > ts.len() {
        Err(Seq::<char>::empty())
    } else if starts_type_atom(tok_at(ts, p)) {
        match p_type_atom(ts, p) {
            Ok((right, q)) => if p < q <= ts.len() {
                p_type_app_rest(ts, q, SType::App(Box::new(left), Box::new(right)))
            } else {
                Err(Seq::<char>::empty())
            },
            Err(e) => Err(e),
        }
    } else {
        Ok((left, p))
    }
}

pub open spec fn p_type_atom(ts: Seq<STok>, p: nat) -> TResult
    decreases ts.len() - p, 0nat,
{
    match tok_at(ts, p) {
        Some(STok::BoolKw) => Ok((SType::Bool, p + 1)),
        Some(STok::IntKw) => Ok((SType::Int, p + 1)),
        Some(STok::Ident(x)) => Ok((SType::Var(x), p + 1)),
        Some(STok::LParen) => match p_type(ts, p + 1) {
            Ok((t, q)) => match p_expect(ts, q, STok::RParen, "after type"@) {
                Ok(q2) => Ok((t, q2)),
                Err(e) => Err(e),
            },
            Err(e) => Err(e),
        },
        other => Err("expected type, got "@ + opt_tok_text(other)),
    }
}

// ----- terms -----

pub open spec fn p_expr(ts: Seq<STok>, p: nat) -> PResult
    decreases ts.len() - p, 10nat,
{
    if p > ts.len() {
        Err(Seq::<char>::empty())
    } else {
        match tok_at(ts, p) {
            Some(STok::Let) => p_let(ts, p),
            Some(STok::If) => p_if(ts, p),
            Some(STok::Lambda) => p_lambda(ts, p),
            Some(STok::BigLambda) => p_ty_lambda(ts, p),
            _ => p_comparison(ts, p),
        }
    }
}

pub open spec fn p_let(ts: Seq<STok>, p: nat) -> PResult
    decreases ts.len() - p, 9nat,
{
    match tok_at(ts, p + 1) {
        Some(STok::Ident(name)) => match p_expect(ts, p + 2, STok::Eq, "after let-bound name"@) {
            Ok(q) => if p < q <= ts.len() {
                match p_expr(ts, q) {
                    Ok((e1, q2)) => match p_expect(ts, q2, STok::In, "after let binding"@) {
                        Ok(q3) => if p < q3 <= ts.len() {
                            match p_expr(ts, q3) {
                                Ok((e2, q4)) => Ok(
                                    (STerm::Let(name, Box::new(e1), Box::new(e2)), q4),
                                ),
                                Err(e) => Err(e),
                            }
                        } else {
                            Err(Seq::<char>::empty())
                        },
                        Err(e) => Err(e),
                    },
                    Err(e) => Err(e),
                }
            } else {
                Err(Seq::<char>::empty())
            },
            Err(e) => Err(e),
        },
        other => Err("expected identifier after 'let', got "@ + opt_tok_text(other)),
    }
}

pub open spec fn p_if(ts: Seq<STok>, p: nat) -> PResult
    decreases ts.len() - p, 9nat,
{
    if p + 1 <= ts.len() {
        match p_expr(ts, p + 1) {
            Ok((c, q)) => match p_expect(ts, q, STok::Then, "after if condition"@) {
                Ok(q2) => if p < q2 <= ts.len() {
                    match p_expr(ts, q2) {
                        Ok((t, q3)) => match p_expect(ts, q3, STok::Else, "after then-branch"@) {
                            Ok(q4) => if p < q4 <= ts.len() {
                                match p_expr(ts, q4) {
                                    Ok((e, q5)) => Ok(
                                        (STerm::If(Box::new(c), Box::new(t), Box::new(e)), q5),
                                    ),
                                    Err(e) => Err(e),
                                }
                            } else {
                                Err(Seq::<char>::empty())
                            },
                            Err(e) => Err(e),
                        },
                        Err(e) => Err(e),
                    }
                } else {
                    Err(Seq::<char>::empty())
                },
                Err(e) => Err(e),
            },
            Err(e) => Err(e),
        }
    } else {
        Err(Seq::<char>::empty())
    }
}

/// The annotated parameters `x : T` from position `q` up to the `.`, and
/// the position of the `.`.
pub open spec fn p_params(ts: Seq<STok>, q: nat) -> Result<(Seq<(Seq<char>, SType)>, nat), Seq<char>>
    decreases ts.len() - q,
{
    match tok_at(ts, q) {
        Some(STok::Ident(name)) => match p_expect(ts, q + 1, STok::Colon, "after parameter name"@) {
            Ok(q1) => match p_type(ts, q1) {
                Ok((ty, q2)) => if tok_at(ts, q2) == Some(STok::Dot) {
                    Ok((seq![(name, ty)], q2))
                } else if q < q2 <= ts.len() {
                    match p_params(ts, q2) {
                        Ok((rest, d)) => Ok((seq![(name, ty)] + rest, d)),
                        Err(e) => Err(e),
                    }
                } else {
                    Err(Seq::<char>::empty())
                },
                Err(e) => Err(e),
            },
            Err(e) => Err(e),
        },
        other => Err("expected parameter name, got "@ + opt_tok_text(other)),
    }
}

/// Nested abstractions over annotated parameters, innermost last.
pub open spec fn abs_over(ps: Seq<(Seq<char>, SType)>, body: STerm) -> STerm
    decreases ps.len(),
{
    if ps.len() == 0 {
        body
    } else {
        STerm::Abs(ps[0].0, ps[0].1, Box::new(abs_over(ps.drop_first(), body)))
    }
}

/// Nested type abstractions over bindings, innermost last.
pub open spec fn ty_abs_over(bs: Seq<(Seq<char>, Kind)>, body: STerm) -> STerm
    decreases bs.len(),
{
    if bs.len() == 0 {
        body
    } else {
        STerm::TyAbs(bs[0].0, bs[0].1, Box::new(ty_abs_over(bs.drop_first(), body)))
    }
}

pub open spec fn p_lambda(ts: Seq<STok>, p: nat) -> PResult
    decreases ts.len() - p, 9nat,
{
    match p_params(ts, p + 1) {
        Ok((ps, d)) => match p_expect(ts, d, STok::Dot, "after parameter list"@) {
            Ok(q) => if p < q <= ts.len() {
                match p_expr(ts, q) {
                    Ok((body, q2)) => Ok((abs_over(ps, body), q2)),
                    Err(e) => Err(e),
                }
            } else {
                Err(Seq::<char>::empty())
            },
            Err(e) => Err(e),
        },
        Err(e) => Err(e),
    }
}

pub open spec fn p_ty_lambda(ts: Seq<STok>, p: nat) -> PResult
    decreases ts.len() - p, 9nat,
{
    match p_bindings(ts, p + 1) {
        Ok((bs, q)) => match p_expect(ts, q, STok::Dot, "after type-variable list"@) {
            Ok(q2) => if p < q2 <= ts.len() {
                match p_expr(ts, q2) {
                    Ok((body, q3)) => Ok((ty_abs_over(bs, body), q3)),
                    Err(e) => Err(e),
                }
            } else {
                Err(Seq::<char>::empty())
            },
            Err(e) => Err(e),
        },
        Err(e) => Err(e),
    }
}

pub open spec fn comparison_op(t: Option<STok>) -> Option<BinOp> {
    match t {
        Some(STok::EqEq) => Some(BinOp::Eq),
        Some(STok::Lt) => Some(BinOp::Lt),
        _ => None,
    }
}

pub open spec fn p_comparison(ts: Seq<STok>, p: nat) -> PResult
    decreases ts.len() - p, 8nat,
{
    match p_add(ts, p) {
        Ok((left, q)) => match comparison_op(tok_at(ts, q)) {
            Some(op) => if p < q + 1 <= ts.len() {
                match p_add(ts, q + 1) {
                    Ok((right, q2)) => Ok((STerm::BinOp(op, Box::new(left), Box::new(right)), q2)),
                    Err(e) => Err(e),
                }
            } else {
                Err(Seq::<char>::empty())
            },
            None => Ok((left, q)),
        },
        Err(e) => Err(e),
    }
}

pub open spec fn add_op(t: Option<STok>) -> Option<BinOp> {
    match t {
        Some(STok::Plus) => Some(BinOp::Add),
        Some(STok::Minus) => Some(BinOp::Sub),
        _ => None,
    }
}

pub open spec fn p_add(ts: Seq<STok>, p: nat) -> PResult
    decreases ts.len() - p, 7nat,
{
    match p_mul(ts, p) {
        Ok((left, q)) => if p < q <= ts.len() {
            p_add_rest(ts, q, left)
        } else {
            Err(Seq::<char>::empty())
        },
        Err(e) => Err(e),
    }
}

pub open spec fn p_add_rest(ts: Seq<STok>, p: nat, left: STerm) -> PResult
    decreases ts.len() - p, 7nat,
{
    match add_op(tok_at(ts, p)) {
        Some(op) => if p + 1 <= ts.len() {
            match p_mul(ts, p + 1) {
                Ok((right, q)) => if p < q <= ts.len() {
                    p_add_rest(ts, q, STerm::BinOp(op, Box::new(left), Box::new(right)))
                } else {
                    Err(Seq::<char>::empty())
                },
                Err(e) => Err(e),
            }
        } else {
            Err(Seq::<char>::empty())
        },
        None => Ok((left, p)),
    }
}

pub open spec fn p_mul(ts: Seq<STok>, p: nat) -> PResult
    decreases ts.len() - p, 6nat,
{
    match p_app(ts, p) {
        Ok((left, q)) => if p < q <= ts.len() {
            p_mul_rest(ts, q, left)
        } else {
            Err(Seq::<char>::empty())
        },
        Err(e) => Err(e),
    }
}

pub open spec fn p_mul_rest(ts: Seq<STok>, p: nat, left: STerm) -> PResult
    decreases ts.len() - p, 6nat,
{
    if tok_at(ts, p) == Some(STok::Star) {
        if p + 1 <= ts.len() {
            match p_app(ts, p + 1) {
                Ok((right, q)) => if p < q <= ts.len() {
                    p_mul_rest(ts, q, STerm::BinOp(BinOp::Mul, Box::new(left), Box::new(right)))
                } else {
                    Err(Seq::<char>::empty())
                },
                Err(e) => Err(e),
            }
        } else {
            Err(Seq::<char>::empty())
        }
    } else {
        Ok((left, p))
    }
}

pub open spec fn starts_atom(t: Option<STok>) -> bool {
    match t {
        Some(STok::Ident(_)) | Some(STok::LParen) | Some(STok::True) | Some(STok::False) | Some(
            STok::IntLit(_),
        ) => true,
        _ => false,
    }
}

pub open spec fn p_app(ts: Seq<STok>, p: nat) -> PResult
    decreases ts.len() - p, 5nat,
{
    match p_atom(ts, p) {
        Ok((left, q)) => if p < q <= ts.len() {
            p_app_rest(ts, q, left)
        } else {
            Err(Seq::<char>::empty())
        },
        Err(e) => Err(e),
    }
}

pub open spec fn p_app_rest(ts: Seq<STok>, p: nat, left: STerm) -> PResult
    decreases ts.len() - p, 5nat,
{
    if p > ts.len() {
        Err(Seq::<char>::empty())
    } else if tok_at(ts, p) == Some(STok::LBracket) {
        match p_type(ts, p + 1) {
            Ok((ty, q)) => match p_expect(ts, q, STok::RBracket, "after type argument"@) {
                Ok(q2) => if p < q2 <= ts.len() {
                    p_app_rest(ts, q2, STerm::TyApp(Box::new(left), ty))
                } else {
                    Err(Seq::<char>::empty())
                },
                Err(e) => Err(e),
            },
            Err(e) => Err(e),
        }
    } else if starts_atom(tok_at(ts, p)) {
        match p_atom(ts, p) {
            Ok((right, q)) => if p < q <= ts.len() {
                p_app_rest(ts, q, STerm::App(Box::new(left), Box::new(right)))
            } else {
                Err(Seq::<char>::empty())
            },
            Err(e) => Err(e),
        }
    } else {
        Ok((left, p))
    }
}

pub open spec fn p_atom(ts: Seq<STok>, p: nat) -> PResult
    decreases ts.len() - p, 4nat,
{
    match tok_at(ts, p) {
        Some(STok::Ident(x)) => Ok((STerm::Var(x), p + 1)),
        Some(STok::True) => Ok((STerm::BoolLit(true), p + 1)),
        Some(STok::False) => Ok((STerm::BoolLit(false), p + 1)),
        Some(STok::IntLit(n)) => Ok((STerm::IntLit(n), p + 1)),
        Some(STok::LParen) => match p_expr(ts, p + 1) {
            Ok((e, q)) => match p_expect(ts, q, STok::RParen, "after expression"@) {
                Ok(q2) => Ok((e, q2)),
                Err(err) => Err(err),
            },
            Err(e) => Err(e),
        },
        other => Err("unexpected token: "@ + opt_tok_text(other)),
    }
}

/// The term a whole token sequence denotes, or the error.
pub open spec fn parse_tokens(ts: Seq<STok>) -> Result<STerm, Seq<char>> {
    match p_expr(ts, 0) {
        Ok((t, q)) => if q < ts.len() {
            Err("unexpected token after expression: "@ + opt_tok_text(tok_at(ts, q)))
        } else {
            Ok(t)
        },
        Err(e) => Err(e),
    }
}

/// What `parse` gives for an input string.
pub open spec fn parse_spec(input: Seq<char>) -> Result<STerm, Seq<char>> {
    match lex(input, 0) {
        Ok(ts) => parse_tokens(ts),
        Err(e) => Err(e),
    }
}

/// What `parse_type_str` gives for an input string.
pub open spec fn parse_type_spec(input: Seq<char>) -> Result<SType, Seq<char>> {
    match lex(input, 0) {
        Ok(ts) => match p_type(ts, 0) {
            Ok((t, q)) => if q < ts.len() {
                Err("unexpected token after type: "@ + opt_tok_text(tok_at(ts, q)))
            } else {
                Ok(t)
            },
            Err(e) => Err(e),
        },
        Err(e) => Err(e),
    }
}

/// A parse result matches its specification from position `p0`, ending at
/// `p1`.
pub open spec fn agrees(r: Result<Term, String>, s: PResult, p0: nat, p1: nat) -> bool {
    match r {
        Ok(t) => s == Ok::<(STerm, nat), Seq<char>>((t@, p1)) && p0 < p1,
        Err(e) => s == Err::<(STerm, nat), Seq<char>>(e@),
    }
}

pub open spec fn agrees_type(r: Result<Type, String>, s: TResult, p0: nat, p1: nat) -> bool {
    match r {
        Ok(t) => s == Ok::<(SType, nat), Seq<char>>((t@, p1)) && p0 < p1,
        Err(e) => s == Err::<(SType, nat), Seq<char>>(e@),
    }
}

pub open spec fn agrees_kind(r: Result<Kind, String>, s: KResult, p0: nat, p1: nat) -> bool {
    match r {
        Ok(k) => s == Ok::<(Kind, nat), Seq<char>>((k, p1)) && p0 < p1,
        Err(e) => s == Err::<(Kind, nat), Seq<char>>(e@),
    }
}

pub open spec fn binding_views(v: Seq<(String, Kind)>) -> Seq<(Seq<char>, Kind)> {
    v.map_values(|b: (String, Kind)| (b.0@, b.1))
}

pub open spec fn param_views(v: Seq<(String, Type)>) -> Seq<(Seq<char>, SType)> {
    v.map_values(|b: (String, Type)| (b.0@, b.1@))
}

struct Parser {
    tokens: Vec<Tok>,
    pos: usize,
}

impl Parser {
    spec fn ts(&self) -> Seq<STok> {
        toks_view(self.tokens@)
    }

    fn peek(&self) -> (r: Option<&Tok>)
        ensures
            match r {
                Some(t) => tok_at(self.ts(), self.pos as nat) == Some(t@),
                None => tok_at(self.ts(), self.pos as nat) is None,
            },
    {
        if self.pos < self.tokens.len() {
            Some(&self.tokens[self.pos])
        } else {
            None
        }
    }

    fn advance(&mut self) -> (r: Option<Tok>)
        requires
            old(self).pos <= old(self).tokens.len(),
        ensures
            final(self).tokens == old(self).tokens,
            match r {
                Some(t) => tok_at(old(self).ts(), old(self).pos as nat) == Some(t@)
                    && final(self).pos == old(self).pos + 1,
                None => tok_at(old(self).ts(), old(self).pos as nat) is None
                    && final(self).pos == old(self).pos,
            },
            final(self).pos <= final(self).tokens.len(),
    {
        if self.pos < self.tokens.len() {
            let t = self.tokens[self.pos].copy();
            self.pos = self.pos + 1;
            Some(t)
        } else {
            None
        }
    }

    fn expect(&mut self, want: &Tok, ctx: &str) -> (r: Result<(), String>)
        requires
            old(self).pos <= old(self).tokens.len(),
        ensures
            final(self).tokens == old(self).tokens,
            final(self).pos <= final(self).tokens.len(),
            match r {
                Ok(_) => p_expect(old(self).ts(), old(self).pos as nat, want@, ctx@) == Ok::<nat, Seq<char>>(final(self).pos as nat),
                Err(e) => p_expect(old(self).ts(), old(self).pos as nat, want@, ctx@) == Err::<nat, Seq<char>>(e@),
            },
    {
        let got = self.advance();
        match got {
            Some(t) => {
                if t.same(want) {
                    return Ok(());
                }
                let mut msg = String::from_str("expected ");
                msg.append(want.text().as_str());
                msg.append(" ");
                msg.append(ctx);
                msg.append(", got ");
                msg.append(opt_tok_text_exec(Some(&t)).as_str());
                Err(msg)
            },
            None => {
                let mut msg = String::from_str("expected ");
                msg.append(want.text().as_str());
                msg.append(" ");
                msg.append(ctx);
                msg.append(", got ");
                msg.append(opt_tok_text_exec(None).as_str());
                Err(msg)
            },
        }
    }

    // ----- kinds -----

    fn parse_kind(&mut self) -> (r: Result<Kind, String>)
        requires
            old(self).pos <= old(self).tokens.len(),
        ensures
            final(self).tokens == old(self).tokens,
            final(self).pos <= final(self).tokens.len(),
            agrees_kind(r, p_kind(old(self).ts(), old(self).pos as nat), old(self).pos as nat, final(self).pos as nat),
        decreases old(self).tokens.len() - old(self).pos, 1nat,
    {
        let left = self.parse_kind_atom()?;
        let is_arrow = match self.peek() {
            Some(Tok::Arrow) => true,
            _ => false,
        };
        if is_arrow {
            self.advance();
            let right = self.parse_kind()?;
            Ok(Kind::Arrow(Box::new(left), Box::new(right)))
        } else {
            Ok(left)
        }
    }

    fn parse_kind_atom(&mut self) -> (r: Result<Kind, String>)
        requires
            old(self).pos <= old(self).tokens.len(),
        ensures
            final(self).tokens == old(self).tokens,
            final(self).pos <= final(self).tokens.len(),
            agrees_kind(r, p_kind_atom(old(self).ts(), old(self).pos as nat), old(self).pos as nat, final(self).pos as nat),
        decreases old(self).tokens.len() - old(self).pos, 0nat,
    {
        match self.advance() {
            Some(Tok::Star) => Ok(Kind::Star),
            Some(Tok::LParen) => {
                let k = self.parse_kind()?;
                self.expect(&Tok::RParen, "after kind")?;
                Ok(k)
            },
            other => {
                let mut msg = String::from_str("expected kind, got ");
                msg.append(opt_tok_text_exec(match &other { Some(t) => Some(t), None => None }).as_str());
                Err(msg)
            },
        }
    }

    // ----- types -----

    fn parse_bindings(&mut self) -> (r: Result<Vec<(String, Kind)>, String>)
        requires
            old(self).pos <= old(self).tokens.len(),
        ensures
            final(self).tokens == old(self).tokens,
            final(self).pos <= final(self).tokens.len(),
            match r {
                Ok(bs) => p_bindings(old(self).ts(), old(self).pos as nat) == Ok::<(Seq<(Seq<char>, Kind)>, nat), Seq<char>>(
                    (binding_views(bs@), final(self).pos as nat),
                ),
                Err(e) => p_bindings(old(self).ts(), old(self).pos as nat) == Err::<(Seq<(Seq<char>, Kind)>, nat), Seq<char>>(e@),
            },
            r is Ok ==> final(self).pos > old(self).pos,
    {
        let ghost ts = self.ts();
        let ghost p0 = self.pos as nat;
        let mut result: Vec<(String, Kind)> = Vec::new();
        let mut more = match self.peek() {
            Some(Tok::Ident(_)) => true,
            _ => false,
        };
        while more
            invariant
                self.pos <= self.tokens.len(),
                self.tokens == old(self).tokens,
                ts == old(self).ts(),
                self.ts() == ts,
                p0 == old(self).pos,
                p0 <= self.pos,
                p_bindings_rest(ts, p0) == (match p_bindings_rest(ts, self.pos as nat) {
                    Ok((rest, q)) => Ok((binding_views(result@) + rest, q)),
                    Err(e) => Err(e),
                }),
                more <==> (tok_at(ts, self.pos as nat) matches Some(STok::Ident(_))),
                result.len() > 0 ==> self.pos > p0,
            decreases self.tokens.len() - self.pos,
        {
            let ghost q = self.pos as nat;
            let ghost before = binding_views(result@);
            let name = match self.advance() {
                Some(Tok::Ident(s)) => s,
                _ => String::new(),
            };
            let has_kind = match self.peek() {
                Some(Tok::ColonColon) => true,
                _ => false,
            };
            let kind = if has_kind {
                self.advance();
                self.parse_kind()?
            } else {
                Kind::Star
            };
            result.push((name, kind));
            more = match self.peek() {
                Some(Tok::Ident(_)) => true,
                _ => false,
            };
            proof {
                assert(binding_views(result@) =~= before + seq![(result@.last().0@, result@.last().1)]);
                assert forall|rest: Seq<(Seq<char>, Kind)>| #[trigger] (before + (seq![(result@.last().0@, result@.last().1)] + rest)) == binding_views(result@) + rest by {
                    assert(before + (seq![(result@.last().0@, result@.last().1)] + rest) =~= binding_views(result@) + rest);
                }
            }
        }
        assert(binding_views(result@) + Seq::<(Seq<char>, Kind)>::empty() =~= binding_views(result@));
        if result.len() == 0 {
            return Err(String::from_str("expected at least one binder"));
        }
        Ok(result)
    }

    fn parse_type(&mut self) -> (r: Result<Type, String>)
        requires
            old(self).pos <= old(self).tokens.len(),
        ensures
            final(self).tokens == old(self).tokens,
            final(self).pos <= final(self).tokens.len(),
            agrees_type(r, p_type(old(self).ts(), old(self).pos as nat), old(self).pos as nat, final(self).pos as nat),
        decreases old(self).tokens.len() - old(self).pos, 3nat,
    {
        let which: u8 = match self.peek() {
            Some(Tok::ForAll) => 0,
            Some(Tok::Lambda) => 1,
            _ => 2,
        };
        if which == 0 {
            self.parse_type_binder(false)
        } else if which == 1 {
            self.parse_type_binder(true)
        } else {
            self.parse_type_arrow()
        }
    }

    fn parse_type_binder(&mut self, is_abs: bool) -> (r: Result<Type, String>)
        requires
            old(self).pos < old(self).tokens.len(),
        ensures
            final(self).tokens == old(self).tokens,
            final(self).pos <= final(self).tokens.len(),
            agrees_type(r, p_type_binder(old(self).ts(), old(self).pos as nat, is_abs), old(self).pos as nat, final(self).pos as nat),
        decreases old(self).tokens.len() - old(self).pos, 2nat,
    {
        self.advance();
        let bindings = self.parse_bindings()?;
        self.expect(&Tok::Dot, if is_abs { "after type-level lambda binders" } else { "after forall binders" })?;
        let body = self.parse_type()?;
        let ghost bs = binding_views(bindings@);
        let mut t = body;
        let mut i = bindings.len();
        assert(bs.skip(i as int) =~= Seq::<(Seq<char>, Kind)>::empty());
        while i > 0
            invariant
                i <= bindings.len(),
                bs == binding_views(bindings@),
                t@ == bind_types(bs.skip(i as int), body@, is_abs),
            decreases i,
        {
            i = i - 1;
            assert(bs.skip(i as int).drop_first() =~= bs.skip(i + 1));
            let (name, k) = (bindings[i].0.clone(), bindings[i].1.duplicate());
            if is_abs {
                t = Type::Abs(name, k, Box::new(t));
            } else {
                t = Type::ForAll(name, k, Box::new(t));
            }
        }
        assert(bs.skip(0) =~= bs);
        Ok(t)
    }

    fn parse_type_arrow(&mut self) -> (r: Result<Type, String>)
        requires
            old(self).pos <= old(self).tokens.len(),
        ensures
            final(self).tokens == old(self).tokens,
            final(self).pos <= final(self).tokens.len(),
            agrees_type(r, p_type_arrow(old(self).ts(), old(self).pos as nat), old(self).pos as nat, final(self).pos as nat),
        decreases old(self).tokens.len() - old(self).pos, 2nat,
    {
        let left = self.parse_type_app()?;
        let is_arrow = match self.peek() {
            Some(Tok::Arrow) => true,
            _ => false,
        };
        if is_arrow {
            self.advance();
            let right = self.parse_type()?;
            Ok(Type::Arrow(Box::new(left), Box::new(right)))
        } else {
            Ok(left)
        }
    }

    fn parse_type_app(&mut self) -> (r: Result<Type, String>)
        requires
            old(self).pos <= old(self).tokens.len(),
        ensures
            final(self).tokens == old(self).tokens,
            final(self).pos <= final(self).tokens.len(),
            agrees_type(r, p_type_app(old(self).ts(), old(self).pos as nat), old(self).pos as nat, final(self).pos as nat),
        decreases old(self).tokens.len() - old(self).pos, 1nat,
    {
        let ghost ts = self.ts();
        let ghost p0 = self.pos as nat;
        let mut left = self.parse_type_atom()?;
        loop
            invariant
                self.pos <= self.tokens.len(),
                self.tokens == old(self).tokens,
                ts == old(self).ts(),
                self.ts() == ts,
                p0 == old(self).pos,
                p0 < self.pos,
                p_type_app(ts, p0) == p_type_app_rest(ts, self.pos as nat, left@),
            decreases self.tokens.len() - self.pos,
        {
            let more = match self.peek() {
                Some(Tok::Ident(_)) | Some(Tok::LParen) | Some(Tok::BoolKw) | Some(Tok::IntKw) => true,
                _ => false,
            };
            if !more {
                return Ok(left);
            }
            let right = self.parse_type_atom()?;
            left = Type::App(Box::new(left), Box::new(right));
        }
    }

    fn parse_type_atom(&mut self) -> (r: Result<Type, String>)
        requires
            old(self).pos <= old(self).tokens.len(),
        ensures
            final(self).tokens == old(self).tokens,
            final(self).pos <= final(self).tokens.len(),
            agrees_type(r, p_type_atom(old(self).ts(), old(self).pos as nat), old(self).pos as nat, final(self).pos as nat),
        decreases old(self).tokens.len() - old(self).pos, 0nat,
    {
        match self.advance() {
            Some(Tok::BoolKw) => Ok(Type::Bool),
            Some(Tok::IntKw) => Ok(Type::Int),
            Some(Tok::Ident(s)) => Ok(Type::Var(s)),
            Some(Tok::LParen) => {
                let t = self.parse_type()?;
                self.expect(&Tok::RParen, "after type")?;
                Ok(t)
            },
            other => {
                let mut msg = String::from_str("expected type, got ");
                msg.append(opt_tok_text_exec(match &other { Some(t) => Some(t), None => None }).as_str());
                Err(msg)
            },
        }
    }

    // ----- terms -----

    fn parse_expr(&mut self) -> (r: Result<Term, String>)
        requires
            old(self).pos <= old(self).tokens.len(),
        ensures
            final(self).tokens == old(self).tokens,
            final(self).pos <= final(self).tokens.len(),
            agrees(r, p_expr(old(self).ts(), old(self).pos as nat), old(self).pos as nat, final(self).pos as nat),
        decreases old(self).tokens.len() - old(self).pos, 10nat,
    {
        let which: u8 = match self.peek() {
            Some(Tok::Let) => 0,
            Some(Tok::If) => 1,
            Some(Tok::Lambda) => 2,
            Some(Tok::BigLambda) => 3,
            _ => 4,
        };
        if which == 0 {
            self.parse_let()
        } else if which == 1 {
            self.parse_if()
        } else if which == 2 {
            self.parse_lambda()
        } else if which == 3 {
            self.parse_ty_lambda()
        } else {
            self.parse_comparison()
        }
    }

    fn parse_let(&mut self) -> (r: Result<Term, String>)
        requires
            old(self).pos < old(self).tokens.len(),
            tok_at(old(self).ts(), old(self).pos as nat) == Some(STok::Let),
        ensures
            final(self).tokens == old(self).tokens,
            final(self).pos <= final(self).tokens.len(),
            agrees(r, p_let(old(self).ts(), old(self).pos as nat), old(self).pos as nat, final(self).pos as nat),
        decreases old(self).tokens.len() - old(self).pos, 9nat,
    {
        self.advance();
        let name = match self.advance() {
            Some(Tok::Ident(s)) => s,
            other => {
                let mut msg = String::from_str("expected identifier after 'let', got ");
                msg.append(opt_tok_text_exec(match &other { Some(t) => Some(t), None => None }).as_str());
                return Err(msg);
            },
        };
        self.expect(&Tok::Eq, "after let-bound name")?;
        let e1 = self.parse_expr()?;
        self.expect(&Tok::In, "after let binding")?;
        let e2 = self.parse_expr()?;
        Ok(Term::Let(name, Box::new(e1), Box::new(e2)))
    }

    fn parse_if(&mut self) -> (r: Result<Term, String>)
        requires
            old(self).pos < old(self).tokens.len(),
            tok_at(old(self).ts(), old(self).pos as nat) == Some(STok::If),
        ensures
            final(self).tokens == old(self).tokens,
            final(self).pos <= final(self).tokens.len(),
            agrees(r, p_if(old(self).ts(), old(self).pos as nat), old(self).pos as nat, final(self).pos as nat),
        decreases old(self).tokens.len() - old(self).pos, 9nat,
    {
        self.advance();
        let c = self.parse_expr()?;
        self.expect(&Tok::Then, "after if condition")?;
        let t = self.parse_expr()?;
        self.expect(&Tok::Else, "after then-branch")?;
        let e = self.parse_expr()?;
        Ok(Term::If(Box::new(c), Box::new(t), Box::new(e)))
    }

    fn parse_lambda(&mut self) -> (r: Result<Term, String>)
        requires
            old(self).pos < old(self).tokens.len(),
            tok_at(old(self).ts(), old(self).pos as nat) == Some(STok::Lambda),
        ensures
            final(self).tokens == old(self).tokens,
            final(self).pos <= final(self).tokens.len(),
            agrees(r, p_lambda(old(self).ts(), old(self).pos as nat), old(self).pos as nat, final(self).pos as nat),
        decreases old(self).tokens.len() - old(self).pos, 9nat,
    {
        let ghost ts = self.ts();
        let ghost p0 = self.pos as nat;
        self.advance();
        let mut params: Vec<(String, Type)> = Vec::new();
        let mut done = false;
        while !done
            invariant
                self.pos <= self.tokens.len(),
                self.tokens == old(self).tokens,
                ts == old(self).ts(),
                self.ts() == ts,
                p0 == old(self).pos,
                p0 < self.pos,
                !done ==> p_params(ts, p0 + 1) == (match p_params(ts, self.pos as nat) {
                    Ok((rest, d)) => Ok((param_views(params@) + rest, d)),
                    Err(e) => Err(e),
                }),
                done ==> p_params(ts, p0 + 1) == Ok::<(Seq<(Seq<char>, SType)>, nat), Seq<char>>(
                    (param_views(params@), self.pos as nat),
                ) && tok_at(ts, self.pos as nat) == Some(STok::Dot),
            decreases self.tokens.len() - self.pos,
        {
            let ghost before = param_views(params@);
            let name = match self.advance() {
                Some(Tok::Ident(s)) => s,
                other => {
                    let mut msg = String::from_str("expected parameter name, got ");
                    msg.append(opt_tok_text_exec(match &other { Some(t) => Some(t), None => None }).as_str());
                    return Err(msg);
                },
            };
            self.expect(&Tok::Colon, "after parameter name")?;
            let ty = self.parse_type()?;
            params.push((name, ty));
            proof {
                assert(param_views(params@) =~= before + seq![(params@.last().0@, params@.last().1@)]);
                assert forall|rest: Seq<(Seq<char>, SType)>| #[trigger] (before + (seq![(params@.last().0@, params@.last().1@)] + rest)) == param_views(params@) + rest by {
                    assert(before + (seq![(params@.last().0@, params@.last().1@)] + rest) =~= param_views(params@) + rest);
                }
            }
            let at_dot = match self.peek() {
                Some(Tok::Dot) => true,
                _ => false,
            };
            if at_dot {
                done = true;
            }
        }
        self.expect(&Tok::Dot, "after parameter list")?;
        let body = self.parse_expr()?;
        let ghost ps = param_views(params@);
        let mut t = body;
        let mut i = params.len();
        assert(ps.skip(i as int) =~= Seq::<(Seq<char>, SType)>::empty());
        while i > 0
            invariant
                i <= params.len(),
                ps == param_views(params@),
                t@ == abs_over(ps.skip(i as int), body@),
            decreases i,
        {
            i = i - 1;
            assert(ps.skip(i as int).drop_first() =~= ps.skip(i + 1));
            t = Term::Abs(params[i].0.clone(), params[i].1.duplicate(), Box::new(t));
        }
        assert(ps.skip(0) =~= ps);
        Ok(t)
    }

    fn parse_ty_lambda(&mut self) -> (r: Result<Term, String>)
        requires
            old(self).pos < old(self).tokens.len(),
            tok_at(old(self).ts(), old(self).pos as nat) == Some(STok::BigLambda),
        ensures
            final(self).tokens == old(self).tokens,
            final(self).pos <= final(self).tokens.len(),
            agrees(r, p_ty_lambda(old(self).ts(), old(self).pos as nat), old(self).pos as nat, final(self).pos as nat),
        decreases old(self).tokens.len() - old(self).pos, 9nat,
    {
        self.advance();
        let bindings = self.parse_bindings()?;
        self.expect(&Tok::Dot, "after type-variable list")?;
        let body = self.parse_expr()?;
        let ghost bs = binding_views(bindings@);
        let mut t = body;
        let mut i = bindings.len();
        assert(bs.skip(i as int) =~= Seq::<(Seq<char>, Kind)>::empty());
        while i > 0
            invariant
                i <= bindings.len(),
                bs == binding_views(bindings@),
                t@ == ty_abs_over(bs.skip(i as int), body@),
            decreases i,
        {
            i = i - 1;
            assert(bs.skip(i as int).drop_first() =~= bs.skip(i + 1));
            t = Term::TyAbs(bindings[i].0.clone(), bindings[i].1.duplicate(), Box::new(t));
        }
        assert(bs.skip(0) =~= bs);
        Ok(t)
    }

    fn parse_comparison(&mut self) -> (r: Result<Term, String>)
        requires
            old(self).pos <= old(self).tokens.len(),
        ensures
            final(self).tokens == old(self).tokens,
            final(self).pos <= final(self).tokens.len(),
            agrees(r, p_comparison(old(self).ts(), old(self).pos as nat), old(self).pos as nat, final(self).pos as nat),
        decreases old(self).tokens.len() - old(self).pos, 8nat,
    {
        let left = self.parse_add()?;
        let op = match self.peek() {
            Some(Tok::EqEq) => Some(BinOp::Eq),
            Some(Tok::Lt) => Some(BinOp::Lt),
            _ => None,
        };
        if let Some(op) = op {
            self.advance();
            let right = self.parse_add()?;
            Ok(Term::BinOp(op, Box::new(left), Box::new(right)))
        } else {
            Ok(left)
        }
    }

    fn parse_add(&mut self) -> (r: Result<Term, String>)
        requires
            old(self).pos <= old(self).tokens.len(),
        ensures
            final(self).tokens == old(self).tokens,
            final(self).pos <= final(self).tokens.len(),
            agrees(r, p_add(old(self).ts(), old(self).pos as nat), old(self).pos as nat, final(self).pos as nat),
        decreases old(self).tokens.len() - old(self).pos, 7nat,
    {
        let ghost ts = self.ts();
        let ghost p0 = self.pos as nat;
        let mut left = self.parse_mul()?;
        loop
            invariant
                self.pos <= self.tokens.len(),
                self.tokens == old(self).tokens,
                ts == old(self).ts(),
                self.ts() == ts,
                p0 == old(self).pos,
                p0 < self.pos,
                p_add(ts, p0) == p_add_rest(ts, self.pos as nat, left@),
            decreases self.tokens.len() - self.pos,
        {
            let op = match self.peek() {
                Some(Tok::Plus) => BinOp::Add,
                Some(Tok::Minus) => BinOp::Sub,
                _ => {
                    return Ok(left);
                },
            };
            self.advance();
            let right = self.parse_mul()?;
            left = Term::BinOp(op, Box::new(left), Box::new(right));
        }
    }

    #[verifier::rlimit(40)]
    fn parse_mul(&mut self) -> (r: Result<Term, String>)
        requires
            old(self).pos <= old(self).tokens.len(),
        ensures
            final(self).tokens == old(self).tokens,
            final(self).pos <= final(self).tokens.len(),
            agrees(r, p_mul(old(self).ts(), old(self).pos as nat), old(self).pos as nat, final(self).pos as nat),
        decreases old(self).tokens.len() - old(self).pos, 6nat,
    {
        let ghost ts = self.ts();
        let ghost p0 = self.pos as nat;
        let mut left = self.parse_app()?;
        loop
            invariant
                self.pos <= self.tokens.len(),
                self.tokens == old(self).tokens,
                ts == old(self).ts(),
                self.ts() == ts,
                p0 == old(self).pos,
                p0 < self.pos,
                p_mul(ts, p0) == p_mul_rest(ts, self.pos as nat, left@),
            decreases self.tokens.len() - self.pos,
        {
            let is_star = match self.peek() {
                Some(Tok::Star) => true,
                _ => false,
            };
            if !is_star {
                return Ok(left);
            }
            self.advance();
            let right = self.parse_app()?;
            left = Term::BinOp(BinOp::Mul, Box::new(left), Box::new(right));
        }
    }

    fn parse_app(&mut self) -> (r: Result<Term, String>)
        requires
            old(self).pos <= old(self).tokens.len(),
        ensures
            final(self).tokens == old(self).tokens,
            final(self).pos <= final(self).tokens.len(),
            agrees(r, p_app(old(self).ts(), old(self).pos as nat), old(self).pos as nat, final(self).pos as nat),
        decreases old(self).tokens.len() - old(self).pos, 5nat,
    {
        let ghost ts = self.ts();
        let ghost p0 = self.pos as nat;
        let mut left = self.parse_atom()?;
        loop
            invariant
                self.pos <= self.tokens.len(),
                self.tokens == old(self).tokens,
                ts == old(self).ts(),
                self.ts() == ts,
                p0 == old(self).pos,
                p0 < self.pos,
                p_app(ts, p0) == p_app_rest(ts, self.pos as nat, left@),
            decreases self.tokens.len() - self.pos,
        {
            let which: u8 = match self.peek() {
                Some(Tok::LBracket) => 0,
                Some(Tok::Ident(_)) | Some(Tok::LParen) | Some(Tok::True) | Some(Tok::False)
                | Some(Tok::IntLit(_)) => 1,
                _ => 2,
            };
            if which == 0 {
                self.advance();
                let ty = self.parse_type()?;
                self.expect(&Tok::RBracket, "after type argument")?;
                left = Term::TyApp(Box::new(left), ty);
            } else if which == 1 {
                let right = self.parse_atom()?;
                left = Term::App(Box::new(left), Box::new(right));
            } else {
                return Ok(left);
            }
        }
    }

    fn parse_atom(&mut self) -> (r: Result<Term, String>)
        requires
            old(self).pos <= old(self).tokens.len(),
        ensures
            final(self).tokens == old(self).tokens,
            final(self).pos <= final(self).tokens.len(),
            agrees(r, p_atom(old(self).ts(), old(self).pos as nat), old(self).pos as nat, final(self).pos as nat),
        decreases old(self).tokens.len() - old(self).pos, 4nat,
    {
        match self.advance() {
            Some(Tok::Ident(s)) => Ok(Term::Var(s)),
            Some(Tok::True) => Ok(Term::BoolLit(true)),
            Some(Tok::False) => Ok(Term::BoolLit(false)),
            Some(Tok::IntLit(n)) => Ok(Term::IntLit(n)),
            Some(Tok::LParen) => {
                let e = self.parse_expr()?;
                self.expect(&Tok::RParen, "after expression")?;
                Ok(e)
            },
            other => {
                let mut msg = String::from_str("unexpected token: ");
                msg.append(opt_tok_text_exec(match &other { Some(t) => Some(t), None => None }).as_str());
                Err(msg)
            },
        }
    }
}

/// Parses a term.
pub fn parse(input: &str) -> (r: Result<Term, String>)
    ensures
        match r {
            Ok(t) => parse_spec(input@) == Ok::<STerm, Seq<char>>(t@),
            Err(e) => parse_spec(input@) == Err::<STerm, Seq<char>>(e@),
        },
{
    let tokens = tokenize(input)?;
    let mut p = Parser { tokens, pos: 0 };
    let t = p.parse_expr()?;
    if p.pos < p.tokens.len() {
        let mut msg = String::from_str("unexpected token after expression: ");
        let d = opt_tok_text_exec(p.tokens.get(p.pos));
        msg.append(d.as_str());
        return Err(msg);
    }
    Ok(t)
}

/// Parses a type.
pub fn parse_type_str(input: &str) -> (r: Result<Type, String>)
    ensures
        match r {
            Ok(t) => parse_type_spec(input@) == Ok::<SType, Seq<char>>(t@),
            Err(e) => parse_type_spec(input@) == Err::<SType, Seq<char>>(e@),
        },
{
    let tokens = tokenize(input)?;
    let mut p = Parser { tokens, pos: 0 };
    let t = p.parse_type()?;
    if p.pos < p.tokens.len() {
        let mut msg = String::from_str("unexpected token after type: ");
        let d = opt_tok_text_exec(p.tokens.get(p.pos));
        msg.append(d.as_str());
        return Err(msg);
    }
    Ok(t)
}

} // verus!
