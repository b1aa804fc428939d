//! What the interactive loops decide: which calculus a command-line word
//! selects, what a line of input asks for, and the notes printed after an
//! evaluation. Reading and printing are left to the program around this
//! library.

use vstd::prelude::*;

use crate::names::{chars_of, dec, decimal, str_eq, string_of};

verus! {

/// The calculus (or usage text) chosen by the first command-line word.
#[derive(Debug, PartialEq, Eq, Structural)]
pub enum Mode {
    Untyped,
    Stlc,
    SystemF,
    Hm,
    FOmega,
    LambdaP,
    Usage,
    Unknown,
}

pub open spec fn mode_of(arg: Seq<char>) -> Mode {
    if arg == "untyped"@ || arg == "lc"@ {
        Mode::Untyped
    } else if arg == "stlc"@ || arg == "lambda-arrow"@ {
        Mode::Stlc
    } else if arg == "systemf"@ || arg == "f"@ || arg == "lambda2"@ {
        Mode::SystemF
    } else if arg == "hm"@ || arg == "ml"@ {
        Mode::Hm
    } else if arg == "fomega"@ || arg == "fw"@ || arg == "lambdaomega"@ {
        Mode::FOmega
    } else if arg == "lambdap"@ || arg == "lp"@ || arg == "dep"@ {
        Mode::LambdaP
    } else if arg == "help"@ || arg == "--help"@ || arg == "-h"@ || arg.len() == 0 {
        Mode::Usage
    } else {
        Mode::Unknown
    }
}

/// The mode a command-line word selects; an empty word asks for usage.
pub fn select_mode(arg: &str) -> (m: Mode)
    ensures
        m == mode_of(arg@),
{
    if str_eq(arg, "untyped") || str_eq(arg, "lc") {
        Mode::Untyped
    } else if str_eq(arg, "stlc") || str_eq(arg, "lambda-arrow") {
        Mode::Stlc
    } else if str_eq(arg, "systemf") || str_eq(arg, "f") || str_eq(arg, "lambda2") {
        Mode::SystemF
    } else if str_eq(arg, "hm") || str_eq(arg, "ml") {
        Mode::Hm
    } else if str_eq(arg, "fomega") || str_eq(arg, "fw") || str_eq(arg, "lambdaomega") {
        Mode::FOmega
    } else if str_eq(arg, "lambdap") || str_eq(arg, "lp") || str_eq(arg, "dep") {
        Mode::LambdaP
    } else if str_eq(arg, "help") || str_eq(arg, "--help") || str_eq(arg, "-h") || arg.unicode_len()
        == 0 {
        Mode::Usage
    } else {
        Mode::Unknown
    }
}

/// What a (trimmed) line of input asks the loop to do.
#[derive(Debug, PartialEq, Eq)]
pub enum Command {
    Blank,
    Quit,
    Help,
    /// `:t e` / `:type e`: show the type of `e`.
    TypeOf(String),
    /// `:k T` / `:kind T`: show the kind of `T`.
    KindOf(String),
    /// `:trace e` / `:tr e`: show each step of evaluating `e`.
    Trace(String),
    /// Anything else: evaluate the line.
    Evaluate(String),
}

pub enum SCommand {
    Blank,
    Quit,
    Help,
    TypeOf(Seq<char>),
    KindOf(Seq<char>),
    Trace(Seq<char>),
    Evaluate(Seq<char>),
}

impl View for Command {
    type V = SCommand;

    open spec fn view(&self) -> SCommand {
        match self {
            Command::Blank => SCommand::Blank,
            Command::Quit => SCommand::Quit,
            Command::Help => SCommand::Help,
            Command::TypeOf(s) => SCommand::TypeOf(s@),
            Command::KindOf(s) => SCommand::KindOf(s@),
            Command::Trace(s) => SCommand::Trace(s@),
            Command::Evaluate(s) => SCommand::Evaluate(s@),
        }
    }
}

pub open spec fn has_prefix(s: Seq<char>, p: Seq<char>) -> bool {
    p.len() <= s.len() && s.subrange(0, p.len() as int) == p
}

/// The text after the first of two prefixes that `s` starts with.
pub open spec fn after_either(s: Seq<char>, p1: Seq<char>, p2: Seq<char>) -> Option<Seq<char>> {
    if has_prefix(s, p1) {
        Some(s.skip(p1.len() as int))
    } else if has_prefix(s, p2) {
        Some(s.skip(p2.len() as int))
    } else {
        None
    }
}

/// The command a line denotes. `:t`/`:type` count only when `types` is set
/// and `:k`/`:kind` only when `kinds` is set; the others hold everywhere.
pub open spec fn command_of(s: Seq<char>, types: bool, kinds: bool) -> SCommand {
    if s.len() == 0 {
        SCommand::Blank
    } else if s == ":quit"@ || s == ":q"@ {
        SCommand::Quit
    } else if s == ":help"@ || s == ":h"@ {
        SCommand::Help
    } else if types && after_either(s, ":t "@, ":type "@) is Some {
        SCommand::TypeOf(after_either(s, ":t "@, ":type "@)->0)
    } else if kinds && after_either(s, ":k "@, ":kind "@) is Some {
        SCommand::KindOf(after_either(s, ":k "@, ":kind "@)->0)
    } else if after_either(s, ":trace "@, ":tr "@) is Some {
        SCommand::Trace(after_either(s, ":trace "@, ":tr "@)->0)
    } else {
        SCommand::Evaluate(s)
    }
}

/// The text after `p` when `s` starts with it.
fn strip_prefix(s: &str, p: &str) -> (r: Option<String>)
    ensures
        match r {
            Some(rest) => has_prefix(s@, p@) && rest@ == s@.skip(p@.len() as int),
            None => !has_prefix(s@, p@),
        },
{
    let cs = chars_of(s);
    let ps = chars_of(p);
    if ps.len() > cs.len() {
        return None;
    }
    let mut i: usize = 0;
    while i < ps.len()
        invariant
            i <= ps.len() <= cs.len(),
            cs@ == s@,
            ps@ == p@,
            forall|k: int| 0 <= k < i ==> cs@[k] == ps@[k],
        decreases ps.len() - i,
    {
        if cs[i] != ps[i] {
            assert(s@.subrange(0, p@.len() as int)[i as int] != p@[i as int]);
            return None;
        }
        i = i + 1;
    }
    assert(s@.subrange(0, p@.len() as int) =~= p@);
    let mut rest: Vec<char> = Vec::new();
    let mut j = ps.len();
    while j < cs.len()
        invariant
            ps.len() <= j <= cs.len(),
            cs@ == s@,
            ps@ == p@,
            rest@ == s@.subrange(p@.len() as int, j as int),
        decreases cs.len() - j,
    {
        rest.push(cs[j]);
        assert(s@.subrange(p@.len() as int, j + 1) =~= s@.subrange(p@.len() as int, j as int).push(cs@[j as int]));
        j = j + 1;
    }
    assert(s@.subrange(p@.len() as int, j as int) =~= s@.skip(p@.len() as int));
    Some(string_of(&rest))
}

fn strip_either(s: &str, p1: &str, p2: &str) -> (r: Option<String>)
    ensures
        match r {
            Some(rest) => after_either(s@, p1@, p2@) == Some(rest@),
            None => after_either(s@, p1@, p2@) is None,
        },
{
    match strip_prefix(s, p1) {
        Some(rest) => Some(rest),
        None => strip_prefix(s, p2),
    }
}

/// The command a trimmed line denotes. `types` enables `:t`/`:type`,
/// `kinds` enables `:k`/`:kind`.
pub fn classify(input: &str, types: bool, kinds: bool) -> (c: Command)
    ensures
        c@ == command_of(input@, types, kinds),
{
    if input.unicode_len() == 0 {
        return Command::Blank;
    }
    if str_eq(input, ":quit") || str_eq(input, ":q") {
        return Command::Quit;
    }
    if str_eq(input, ":help") || str_eq(input, ":h") {
        return Command::Help;
    }
    if types {
        if let Some(rest) = strip_either(input, ":t ", ":type ") {
            return Command::TypeOf(rest);
        }
    }
    if kinds {
        if let Some(rest) = strip_either(input, ":k ", ":kind ") {
            return Command::KindOf(rest);
        }
    }
    if let Some(rest) = strip_either(input, ":trace ", ":tr ") {
        return Command::Trace(rest);
    }
    Command::Evaluate(String::from_str(input))
}

/// `(n noun)` with the noun in the plural unless `n` is 1, e.g. `(3 steps)`.
pub open spec fn count_note(n: nat, noun: Seq<char>) -> Seq<char> {
    "("@ + dec(n) + " "@ + noun + (if n == 1 {
        Seq::<char>::empty()
    } else {
        "s"@
    }) + ")"@
}

/// The note on how many steps (or reductions) an evaluation took.
pub fn count_note_text(n: usize, noun: &str) -> (s: String)
    ensures
        s@ == count_note(n as nat, noun@),
{
    let mut s = String::from_str("(");
    let d = decimal(n as u128);
    s.append(d.as_str());
    s.append(" ");
    s.append(noun);
    if n != 1 {
        s.append("s");
    }
    s.append(")");
    s
}

} // verus!
