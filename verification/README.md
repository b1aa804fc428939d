# Climbing the lambda cube, verified

Six small calculi, each with its syntax tree, printer, parser, type checker
and small-step evaluator where it has one, written in Verus and proved
against mathematical models of their behaviour.

| Module          | Calculus                          |
| --------------- | --------------------------------- |
| `src/untyped/`  | untyped λ-calculus, normal order  |
| `src/stlc/`     | simply typed λ-calculus (λ→)      |
| `src/systemf/`  | System F (λ2)                     |
| `src/hm/`       | Hindley-Milner, Algorithm W       |
| `src/fomega/`   | System Fω (λω)                    |
| `src/lambdap/`  | a λP fragment with `Type : Type`  |
| `src/names.rs`  | names, fresh names, name maps     |
| `src/repl.rs`   | command classification for the REPLs |

Every executable function states its result over spec functions on the
models (`STerm`, `SType`, `Seq<char>`, `Map`, `Set`). Among the properties
proved:

- capture-avoiding substitution: for the term substitutions of the untyped
  calculus, System F, Hindley-Milner and λP, and the type substitutions of
  System F and Fω, the free variables of `[s/x] t` are those of `t`
  without `x`, plus those of `s` where `x` was free;
- type equality is α-equivalence: in System F two types are equal exactly
  when their nameless forms (bound variables replaced by binder depths)
  coincide, and in Fω exactly when those of their β-normal forms do
  (`systemf/alpha.rs`, `fomega/alpha.rs`); a type abstraction is renamed
  where it would capture a type variable of the context;
- normal-order reduction stops exactly at β-normal forms;
- progress for System F, Hindley-Milner and λP: a closed well-typed term
  is a value or takes a step;
- the unifier returns an idempotent, most general unifier, and fails only
  where no unifier exists;
- composition of substitutions is application in sequence;
- type-level normalization in Fω terminates on every well-kinded type and
  gives a normal form of the same kind (`fomega/termination.rs`), so the
  Fω checker needs nothing of its caller beyond a well-kinded context;
  normalization is idempotent;
- each parser agrees with a grammar written as spec functions.

Environments and name sets are lists (`NameMap`, a list of bindings in
which later ones win, and `Vec<String>`) rather than `HashMap` and
`HashSet`: with `String` keys, Verus accepts the calls on a std `HashMap`
but cannot prove that a lookup returns what an insertion stored (tried with
`insert` followed by `get`), so contracts over them could not be stated.

`app/` holds the command-line front end: argument handling and the
read-eval-print loops on standard input.
