use lib::repl::{classify, count_note_text, select_mode, Command, Mode};

#[test]
fn modes_follow_the_command_line_word() {
    assert_eq!(select_mode("untyped"), Mode::Untyped);
    assert_eq!(select_mode("lc"), Mode::Untyped);
    assert_eq!(select_mode("lambda-arrow"), Mode::Stlc);
    assert_eq!(select_mode("f"), Mode::SystemF);
    assert_eq!(select_mode("ml"), Mode::Hm);
    assert_eq!(select_mode("lambdaomega"), Mode::FOmega);
    assert_eq!(select_mode("dep"), Mode::LambdaP);
    assert_eq!(select_mode(""), Mode::Usage);
    assert_eq!(select_mode("--help"), Mode::Usage);
    assert_eq!(select_mode("coc"), Mode::Unknown);
}

#[test]
fn commands_are_recognized() {
    assert_eq!(classify("", true, true), Command::Blank);
    assert_eq!(classify(":q", true, true), Command::Quit);
    assert_eq!(classify(":help", false, false), Command::Help);
    assert_eq!(classify(":t \\x. x", true, false), Command::TypeOf("\\x. x".to_string()));
    assert_eq!(classify(":type 1", true, false), Command::TypeOf("1".to_string()));
    assert_eq!(classify(":k * -> *", true, true), Command::KindOf("* -> *".to_string()));
    assert_eq!(classify(":trace f x", true, false), Command::Trace("f x".to_string()));
    assert_eq!(classify(":tr f x", false, false), Command::Trace("f x".to_string()));
    assert_eq!(classify("f x", true, true), Command::Evaluate("f x".to_string()));
}

#[test]
fn disabled_commands_fall_through_to_evaluation() {
    // The untyped loop has no `:t`, the others no `:k`.
    assert_eq!(classify(":t x", false, false), Command::Evaluate(":t x".to_string()));
    assert_eq!(classify(":k Int", true, false), Command::Evaluate(":k Int".to_string()));
    assert_eq!(classify(":quit now", true, true), Command::Evaluate(":quit now".to_string()));
}

#[test]
fn step_notes_use_the_plural_except_for_one() {
    assert_eq!(count_note_text(1, "step"), "(1 step)");
    assert_eq!(count_note_text(0, "step"), "(0 steps)");
    assert_eq!(count_note_text(12, "reduction"), "(12 reductions)");
}
