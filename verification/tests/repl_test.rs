use arith::repl::{path_for, Action, Session};

fn evaluate(text: &str) -> Action {
    Action::Evaluate(text.to_string())
}

fn save(path: &str, quit: bool) -> Action {
    Action::Save {
        path: path.to_string(),
        content: String::new(),
        quit,
    }
}

fn first(line: &str) -> Action {
    Session::new().line(line)
}

#[test]
fn test_a_line_is_evaluated() {
    let mut session = Session::new();
    assert!(!session.is_continuing());
    assert_eq!(session.line("1 + 1\n"), evaluate("1 + 1\n"));
    assert!(!session.is_continuing());
    assert_eq!(session.line("  2 \t \r\n"), evaluate("  2\n"));
    assert_eq!(session.line("\n"), evaluate("\n"));
    assert_eq!(session.line(""), evaluate("\n"));
}

#[test]
fn test_continued_lines_are_gathered() {
    let mut session = Session::new();
    assert_eq!(session.line("1 + \\\n"), Action::More);
    assert!(session.is_continuing());
    assert_eq!(session.line("2 * \\  \n"), Action::More);
    assert!(session.is_continuing());
    assert_eq!(session.line("3\n"), evaluate("1 + \\\n2 * \\\n3\n"));
    assert!(!session.is_continuing());
}

#[test]
fn test_commands() {
    assert_eq!(first(":q\n"), Action::Quit);
    assert_eq!(first(":quit\n"), Action::Quit);
    assert_eq!(first(":exit  \n"), Action::Quit);
    assert_eq!(first(":h\n"), Action::Help);
    assert_eq!(first(":help"), Action::Help);
    assert_eq!(first(":bench\n"), Action::Bench);
}

#[test]
fn test_commands_are_whole_lines() {
    assert_eq!(first(" :q\n"), evaluate(" :q\n"));
    assert_eq!(first(":q 1\n"), evaluate(":q 1\n"));
    assert_eq!(first(":quit!\n"), evaluate(":quit!\n"));
    assert_eq!(first(":benchmark\n"), evaluate(":benchmark\n"));
    assert_eq!(first(":helpme\n"), evaluate(":helpme\n"));
}

#[test]
fn test_commands_are_not_seen_in_a_continued_statement() {
    let mut session = Session::new();
    assert_eq!(session.line("1 + \\\n"), Action::More);
    assert_eq!(session.line(":q\n"), evaluate("1 + \\\n:q\n"));
    let mut session = Session::new();
    assert_eq!(session.line("\\\n"), Action::More);
    assert_eq!(session.line(":save x\\\n"), Action::More);
    assert_eq!(session.line(":bench\n"), evaluate("\\\n:save x\\\n:bench\n"));
}

#[test]
fn test_save_commands() {
    assert_eq!(first(":save\n"), save("history.arith", false));
    assert_eq!(first(":w\n"), save("history.arith", false));
    assert_eq!(first(":wq\n"), save("history.arith", true));
    assert_eq!(first(":save out\n"), save("out.arith", false));
    assert_eq!(first(":w out.arith\n"), save("out.arith", false));
    assert_eq!(first(":wq   my notes \n"), save("my notes.arith", true));
    assert_eq!(first(":save a b\n"), save("a b.arith", false));
    assert_eq!(first(":saveit now\n"), save("now.arith", false));
    assert_eq!(first(":whatever\n"), save("history.arith", false));
    assert_eq!(first(":wqx y.arith.arith\n"), save("y.arith", true));
    // White space at the end of the line is no name.
    assert_eq!(first(":w \u{a0}\n"), save("history.arith", false));
}

#[test]
fn test_paths() {
    assert_eq!(path_for("history"), "history.arith");
    assert_eq!(path_for("a.arith"), "a.arith");
    assert_eq!(path_for("a.arith.arith"), "a.arith");
    assert_eq!(path_for("a.arith.arith.arith"), "a.arith.arith");
    assert_eq!(path_for(".arith"), ".arith");
    assert_eq!(path_for(".arith.arith"), ".arith");
    assert_eq!(path_for(""), ".arith");
    assert_eq!(path_for("arith"), "arith.arith");
    assert_eq!(path_for("a.ARITH"), "a.ARITH.arith");
    assert_eq!(path_for("é.txt"), "é.txt.arith");
}

#[test]
fn test_end_of_input() {
    let mut session = Session::new();
    assert_eq!(session.end(), None);
    assert_eq!(session.line("1 + \\\n"), Action::More);
    assert_eq!(session.end(), Some("1 + \\\n".to_string()));
    assert!(!session.is_continuing());
    assert_eq!(session.end(), None);
    assert_eq!(session.line("1\n"), evaluate("1\n"));
    assert_eq!(session.end(), None);
}
