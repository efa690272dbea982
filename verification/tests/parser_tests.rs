use zero_shell::parser::{continuation_state, parsing, Command, ContinuationState};
use zero_shell::shell::{Action, Builtin, Shell};

fn words(input: &str) -> (Command, Vec<String>) {
    parsing(input).unwrap()
}

#[test]
fn parses_command_and_arguments() {
    let (cmd, args) = words("ls -l /tmp");
    assert!(matches!(cmd, Command::Ls));
    assert_eq!(args, vec!["-l".to_string(), "/tmp".to_string()]);
}

#[test]
fn every_builtin_name_is_recognised() {
    let cases = [
        ("cat", "Cat"),
        ("cd", "Cd"),
        ("cp", "Cp"),
        ("echo", "Echo"),
        ("exit", "Exit"),
        ("help", "Help"),
        ("ls", "Ls"),
        ("mkdir", "Mkdir"),
        ("mv", "Mv"),
        ("pwd", "Pwd"),
        ("rm", "Rm"),
    ];
    for (name, variant) in cases {
        let (cmd, args) = words(name);
        assert_eq!(format!("{:?}", cmd), variant);
        assert!(args.is_empty());
    }
}

#[test]
fn unknown_command_keeps_its_name() {
    let (cmd, args) = words("frobnicate a b");
    match cmd {
        Command::Unknown(name) => assert_eq!(name, "frobnicate"),
        other => panic!("unexpected {:?}", other),
    }
    assert_eq!(args, vec!["a", "b"]);
}

#[test]
fn double_quotes_group_words() {
    let (_, args) = words("echo \"hello   world\" x");
    assert_eq!(args, vec!["hello   world", "x"]);
}

#[test]
fn single_quotes_are_literal() {
    let (_, args) = words("echo 'a \"b\" \\c'");
    assert_eq!(args, vec!["a \"b\" \\c"]);
}

#[test]
fn backslash_escapes_outside_quotes() {
    let (_, args) = words("echo a\\ b \\'c");
    assert_eq!(args, vec!["a b", "'c"]);
}

#[test]
fn backslash_inside_double_quotes() {
    let (_, args) = words("echo \"a\\\"b\" \"x\\ny\" \"p\\$q\"");
    // \" and \$ escape; \n (backslash + 'n') keeps the backslash
    assert_eq!(args, vec!["a\"b", "x\\ny", "p$q"]);
}

#[test]
fn trailing_backslash_is_kept() {
    let (_, args) = words("echo abc\\");
    assert_eq!(args, vec!["abc\\"]);
}

#[test]
fn adjacent_quotes_join_into_one_word() {
    let (_, args) = words("echo 'a'\"b\"c");
    assert_eq!(args, vec!["abc"]);
}

#[test]
fn tabs_separate_words() {
    let (cmd, args) = words("\tmkdir\ta\t\tb ");
    assert!(matches!(cmd, Command::Mkdir));
    assert_eq!(args, vec!["a", "b"]);
}

#[test]
fn empty_quotes_make_no_word() {
    let (_, args) = words("echo \"\" ''");
    assert!(args.is_empty());
}

#[test]
fn unclosed_double_quote_is_an_error() {
    assert_eq!(parsing("echo \"abc").unwrap_err(), "Unclosed double quote");
}

#[test]
fn unclosed_single_quote_is_an_error() {
    assert_eq!(parsing("echo 'abc").unwrap_err(), "Unclosed single quote");
}

#[test]
fn double_quote_error_comes_first() {
    assert_eq!(parsing("'a' \"b").unwrap_err(), "Unclosed double quote");
}

#[test]
fn empty_input_is_an_error() {
    assert_eq!(parsing("").unwrap_err(), "Empty input");
    assert_eq!(parsing("   \t ").unwrap_err(), "Empty input");
    assert_eq!(parsing("\"\"").unwrap_err(), "Empty input");
}

#[test]
fn continuation_states() {
    assert_eq!(continuation_state("echo hi"), None);
    assert_eq!(continuation_state("echo \"hi"), Some(ContinuationState::DoubleQuote));
    assert_eq!(continuation_state("echo 'hi"), Some(ContinuationState::SingleQuote));
    assert_eq!(continuation_state("echo hi\\"), Some(ContinuationState::Backslash));
    assert_eq!(continuation_state("echo hi\\\\"), None);
    assert_eq!(continuation_state("echo 'hi\\"), Some(ContinuationState::SingleQuote));
    assert_eq!(continuation_state("echo \"hi\\"), Some(ContinuationState::DoubleQuote));
    assert_eq!(continuation_state("echo \"a\\\"b\""), None);
    assert_eq!(continuation_state("echo '\"'"), None);
    assert_eq!(continuation_state(""), None);
}

#[test]
fn continuation_agrees_with_parsing() {
    for line in ["a \"b", "a 'b", "x \"it's\" 'y", "\"a\\\"", "'\"' \"'"] {
        match continuation_state(line) {
            Some(ContinuationState::DoubleQuote) => {
                assert_eq!(parsing(line).unwrap_err(), "Unclosed double quote")
            }
            Some(ContinuationState::SingleQuote) => {
                assert_eq!(parsing(line).unwrap_err(), "Unclosed single quote")
            }
            other => panic!("{:?} for {:?}", other, line),
        }
    }
    let (_, args) = parsing("echo end\\").unwrap();
    assert!(args.last().unwrap().ends_with('\\'));
    assert_eq!(continuation_state("echo end\\"), Some(ContinuationState::Backslash));
}

#[test]
fn words_are_never_empty() {
    let (_, args) = words("echo  ''  a  \"\"  b");
    assert_eq!(args, vec!["a", "b"]);
    assert!(args.iter().all(|a| !a.is_empty()));
}

#[test]
fn leading_blank_is_ignored() {
    let (_, a) = words("echo x");
    let (_, b) = words(" echo x");
    let (_, c) = words("\techo x");
    assert_eq!(a, b);
    assert_eq!(a, c);
}

#[test]
fn plain_words_round_trip() {
    let ws = ["cp", "a.txt", "dir/b", "x=1"];
    let (cmd, args) = words(&ws.join(" "));
    assert!(matches!(cmd, Command::Cp));
    assert_eq!(args, ws[1..].to_vec());
}

#[test]
fn non_ascii_words() {
    let (_, args) = words("echo héllo wörld");
    assert_eq!(args, vec!["héllo", "wörld"]);
}

#[test]
fn shell_dispatches_builtins() {
    let mut shell = Shell::new();
    match shell.execute(Command::Cat, vec!["f".to_string()]) {
        Action::Run(b, args) => {
            assert_eq!(b, Builtin::Cat);
            assert_eq!(args, vec!["f"]);
        }
        Action::Skip => panic!("cat must run"),
    }
    match shell.execute(Command::Help, vec![]) {
        Action::Run(b, _) => assert_eq!(b, Builtin::Help),
        Action::Skip => panic!("help must run"),
    }
    assert!(matches!(shell.execute(Command::Exit, vec![]), Action::Skip));
    assert!(matches!(shell.execute(Command::Unknown("x".to_string()), vec![]), Action::Skip));
}

#[test]
fn shell_dispatch_covers_all_builtins() {
    let mut shell = Shell::new();
    let cases = [
        (Command::Echo, Builtin::Echo),
        (Command::Cd, Builtin::Cd),
        (Command::Ls, Builtin::Ls),
        (Command::Pwd, Builtin::Pwd),
        (Command::Cp, Builtin::Cp),
        (Command::Rm, Builtin::Rm),
        (Command::Mv, Builtin::Mv),
        (Command::Mkdir, Builtin::Mkdir),
    ];
    for (cmd, expected) in cases {
        match shell.execute(cmd, vec!["arg".to_string()]) {
            Action::Run(b, args) => {
                assert_eq!(b, expected);
                assert_eq!(args, vec!["arg"]);
            }
            Action::Skip => panic!("must run"),
        }
    }
}

#[test]
fn a_complete_line_resets_the_continuation_check() {
    for prefix in ["echo a", "'x' \"y\"", "a\\\\", ""] {
        assert_eq!(continuation_state(prefix), None);
        for rest in ["b", " \"c", "'d", "e\\", "\"f\\\""] {
            let joined = format!("{}{}", prefix, rest);
            assert_eq!(continuation_state(&joined), continuation_state(rest), "{:?}", joined);
        }
    }
}
