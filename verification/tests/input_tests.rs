use zero_shell::input::{
    accept_byte, command_segments, continuation_prompt, pending_continuation,
    prepare_continuation, strip_arrow_keys,
};
use zero_shell::parser::ContinuationState;

#[test]
fn prompts() {
    assert_eq!(continuation_prompt(ContinuationState::DoubleQuote), "close double quote> ");
    assert_eq!(continuation_prompt(ContinuationState::SingleQuote), "close single quote> ");
    assert_eq!(continuation_prompt(ContinuationState::Backslash), "> ");
}

#[test]
fn bytes_make_a_line() {
    let mut line = String::new();
    assert!(!accept_byte(&mut line, b'l'));
    assert!(!accept_byte(&mut line, b's'));
    assert!(!accept_byte(&mut line, 0xe9));
    assert!(accept_byte(&mut line, b'\n'));
    assert_eq!(line, "ls\u{e9}\n");
}

#[test]
fn arrow_keys_are_removed() {
    assert_eq!(strip_arrow_keys("ls\x1b[A\x1b[D -l\n"), "ls -l\n");
    assert_eq!(strip_arrow_keys("^[[Bpwd^[[C"), "pwd");
    assert_eq!(strip_arrow_keys("\x1b[E\x1b["), "\x1b[E\x1b[");
    assert_eq!(strip_arrow_keys("\x1b[\x1b[AA"), "\x1b[A");
    assert_eq!(strip_arrow_keys("plain"), "plain");
}

#[test]
fn arrow_key_removal_matches_replace() {
    let line = "a\x1b[Bb^[[A^[[Dc\x1b[C\x1b[Dd";
    let expected = line
        .replace("\u{1b}[A", "")
        .replace("\u{1b}[B", "")
        .replace("\u{1b}[C", "")
        .replace("\u{1b}[D", "")
        .replace("^[[A", "")
        .replace("^[[B", "")
        .replace("^[[C", "")
        .replace("^[[D", "");
    assert_eq!(strip_arrow_keys(line), expected);
}

#[test]
fn pending_continuations() {
    assert_eq!(pending_continuation("echo hi\n"), None);
    assert_eq!(pending_continuation("echo \"hi\n"), Some(ContinuationState::DoubleQuote));
    assert_eq!(pending_continuation("echo a\\\r\n"), Some(ContinuationState::Backslash));
    assert_eq!(pending_continuation("echo 'a\n\n"), Some(ContinuationState::SingleQuote));
}

#[test]
fn preparing_continuations() {
    assert_eq!(prepare_continuation("echo a\\\n", ContinuationState::Backslash), "echo a");
    assert_eq!(prepare_continuation("echo a\\\r\n\n", ContinuationState::Backslash), "echo a");
    assert_eq!(prepare_continuation("echo a\n", ContinuationState::Backslash), "echo a");
    assert_eq!(prepare_continuation("echo \"a\n", ContinuationState::DoubleQuote), "echo \"a\n");
    assert_eq!(prepare_continuation("echo 'a", ContinuationState::SingleQuote), "echo 'a\n");
    assert_eq!(prepare_continuation("", ContinuationState::SingleQuote), "\n");
}

#[test]
fn segments_of_a_line() {
    assert_eq!(command_segments("mkdir foo; cd foo; pwd"), vec!["mkdir foo", "cd foo", "pwd"]);
    assert_eq!(command_segments("  ls  "), vec!["ls"]);
    assert_eq!(command_segments(";; ;\t;"), Vec::<String>::new());
    assert_eq!(command_segments(""), Vec::<String>::new());
    assert_eq!(command_segments("echo \"a;b\""), vec!["echo \"a", "b\""]);
    assert_eq!(command_segments("a\u{3000};\u{a0}b"), vec!["a", "b"]);
}

#[test]
fn segments_are_trimmed_and_free_of_separators() {
    for seg in command_segments(" x ; y\t;z;  ; w  ") {
        assert!(!seg.is_empty());
        assert!(!seg.contains(';'));
        assert_eq!(seg.trim(), seg);
    }
}

#[test]
fn main_prompt_shows_directory() {
    assert_eq!(
        zero_shell::input::main_prompt("/tmp"),
        format!("\x1b[1;36m{}\x1b[0m \x1b[1;37m$\x1b[0m ", "/tmp")
    );
}

#[test]
fn whitespace_agrees_with_std() {
    for code in 0u32..0x3100 {
        if let Some(c) = char::from_u32(code) {
            if c == ';' {
                continue;
            }
            let s = format!("{}x{}", c, c);
            assert_eq!(command_segments(&s), vec![s.trim().to_string()], "{:#x}", code);
        }
    }
}
