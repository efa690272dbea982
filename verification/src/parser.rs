//! The command-line lexer: splitting a line into words with shell-style
//! quoting, and telling whether a line still needs a continuation.
use vstd::prelude::*;
use crate::text::{char_views, chars_eq, chars_of, string_of, views_of};

verus! {

/// The command named by the first word of a line.
#[derive(Debug)]
pub enum Command {
    Cat,
    Cd,
    Cp,
    Echo,
    Exit,
    Help,
    Ls,
    Mkdir,
    Mv,
    Pwd,
    Rm,
    Unknown(String),
}

/// Why a line cannot be run yet: it ends inside a quote or after a lone backslash.
#[derive(Debug, Clone, Copy, PartialEq, Eq, Structural)]
pub enum ContinuationState {
    DoubleQuote,
    SingleQuote,
    Backslash,
}

/// The state of the continuation scanner after some prefix of a line.
pub struct QuoteScan {
    pub in_double: bool,
    pub in_single: bool,
    pub trailing_backslash: bool,
}

/// Inside double quotes, a backslash escapes only these characters.
pub open spec fn dq_escapable(c: char) -> bool {
    c == '"' || c == '\\' || c == '$' || c == '\n'
}

/// The continuation scanner run over `s` from position `i` in state `st`.
/// A backslash outside single quotes takes the next character with it, except
/// that inside double quotes it takes only a character that it can escape.
pub open spec fn scan_quotes(s: Seq<char>, i: int, st: QuoteScan) -> QuoteScan
    decreases s.len() - i,
{
    if i < 0 || i >= s.len() {
        st
    } else {
        let c = s[i];
        if c == '"' && !st.in_single {
            scan_quotes(s, i + 1, QuoteScan { in_double: !st.in_double, in_single: st.in_single, trailing_backslash: false })
        } else if c == '\'' && !st.in_double {
            scan_quotes(s, i + 1, QuoteScan { in_double: st.in_double, in_single: !st.in_single, trailing_backslash: false })
        } else if c == '\\' && !st.in_single {
            if i + 1 >= s.len() {
                scan_quotes(s, i + 1, QuoteScan { in_double: st.in_double, in_single: st.in_single, trailing_backslash: true })
            } else if !st.in_double || dq_escapable(s[i + 1]) {
                scan_quotes(s, i + 2, QuoteScan { in_double: st.in_double, in_single: st.in_single, trailing_backslash: false })
            } else {
                scan_quotes(s, i + 1, QuoteScan { in_double: st.in_double, in_single: st.in_single, trailing_backslash: false })
            }
        } else {
            scan_quotes(s, i + 1, QuoteScan { in_double: st.in_double, in_single: st.in_single, trailing_backslash: false })
        }
    }
}

pub open spec fn scan_start() -> QuoteScan {
    QuoteScan { in_double: false, in_single: false, trailing_backslash: false }
}

/// What a line needs before it can run: an open double quote comes first,
/// then an open single quote, then a trailing backslash.
pub open spec fn spec_continuation(s: Seq<char>) -> Option<ContinuationState> {
    let st = scan_quotes(s, 0, scan_start());
    if st.in_double {
        Some(ContinuationState::DoubleQuote)
    } else if st.in_single {
        Some(ContinuationState::SingleQuote)
    } else if st.trailing_backslash {
        Some(ContinuationState::Backslash)
    } else {
        None
    }
}

/// Tells whether `input` ends inside double quotes, inside single quotes, or
/// after a backslash that escapes nothing; `None` when the line is complete.
pub fn continuation_state(input: &str) -> (r: Option<ContinuationState>)
    ensures
        r == spec_continuation(input@),
{
    let s = chars_of(input);
    let n = s.len();
    let mut in_double = false;
    let mut in_single = false;
    let mut trailing = false;
    let mut i: usize = 0;
    while i < n
        invariant
            n == s@.len(),
            s@ == input@,
            i <= n,
            scan_quotes(s@, 0, scan_start()) == scan_quotes(
                s@,
                i as int,
                QuoteScan { in_double, in_single, trailing_backslash: trailing },
            ),
        decreases n - i,
    {
        let c = s[i];
        if c == '"' && !in_single {
            in_double = !in_double;
            trailing = false;
            i = i + 1;
        } else if c == '\'' && !in_double {
            in_single = !in_single;
            trailing = false;
            i = i + 1;
        } else if c == '\\' && !in_single {
            if i + 1 >= n {
                trailing = true;
                i = i + 1;
            } else {
                let next = s[i + 1];
                trailing = false;
                if !in_double || next == '"' || next == '\\' || next == '$' || next == '\n' {
                    i = i + 2;
                } else {
                    i = i + 1;
                }
            }
        } else {
            trailing = false;
            i = i + 1;
        }
    }
    if in_double {
        Some(ContinuationState::DoubleQuote)
    } else if in_single {
        Some(ContinuationState::SingleQuote)
    } else if trailing {
        Some(ContinuationState::Backslash)
    } else {
        None
    }
}


/// The state of the word lexer after some prefix of a line: the finished
/// words, the word being built, and which quotes are open.
pub struct Lexer {
    pub words: Seq<Seq<char>>,
    pub cur: Seq<char>,
    pub in_double: bool,
    pub in_single: bool,
}

pub open spec fn lex_start() -> Lexer {
    Lexer { words: Seq::empty(), cur: Seq::empty(), in_double: false, in_single: false }
}

/// The lexer run over `s` from position `i` in state `st`.
/// - A double quote outside single quotes, and a single quote outside double
///   quotes, opens or closes that quote and adds nothing to the word.
/// - A backslash outside single quotes takes the next character literally;
///   inside double quotes it is kept itself unless that character is one it
///   escapes. A backslash at the very end stays in the word.
/// - A space or tab outside quotes ends the current word, if it is non-empty.
/// - Every other character is added to the current word.
pub open spec fn lex_from(s: Seq<char>, i: int, st: Lexer) -> Lexer
    decreases s.len() - i,
{
    if i < 0 || i >= s.len() {
        st
    } else {
        let c = s[i];
        if c == '"' && !st.in_single {
            lex_from(s, i + 1, Lexer { in_double: !st.in_double, ..st })
        } else if c == '\'' && !st.in_double {
            lex_from(s, i + 1, Lexer { in_single: !st.in_single, ..st })
        } else if c == '\\' && !st.in_single {
            if i + 1 >= s.len() {
                lex_from(s, i + 1, Lexer { cur: st.cur.push('\\'), ..st })
            } else if st.in_double && !dq_escapable(s[i + 1]) {
                lex_from(s, i + 2, Lexer { cur: st.cur.push('\\').push(s[i + 1]), ..st })
            } else {
                lex_from(s, i + 2, Lexer { cur: st.cur.push(s[i + 1]), ..st })
            }
        } else if (c == ' ' || c == '\t') && !st.in_double && !st.in_single {
            if st.cur.len() > 0 {
                lex_from(s, i + 1, Lexer { words: st.words.push(st.cur), cur: Seq::empty(), ..st })
            } else {
                lex_from(s, i + 1, st)
            }
        } else {
            lex_from(s, i + 1, Lexer { cur: st.cur.push(c), ..st })
        }
    }
}

pub open spec fn lex_end(s: Seq<char>) -> Lexer {
    lex_from(s, 0, lex_start())
}

/// The words of a line: what the lexer finished, plus the last word if it is non-empty.
pub open spec fn spec_words(s: Seq<char>) -> Seq<Seq<char>> {
    let st = lex_end(s);
    if st.cur.len() > 0 {
        st.words.push(st.cur)
    } else {
        st.words
    }
}

/// Why a line cannot be parsed, if it cannot: an unclosed double quote is
/// reported before an unclosed single quote, and both before an empty line.
pub open spec fn spec_parse_error(s: Seq<char>) -> Option<Seq<char>> {
    let st = lex_end(s);
    if st.in_double {
        Some("Unclosed double quote"@)
    } else if st.in_single {
        Some("Unclosed single quote"@)
    } else if spec_words(s).len() == 0 {
        Some("Empty input"@)
    } else {
        None
    }
}

/// The built-in command that a word names, if it names one.
pub open spec fn builtin_named(name: Seq<char>) -> Option<Command> {
    if name == seq!['c', 'a', 't'] {
        Some(Command::Cat)
    } else if name == seq!['c', 'd'] {
        Some(Command::Cd)
    } else if name == seq!['c', 'p'] {
        Some(Command::Cp)
    } else if name == seq!['e', 'c', 'h', 'o'] {
        Some(Command::Echo)
    } else if name == seq!['e', 'x', 'i', 't'] {
        Some(Command::Exit)
    } else if name == seq!['h', 'e', 'l', 'p'] {
        Some(Command::Help)
    } else if name == seq!['l', 's'] {
        Some(Command::Ls)
    } else if name == seq!['m', 'k', 'd', 'i', 'r'] {
        Some(Command::Mkdir)
    } else if name == seq!['m', 'v'] {
        Some(Command::Mv)
    } else if name == seq!['p', 'w', 'd'] {
        Some(Command::Pwd)
    } else if name == seq!['r', 'm'] {
        Some(Command::Rm)
    } else {
        None
    }
}

/// `cmd` is the command that the word `name` selects: a built-in when `name`
/// is one's name, else `Unknown` carrying `name` itself.
pub open spec fn names_command(cmd: Command, name: Seq<char>) -> bool {
    match builtin_named(name) {
        Some(b) => cmd == b,
        None => cmd matches Command::Unknown(s) && s@ == name,
    }
}

/// The command selected by the word `name`.
pub fn command_from_name(name: &[char]) -> (cmd: Command)
    ensures
        names_command(cmd, name@),
{
    if chars_eq(name, &['c', 'a', 't']) {
        Command::Cat
    } else if chars_eq(name, &['c', 'd']) {
        Command::Cd
    } else if chars_eq(name, &['c', 'p']) {
        Command::Cp
    } else if chars_eq(name, &['e', 'c', 'h', 'o']) {
        Command::Echo
    } else if chars_eq(name, &['e', 'x', 'i', 't']) {
        Command::Exit
    } else if chars_eq(name, &['h', 'e', 'l', 'p']) {
        Command::Help
    } else if chars_eq(name, &['l', 's']) {
        Command::Ls
    } else if chars_eq(name, &['m', 'k', 'd', 'i', 'r']) {
        Command::Mkdir
    } else if chars_eq(name, &['m', 'v']) {
        Command::Mv
    } else if chars_eq(name, &['p', 'w', 'd']) {
        Command::Pwd
    } else if chars_eq(name, &['r', 'm']) {
        Command::Rm
    } else {
        Command::Unknown(string_of(name))
    }
}

/// Runs the lexer over the whole of `s`.
fn lex_line(s: &Vec<char>) -> (r: (Vec<Vec<char>>, Vec<char>, bool, bool))
    ensures
        char_views(r.0@) == lex_end(s@).words,
        r.1@ == lex_end(s@).cur,
        r.2 == lex_end(s@).in_double,
        r.3 == lex_end(s@).in_single,
{
    let n = s.len();
    let mut words: Vec<Vec<char>> = Vec::new();
    let mut cur: Vec<char> = Vec::new();
    let mut in_double = false;
    let mut in_single = false;
    let mut i: usize = 0;
    assert(char_views(words@) =~= Seq::<Seq<char>>::empty());
    while i < n
        invariant
            n == s@.len(),
            i <= n,
            lex_end(s@) == lex_from(
                s@,
                i as int,
                Lexer { words: char_views(words@), cur: cur@, in_double, in_single },
            ),
        decreases n - i,
    {
        let c = s[i];
        if c == '"' && !in_single {
            in_double = !in_double;
            i = i + 1;
        } else if c == '\'' && !in_double {
            in_single = !in_single;
            i = i + 1;
        } else if c == '\\' && !in_single {
            if i + 1 >= n {
                cur.push('\\');
                i = i + 1;
            } else {
                let next = s[i + 1];
                if in_double && !(next == '"' || next == '\\' || next == '$' || next == '\n') {
                    cur.push('\\');
                }
                cur.push(next);
                i = i + 2;
            }
        } else if (c == ' ' || c == '\t') && !in_double && !in_single {
            if cur.len() > 0 {
                let ghost old_words = char_views(words@);
                let word = cur;
                cur = Vec::new();
                words.push(word);
                assert(char_views(words@) =~= old_words.push(word@));
            }
            i = i + 1;
        } else {
            cur.push(c);
            i = i + 1;
        }
    }
    (words, cur, in_double, in_single)
}

/// Splits a line into its command and arguments.
///
/// Quotes group characters into one word, backslashes escape, and spaces or
/// tabs outside quotes separate words. Fails with the message of
/// `spec_parse_error` when a quote is left open or the line has no word;
/// otherwise the first word selects the command and the other words are its
/// arguments, in order.
pub fn parsing(input: &str) -> (r: Result<(Command, Vec<String>), String>)
    ensures
        r is Err <==> spec_parse_error(input@) is Some,
        r matches Err(e) ==> spec_parse_error(input@) == Some(e@),
        r matches Ok((cmd, args)) ==> {
            &&& spec_words(input@).len() > 0
            &&& names_command(cmd, spec_words(input@)[0])
            &&& views_of(args@) == spec_words(input@).drop_first()
        },
{
    let s = chars_of(input);
    let (mut words, cur, in_double, in_single) = lex_line(&s);
    if cur.len() > 0 {
        let ghost old_words = char_views(words@);
        words.push(cur);
        assert(char_views(words@) =~= old_words.push(lex_end(s@).cur));
    }
    assert(char_views(words@) == spec_words(input@));
    if in_double {
        return Err(String::from_str("Unclosed double quote"));
    }
    if in_single {
        return Err(String::from_str("Unclosed single quote"));
    }
    if words.len() == 0 {
        return Err(String::from_str("Empty input"));
    }
    let command = command_from_name(words[0].as_slice());
    let mut args: Vec<String> = Vec::new();
    let mut k: usize = 1;
    while k < words.len()
        invariant
            1 <= k <= words@.len(),
            char_views(words@) == spec_words(input@),
            views_of(args@) =~= spec_words(input@).subrange(1, k as int),
        decreases words@.len() - k,
    {
        let ghost before = views_of(args@);
        args.push(string_of(words[k].as_slice()));
        assert(views_of(args@) =~= before.push(char_views(words@)[k as int]));
        k = k + 1;
    }
    Ok((command, args))
}

} // verus!
