//! Reading command lines: assembling a line from raw bytes, removing the
//! escape sequences that arrow keys leave, continuing unfinished lines, and
//! splitting a line into `;`-separated commands.
use vstd::prelude::*;
use crate::parser::{continuation_state, spec_continuation, ContinuationState};
use crate::text::{chars_of, push_char, string_of, trim_chars, trim_ws, views_of};

verus! {

/// The main prompt: the current directory in bold cyan, then a bold `$`.
pub fn main_prompt(dir: &str) -> (r: String)
    ensures
        r@ == "\u{1b}[1;36m"@ + dir@ + "\u{1b}[0m \u{1b}[1;37m$\u{1b}[0m "@,
{
    let mut r = String::from_str("\u{1b}[1;36m");
    r.append(dir);
    r.append("\u{1b}[0m \u{1b}[1;37m$\u{1b}[0m ");
    r
}

/// The prompt shown while a line waits for its continuation.
pub fn continuation_prompt(state: ContinuationState) -> (r: &'static str)
    ensures
        state == ContinuationState::DoubleQuote ==> r@ == "close double quote> "@,
        state == ContinuationState::SingleQuote ==> r@ == "close single quote> "@,
        state == ContinuationState::Backslash ==> r@ == "> "@,
{
    match state {
        ContinuationState::DoubleQuote => "close double quote> ",
        ContinuationState::SingleQuote => "close single quote> ",
        ContinuationState::Backslash => "> ",
    }
}

/// Adds one byte read from the terminal to the line being read, taking the
/// byte as the character with the same code (Latin-1). Tells whether the
/// byte ends the line.
pub fn accept_byte(line: &mut String, byte: u8) -> (done: bool)
    ensures
        final(line)@ == old(line)@.push(byte as char),
        done == (byte == 10),
{
    let c = byte as char;
    push_char(line, c);
    byte == 10
}

/// `s` with every occurrence of `pat` removed, scanning from the left and
/// never letting two occurrences overlap (as `str::replace` with an empty
/// replacement does).
pub open spec fn remove_all(s: Seq<char>, pat: Seq<char>) -> Seq<char>
    decreases s.len(),
{
    if pat.len() == 0 || s.len() < pat.len() {
        s
    } else if s.take(pat.len() as int) == pat {
        remove_all(s.skip(pat.len() as int), pat)
    } else {
        seq![s[0]] + remove_all(s.skip(1), pat)
    }
}

/// Whether `pat` occurs in `s` at position `i`.
fn occurs_at(s: &Vec<char>, i: usize, pat: &[char]) -> (r: bool)
    requires
        i + pat@.len() <= s@.len(),
    ensures
        r == (s@.subrange(i as int, i + pat@.len()) == pat@),
{
    let n = s.len();
    let mut k: usize = 0;
    while k < pat.len()
        invariant
            n == s@.len(),
            i + pat@.len() <= s@.len(),
            k <= pat@.len(),
            forall|j: int| 0 <= j < k ==> s@[i + j] == pat@[j],
        decreases pat@.len() - k,
    {
        assert(i + k < s@.len());
        if s[i + k] != pat[k] {
            assert(s@.subrange(i as int, i + pat@.len())[k as int] != pat@[k as int]);
            return false;
        }
        k = k + 1;
    }
    assert(s@.subrange(i as int, i + pat@.len()) =~= pat@);
    true
}

/// Removes every occurrence of `pat` from `s`.
fn remove_pattern(s: &Vec<char>, pat: &[char]) -> (r: Vec<char>)
    requires
        pat@.len() > 0,
    ensures
        r@ == remove_all(s@, pat@),
{
    let n = s.len();
    let m = pat.len();
    let mut out: Vec<char> = Vec::new();
    let mut i: usize = 0;
    assert(s@.skip(0) =~= s@);
    assert(out@ + remove_all(s@, pat@) =~= remove_all(s@, pat@));
    while i < n
        invariant
            n == s@.len(),
            m == pat@.len(),
            m > 0,
            i <= n,
            out@ + remove_all(s@.skip(i as int), pat@) == remove_all(s@, pat@),
        decreases n - i,
    {
        let ghost rest = s@.skip(i as int);
        if n - i >= m && occurs_at(s, i, pat) {
            assert(rest.take(m as int) =~= s@.subrange(i as int, i + m));
            assert(rest.skip(m as int) =~= s@.skip(i + m));
            i = i + m;
        } else {
            proof {
                if rest.len() >= m {
                    assert(rest.take(m as int) =~= s@.subrange(i as int, i + m));
                }
                assert(rest.skip(1) =~= s@.skip(i + 1));
                if rest.len() < m {
                    assert(remove_all(rest, pat@) == rest);
                    assert(remove_all(s@.skip(i + 1), pat@) == s@.skip(i + 1));
                    assert(rest =~= seq![rest[0]] + s@.skip(i + 1));
                }
            }
            let ghost before = out@;
            out.push(s[i]);
            assert(out@ + remove_all(s@.skip(i + 1), pat@) =~= before + (seq![rest[0]] + remove_all(s@.skip(i + 1), pat@)));
            i = i + 1;
        }
    }
    assert(s@.skip(n as int) =~= Seq::<char>::empty());
    assert(out@ + Seq::<char>::empty() =~= out@);
    out
}

/// The escape sequences that the arrow keys leave in a line read without
/// line editing, in the order they are removed.
pub open spec fn arrow_key_codes() -> Seq<Seq<char>> {
    seq![
        seq!['\u{1b}', '[', 'A'],
        seq!['\u{1b}', '[', 'B'],
        seq!['\u{1b}', '[', 'C'],
        seq!['\u{1b}', '[', 'D'],
        seq!['^', '[', '[', 'A'],
        seq!['^', '[', '[', 'B'],
        seq!['^', '[', '[', 'C'],
        seq!['^', '[', '[', 'D'],
    ]
}

/// `s` with each pattern of `pats` removed in turn.
pub open spec fn remove_each(s: Seq<char>, pats: Seq<Seq<char>>) -> Seq<char>
    decreases pats.len(),
{
    if pats.len() == 0 {
        s
    } else {
        remove_each(remove_all(s, pats[0]), pats.drop_first())
    }
}

/// The line with the arrow-key escape sequences removed.
pub open spec fn spec_strip_arrow_keys(s: Seq<char>) -> Seq<char> {
    remove_each(s, arrow_key_codes())
}

/// Removes the escape sequences that arrow keys leave in a raw line, both the
/// real ones (ESC `[` A..D) and their caret spelling (`^[[` A..D).
pub fn strip_arrow_keys(line: &str) -> (r: String)
    ensures
        r@ == spec_strip_arrow_keys(line@),
{
    let s0 = chars_of(line);
    let s1 = remove_pattern(&s0, &['\u{1b}', '[', 'A']);
    let s2 = remove_pattern(&s1, &['\u{1b}', '[', 'B']);
    let s3 = remove_pattern(&s2, &['\u{1b}', '[', 'C']);
    let s4 = remove_pattern(&s3, &['\u{1b}', '[', 'D']);
    let s5 = remove_pattern(&s4, &['^', '[', '[', 'A']);
    let s6 = remove_pattern(&s5, &['^', '[', '[', 'B']);
    let s7 = remove_pattern(&s6, &['^', '[', '[', 'C']);
    let s8 = remove_pattern(&s7, &['^', '[', '[', 'D']);
    proof {
        let p = arrow_key_codes();
        assert(p.drop_first().drop_first().drop_first().drop_first().drop_first().drop_first().drop_first().drop_first() =~= Seq::<Seq<char>>::empty());
        reveal_with_fuel(remove_each, 9);
    }
    string_of(s8.as_slice())
}

/// `s` without the line breaks (`\n` or `\r`) at its end.
pub open spec fn strip_line_end(s: Seq<char>) -> Seq<char>
    decreases s.len(),
{
    if s.len() > 0 && (s.last() == '\n' || s.last() == '\r') {
        strip_line_end(s.drop_last())
    } else {
        s
    }
}

/// Number of characters of `s` left once its line breaks at the end are dropped.
fn line_end_start(s: &Vec<char>) -> (k: usize)
    ensures
        k <= s@.len(),
        strip_line_end(s@) == s@.take(k as int),
{
    let mut k = s.len();
    assert(s@.take(k as int) =~= s@);
    while k > 0 && (s[k - 1] == '\n' || s[k - 1] == '\r')
        invariant
            k <= s@.len(),
            strip_line_end(s@) == strip_line_end(s@.take(k as int)),
        decreases k,
    {
        assert(s@.take(k as int).drop_last() =~= s@.take(k - 1));
        k = k - 1;
    }
    k
}

/// Whether a line just read, without its line breaks, still needs a
/// continuation, and of which kind.
pub fn pending_continuation(line: &str) -> (r: Option<ContinuationState>)
    ensures
        r == spec_continuation(strip_line_end(line@)),
{
    let s = chars_of(line);
    let k = line_end_start(&s);
    let trimmed = string_of(vstd::slice::slice_subrange(s.as_slice(), 0, k));
    proof {
        assert(s@.subrange(0, k as int) =~= s@.take(k as int));
    }
    continuation_state(trimmed.as_str())
}

/// The text kept of a line before its continuation is appended: after a
/// trailing backslash, the line breaks and that backslash go; inside quotes,
/// the line keeps (or gains) its final newline.
pub open spec fn spec_prepare_continuation(s: Seq<char>, state: ContinuationState) -> Seq<char> {
    if state == ContinuationState::Backslash {
        let t = strip_line_end(s);
        if t.len() > 0 && t.last() == '\\' {
            t.drop_last()
        } else {
            t
        }
    } else if s.len() > 0 && s.last() == '\n' {
        s
    } else {
        s.push('\n')
    }
}

/// Prepares `line` for the next line of input to be appended to it.
pub fn prepare_continuation(line: &str, state: ContinuationState) -> (r: String)
    ensures
        r@ == spec_prepare_continuation(line@, state),
{
    let s = chars_of(line);
    if state == ContinuationState::Backslash {
        let k = line_end_start(&s);
        let keep = if k > 0 && s[k - 1] == '\\' { k - 1 } else { k };
        proof {
            assert(s@.subrange(0, keep as int) =~= if k > 0 && s@[k - 1] == '\\' {
                s@.take(k as int).drop_last()
            } else {
                s@.take(k as int)
            });
        }
        string_of(vstd::slice::slice_subrange(s.as_slice(), 0, keep))
    } else {
        let mut r = string_of(s.as_slice());
        if s.len() == 0 || s[s.len() - 1] != '\n' {
            push_char(&mut r, '\n');
        }
        r
    }
}

/// The commands of a line: the pieces between `;` characters, each without
/// surrounding white space, leaving out the pieces that are then empty.
pub open spec fn segments_from(s: Seq<char>, i: int, done: Seq<Seq<char>>, cur: Seq<char>) -> Seq<Seq<char>>
    decreases s.len() - i,
{
    if i < 0 || i >= s.len() {
        if trim_ws(cur).len() > 0 { done.push(trim_ws(cur)) } else { done }
    } else if s[i] == ';' {
        segments_from(s, i + 1, if trim_ws(cur).len() > 0 { done.push(trim_ws(cur)) } else { done }, Seq::empty())
    } else {
        segments_from(s, i + 1, done, cur.push(s[i]))
    }
}

pub open spec fn spec_segments(s: Seq<char>) -> Seq<Seq<char>> {
    segments_from(s, 0, Seq::empty(), Seq::empty())
}

/// Splits a line into the commands chained with `;`, trimmed, skipping empty ones.
pub fn command_segments(line: &str) -> (r: Vec<String>)
    ensures
        views_of(r@) == spec_segments(line@),
{
    let s = chars_of(line);
    let n = s.len();
    let mut done: Vec<String> = Vec::new();
    let mut cur: Vec<char> = Vec::new();
    let mut i: usize = 0;
    assert(views_of(done@) =~= Seq::<Seq<char>>::empty());
    while i < n
        invariant
            n == s@.len(),
            i <= n,
            spec_segments(s@) == segments_from(s@, i as int, views_of(done@), cur@),
        decreases n - i,
    {
        if s[i] == ';' {
            let piece = trim_chars(cur.as_slice());
            if piece.len() > 0 {
                let ghost before = views_of(done@);
                done.push(string_of(piece.as_slice()));
                assert(views_of(done@) =~= before.push(piece@));
            }
            cur = Vec::new();
        } else {
            cur.push(s[i]);
        }
        i = i + 1;
    }
    let piece = trim_chars(cur.as_slice());
    if piece.len() > 0 {
        let ghost before = views_of(done@);
        done.push(string_of(piece.as_slice()));
        assert(views_of(done@) =~= before.push(piece@));
    }
    done
}

} // verus!
