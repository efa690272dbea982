//! Properties of the command-line lexer that span its functions: how the
//! continuation check and the word splitter agree, and what splitting keeps.
use vstd::prelude::*;
use crate::parser::{
    dq_escapable, lex_end, lex_from, lex_start, scan_quotes, scan_start, spec_continuation,
    spec_parse_error, spec_words, ContinuationState, Lexer, QuoteScan,
};

verus! {

/// The continuation scanner and the lexer, run over the same line, see the
/// same open quotes; a pending trailing backslash sits at the end of the
/// lexer's current word.
pub open spec fn scanners_agree(q: QuoteScan, l: Lexer) -> bool {
    &&& q.in_double == l.in_double
    &&& q.in_single == l.in_single
    &&& !(l.in_double && l.in_single)
    &&& q.trailing_backslash ==> (l.cur.len() > 0 && l.cur.last() == '\\')
}

proof fn lemma_scanners_agree(s: Seq<char>, i: int, q: QuoteScan, l: Lexer)
    requires
        0 <= i,
        scanners_agree(q, l),
    ensures
        scanners_agree(scan_quotes(s, i, q), lex_from(s, i, l)),
    decreases s.len() - i,
{
    if i >= s.len() {
    } else {
        let c = s[i];
        if c == '"' && !l.in_single {
            lemma_scanners_agree(s, i + 1,
                QuoteScan { in_double: !q.in_double, in_single: q.in_single, trailing_backslash: false },
                Lexer { in_double: !l.in_double, ..l });
        } else if c == '\'' && !l.in_double {
            lemma_scanners_agree(s, i + 1,
                QuoteScan { in_double: q.in_double, in_single: !q.in_single, trailing_backslash: false },
                Lexer { in_single: !l.in_single, ..l });
        } else if c == '\\' && !l.in_single {
            if i + 1 >= s.len() {
                lemma_scanners_agree(s, i + 1,
                    QuoteScan { in_double: q.in_double, in_single: q.in_single, trailing_backslash: true },
                    Lexer { cur: l.cur.push('\\'), ..l });
            } else if l.in_double && !dq_escapable(s[i + 1]) {
                let q1 = QuoteScan { in_double: q.in_double, in_single: q.in_single, trailing_backslash: false };
                assert(scan_quotes(s, i + 1, q1) == scan_quotes(s, i + 2, q1));
                lemma_scanners_agree(s, i + 2, q1,
                    Lexer { cur: l.cur.push('\\').push(s[i + 1]), ..l });
            } else {
                lemma_scanners_agree(s, i + 2,
                    QuoteScan { in_double: q.in_double, in_single: q.in_single, trailing_backslash: false },
                    Lexer { cur: l.cur.push(s[i + 1]), ..l });
            }
        } else if (c == ' ' || c == '\t') && !l.in_double && !l.in_single {
            let q1 = QuoteScan { in_double: q.in_double, in_single: q.in_single, trailing_backslash: false };
            if l.cur.len() > 0 {
                lemma_scanners_agree(s, i + 1, q1,
                    Lexer { words: l.words.push(l.cur), cur: Seq::empty(), ..l });
            } else {
                lemma_scanners_agree(s, i + 1, q1, l);
            }
        } else {
            lemma_scanners_agree(s, i + 1,
                QuoteScan { in_double: q.in_double, in_single: q.in_single, trailing_backslash: false },
                Lexer { cur: l.cur.push(c), ..l });
        }
    }
}

/// The continuation check and the parser agree on open quotes: a line asks
/// for a double-quote continuation exactly when parsing it reports an
/// unclosed double quote, and likewise for single quotes. A line that asks
/// for a backslash continuation parses, and its last word ends with that
/// backslash.
pub proof fn lemma_continuation_agrees_with_parsing(s: Seq<char>)
    ensures
        (spec_continuation(s) == Some(ContinuationState::DoubleQuote))
            <==> (spec_parse_error(s) == Some("Unclosed double quote"@)),
        (spec_continuation(s) == Some(ContinuationState::SingleQuote))
            <==> (spec_parse_error(s) == Some("Unclosed single quote"@)),
        spec_continuation(s) == Some(ContinuationState::Backslash) ==> {
            &&& spec_parse_error(s) is None
            &&& spec_words(s).len() > 0
            &&& spec_words(s).last().last() == '\\'
        },
{
    reveal_strlit("Unclosed double quote");
    reveal_strlit("Unclosed single quote");
    reveal_strlit("Empty input");
    assert("Unclosed double quote"@[9] != "Unclosed single quote"@[9]);
    assert("Unclosed double quote"@.len() != "Empty input"@.len());
    assert("Unclosed single quote"@.len() != "Empty input"@.len());
    lemma_scanners_agree(s, 0, scan_start(), lex_start());
    let st = lex_end(s);
    if st.cur.len() > 0 {
        assert(spec_words(s) == st.words.push(st.cur));
    }
}


/// Every word the lexer has finished is non-empty.
pub open spec fn words_non_empty(words: Seq<Seq<char>>) -> bool {
    forall|k: int| 0 <= k < words.len() ==> #[trigger] words[k].len() > 0
}

proof fn lemma_lex_keeps_words_non_empty(s: Seq<char>, i: int, st: Lexer)
    requires
        words_non_empty(st.words),
    ensures
        words_non_empty(lex_from(s, i, st).words),
    decreases s.len() - i,
{
    if i < 0 || i >= s.len() {
    } else {
        let c = s[i];
        if c == '"' && !st.in_single {
            lemma_lex_keeps_words_non_empty(s, i + 1, Lexer { in_double: !st.in_double, ..st });
        } else if c == '\'' && !st.in_double {
            lemma_lex_keeps_words_non_empty(s, i + 1, Lexer { in_single: !st.in_single, ..st });
        } else if c == '\\' && !st.in_single {
            if i + 1 >= s.len() {
                lemma_lex_keeps_words_non_empty(s, i + 1, Lexer { cur: st.cur.push('\\'), ..st });
            } else if st.in_double && !dq_escapable(s[i + 1]) {
                lemma_lex_keeps_words_non_empty(s, i + 2, Lexer { cur: st.cur.push('\\').push(s[i + 1]), ..st });
            } else {
                lemma_lex_keeps_words_non_empty(s, i + 2, Lexer { cur: st.cur.push(s[i + 1]), ..st });
            }
        } else if (c == ' ' || c == '\t') && !st.in_double && !st.in_single {
            if st.cur.len() > 0 {
                let w2 = st.words.push(st.cur);
                assert forall|k: int| 0 <= k < w2.len() implies #[trigger] w2[k].len() > 0 by {
                    if k < st.words.len() {
                        assert(w2[k] == st.words[k]);
                    }
                }
                lemma_lex_keeps_words_non_empty(s, i + 1, Lexer { words: w2, cur: Seq::empty(), ..st });
            } else {
                lemma_lex_keeps_words_non_empty(s, i + 1, st);
            }
        } else {
            lemma_lex_keeps_words_non_empty(s, i + 1, Lexer { cur: st.cur.push(c), ..st });
        }
    }
}

/// Parsing never yields an empty word: every word of a line has at least one character.
pub proof fn lemma_words_are_non_empty(s: Seq<char>)
    ensures
        forall|k: int| 0 <= k < spec_words(s).len() ==> #[trigger] spec_words(s)[k].len() > 0,
{
    lemma_lex_keeps_words_non_empty(s, 0, lex_start());
    let st = lex_end(s);
    if st.cur.len() > 0 {
        let w = st.words.push(st.cur);
        assert forall|k: int| 0 <= k < w.len() implies #[trigger] w[k].len() > 0 by {
            if k < st.words.len() {
                assert(w[k] == st.words[k]);
            }
        }
    }
}

/// The lexer looks only at what follows its position: putting text in front
/// of the line and moving the position past it changes nothing.
proof fn lemma_lex_shift(p: Seq<char>, s: Seq<char>, i: int, st: Lexer)
    requires
        0 <= i,
    ensures
        lex_from(p + s, p.len() + i, st) == lex_from(s, i, st),
    decreases s.len() - i,
{
    let t = p + s;
    let j = p.len() + i;
    if i >= s.len() {
    } else {
        assert(t[j] == s[i]);
        if i + 1 < s.len() {
            assert(t[j + 1] == s[i + 1]);
        }
        let c = s[i];
        if c == '"' && !st.in_single {
            lemma_lex_shift(p, s, i + 1, Lexer { in_double: !st.in_double, ..st });
        } else if c == '\'' && !st.in_double {
            lemma_lex_shift(p, s, i + 1, Lexer { in_single: !st.in_single, ..st });
        } else if c == '\\' && !st.in_single {
            if i + 1 >= s.len() {
                lemma_lex_shift(p, s, i + 1, Lexer { cur: st.cur.push('\\'), ..st });
            } else if st.in_double && !dq_escapable(s[i + 1]) {
                lemma_lex_shift(p, s, i + 2, Lexer { cur: st.cur.push('\\').push(s[i + 1]), ..st });
            } else {
                lemma_lex_shift(p, s, i + 2, Lexer { cur: st.cur.push(s[i + 1]), ..st });
            }
        } else if (c == ' ' || c == '\t') && !st.in_double && !st.in_single {
            if st.cur.len() > 0 {
                lemma_lex_shift(p, s, i + 1, Lexer { words: st.words.push(st.cur), cur: Seq::empty(), ..st });
            } else {
                lemma_lex_shift(p, s, i + 1, st);
            }
        } else {
            lemma_lex_shift(p, s, i + 1, Lexer { cur: st.cur.push(c), ..st });
        }
    }
}

/// A space or tab in front of a line changes neither its words nor whether
/// it parses.
pub proof fn lemma_leading_blank_ignored(c: char, s: Seq<char>)
    requires
        c == ' ' || c == '\t',
    ensures
        spec_words(seq![c] + s) == spec_words(s),
        spec_parse_error(seq![c] + s) == spec_parse_error(s),
{
    let t = seq![c] + s;
    assert(t[0] == c);
    lemma_lex_shift(seq![c], s, 0, lex_start());
    assert(lex_end(t) == lex_from(t, 1, lex_start()));
}

/// A character with no special meaning to the lexer.
pub open spec fn plain_char(c: char) -> bool {
    c != ' ' && c != '\t' && c != '"' && c != '\'' && c != '\\'
}

/// A non-empty word made of plain characters only.
pub open spec fn plain_word(w: Seq<char>) -> bool {
    w.len() > 0 && forall|k: int| 0 <= k < w.len() ==> #[trigger] plain_char(w[k])
}

/// Words written one after another with a single space between them.
pub open spec fn join_words(ws: Seq<Seq<char>>) -> Seq<char>
    decreases ws.len(),
{
    if ws.len() == 0 {
        Seq::empty()
    } else if ws.len() == 1 {
        ws[0]
    } else {
        join_words(ws.drop_last()) + seq![' '] + ws.last()
    }
}

/// Outside quotes, plain characters are added to the current word one by one.
proof fn lemma_lex_plain_run(t: Seq<char>, i: int, w: Seq<char>, st: Lexer)
    requires
        0 <= i,
        i + w.len() <= t.len(),
        t.subrange(i, i + w.len()) == w,
        forall|k: int| 0 <= k < w.len() ==> #[trigger] plain_char(w[k]),
        !st.in_double,
        !st.in_single,
    ensures
        lex_from(t, i, st) == lex_from(t, i + w.len(), Lexer { cur: st.cur + w, ..st }),
    decreases w.len(),
{
    if w.len() == 0 {
        assert(st.cur + w =~= st.cur);
    } else {
        assert(t[i] == w[0]);
        assert(plain_char(w[0]));
        let w1 = w.drop_first();
        assert forall|k: int| 0 <= k < w1.len() implies #[trigger] plain_char(w1[k]) by {
            assert(w1[k] == w[k + 1]);
        }
        assert(t.subrange(i + 1, i + 1 + w1.len()) =~= w1);
        lemma_lex_plain_run(t, i + 1, w1, Lexer { cur: st.cur.push(w[0]), ..st });
        assert(st.cur.push(w[0]) + w1 =~= st.cur + w);
    }
}

proof fn lemma_lex_joined(t: Seq<char>, i: int, ws: Seq<Seq<char>>, st: Lexer)
    requires
        0 <= i,
        ws.len() > 0,
        forall|k: int| 0 <= k < ws.len() ==> #[trigger] plain_word(ws[k]),
        i + join_words(ws).len() <= t.len(),
        t.subrange(i, i + join_words(ws).len()) == join_words(ws),
        !st.in_double,
        !st.in_single,
        st.cur.len() == 0,
    ensures
        lex_from(t, i, st) == lex_from(
            t,
            i + join_words(ws).len(),
            Lexer { words: st.words + ws.drop_last(), cur: ws.last(), ..st },
        ),
    decreases ws.len(),
{
    let w = ws.last();
    assert(plain_word(ws[ws.len() - 1]));
    if ws.len() == 1 {
        lemma_lex_plain_run(t, i, w, st);
        assert(st.cur + w =~= w);
        assert(st.words + ws.drop_last() =~= st.words);
    } else {
        let ws1 = ws.drop_last();
        let j = join_words(ws1);
        assert(join_words(ws) == j + seq![' '] + w);
        assert forall|k: int| 0 <= k < ws1.len() implies #[trigger] plain_word(ws1[k]) by {
            assert(ws1[k] == ws[k]);
        }
        assert(t.subrange(i, i + j.len()) =~= j) by {
            assert forall|k: int| 0 <= k < j.len() implies t.subrange(i, i + j.len())[k] == j[k] by {
                assert(t.subrange(i, i + join_words(ws).len())[k] == join_words(ws)[k]);
            }
        }
        lemma_lex_joined(t, i, ws1, st);
        let m = i + j.len();
        assert(t[m] == ' ') by {
            assert(t.subrange(i, i + join_words(ws).len())[j.len() as int] == join_words(ws)[j.len() as int]);
        }
        let st1 = Lexer { words: st.words + ws1.drop_last(), cur: ws1.last(), ..st };
        assert(plain_word(ws1[ws1.len() - 1]));
        let st2 = Lexer { words: st1.words.push(st1.cur), cur: Seq::empty(), ..st };
        assert(lex_from(t, m, st1) == lex_from(t, m + 1, st2));
        assert(t.subrange(m + 1, m + 1 + w.len()) =~= w) by {
            assert forall|k: int| 0 <= k < w.len() implies t.subrange(m + 1, m + 1 + w.len())[k] == w[k] by {
                assert(t.subrange(i, i + join_words(ws).len())[j.len() + 1 + k] == join_words(ws)[j.len() + 1 + k]);
            }
        }
        lemma_lex_plain_run(t, m + 1, w, st2);
        assert(st2.cur + w =~= w);
        assert(st1.words.push(st1.cur) =~= st.words + ws.drop_last());
    }
}

/// Plain words written with single spaces between them parse back into
/// exactly those words.
pub proof fn lemma_plain_words_round_trip(ws: Seq<Seq<char>>)
    requires
        ws.len() > 0,
        forall|k: int| 0 <= k < ws.len() ==> #[trigger] plain_word(ws[k]),
    ensures
        spec_parse_error(join_words(ws)) is None,
        spec_words(join_words(ws)) == ws,
{
    let t = join_words(ws);
    assert(t.subrange(0, t.len() as int) =~= t);
    lemma_lex_joined(t, 0, ws, lex_start());
    assert(Seq::<Seq<char>>::empty() + ws.drop_last() =~= ws.drop_last());
    assert(plain_word(ws[ws.len() - 1]));
    assert(ws.drop_last().push(ws.last()) =~= ws);
}

/// Inside single quotes, every character but a single quote is added to the
/// current word as it is.
proof fn lemma_lex_single_quoted_run(t: Seq<char>, i: int, w: Seq<char>, st: Lexer)
    requires
        0 <= i,
        i + w.len() <= t.len(),
        t.subrange(i, i + w.len()) == w,
        forall|k: int| 0 <= k < w.len() ==> #[trigger] w[k] != '\'',
        !st.in_double,
        st.in_single,
    ensures
        lex_from(t, i, st) == lex_from(t, i + w.len(), Lexer { cur: st.cur + w, ..st }),
    decreases w.len(),
{
    if w.len() == 0 {
        assert(st.cur + w =~= st.cur);
    } else {
        assert(t[i] == w[0]);
        assert(w[0] != '\'');
        let w1 = w.drop_first();
        assert forall|k: int| 0 <= k < w1.len() implies #[trigger] w1[k] != '\'' by {
            assert(w1[k] == w[k + 1]);
        }
        assert(t.subrange(i + 1, i + 1 + w1.len()) =~= w1);
        lemma_lex_single_quoted_run(t, i + 1, w1, Lexer { cur: st.cur.push(w[0]), ..st });
        assert(st.cur.push(w[0]) + w1 =~= st.cur + w);
    }
}

/// Single quotes keep what they enclose literally: a non-empty text without
/// a single quote, put between single quotes, is one word, unchanged, even
/// when it holds spaces, tabs, double quotes or backslashes.
pub proof fn lemma_single_quotes_are_literal(w: Seq<char>)
    requires
        w.len() > 0,
        forall|k: int| 0 <= k < w.len() ==> #[trigger] w[k] != '\'',
    ensures
        spec_parse_error(seq!['\''] + w + seq!['\'']) is None,
        spec_words(seq!['\''] + w + seq!['\'']) == seq![w],
{
    let t = seq!['\''] + w + seq!['\''];
    assert(t[0] == '\'');
    let st1 = Lexer { in_single: true, ..lex_start() };
    assert(lex_end(t) == lex_from(t, 1, st1));
    assert(t.subrange(1, 1 + w.len() as int) =~= w);
    lemma_lex_single_quoted_run(t, 1, w, st1);
    let st2 = Lexer { cur: st1.cur + w, ..st1 };
    assert(t[1 + w.len() as int] == '\'');
    assert(lex_from(t, 1 + w.len() as int, st2) == lex_from(t, 2 + w.len() as int, Lexer { in_single: false, ..st2 }));
    assert(st1.cur + w =~= w);
    assert(Seq::<Seq<char>>::empty().push(w) =~= seq![w]);
}

/// Inside double quotes, every character but a double quote or a backslash
/// is added to the current word as it is.
proof fn lemma_lex_double_quoted_run(t: Seq<char>, i: int, w: Seq<char>, st: Lexer)
    requires
        0 <= i,
        i + w.len() <= t.len(),
        t.subrange(i, i + w.len()) == w,
        forall|k: int| 0 <= k < w.len() ==> #[trigger] w[k] != '"' && w[k] != '\\',
        st.in_double,
        !st.in_single,
    ensures
        lex_from(t, i, st) == lex_from(t, i + w.len(), Lexer { cur: st.cur + w, ..st }),
    decreases w.len(),
{
    if w.len() == 0 {
        assert(st.cur + w =~= st.cur);
    } else {
        assert(t[i] == w[0]);
        assert(w[0] != '"' && w[0] != '\\');
        let w1 = w.drop_first();
        assert forall|k: int| 0 <= k < w1.len() implies #[trigger] w1[k] != '"' && w1[k] != '\\' by {
            assert(w1[k] == w[k + 1]);
        }
        assert(t.subrange(i + 1, i + 1 + w1.len()) =~= w1);
        lemma_lex_double_quoted_run(t, i + 1, w1, Lexer { cur: st.cur.push(w[0]), ..st });
        assert(st.cur.push(w[0]) + w1 =~= st.cur + w);
    }
}

/// Double quotes group what they enclose into one word: a non-empty text
/// without double quotes and backslashes, put between double quotes, is one
/// word, unchanged, spaces, tabs and single quotes included.
pub proof fn lemma_double_quotes_group(w: Seq<char>)
    requires
        w.len() > 0,
        forall|k: int| 0 <= k < w.len() ==> #[trigger] w[k] != '"' && w[k] != '\\',
    ensures
        spec_parse_error(seq!['"'] + w + seq!['"']) is None,
        spec_words(seq!['"'] + w + seq!['"']) == seq![w],
{
    let t = seq!['"'] + w + seq!['"'];
    assert(t[0] == '"');
    let st1 = Lexer { in_double: true, ..lex_start() };
    assert(lex_end(t) == lex_from(t, 1, st1));
    assert(t.subrange(1, 1 + w.len() as int) =~= w);
    lemma_lex_double_quoted_run(t, 1, w, st1);
    let st2 = Lexer { cur: st1.cur + w, ..st1 };
    assert(t[1 + w.len() as int] == '"');
    assert(lex_from(t, 1 + w.len() as int, st2) == lex_from(t, 2 + w.len() as int, Lexer { in_double: false, ..st2 }));
    assert(st1.cur + w =~= w);
    assert(Seq::<Seq<char>>::empty().push(w) =~= seq![w]);
}

/// The continuation scanner looks only at what follows its position.
proof fn lemma_scan_shift(p: Seq<char>, t: Seq<char>, j: int, st: QuoteScan)
    requires
        0 <= j,
    ensures
        scan_quotes(p + t, p.len() + j, st) == scan_quotes(t, j, st),
    decreases t.len() - j,
{
    let u = p + t;
    let k = p.len() + j;
    if j < t.len() {
        assert(u[k] == t[j]);
        if j + 1 < t.len() {
            assert(u[k + 1] == t[j + 1]);
        }
        let c = t[j];
        if c == '"' && !st.in_single {
            lemma_scan_shift(p, t, j + 1, QuoteScan { in_double: !st.in_double, in_single: st.in_single, trailing_backslash: false });
        } else if c == '\'' && !st.in_double {
            lemma_scan_shift(p, t, j + 1, QuoteScan { in_double: st.in_double, in_single: !st.in_single, trailing_backslash: false });
        } else if c == '\\' && !st.in_single {
            if j + 1 >= t.len() {
                lemma_scan_shift(p, t, j + 1, QuoteScan { in_double: st.in_double, in_single: st.in_single, trailing_backslash: true });
            } else if !st.in_double || dq_escapable(t[j + 1]) {
                lemma_scan_shift(p, t, j + 2, QuoteScan { in_double: st.in_double, in_single: st.in_single, trailing_backslash: false });
            } else {
                lemma_scan_shift(p, t, j + 1, QuoteScan { in_double: st.in_double, in_single: st.in_single, trailing_backslash: false });
            }
        } else {
            lemma_scan_shift(p, t, j + 1, QuoteScan { in_double: st.in_double, in_single: st.in_single, trailing_backslash: false });
        }
    }
}

/// Scanning `s` followed by more text passes through the state in which
/// scanning `s` alone ends, unless `s` alone ends with a backslash that
/// escapes nothing.
proof fn lemma_scan_through_prefix(s: Seq<char>, t: Seq<char>, i: int, st: QuoteScan)
    requires
        0 <= i <= s.len(),
    ensures
        !scan_quotes(s, i, st).trailing_backslash ==> scan_quotes(s + t, i, st) == scan_quotes(
            s + t,
            s.len() as int,
            scan_quotes(s, i, st),
        ),
    decreases s.len() - i,
{
    let u = s + t;
    if i < s.len() {
        assert(u[i] == s[i]);
        if i + 1 < s.len() {
            assert(u[i + 1] == s[i + 1]);
        }
        let c = s[i];
        if c == '"' && !st.in_single {
            lemma_scan_through_prefix(s, t, i + 1, QuoteScan { in_double: !st.in_double, in_single: st.in_single, trailing_backslash: false });
        } else if c == '\'' && !st.in_double {
            lemma_scan_through_prefix(s, t, i + 1, QuoteScan { in_double: st.in_double, in_single: !st.in_single, trailing_backslash: false });
        } else if c == '\\' && !st.in_single {
            if i + 1 >= s.len() {
                // `s` alone ends on this backslash, which escapes nothing
                let st1 = QuoteScan { in_double: st.in_double, in_single: st.in_single, trailing_backslash: true };
                assert(scan_quotes(s, i + 1, st1) == st1);
                assert(scan_quotes(s, i, st) == scan_quotes(s, i + 1, st1));
                assert(scan_quotes(s, i, st).trailing_backslash);
            } else if !st.in_double || dq_escapable(s[i + 1]) {
                lemma_scan_through_prefix(s, t, i + 2, QuoteScan { in_double: st.in_double, in_single: st.in_single, trailing_backslash: false });
            } else {
                lemma_scan_through_prefix(s, t, i + 1, QuoteScan { in_double: st.in_double, in_single: st.in_single, trailing_backslash: false });
            }
        } else {
            lemma_scan_through_prefix(s, t, i + 1, QuoteScan { in_double: st.in_double, in_single: st.in_single, trailing_backslash: false });
        }
    }
}

/// A complete line leaves the continuation check where it started: when `s`
/// needs no continuation, `s` followed by `t` needs exactly what `t` needs.
pub proof fn lemma_complete_prefix(s: Seq<char>, t: Seq<char>)
    requires
        spec_continuation(s) is None,
    ensures
        spec_continuation(s + t) == spec_continuation(t),
{
    lemma_scan_through_prefix(s, t, 0, scan_start());
    let f = scan_quotes(s, 0, scan_start());
    assert(f == scan_start());
    lemma_scan_shift(s, t, 0, scan_start());
}

/// Outside quotes a backslash takes the character after it literally and is
/// itself dropped: for plain runs `a` and `b` (either may be empty) and any
/// character `c`, the line `a\cb` is the single word `a`, `c`, `b`.
pub proof fn lemma_backslash_escapes_next(a: Seq<char>, c: char, b: Seq<char>)
    requires
        forall|k: int| 0 <= k < a.len() ==> #[trigger] plain_char(a[k]),
        forall|k: int| 0 <= k < b.len() ==> #[trigger] plain_char(b[k]),
    ensures
        spec_parse_error(a + seq!['\\', c] + b) is None,
        spec_words(a + seq!['\\', c] + b) == seq![a.push(c) + b],
{
    let t = a + seq!['\\', c] + b;
    let n = a.len() as int;
    assert(t.subrange(0, n) =~= a);
    lemma_lex_plain_run(t, 0, a, lex_start());
    let st1 = Lexer { cur: lex_start().cur + a, ..lex_start() };
    assert(lex_start().cur + a =~= a);
    assert(t[n] == '\\');
    assert(t[n + 1] == c);
    let st2 = Lexer { cur: a.push(c), ..lex_start() };
    assert(lex_from(t, n, st1) == lex_from(t, n + 2, st2));
    assert(t.subrange(n + 2, n + 2 + b.len()) =~= b);
    lemma_lex_plain_run(t, n + 2, b, st2);
    assert(n + 2 + b.len() == t.len());
    assert(Seq::<Seq<char>>::empty().push(a.push(c) + b) =~= seq![a.push(c) + b]);
}

/// A backslash at the very end of a line has nothing to escape and stays in
/// the last word: for a plain run `a`, the line `a\` is the single word `a\`.
pub proof fn lemma_trailing_backslash_kept(a: Seq<char>)
    requires
        forall|k: int| 0 <= k < a.len() ==> #[trigger] plain_char(a[k]),
    ensures
        spec_parse_error(a.push('\\')) is None,
        spec_words(a.push('\\')) == seq![a.push('\\')],
{
    let t = a.push('\\');
    let n = a.len() as int;
    assert(t.subrange(0, n) =~= a);
    lemma_lex_plain_run(t, 0, a, lex_start());
    let st1 = Lexer { cur: lex_start().cur + a, ..lex_start() };
    assert(lex_start().cur + a =~= a);
    assert(t[n] == '\\');
    assert(lex_from(t, n, st1) == lex_from(t, n + 1, Lexer { cur: a.push('\\'), ..lex_start() }));
    assert(Seq::<Seq<char>>::empty().push(a.push('\\')) =~= seq![a.push('\\')]);
}


/// Inside double quotes a backslash escapes only `"`, `\`, `$` and a line
/// break, which then stand alone in the word; before any other character the
/// backslash is kept too. For runs `a` and `b` with neither `"` nor `\`, the
/// line `"a\cb"` is one word: `a`, then `c` (with its backslash unless it is
/// one of those four), then `b`.
pub proof fn lemma_backslash_in_double_quotes(a: Seq<char>, c: char, b: Seq<char>)
    requires
        forall|k: int| 0 <= k < a.len() ==> #[trigger] a[k] != '"' && a[k] != '\\',
        forall|k: int| 0 <= k < b.len() ==> #[trigger] b[k] != '"' && b[k] != '\\',
    ensures
        spec_parse_error(seq!['"'] + a + seq!['\\', c] + b + seq!['"']) is None,
        (c == '"' || c == '\\' || c == '$' || c == '\n') ==> spec_words(
            seq!['"'] + a + seq!['\\', c] + b + seq!['"'],
        ) == seq![a.push(c) + b],
        !(c == '"' || c == '\\' || c == '$' || c == '\n') ==> spec_words(
            seq!['"'] + a + seq!['\\', c] + b + seq!['"'],
        ) == seq![a.push('\\').push(c) + b],
{
    let t = seq!['"'] + a + seq!['\\', c] + b + seq!['"'];
    let n = a.len() as int;
    assert(t[0] == '"');
    let st1 = Lexer { in_double: true, ..lex_start() };
    assert(lex_end(t) == lex_from(t, 1, st1));
    assert(t.subrange(1, 1 + n) =~= a);
    lemma_lex_double_quoted_run(t, 1, a, st1);
    let st2 = Lexer { cur: st1.cur + a, ..st1 };
    assert(st1.cur + a =~= a);
    assert(t[1 + n] == '\\');
    assert(t[2 + n] == c);
    let w = if dq_escapable(c) { a.push(c) } else { a.push('\\').push(c) };
    let st3 = Lexer { cur: w, ..st1 };
    assert(lex_from(t, 1 + n, st2) == lex_from(t, 3 + n, st3));
    assert(t.subrange(3 + n, 3 + n + b.len()) =~= b);
    lemma_lex_double_quoted_run(t, 3 + n, b, st3);
    let st4 = Lexer { cur: w + b, ..st1 };
    assert(t[3 + n + b.len()] == '"');
    assert(lex_from(t, 3 + n + b.len(), st4) == lex_from(t, 4 + n + b.len(), Lexer { in_double: false, ..st4 }));
    assert(4 + n + b.len() == t.len());
    assert(Seq::<Seq<char>>::empty().push(w + b) =~= seq![w + b]);
}


} // verus!
