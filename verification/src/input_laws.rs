//! Properties of reading command lines that hold for every line.
use vstd::prelude::*;
use crate::input::{segments_from, spec_prepare_continuation, spec_segments, strip_line_end};
use crate::parser::ContinuationState;
use crate::text::{is_white_space, trim_end_ws, trim_start_ws, trim_ws};

verus! {

proof fn lemma_trim_start_keeps_out(x: Seq<char>, c: char)
    requires
        !x.contains(c),
    ensures
        !trim_start_ws(x).contains(c),
    decreases x.len(),
{
    if x.len() > 0 && is_white_space(x[0]) {
        assert forall|j: int| 0 <= j < x.drop_first().len() implies x.drop_first()[j] != c by {
            assert(x.drop_first()[j] == x[j + 1]);
        }
        lemma_trim_start_keeps_out(x.drop_first(), c);
    }
}

proof fn lemma_trim_end_is_prefix(x: Seq<char>)
    ensures
        trim_end_ws(x).len() <= x.len(),
        trim_end_ws(x) == x.take(trim_end_ws(x).len() as int),
        trim_end_ws(x).len() > 0 ==> !is_white_space(trim_end_ws(x).last()),
    decreases x.len(),
{
    if x.len() > 0 && is_white_space(x.last()) {
        lemma_trim_end_is_prefix(x.drop_last());
        let t = trim_end_ws(x.drop_last());
        assert(x.drop_last().take(t.len() as int) =~= x.take(t.len() as int));
    } else {
        assert(x.take(x.len() as int) =~= x);
    }
}

proof fn lemma_trim_start_first(x: Seq<char>)
    ensures
        trim_start_ws(x).len() > 0 ==> !is_white_space(trim_start_ws(x)[0]),
    decreases x.len(),
{
    if x.len() > 0 && is_white_space(x[0]) {
        lemma_trim_start_first(x.drop_first());
    }
}

/// Trimming white space twice is trimming it once; and trimming keeps out
/// what the text did not hold.
pub proof fn lemma_trim_idempotent(x: Seq<char>, c: char)
    ensures
        trim_ws(trim_ws(x)) == trim_ws(x),
        !x.contains(c) ==> !trim_ws(x).contains(c),
{
    let y = trim_start_ws(x);
    let z = trim_end_ws(y);
    lemma_trim_start_first(x);
    lemma_trim_end_is_prefix(y);
    if z.len() > 0 {
        assert(z[0] == y[0]);
    }
    assert(trim_start_ws(z) == z);
    assert(trim_end_ws(z) == z);
    if !x.contains(c) {
        lemma_trim_start_keeps_out(x, c);
        assert forall|j: int| 0 <= j < z.len() implies z[j] != c by {
            assert(z[j] == y[j]);
        }
    }
}

/// A command of a line: not empty, without `;`, without surrounding white space.
pub open spec fn clean_segment(w: Seq<char>) -> bool {
    w.len() > 0 && !w.contains(';') && trim_ws(w) == w
}

proof fn lemma_segments_from_clean(s: Seq<char>, i: int, done: Seq<Seq<char>>, cur: Seq<char>)
    requires
        forall|k: int| 0 <= k < done.len() ==> #[trigger] clean_segment(done[k]),
        !cur.contains(';'),
    ensures
        forall|k: int| 0 <= k < segments_from(s, i, done, cur).len() ==> #[trigger] clean_segment(segments_from(s, i, done, cur)[k]),
    decreases s.len() - i,
{
    lemma_trim_idempotent(cur, ';');
    let done2 = if trim_ws(cur).len() > 0 { done.push(trim_ws(cur)) } else { done };
    assert forall|k: int| 0 <= k < done2.len() implies #[trigger] clean_segment(done2[k]) by {
        if k < done.len() {
            assert(done2[k] == done[k]);
        }
    }
    if i < 0 || i >= s.len() {
        assert(segments_from(s, i, done, cur) == done2);
    } else if s[i] == ';' {
        assert(!Seq::<char>::empty().contains(';'));
        lemma_segments_from_clean(s, i + 1, done2, Seq::empty());
        assert(segments_from(s, i, done, cur) == segments_from(s, i + 1, done2, Seq::empty()));
    } else {
        assert forall|j: int| 0 <= j < cur.push(s[i]).len() implies cur.push(s[i])[j] != ';' by {
            if j < cur.len() {
                assert(cur.push(s[i])[j] == cur[j]);
            }
        }
        assert(!cur.push(s[i]).contains(';'));
        lemma_segments_from_clean(s, i + 1, done, cur.push(s[i]));
        assert(segments_from(s, i, done, cur) == segments_from(s, i + 1, done, cur.push(s[i])));
    }
}

/// Every command that a line splits into is non-empty, holds no `;`, and has
/// no white space at either end.
pub proof fn lemma_segments_are_clean(s: Seq<char>)
    ensures
        forall|k: int| 0 <= k < spec_segments(s).len() ==> #[trigger] clean_segment(spec_segments(s)[k]),
{
    lemma_segments_from_clean(s, 0, Seq::empty(), Seq::empty());
}

/// A run made only of line breaks (`\n` and `\r`), as a read line may end with.
pub open spec fn line_breaks(e: Seq<char>) -> bool {
    forall|k: int| 0 <= k < e.len() ==> #[trigger] e[k] == '\n' || e[k] == '\r'
}

proof fn lemma_strip_line_breaks(x: Seq<char>, e: Seq<char>)
    requires
        line_breaks(e),
    ensures
        strip_line_end(x + e) == strip_line_end(x),
    decreases e.len(),
{
    if e.len() == 0 {
        assert(x + e =~= x);
    } else {
        let e1 = e.drop_last();
        assert(line_breaks(e1)) by {
            assert forall|k: int| 0 <= k < e1.len() implies #[trigger] e1[k] == '\n' || e1[k] == '\r' by {
                assert(e1[k] == e[k]);
            }
        }
        assert((x + e).last() == e[e.len() - 1]);
        assert((x + e).drop_last() =~= x + e1);
        lemma_strip_line_breaks(x, e1);
    }
}

/// Joining after a trailing backslash keeps the line exactly as typed up to
/// that backslash: whatever line breaks follow it and the one backslash go,
/// and nothing before it (spaces included) is touched.
pub proof fn lemma_backslash_continuation_keeps_text(a: Seq<char>, e: Seq<char>)
    requires
        line_breaks(e),
    ensures
        spec_prepare_continuation(a.push('\\') + e, ContinuationState::Backslash) == a,
{
    lemma_strip_line_breaks(a.push('\\'), e);
    assert(a.push('\\').last() == '\\');
    assert(strip_line_end(a.push('\\')) == a.push('\\'));
    assert(a.push('\\').drop_last() =~= a);
}

/// A line that does not end with a backslash loses only its line breaks when
/// it is joined after a backslash continuation.
pub proof fn lemma_backslash_continuation_without_backslash(a: Seq<char>, e: Seq<char>)
    requires
        line_breaks(e),
        a.len() > 0 ==> (a.last() != '\\' && a.last() != '\n' && a.last() != '\r'),
    ensures
        spec_prepare_continuation(a + e, ContinuationState::Backslash) == a,
{
    lemma_strip_line_breaks(a, e);
}

/// Inside an open quote the line is kept whole and ends with exactly one
/// added line break when it had none: a line `a` that does not end with `\n`
/// becomes `a` followed by `\n`, and `a` followed by `\n` stays as it is.
pub proof fn lemma_quote_continuation_keeps_line(a: Seq<char>, state: ContinuationState)
    requires
        state != ContinuationState::Backslash,
        a.len() > 0 ==> a.last() != '\n',
    ensures
        spec_prepare_continuation(a, state) == a.push('\n'),
        spec_prepare_continuation(a.push('\n'), state) == a.push('\n'),
{
}


} // verus!
