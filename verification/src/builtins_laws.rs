//! Properties of the built-ins' text handling.
use vstd::prelude::*;
use crate::builtins::{lines_from, spec_cd_target, spec_lines};
use crate::fmt::join_with;

verus! {

proof fn lemma_join_push(parts: Seq<Seq<char>>, last: Seq<char>, sep: Seq<char>)
    ensures
        join_with(parts.push(last), sep) == if parts.len() == 0 { last } else { join_with(parts, sep) + sep + last },
{
    assert(parts.push(last).drop_last() =~= parts);
    if parts.len() == 0 {
        assert(parts.push(last) =~= seq![last]);
    }
}

proof fn lemma_lines_rejoin(s: Seq<char>, i: int, done: Seq<Seq<char>>, cur: Seq<char>)
    requires
        0 <= i <= s.len(),
        forall|k: int| 0 <= k < s.len() ==> #[trigger] s[k] != '\r',
        s.len() > 0,
        s.last() != '\n',
        join_with(done.push(cur), seq!['\n']) == s.take(i),
        i > 0 && s[i - 1] != '\n' ==> cur.len() > 0,
        !(cur.len() > 0 && cur.last() == '\r'),
    ensures
        join_with(lines_from(s, i, done, cur), seq!['\n']) == s,
    decreases s.len() - i,
{
    let nl = seq!['\n'];
    if i >= s.len() {
        assert(s.take(i) =~= s);
    } else if s[i] == '\n' {
        let d2 = done.push(cur);
        lemma_join_push(d2, Seq::empty(), nl);
        assert(s.take(i + 1) =~= s.take(i) + nl);
        assert(join_with(d2, nl) + nl + Seq::<char>::empty() =~= join_with(d2, nl) + nl);
        lemma_lines_rejoin(s, i + 1, d2, Seq::empty());
    } else {
        let c2 = cur.push(s[i]);
        lemma_join_push(done, cur, nl);
        lemma_join_push(done, c2, nl);
        assert(s.take(i + 1) =~= s.take(i).push(s[i]));
        if done.len() == 0 {
            assert(join_with(done.push(c2), nl) =~= s.take(i + 1));
        } else {
            assert(join_with(done.push(c2), nl) =~= join_with(done, nl) + nl + c2);
            assert(join_with(done, nl) + nl + c2 =~= (join_with(done, nl) + nl + cur).push(s[i]));
        }
        lemma_lines_rejoin(s, i + 1, done, c2);
    }
}

/// Splitting a text into lines loses only the line breaks: a non-empty text
/// without carriage returns that does not end with a newline is its lines
/// joined by newlines.
pub proof fn lemma_lines_rejoin_to_text(s: Seq<char>)
    requires
        s.len() > 0,
        s.last() != '\n',
        forall|k: int| 0 <= k < s.len() ==> #[trigger] s[k] != '\r',
    ensures
        join_with(spec_lines(s), seq!['\n']) == s,
{
    let e: Seq<Seq<char>> = Seq::empty();
    lemma_join_push(e, Seq::empty(), seq!['\n']);
    assert(s.take(0) =~= Seq::<char>::empty());
    lemma_lines_rejoin(s, 0, e, Seq::empty());
}

/// `cd` with no argument goes to HOME, or to `/` when HOME is not set, and
/// never looks at OLDPWD: the target is the same whatever OLDPWD holds, and
/// the same as for `cd ~`.
pub proof fn lemma_cd_without_argument_goes_home(
    oldpwd: Option<Seq<char>>,
    other_oldpwd: Option<Seq<char>>,
    home: Option<Seq<char>>,
)
    ensures
        spec_cd_target(None, oldpwd, home) == Ok::<Seq<char>, Seq<char>>(
            match home {
                Some(h) => h,
                None => seq!['/'],
            },
        ),
        spec_cd_target(None, oldpwd, home) == spec_cd_target(None, other_oldpwd, home),
        spec_cd_target(None, oldpwd, home) == spec_cd_target(Some(seq!['~']), oldpwd, home),
{
    reveal_strlit("/");
    reveal_strlit("-");
    reveal_strlit("~");
    assert("-"@[0] != seq!['~'][0]);
    assert("~"@ =~= seq!['~']);
    assert("/"@ =~= seq!['/']);
}

/// Only `cd -` reads OLDPWD: for every other argument the target does not
/// depend on it. `cd -` goes to OLDPWD whatever HOME is, and fails only when
/// OLDPWD is not set.
pub proof fn lemma_cd_oldpwd_only_for_dash(
    arg: Seq<char>,
    oldpwd: Option<Seq<char>>,
    other_oldpwd: Option<Seq<char>>,
    home: Option<Seq<char>>,
)
    ensures
        arg != seq!['-'] ==> spec_cd_target(Some(arg), oldpwd, home) == spec_cd_target(Some(arg), other_oldpwd, home),
        oldpwd matches Some(o) ==> spec_cd_target(Some(seq!['-']), oldpwd, home) == Ok::<Seq<char>, Seq<char>>(o),
        oldpwd is None ==> spec_cd_target(Some(seq!['-']), oldpwd, home) is Err,
{
    reveal_strlit("-");
    assert("-"@ =~= seq!['-']);
}

/// `cd ~/rest` goes to `rest` under HOME (under `/` when HOME is not set), and
/// an argument that starts with neither `~` nor is `-` is the target as it is.
pub proof fn lemma_cd_tilde_and_plain(
    rest: Seq<char>,
    arg: Seq<char>,
    oldpwd: Option<Seq<char>>,
    home: Option<Seq<char>>,
)
    ensures
        spec_cd_target(Some(seq!['~', '/'] + rest), oldpwd, home) == Ok::<Seq<char>, Seq<char>>(
            match home {
                Some(h) => h + seq!['/'] + rest,
                None => seq!['/', '/'] + rest,
            },
        ),
        arg != seq!['-'] && (arg.len() == 0 || arg[0] != '~') ==> spec_cd_target(Some(arg), oldpwd, home)
            == Ok::<Seq<char>, Seq<char>>(arg),
{
    reveal_strlit("/");
    reveal_strlit("-");
    reveal_strlit("~");
    let t = seq!['~', '/'] + rest;
    assert(t[0] == '~' && t[1] == '/');
    assert("-"@[0] != t[0]);
    assert("~"@.len() != t.len());
    assert(t.drop_first() =~= seq!['/'] + rest);
    match home {
        Some(h) => {
            assert(h + t.drop_first() =~= h + seq!['/'] + rest);
        },
        None => {
            assert("/"@ + t.drop_first() =~= seq!['/', '/'] + rest);
        },
    }
    if arg != seq!['-'] && (arg.len() == 0 || arg[0] != '~') {
        assert("-"@ =~= seq!['-']);
        if arg == "~"@ {
            assert(arg[0] == '~');
        }
    }
}


} // verus!
