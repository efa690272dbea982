//! Properties of paths that the built-ins rely on.
use vstd::prelude::*;
use crate::paths::{named_piece, pieces_from, spec_components, spec_file_name, spec_join, spec_starts_with};

verus! {

/// Every path lies within itself, so a directory that holds the current
/// directory is recognised even when it is the current directory.
pub proof fn lemma_starts_with_itself(p: Seq<char>)
    ensures
        spec_starts_with(p, p),
{
    let c = spec_components(p);
    assert(c.take(c.len() as int) =~= c);
}

/// A name that `Path::file_name` can return: not empty, without `/`, and
/// neither `.` nor `..`.
pub open spec fn plain_name(n: Seq<char>) -> bool {
    &&& n.len() > 0
    &&& forall|k: int| 0 <= k < n.len() ==> #[trigger] n[k] != '/'
    &&& n != seq!['.']
    &&& n != seq!['.', '.']
}

proof fn lemma_pieces_tail(t: Seq<char>, j: int, i: int, done: Seq<Seq<char>>)
    requires
        0 <= j <= i <= t.len(),
        forall|k: int| j <= k < t.len() ==> #[trigger] t[k] != '/',
    ensures
        pieces_from(t, i, done, t.subrange(j, i)) == (if named_piece(t.subrange(j, t.len() as int)) {
            done.push(t.subrange(j, t.len() as int))
        } else {
            done
        }),
    decreases t.len() - i,
{
    if i < t.len() {
        assert(t.subrange(j, i).push(t[i]) =~= t.subrange(j, i + 1));
        lemma_pieces_tail(t, j, i + 1, done);
    }
}

proof fn lemma_pieces_to(t: Seq<char>, i: int, j: int, done: Seq<Seq<char>>, cur: Seq<char>) -> (d: Seq<Seq<char>>)
    requires
        0 <= i < j <= t.len(),
        t[j - 1] == '/',
    ensures
        pieces_from(t, i, done, cur) == pieces_from(t, j, d, Seq::empty()),
    decreases j - i,
{
    let done2 = if named_piece(cur) { done.push(cur) } else { done };
    if i == j - 1 {
        done2
    } else if t[i] == '/' {
        lemma_pieces_to(t, i + 1, j, done2, Seq::empty())
    } else {
        lemma_pieces_to(t, i + 1, j, done, cur.push(t[i]))
    }
}

/// Putting a plain name under a directory gives a path whose last component
/// is that name: a file copied or moved into a directory keeps its name there.
pub proof fn lemma_join_keeps_name(dir: Seq<char>, name: Seq<char>)
    requires
        plain_name(name),
    ensures
        spec_file_name(spec_join(dir, name)) == Some(name),
{
    let t = spec_join(dir, name);
    let j: int = if dir.len() == 0 { 0 } else if dir.last() == '/' { dir.len() as int } else { dir.len() as int + 1 };
    assert(t.len() == j + name.len());
    assert forall|k: int| j <= k < t.len() implies #[trigger] t[k] != '/' by {
        assert(t[k] == name[k - j]);
    }
    assert(t.subrange(j, t.len() as int) =~= name);
    assert(name[0] != '/');
    if j == 0 {
        assert(t =~= name);
        assert(t.subrange(0, 0) =~= Seq::<char>::empty());
        lemma_pieces_tail(t, 0, 0, Seq::empty());
        assert(name.len() == 1 ==> name =~= seq![name[0]]);
        if name[0] == '.' && name.len() > 1 {
            assert(name[1] != '/');
        }
        assert(spec_components(t) =~= seq![name]);
    } else {
        assert(t[j - 1] == '/');
        let d = lemma_pieces_to(t, 0, j, Seq::empty(), Seq::empty());
        assert(t.subrange(j, j) =~= Seq::<char>::empty());
        lemma_pieces_tail(t, j, j, d);
        let c = spec_components(t);
        assert(c.last() == name);
    }
    assert(name != seq!['/']) by {
        assert(name[0] != '/');
    }
}

} // verus!
