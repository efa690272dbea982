//! Unix paths as the built-ins use them: their components, the last
//! component, prefixes, and joining a name onto a directory.
use vstd::prelude::*;
use crate::text::{char_views, chars_eq, chars_of, string_of};

verus! {

/// A piece between slashes that names something: not empty and not `.`.
pub open spec fn named_piece(p: Seq<char>) -> bool {
    p.len() > 0 && p != seq!['.']
}

/// The named pieces of `s` from position `i` on, after `done` and with the
/// piece `cur` under way.
pub open spec fn pieces_from(s: Seq<char>, i: int, done: Seq<Seq<char>>, cur: Seq<char>) -> Seq<Seq<char>>
    decreases s.len() - i,
{
    if i < 0 || i >= s.len() {
        if named_piece(cur) { done.push(cur) } else { done }
    } else if s[i] == '/' {
        pieces_from(s, i + 1, if named_piece(cur) { done.push(cur) } else { done }, Seq::empty())
    } else {
        pieces_from(s, i + 1, done, cur.push(s[i]))
    }
}

/// What a path starts from: the root `/` when it is absolute, `.` when it
/// starts with the current directory (`.` alone or `./`), nothing otherwise.
pub open spec fn path_start(s: Seq<char>) -> Seq<Seq<char>> {
    if s.len() > 0 && s[0] == '/' {
        seq![seq!['/']]
    } else if s.len() > 0 && s[0] == '.' && (s.len() == 1 || s[1] == '/') {
        seq![seq!['.']]
    } else {
        Seq::empty()
    }
}

/// The components of a path, as `Path::components` gives them on Unix:
/// its start, then the pieces between slashes, leaving out empty pieces and
/// `.`.
pub open spec fn spec_components(s: Seq<char>) -> Seq<Seq<char>> {
    path_start(s) + pieces_from(s, 0, Seq::empty(), Seq::empty())
}

fn named(cur: &Vec<char>) -> (r: bool)
    ensures
        r == named_piece(cur@),
{
    let dot = ['.'];
    assert(dot@ =~= seq!['.']);
    cur.len() > 0 && !chars_eq(cur.as_slice(), &dot)
}

/// The components of the path `s`.
pub fn components(s: &[char]) -> (r: Vec<Vec<char>>)
    ensures
        char_views(r@) == spec_components(s@),
{
    let n = s.len();
    let mut parts: Vec<Vec<char>> = Vec::new();
    if n > 0 && s[0] == '/' {
        let mut root = Vec::new();
        root.push('/');
        parts.push(root);
    } else if n > 0 && s[0] == '.' && (n == 1 || s[1] == '/') {
        let mut dot = Vec::new();
        dot.push('.');
        parts.push(dot);
    }
    let ghost start = char_views(parts@);
    assert(start =~= path_start(s@));
    let mut cur: Vec<char> = Vec::new();
    let mut i: usize = 0;
    assert(start + Seq::<Seq<char>>::empty() =~= start);
    assert(char_views(parts@).subrange(start.len() as int, parts@.len() as int) =~= Seq::<Seq<char>>::empty());
    assert(char_views(parts@).subrange(0, start.len() as int) =~= start);
    while i < n
        invariant
            n == s@.len(),
            i <= n,
            start == path_start(s@),
            spec_components(s@) == start + pieces_from(
                s@,
                i as int,
                char_views(parts@).subrange(start.len() as int, parts@.len() as int),
                cur@,
            ),
            parts@.len() >= start.len(),
            char_views(parts@).subrange(0, start.len() as int) == start,
        decreases n - i,
    {
        if s[i] == '/' {
            if named(&cur) {
                let ghost before = char_views(parts@);
                let ghost piece = cur@;
                parts.push(cur);
                assert(char_views(parts@) =~= before.push(piece));
                assert(char_views(parts@).subrange(start.len() as int, parts@.len() as int)
                    =~= before.subrange(start.len() as int, before.len() as int).push(piece));
                assert(char_views(parts@).subrange(0, start.len() as int)
                    =~= before.subrange(0, start.len() as int));
            }
            cur = Vec::new();
        } else {
            cur.push(s[i]);
        }
        i = i + 1;
    }
    if named(&cur) {
        let ghost before = char_views(parts@);
        let ghost piece = cur@;
        parts.push(cur);
        assert(char_views(parts@) =~= before.push(piece));
        assert(char_views(parts@).subrange(start.len() as int, parts@.len() as int)
            =~= before.subrange(start.len() as int, before.len() as int).push(piece));
        assert(char_views(parts@).subrange(0, start.len() as int)
            =~= before.subrange(0, start.len() as int));
    }
    let ghost all = char_views(parts@);
    assert(all =~= all.subrange(0, start.len() as int) + all.subrange(start.len() as int, all.len() as int));
    parts
}

/// `path` lies within `base`: the components of `base` begin those of `path`
/// (as `Path::starts_with` decides).
pub open spec fn spec_starts_with(path: Seq<char>, base: Seq<char>) -> bool {
    let p = spec_components(path);
    let b = spec_components(base);
    b.len() <= p.len() && p.take(b.len() as int) == b
}

/// Whether `path` lies within `base`, component by component.
pub fn path_starts_with(path: &str, base: &str) -> (r: bool)
    ensures
        r == spec_starts_with(path@, base@),
{
    let p = components(chars_of(path).as_slice());
    let b = components(chars_of(base).as_slice());
    let ghost pv = char_views(p@);
    let ghost bv = char_views(b@);
    assert(pv.len() == p@.len() && bv.len() == b@.len());
    if b.len() > p.len() {
        return false;
    }
    let mut k: usize = 0;
    while k < b.len()
        invariant
            b@.len() <= p@.len(),
            k <= b@.len(),
            pv == char_views(p@),
            bv == char_views(b@),
            pv == spec_components(path@),
            bv == spec_components(base@),
            forall|j: int| 0 <= j < k ==> pv[j] == bv[j],
        decreases b@.len() - k,
    {
        assert(pv[k as int] == p@[k as int]@ && bv[k as int] == b@[k as int]@);
        if !chars_eq(p[k].as_slice(), b[k].as_slice()) {
            assert(pv.take(bv.len() as int)[k as int] != bv[k as int]);
            assert(pv.take(bv.len() as int) != bv);
            return false;
        }
        k = k + 1;
    }
    assert(pv.take(bv.len() as int) =~= bv);
    true
}

/// The last component of a path when it names something (not the root, `.`
/// or `..`), as `Path::file_name` gives it.
pub open spec fn spec_file_name(s: Seq<char>) -> Option<Seq<char>> {
    let c = spec_components(s);
    if c.len() > 0 && c.last() != seq!['/'] && c.last() != seq!['.'] && c.last() != seq!['.', '.'] {
        Some(c.last())
    } else {
        None
    }
}

/// The last component of the path `s`, if it names something.
pub fn file_name(s: &str) -> (r: Option<String>)
    ensures
        match spec_file_name(s@) {
            Some(f) => r matches Some(n) && n@ == f,
            None => r is None,
        },
{
    let c = components(chars_of(s).as_slice());
    let ghost cv = char_views(c@);
    if c.len() == 0 {
        return None;
    }
    let last = &c[c.len() - 1];
    assert(last@ == cv.last());
    let slash = ['/'];
    let dot = ['.'];
    let dots = ['.', '.'];
    assert(slash@ =~= seq!['/'] && dot@ =~= seq!['.'] && dots@ =~= seq!['.', '.']);
    if chars_eq(last.as_slice(), &slash) || chars_eq(last.as_slice(), &dot) || chars_eq(last.as_slice(), &dots) {
        None
    } else {
        Some(string_of(last.as_slice()))
    }
}

/// `name` put under the directory `dir`, as `Path::join` does: an absolute
/// `name` stands for itself; otherwise a slash separates the two unless
/// `dir` is empty or already ends with one.
pub open spec fn spec_join(dir: Seq<char>, name: Seq<char>) -> Seq<char> {
    if name.len() > 0 && name[0] == '/' {
        name
    } else if dir.len() == 0 || dir.last() == '/' {
        dir + name
    } else {
        dir + seq!['/'] + name
    }
}

/// Joins `name` onto the directory `dir`.
pub fn join_path(dir: &str, name: &str) -> (r: String)
    ensures
        r@ == spec_join(dir@, name@),
{
    let d = chars_of(dir);
    let nm = chars_of(name);
    if nm.len() > 0 && nm[0] == '/' {
        return string_of(nm.as_slice());
    }
    let mut v = d;
    if v.len() > 0 && v[v.len() - 1] != '/' {
        v.push('/');
    }
    crate::fmt::push_all(&mut v, nm.as_slice());
    string_of(v.as_slice())
}

} // verus!
