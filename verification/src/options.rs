//! Splitting command arguments into option letters and operands, the way the
//! built-ins that take bundled single-letter options (`-la`) do it.
use vstd::prelude::*;
use crate::text::{chars_of, views_of};

verus! {

/// The first character of `w` that is not among `allowed`, if any.
pub open spec fn first_not_allowed(w: Seq<char>, allowed: Seq<char>) -> Option<char>
    decreases w.len(),
{
    if w.len() == 0 {
        None
    } else if allowed.contains(w[0]) {
        first_not_allowed(w.drop_first(), allowed)
    } else {
        Some(w[0])
    }
}

/// An argument that starts with `-` is a bundle of option letters.
pub open spec fn is_option_word(w: Seq<char>) -> bool {
    w.len() > 0 && w[0] == '-'
}

/// The option scan over `args` from position `i`, having collected the
/// option letters `letters` and the operands `ops` so far: each option word
/// contributes its letters after the `-`; every other argument is an operand,
/// in order. The scan stops at the first letter not in `allowed`.
pub open spec fn scan_options(
    args: Seq<Seq<char>>,
    i: int,
    allowed: Seq<char>,
    letters: Seq<char>,
    ops: Seq<Seq<char>>,
) -> Result<(Seq<char>, Seq<Seq<char>>), char>
    decreases args.len() - i,
{
    if i < 0 || i >= args.len() {
        Ok((letters, ops))
    } else if is_option_word(args[i]) {
        match first_not_allowed(args[i].drop_first(), allowed) {
            Some(c) => Err(c),
            None => scan_options(args, i + 1, allowed, letters + args[i].drop_first(), ops),
        }
    } else {
        scan_options(args, i + 1, allowed, letters, ops.push(args[i]))
    }
}

/// The option letters and operands of `args`, or the first letter that is not allowed.
pub open spec fn spec_split_options(args: Seq<Seq<char>>, allowed: Seq<char>) -> Result<(Seq<char>, Seq<Seq<char>>), char> {
    scan_options(args, 0, allowed, Seq::empty(), Seq::empty())
}

fn first_bad_letter(w: &Vec<char>, allowed: &[char]) -> (r: Option<char>)
    requires
        w@.len() > 0,
    ensures
        r == first_not_allowed(w@.drop_first(), allowed@),
{
    let mut k: usize = 1;
    assert(w@.subrange(1, w@.len() as int) =~= w@.drop_first());
    while k < w.len()
        invariant
            1 <= k <= w@.len(),
            first_not_allowed(w@.drop_first(), allowed@) == first_not_allowed(w@.subrange(k as int, w@.len() as int), allowed@),
        decreases w@.len() - k,
    {
        let c = w[k];
        let mut found = false;
        let mut j: usize = 0;
        while j < allowed.len()
            invariant
                j <= allowed@.len(),
                found == (exists|m: int| 0 <= m < j && allowed@[m] == c),
            decreases allowed@.len() - j,
        {
            if allowed[j] == c {
                found = true;
            }
            j = j + 1;
        }
        assert(found == allowed@.contains(c));
        assert(w@.subrange(k as int, w@.len() as int)[0] == c);
        if !found {
            return Some(c);
        }
        assert(w@.subrange(k as int, w@.len() as int).drop_first() =~= w@.subrange(k + 1, w@.len() as int));
        k = k + 1;
    }
    None
}

/// Splits `args` into the option letters (in order) and the operands (in
/// order, as given), or returns the first option letter not in `allowed`.
pub fn split_options(args: &[String], allowed: &[char]) -> (r: Result<(Vec<char>, Vec<String>), char>)
    ensures
        match spec_split_options(views_of(args@), allowed@) {
            Ok((letters, ops)) => r matches Ok((l, o)) && l@ == letters && views_of(o@) == ops,
            Err(c) => r == Err::<(Vec<char>, Vec<String>), char>(c),
        },
{
    let ghost a = views_of(args@);
    let mut letters: Vec<char> = Vec::new();
    let mut ops: Vec<String> = Vec::new();
    let mut i: usize = 0;
    assert(views_of(ops@) =~= Seq::<Seq<char>>::empty());
    while i < args.len()
        invariant
            i <= args@.len(),
            a == views_of(args@),
            spec_split_options(a, allowed@) == scan_options(a, i as int, allowed@, letters@, views_of(ops@)),
        decreases args@.len() - i,
    {
        let w = chars_of(args[i].as_str());
        assert(w@ == a[i as int]);
        if w.len() > 0 && w[0] == '-' {
            match first_bad_letter(&w, allowed) {
                Some(c) => {
                    return Err(c);
                },
                None => {
                    let mut k: usize = 1;
                    let ghost before = letters@;
                    while k < w.len()
                        invariant
                            1 <= k <= w@.len(),
                            letters@ =~= before + w@.subrange(1, k as int),
                        decreases w@.len() - k,
                    {
                        letters.push(w[k]);
                        k = k + 1;
                    }
                    assert(w@.subrange(1, w@.len() as int) =~= w@.drop_first());
                },
            }
        } else {
            let ghost before = views_of(ops@);
            ops.push(args[i].clone());
            assert(views_of(ops@) =~= before.push(a[i as int]));
        }
        i = i + 1;
    }
    Ok((letters, ops))
}

} // verus!
