//! Properties of `ls` output that hold for every file.
use vstd::prelude::*;
use crate::fmt::{pad_left, spaces};
use crate::text::char_alphanumeric;
use crate::ls::{
    dev_major, dev_minor, in_listing_order, kind_char, listed_before, name_lt, spec_escape_leading_special,
    spec_permissions, FileKind,
};

verus! {

/// The mode string of a long listing is always ten characters: the kind of
/// file, then three `rwx` triplets.
pub proof fn lemma_mode_string_shape(kind: FileKind, mode: u32)
    ensures
        spec_permissions(kind, mode).len() == 10,
        spec_permissions(kind, mode)[0] == kind_char(kind),
{
}

/// Device numbers are shown with at most 12 bits for the major number and at
/// most 20 bits for the minor number.
pub proof fn lemma_device_numbers_bounded(rdev: u64)
    ensures
        dev_major(rdev) <= 0xfff,
        dev_minor(rdev) <= 0xfffff,
{
    assert((rdev >> 8u64) & 0xfffu64 <= 0xfffu64) by (bit_vector);
    assert((rdev & 0xffu64) | ((rdev >> 12u64) & 0xfff00u64) <= 0xfffffu64) by (bit_vector);
}

/// Right-aligning never shortens a text: it has the field's width, or its
/// own length when that is larger, and ends with the text.
pub proof fn lemma_pad_left_shape(s: Seq<char>, width: nat)
    ensures
        pad_left(s, width).len() == if s.len() >= width { s.len() } else { width },
        pad_left(s, width).skip(pad_left(s, width).len() - s.len()) == s,
{
    if s.len() < width {
        let p = spaces((width - s.len()) as nat) + s;
        assert(p.skip(p.len() - s.len()) =~= s);
    } else {
        assert(s.skip(0) =~= s);
    }
}

proof fn lemma_listed_before_irreflexive(names: Seq<Seq<char>>, x: int)
    ensures
        !listed_before(names, x, x),
{
    crate::ls::lemma_name_lt_irreflexive(names[x]);
}

/// A listing never shows an entry twice.
pub proof fn lemma_listing_has_no_repeats(names: Seq<Seq<char>>, order: Seq<usize>)
    requires
        in_listing_order(names, order),
    ensures
        forall|a: int, b: int| 0 <= a < b < order.len() ==> order[a] != order[b],
{
    assert forall|a: int, b: int| 0 <= a < b < order.len() implies order[a] != order[b] by {
        assert(listed_before(names, order[a] as int, order[b] as int));
        lemma_listed_before_irreflexive(names, order[a] as int);
    }
}

/// `a` and `b` agree on their first `k` characters, and there `a` either ends
/// while `b` goes on, or has the smaller character (by code point).
pub open spec fn smaller_from(a: Seq<char>, b: Seq<char>, k: int) -> bool {
    &&& 0 <= k <= a.len()
    &&& k <= b.len()
    &&& a.take(k) == b.take(k)
    &&& ((k == a.len() && k < b.len()) || (k < a.len() && k < b.len() && a[k] < b[k]))
}

/// Entries are listed in the lexicographic order of their names by code
/// point: `a` comes before `b` exactly when, at the first place where they
/// differ, `a` has the smaller character, or `a` is a proper prefix of `b`.
pub proof fn lemma_name_order_is_lexicographic(a: Seq<char>, b: Seq<char>)
    ensures
        name_lt(a, b) <==> exists|k: int| #[trigger] smaller_from(a, b, k),
    decreases a.len(),
{
    if a.len() == 0 {
        if b.len() > 0 {
            assert(a.take(0) =~= b.take(0));
            assert(smaller_from(a, b, 0));
        }
    } else if b.len() == 0 {
    } else if a[0] != b[0] {
        if name_lt(a, b) {
            assert(a.take(0) =~= b.take(0));
            assert(smaller_from(a, b, 0));
        } else {
            assert forall|k: int| !#[trigger] smaller_from(a, b, k) by {
                if smaller_from(a, b, k) {
                    if k > 0 {
                        assert(a.take(k)[0] == b.take(k)[0]);
                    }
                }
            }
        }
    } else {
        let a1 = a.drop_first();
        let b1 = b.drop_first();
        lemma_name_order_is_lexicographic(a1, b1);
        if name_lt(a1, b1) {
            let k = choose|k: int| #[trigger] smaller_from(a1, b1, k);
            assert(a.take(k + 1) =~= seq![a[0]] + a1.take(k));
            assert(b.take(k + 1) =~= seq![b[0]] + b1.take(k));
            assert(smaller_from(a, b, k + 1));
        } else {
            assert forall|k: int| !#[trigger] smaller_from(a, b, k) by {
                if smaller_from(a, b, k) {
                    if k == 0 {
                    } else {
                        assert(a1.take(k - 1) =~= a.take(k).drop_first());
                        assert(b1.take(k - 1) =~= b.take(k).drop_first());
                        assert(smaller_from(a1, b1, k - 1));
                    }
                }
            }
        }
    }
}


/// A name is shown as it is unless its first character is neither
/// alphanumeric (as `char::is_alphanumeric` answers) nor a dot; then, and only
/// then, one backslash is put in front of it and the name follows unchanged.
pub proof fn lemma_escape_only_special_first(name: Seq<char>)
    ensures
        name.len() == 0 ==> spec_escape_leading_special(name) == name,
        name.len() > 0 && char_alphanumeric(name[0]) ==> spec_escape_leading_special(name) == name,
        name.len() > 0 && name[0] == '.' ==> spec_escape_leading_special(name) == name,
        name.len() > 0 && !char_alphanumeric(name[0]) && name[0] != '.' ==> {
            let r = spec_escape_leading_special(name);
            &&& r.len() == name.len() + 1
            &&& r[0] == '\\'
            &&& r.drop_first() == name
        },
{
    let r = spec_escape_leading_special(name);
    if name.len() > 0 && !char_alphanumeric(name[0]) && name[0] != '.' {
        assert(r.drop_first() =~= name);
    }
}


} // verus!
