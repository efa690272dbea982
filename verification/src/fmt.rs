//! Text formatting: decimal numbers, padding to a width, and joining.
use vstd::prelude::*;

verus! {

/// The decimal digit for `d`.
pub open spec fn digit_char(d: nat) -> char
    recommends
        d < 10,
{
    if d == 0 { '0' } else if d == 1 { '1' } else if d == 2 { '2' } else if d == 3 { '3' }
    else if d == 4 { '4' } else if d == 5 { '5' } else if d == 6 { '6' } else if d == 7 { '7' }
    else if d == 8 { '8' } else { '9' }
}

/// The decimal representation of `n`, without leading zeros.
pub open spec fn decimal(n: nat) -> Seq<char>
    decreases n,
{
    if n < 10 {
        seq![digit_char(n)]
    } else {
        decimal(n / 10).push(digit_char(n % 10))
    }
}

fn digit(d: u64) -> (c: char)
    requires
        d < 10,
    ensures
        c == digit_char(d as nat),
{
    if d == 0 { '0' } else if d == 1 { '1' } else if d == 2 { '2' } else if d == 3 { '3' }
    else if d == 4 { '4' } else if d == 5 { '5' } else if d == 6 { '6' } else if d == 7 { '7' }
    else if d == 8 { '8' } else { '9' }
}

/// The decimal digits of `n`.
pub fn decimal_chars(n: u64) -> (r: Vec<char>)
    ensures
        r@ == decimal(n as nat),
    decreases n,
{
    if n < 10 {
        let mut v = Vec::new();
        v.push(digit(n));
        v
    } else {
        let mut v = decimal_chars(n / 10);
        v.push(digit(n % 10));
        v
    }
}

/// `n` spaces.
pub open spec fn spaces(n: nat) -> Seq<char> {
    Seq::new(n, |i: int| ' ')
}

/// `s` right-aligned in a field of `width` characters (as `{:>width}` does).
pub open spec fn pad_left(s: Seq<char>, width: nat) -> Seq<char> {
    if s.len() >= width { s } else { spaces((width - s.len()) as nat) + s }
}

/// `s` left-aligned in a field of `width` characters (as `{:<width}` does).
pub open spec fn pad_right(s: Seq<char>, width: nat) -> Seq<char> {
    if s.len() >= width { s } else { s + spaces((width - s.len()) as nat) }
}

fn push_spaces(v: &mut Vec<char>, n: usize)
    ensures
        final(v)@ == old(v)@ + spaces(n as nat),
{
    let mut k: usize = 0;
    while k < n
        invariant
            k <= n,
            v@ =~= old(v)@ + spaces(k as nat),
        decreases n - k,
    {
        v.push(' ');
        k = k + 1;
    }
}

/// Appends `s` to `v`.
pub fn push_all(v: &mut Vec<char>, s: &[char])
    ensures
        final(v)@ == old(v)@ + s@,
{
    let mut k: usize = 0;
    while k < s.len()
        invariant
            k <= s@.len(),
            v@ =~= old(v)@ + s@.subrange(0, k as int),
        decreases s@.len() - k,
    {
        v.push(s[k]);
        k = k + 1;
    }
    assert(s@.subrange(0, s@.len() as int) =~= s@);
}

/// `s` right-aligned in a field of `width` characters.
pub fn padded_left(s: &[char], width: usize) -> (r: Vec<char>)
    ensures
        r@ == pad_left(s@, width as nat),
{
    let mut v: Vec<char> = Vec::new();
    if s.len() < width {
        push_spaces(&mut v, width - s.len());
    }
    push_all(&mut v, s);
    assert(s@.len() >= width ==> v@ =~= s@);
    v
}

/// `s` left-aligned in a field of `width` characters.
pub fn padded_right(s: &[char], width: usize) -> (r: Vec<char>)
    ensures
        r@ == pad_right(s@, width as nat),
{
    let mut v: Vec<char> = Vec::new();
    push_all(&mut v, s);
    if s.len() < width {
        push_spaces(&mut v, width - s.len());
    }
    assert(s@.len() >= width ==> v@ =~= s@);
    v
}

/// The pieces `parts` written one after another with `sep` between each two
/// (as `[String]::join` does).
pub open spec fn join_with(parts: Seq<Seq<char>>, sep: Seq<char>) -> Seq<char>
    decreases parts.len(),
{
    if parts.len() == 0 {
        Seq::empty()
    } else if parts.len() == 1 {
        parts[0]
    } else {
        join_with(parts.drop_last(), sep) + sep + parts.last()
    }
}

/// Joins the strings of `parts` with `sep` between each two.
pub fn join_strings(parts: &Vec<String>, sep: &str) -> (r: Vec<char>)
    ensures
        r@ == join_with(crate::text::views_of(parts@), sep@),
{
    let ghost views = crate::text::views_of(parts@);
    let sep_chars = crate::text::chars_of(sep);
    let mut v: Vec<char> = Vec::new();
    let mut k: usize = 0;
    while k < parts.len()
        invariant
            k <= parts@.len(),
            views == crate::text::views_of(parts@),
            sep_chars@ == sep@,
            v@ == join_with(views.take(k as int), sep@),
        decreases parts@.len() - k,
    {
        if k > 0 {
            push_all(&mut v, sep_chars.as_slice());
        }
        let part = crate::text::chars_of(parts[k].as_str());
        push_all(&mut v, part.as_slice());
        assert(views.take(k + 1).drop_last() =~= views.take(k as int));
        assert(views.take(k + 1).last() == views[k as int]);
        proof {
            if k == 0 {
                assert(v@ =~= views[0]);
            }
        }
        k = k + 1;
    }
    assert(views.take(parts@.len() as int) =~= views);
    v
}

} // verus!
