//! The computing part of `ls`: option parsing, the permission string, sizes
//! and device numbers, name decoration, and the order of a listing.
use vstd::prelude::*;
use crate::fmt::{decimal, decimal_chars, pad_left, pad_right, padded_left, padded_right, push_all};
use crate::options::{spec_split_options, split_options};
use crate::paths::{file_name, spec_file_name};
use crate::text::{alphanumeric, char_alphanumeric, chars_of, is_ascii_alphanumeric, push_char, string_of, views_of};

verus! {

/// The options of `ls`: `-l` long listing, `-a` all entries, `-F` classify.
#[derive(Debug, Clone, Copy, PartialEq, Eq, Structural)]
pub struct LsOptions {
    pub long: bool,
    pub all: bool,
    pub classify: bool,
}

/// The paths `ls` lists when given none: the current directory.
pub open spec fn default_paths() -> Seq<Seq<char>> {
    seq![seq!['.']]
}

fn letters_contain(letters: &Vec<char>, c: char) -> (r: bool)
    ensures
        r == letters@.contains(c),
{
    let mut k: usize = 0;
    while k < letters.len()
        invariant
            k <= letters@.len(),
            forall|j: int| 0 <= j < k ==> letters@[j] != c,
        decreases letters@.len() - k,
    {
        if letters[k] == c {
            assert(letters@[k as int] == c);
            return true;
        }
        k = k + 1;
    }
    false
}

/// Parses the arguments of `ls`: option words made of the letters `l`, `a`
/// and `F`, and the paths to list (the current directory when none is given).
/// The first other letter in an option word is refused.
pub fn parse_flags(args: &[String]) -> (r: Result<(LsOptions, Vec<String>), String>)
    ensures
        match spec_split_options(views_of(args@), seq!['l', 'a', 'F']) {
            Ok((letters, ops)) => r matches Ok((o, paths)) && {
                &&& o.long == letters.contains('l')
                &&& o.all == letters.contains('a')
                &&& o.classify == letters.contains('F')
                &&& views_of(paths@) == (if ops.len() == 0 { default_paths() } else { ops })
            },
            Err(c) => r matches Err(e) && e@ == "ls: invalid option -- "@.push(c),
        },
{
    match split_options(args, &['l', 'a', 'F']) {
        Err(c) => {
            let mut e = String::from_str("ls: invalid option -- ");
            push_char(&mut e, c);
            Err(e)
        },
        Ok((letters, ops)) => {
            let opts = LsOptions {
                long: letters_contain(&letters, 'l'),
                all: letters_contain(&letters, 'a'),
                classify: letters_contain(&letters, 'F'),
            };
            if ops.len() == 0 {
                let mut paths: Vec<String> = Vec::new();
                paths.push(String::from_str("."));
                proof {
                    reveal_strlit(".");
                    assert("."@ =~= seq!['.']);
                    assert(views_of(paths@)[0] == paths@[0]@);
                    assert(views_of(paths@) =~= default_paths());
                }
                Ok((opts, paths))
            } else {
                Ok((opts, ops))
            }
        },
    }
}

/// The kind of a file, as its metadata reports it.
#[derive(Debug, Clone, Copy, PartialEq, Eq, Structural)]
pub enum FileKind {
    Symlink,
    Directory,
    Fifo,
    Socket,
    BlockDevice,
    CharDevice,
    Regular,
}

/// The first character of a long listing: the kind of file.
pub open spec fn kind_char(kind: FileKind) -> char {
    match kind {
        FileKind::Symlink => 'l',
        FileKind::Directory => 'd',
        FileKind::Fifo => 'p',
        FileKind::Socket => 's',
        FileKind::BlockDevice => 'b',
        FileKind::CharDevice => 'c',
        FileKind::Regular => '-',
    }
}

/// One `rwx` triplet of a mode: read and write bits as `r`/`w` or `-`; the
/// execute position shows `set`/`unset` when the special bit (setuid,
/// setgid or sticky) is on, by whether the execute bit is on too.
pub open spec fn perm_triplet(mode: u32, r: u32, w: u32, x: u32, special: u32, set: char, unset: char) -> Seq<char> {
    seq![
        if mode & r != 0 { 'r' } else { '-' },
        if mode & w != 0 { 'w' } else { '-' },
        if mode & special != 0 {
            if mode & x != 0 { set } else { unset }
        } else {
            if mode & x != 0 { 'x' } else { '-' }
        },
    ]
}

/// The ten-character mode string of a long listing.
pub open spec fn spec_permissions(kind: FileKind, mode: u32) -> Seq<char> {
    seq![kind_char(kind)]
        + perm_triplet(mode, 0o400, 0o200, 0o100, 0o4000, 's', 'S')
        + perm_triplet(mode, 0o040, 0o020, 0o010, 0o2000, 's', 'S')
        + perm_triplet(mode, 0o004, 0o002, 0o001, 0o1000, 't', 'T')
}

fn push_triplet(v: &mut Vec<char>, mode: u32, r: u32, w: u32, x: u32, special: u32, set: char, unset: char)
    ensures
        final(v)@ == old(v)@ + perm_triplet(mode, r, w, x, special, set, unset),
{
    v.push(if mode & r != 0 { 'r' } else { '-' });
    v.push(if mode & w != 0 { 'w' } else { '-' });
    let xc = if mode & special != 0 {
        if mode & x != 0 { set } else { unset }
    } else {
        if mode & x != 0 { 'x' } else { '-' }
    };
    v.push(xc);
    assert(final(v)@ =~= old(v)@ + perm_triplet(mode, r, w, x, special, set, unset));
}

fn mode_chars(kind: FileKind, mode: u32) -> (r: Vec<char>)
    ensures
        r@ == spec_permissions(kind, mode),
{
    let mut v: Vec<char> = Vec::new();
    v.push(match kind {
        FileKind::Symlink => 'l',
        FileKind::Directory => 'd',
        FileKind::Fifo => 'p',
        FileKind::Socket => 's',
        FileKind::BlockDevice => 'b',
        FileKind::CharDevice => 'c',
        FileKind::Regular => '-',
    });
    push_triplet(&mut v, mode, 0o400, 0o200, 0o100, 0o4000, 's', 'S');
    push_triplet(&mut v, mode, 0o040, 0o020, 0o010, 0o2000, 's', 'S');
    push_triplet(&mut v, mode, 0o004, 0o002, 0o001, 0o1000, 't', 'T');
    assert(v@ =~= spec_permissions(kind, mode));
    v
}

/// The mode string of a long listing, such as `drwxr-xr-x`.
pub fn format_permissions(kind: FileKind, mode: u32) -> (r: String)
    ensures
        r@ == spec_permissions(kind, mode),
{
    let v = mode_chars(kind, mode);
    string_of(v.as_slice())
}

/// The mode string followed by `+` when the file carries a POSIX ACL, else a space.
pub fn format_mode_with_acl(kind: FileKind, mode: u32, has_acl: bool) -> (r: String)
    ensures
        r@ == spec_permissions(kind, mode).push(if has_acl { '+' } else { ' ' }),
{
    let mut v = mode_chars(kind, mode);
    v.push(if has_acl { '+' } else { ' ' });
    string_of(v.as_slice())
}

/// The major number of a Linux device number, as `ls` shows it.
pub open spec fn dev_major(rdev: u64) -> u64 {
    (rdev >> 8u64) & 0xfffu64
}

/// The minor number of a Linux device number, as `ls` shows it.
pub open spec fn dev_minor(rdev: u64) -> u64 {
    (rdev & 0xffu64) | ((rdev >> 12u64) & 0xfff00u64)
}

/// The size column of a long listing: `major,minor` for a device, else the
/// size in bytes, right-aligned.
pub open spec fn spec_size_or_dev(kind: FileKind, rdev: u64, len: u64) -> Seq<char> {
    if kind == FileKind::CharDevice || kind == FileKind::BlockDevice {
        pad_left(decimal(dev_major(rdev) as nat), 3) + seq![','] + pad_left(decimal(dev_minor(rdev) as nat), 4)
    } else {
        pad_left(decimal(len as nat), 8)
    }
}

/// The size column of a long listing for a file of kind `kind` with device
/// number `rdev` and length `len`.
pub fn format_size_or_dev(kind: FileKind, rdev: u64, len: u64) -> (r: String)
    ensures
        r@ == spec_size_or_dev(kind, rdev, len),
{
    if kind == FileKind::CharDevice || kind == FileKind::BlockDevice {
        let major = (rdev >> 8u64) & 0xfffu64;
        let minor = (rdev & 0xffu64) | ((rdev >> 12u64) & 0xfff00u64);
        let mut v = padded_left(decimal_chars(major).as_slice(), 3);
        v.push(',');
        let m = padded_left(decimal_chars(minor).as_slice(), 4);
        push_all(&mut v, m.as_slice());
        assert(v@ =~= spec_size_or_dev(kind, rdev, len));
        string_of(v.as_slice())
    } else {
        let v = padded_left(decimal_chars(len).as_slice(), 8);
        string_of(v.as_slice())
    }
}

/// The mark that `-F` puts after a name: `/` for a directory, `@` for a
/// symbolic link, `|` for a FIFO, `=` for a socket, `*` for a file that
/// anyone may execute, nothing otherwise.
pub open spec fn spec_classification_suffix(kind: FileKind, mode: u32) -> Seq<char> {
    if kind == FileKind::Directory {
        "/"@
    } else if kind == FileKind::Symlink {
        "@"@
    } else if kind == FileKind::Fifo {
        "|"@
    } else if kind == FileKind::Socket {
        "="@
    } else if mode & 0o111 != 0 {
        "*"@
    } else {
        ""@
    }
}

/// The `-F` mark for a file of kind `kind` and mode `mode`.
pub fn classification_suffix(kind: FileKind, mode: u32) -> (r: &'static str)
    ensures
        r@ == spec_classification_suffix(kind, mode),
{
    if kind == FileKind::Directory {
        "/"
    } else if kind == FileKind::Symlink {
        "@"
    } else if kind == FileKind::Fifo {
        "|"
    } else if kind == FileKind::Socket {
        "="
    } else if mode & 0o111 != 0 {
        "*"
    } else {
        ""
    }
}

/// A name as listed: with its `-F` mark when classifying.
pub fn decorate_entry(name: &str, kind: FileKind, mode: u32, classify: bool) -> (r: String)
    ensures
        r@ == if classify { name@ + spec_classification_suffix(kind, mode) } else { name@ },
{
    let mut v = chars_of(name);
    if classify {
        let suffix = chars_of(classification_suffix(kind, mode));
        push_all(&mut v, suffix.as_slice());
    }
    string_of(v.as_slice())
}

/// A symbolic link in a long listing: `name -> target`, the target shown as
/// `?` when it could not be read; when classifying, followed by the mark of
/// what the link points to (`target_kind`), or by nothing when that is unknown.
pub fn decorate_symlink_long(
    name: &str,
    target: Option<&str>,
    target_kind: Option<(FileKind, u32)>,
    classify: bool,
) -> (r: String)
    ensures
        r@ == name@ + " -> "@ + (match target {
            Some(t) => t@,
            None => "?"@,
        }) + (match (classify, target_kind) {
            (true, Some((k, m))) => spec_classification_suffix(k, m),
            _ => ""@,
        }),
{
    let mut v = chars_of(name);
    push_all(&mut v, chars_of(" -> ").as_slice());
    match target {
        Some(t) => push_all(&mut v, chars_of(t).as_slice()),
        None => push_all(&mut v, chars_of("?").as_slice()),
    }
    if classify {
        if let Some((k, m)) = target_kind {
            push_all(&mut v, chars_of(classification_suffix(k, m)).as_slice());
        }
    }
    proof {
        reveal_strlit("");
        assert(v@ =~= v@ + ""@);
    }
    string_of(v.as_slice())
}

/// A name as `ls` prints it: a backslash in front when its first character
/// is neither alphanumeric nor a dot.
pub open spec fn spec_escape_leading_special(name: Seq<char>) -> Seq<char> {
    if name.len() > 0 && !char_alphanumeric(name[0]) && name[0] != '.' {
        seq!['\\'] + name
    } else {
        name
    }
}

/// Puts a backslash in front of a name that starts with a character other
/// than a letter, a digit or a dot.
pub fn escape_leading_special(name: &str) -> (r: String)
    ensures
        r@ == spec_escape_leading_special(name@),
        name@.len() > 0 && is_ascii_alphanumeric(name@[0]) ==> r@ == name@,
        name@.len() > 0 && (name@[0] as u32) < 128 && !is_ascii_alphanumeric(name@[0]) && name@[0] != '.'
            ==> r@ == seq!['\\'] + name@,
{
    let s = chars_of(name);
    if s.len() > 0 && !alphanumeric(s[0]) && s[0] != '.' {
        let mut v: Vec<char> = Vec::new();
        v.push('\\');
        push_all(&mut v, s.as_slice());
        string_of(v.as_slice())
    } else {
        string_of(s.as_slice())
    }
}

/// One line of a long listing: mode, link count, owner, group, size, time
/// and name, separated by single spaces, the link count right-aligned to 3
/// and owner and group left-aligned to 8 characters.
pub open spec fn spec_long_line(
    mode: Seq<char>,
    nlink: u64,
    user: Seq<char>,
    group: Seq<char>,
    size: Seq<char>,
    time: Seq<char>,
    name: Seq<char>,
) -> Seq<char> {
    mode + seq![' '] + pad_left(decimal(nlink as nat), 3) + seq![' '] + pad_right(user, 8) + seq![' ']
        + pad_right(group, 8) + seq![' '] + size + seq![' '] + time + seq![' '] + name
}

/// Formats one line of a long listing.
pub fn long_line(
    mode: &str,
    nlink: u64,
    user: &str,
    group: &str,
    size: &str,
    time: &str,
    name: &str,
) -> (r: String)
    ensures
        r@ == spec_long_line(mode@, nlink, user@, group@, size@, time@, name@),
{
    let mut v = chars_of(mode);
    v.push(' ');
    push_all(&mut v, padded_left(decimal_chars(nlink).as_slice(), 3).as_slice());
    v.push(' ');
    push_all(&mut v, padded_right(chars_of(user).as_slice(), 8).as_slice());
    v.push(' ');
    push_all(&mut v, padded_right(chars_of(group).as_slice(), 8).as_slice());
    v.push(' ');
    push_all(&mut v, chars_of(size).as_slice());
    v.push(' ');
    push_all(&mut v, chars_of(time).as_slice());
    v.push(' ');
    push_all(&mut v, chars_of(name).as_slice());
    assert(v@ =~= spec_long_line(mode@, nlink, user@, group@, size@, time@, name@));
    string_of(v.as_slice())
}

/// The name `name` of an extended attribute stands in the NUL-separated
/// list `buf` as a whole entry starting at `i`.
pub open spec fn xattr_name_at(buf: Seq<u8>, i: int, name: Seq<char>) -> bool {
    &&& 0 <= i
    &&& i + name.len() <= buf.len()
    &&& (i == 0 || buf[i - 1] == 0)
    &&& (i + name.len() == buf.len() || buf[i + name.len()] == 0)
    &&& forall|k: int| 0 <= k < name.len() ==> (#[trigger] buf[i + k]) as char == name[k]
}

/// The NUL-separated list `buf` holds the attribute name `name`.
pub open spec fn lists_xattr(buf: Seq<u8>, name: Seq<char>) -> bool {
    exists|i: int| xattr_name_at(buf, i, name)
}

/// An attribute list marks a POSIX ACL when it holds the access or the default ACL attribute.
pub open spec fn spec_has_acl(buf: Seq<u8>) -> bool {
    lists_xattr(buf, "system.posix_acl_access"@) || lists_xattr(buf, "system.posix_acl_default"@)
}

fn name_at(buf: &[u8], i: usize, name: &Vec<char>) -> (r: bool)
    requires
        i + name@.len() <= buf@.len(),
    ensures
        r == xattr_name_at(buf@, i as int, name@),
{
    let n = buf.len();
    let m = name.len();
    if i > 0 && buf[i - 1] != 0 {
        return false;
    }
    if i + m < n && buf[i + m] != 0 {
        return false;
    }
    let mut k: usize = 0;
    while k < m
        invariant
            n == buf@.len(),
            m == name@.len(),
            i + m <= n,
            k <= m,
            forall|j: int| 0 <= j < k ==> (#[trigger] buf@[i + j]) as char == name@[j],
        decreases m - k,
    {
        if buf[i + k] as char != name[k] {
            return false;
        }
        k = k + 1;
    }
    true
}

fn holds_xattr(buf: &[u8], name: &Vec<char>) -> (r: bool)
    requires
        name@.len() > 0,
    ensures
        r == lists_xattr(buf@, name@),
{
    let n = buf.len();
    let m = name.len();
    if m > n {
        return false;
    }
    let mut i: usize = 0;
    while i <= n - m
        invariant
            n == buf@.len(),
            m == name@.len(),
            0 < m <= n,
            i <= n - m + 1,
            forall|j: int| 0 <= j < i ==> !xattr_name_at(buf@, j, name@),
        decreases n - i,
    {
        if name_at(buf, i, name) {
            return true;
        }
        i = i + 1;
    }
    false
}

/// Whether a list of extended attribute names (NUL-separated, as
/// `llistxattr` fills it) holds a POSIX ACL attribute.
pub fn has_acl_xattr(buf: &[u8]) -> (r: bool)
    ensures
        r == spec_has_acl(buf@),
{
    let access = chars_of("system.posix_acl_access");
    let default = chars_of("system.posix_acl_default");
    proof {
        reveal_strlit("system.posix_acl_access");
        reveal_strlit("system.posix_acl_default");
    }
    holds_xattr(buf, &access) || holds_xattr(buf, &default)
}

/// The sum of `blocks`.
pub open spec fn sum_blocks(blocks: Seq<u64>) -> nat
    decreases blocks.len(),
{
    if blocks.len() == 0 {
        0
    } else {
        sum_blocks(blocks.drop_last()) + blocks.last() as nat
    }
}

proof fn lemma_sum_prefix(blocks: Seq<u64>, k: int)
    requires
        0 <= k <= blocks.len(),
    ensures
        sum_blocks(blocks.take(k)) <= sum_blocks(blocks),
    decreases blocks.len() - k,
{
    if k < blocks.len() {
        lemma_sum_prefix(blocks, k + 1);
        assert(blocks.take(k + 1).drop_last() =~= blocks.take(k));
    } else {
        assert(blocks.take(k) =~= blocks);
    }
}

/// The `total` line of a long listing: the 512-byte blocks of the entries,
/// counted in kilobytes (halved, rounding down).
pub fn total_blocks(blocks: &[u64]) -> (r: u64)
    requires
        sum_blocks(blocks@) <= u64::MAX,
    ensures
        r == sum_blocks(blocks@) / 2,
{
    let mut total: u64 = 0;
    let mut k: usize = 0;
    while k < blocks.len()
        invariant
            k <= blocks@.len(),
            total == sum_blocks(blocks@.take(k as int)),
            sum_blocks(blocks@) <= u64::MAX,
        decreases blocks@.len() - k,
    {
        proof {
            lemma_sum_prefix(blocks@, k + 1);
            assert(blocks@.take(k + 1).drop_last() =~= blocks@.take(k as int));
        }
        total = total + blocks[k];
        k = k + 1;
    }
    assert(blocks@.take(blocks@.len() as int) =~= blocks@);
    total / 2
}

/// Names in order of their characters' code points (for UTF-8 names this is
/// the order of their bytes): a proper prefix comes first.
pub open spec fn name_lt(a: Seq<char>, b: Seq<char>) -> bool
    decreases a.len(),
{
    if a.len() == 0 {
        b.len() > 0
    } else if b.len() == 0 {
        false
    } else if a[0] != b[0] {
        a[0] < b[0]
    } else {
        name_lt(a.drop_first(), b.drop_first())
    }
}

pub proof fn lemma_name_lt_irreflexive(a: Seq<char>)
    ensures
        !name_lt(a, a),
    decreases a.len(),
{
    if a.len() > 0 {
        lemma_name_lt_irreflexive(a.drop_first());
    }
}

proof fn lemma_name_lt_transitive(a: Seq<char>, b: Seq<char>, c: Seq<char>)
    requires
        name_lt(a, b),
        name_lt(b, c),
    ensures
        name_lt(a, c),
    decreases a.len(),
{
    if a.len() > 0 && b.len() > 0 && c.len() > 0 && a[0] == b[0] && b[0] == c[0] {
        lemma_name_lt_transitive(a.drop_first(), b.drop_first(), c.drop_first());
    }
}

proof fn lemma_name_lt_total(a: Seq<char>, b: Seq<char>)
    ensures
        a == b || name_lt(a, b) || name_lt(b, a),
    decreases a.len(),
{
    if a.len() > 0 && b.len() > 0 && a[0] == b[0] {
        lemma_name_lt_total(a.drop_first(), b.drop_first());
        if a.drop_first() == b.drop_first() {
            assert(a =~= seq![a[0]] + a.drop_first());
            assert(b =~= seq![b[0]] + b.drop_first());
        }
    } else if a.len() == 0 && b.len() == 0 {
        assert(a =~= b);
    } else if a.len() > 0 && b.len() > 0 {
    }
}

fn name_less(a: &Vec<char>, b: &Vec<char>) -> (r: bool)
    ensures
        r == name_lt(a@, b@),
{
    let mut k: usize = 0;
    assert(a@.skip(0) =~= a@ && b@.skip(0) =~= b@);
    while k < a.len() && k < b.len() && a[k] == b[k]
        invariant
            k <= a@.len(),
            k <= b@.len(),
            name_lt(a@, b@) == name_lt(a@.skip(k as int), b@.skip(k as int)),
        decreases a@.len() - k,
    {
        assert(a@.skip(k as int).drop_first() =~= a@.skip(k + 1));
        assert(b@.skip(k as int).drop_first() =~= b@.skip(k + 1));
        k = k + 1;
    }
    if k == a.len() {
        k < b.len()
    } else if k == b.len() {
        false
    } else {
        assert(a@.skip(k as int)[0] == a@[k as int]);
        assert(b@.skip(k as int)[0] == b@[k as int]);
        a[k] < b[k]
    }
}

/// `ls` hides names that start with a dot unless `-a` is given.
pub open spec fn shown(name: Seq<char>, all: bool) -> bool {
    all || !(name.len() > 0 && name[0] == '.')
}

/// Entry `x` of `names` is listed before entry `y`: by name, and by position
/// among equal names.
pub open spec fn listed_before(names: Seq<Seq<char>>, x: int, y: int) -> bool {
    name_lt(names[x], names[y]) || (names[x] == names[y] && x < y)
}

/// `order` lists positions of `names` strictly in listing order.
pub open spec fn in_listing_order(names: Seq<Seq<char>>, order: Seq<usize>) -> bool {
    forall|a: int, b: int|
        0 <= a < b < order.len() ==> listed_before(names, #[trigger] order[a] as int, #[trigger] order[b] as int)
}

proof fn lemma_listed_before_transitive(names: Seq<Seq<char>>, x: int, y: int, z: int)
    requires
        listed_before(names, x, y),
        listed_before(names, y, z),
    ensures
        listed_before(names, x, z),
{
    if name_lt(names[x], names[y]) && name_lt(names[y], names[z]) {
        lemma_name_lt_transitive(names[x], names[y], names[z]);
    }
}

/// The order in which `ls` lists the entries of a directory: the positions
/// in `names` of the entries shown (all of them with `-a`, else those not
/// starting with a dot), sorted by name, entries of equal names keeping
/// their relative order.
pub fn listing_order(names: &Vec<String>, all: bool) -> (r: Vec<usize>)
    ensures
        forall|j: int| 0 <= j < r@.len() ==> (#[trigger] r@[j]) < names@.len(),
        forall|i: int| 0 <= i < names@.len() ==> (r@.contains(i as usize) <==> shown(#[trigger] names@[i]@, all)),
        in_listing_order(views_of(names@), r@),
{
    let ghost ns = views_of(names@);
    let n = names.len();
    let mut keys: Vec<Vec<char>> = Vec::new();
    let mut i: usize = 0;
    while i < n
        invariant
            n == names@.len(),
            ns == views_of(names@),
            i <= n,
            keys@.len() == i,
            forall|j: int| 0 <= j < i ==> (#[trigger] keys@[j])@ == ns[j],
        decreases n - i,
    {
        keys.push(chars_of(names[i].as_str()));
        i = i + 1;
    }
    let mut order: Vec<usize> = Vec::new();
    let mut i: usize = 0;
    while i < n
        invariant
            n == names@.len(),
            ns == views_of(names@),
            ns.len() == n,
            keys@.len() == n,
            forall|j: int| 0 <= j < n ==> (#[trigger] keys@[j])@ == ns[j],
            i <= n,
            forall|j: int| 0 <= j < order@.len() ==> (#[trigger] order@[j]) < i,
            forall|j: int| 0 <= j < n ==> (order@.contains(j as usize) <==> (j < i && shown(#[trigger] ns[j], all))),
            in_listing_order(ns, order@),
        decreases n - i,
    {
        let key = &keys[i];
        let hidden = !all && key.len() > 0 && key[0] == '.';
        assert(hidden == !shown(ns[i as int], all));
        if !hidden {
            let mut p: usize = 0;
            while p < order.len() && !name_less(key, &keys[order[p]])
                invariant
                    p <= order@.len(),
                    forall|j: int| 0 <= j < order@.len() ==> (#[trigger] order@[j]) < i,
                    i < n,
                    keys@.len() == n,
                    forall|j: int| 0 <= j < n ==> (#[trigger] keys@[j])@ == ns[j],
                    *key == keys@[i as int],
                    forall|j: int| 0 <= j < p ==> !name_lt(ns[i as int], ns[#[trigger] order@[j] as int]),
                decreases order@.len() - p,
            {
                p = p + 1;
            }
            let ghost old_order = order@;
            order.insert(p, i);
            proof {
                assert(order@ == old_order.insert(p as int, i));
                assert(order@[p as int] == i);
                assert forall|a: int, b: int| 0 <= a < b < order@.len() implies listed_before(ns, #[trigger] order@[a] as int, #[trigger] order@[b] as int) by {
                    let x = order@[a] as int;
                    let y = order@[b] as int;
                    if b < p {
                        assert(x == old_order[a] && y == old_order[b]);
                    } else if a > p {
                        assert(x == old_order[a - 1] && y == old_order[b - 1]);
                    } else if a == p {
                        // the new entry comes before everything after it
                        assert(x == i);
                        assert(y == old_order[b - 1]);
                        let q = p as int;
                        assert(name_lt(ns[i as int], ns[old_order[q] as int]));
                        if b - 1 == q {
                        } else {
                            assert(listed_before(ns, old_order[q] as int, old_order[b - 1] as int));
                            lemma_name_lt_total(ns[old_order[q] as int], ns[old_order[b - 1] as int]);
                            if name_lt(ns[old_order[q] as int], ns[old_order[b - 1] as int]) {
                                lemma_name_lt_transitive(ns[i as int], ns[old_order[q] as int], ns[old_order[b - 1] as int]);
                            }
                        }
                    } else if a < p && b > p {
                        assert(x == old_order[a] && y == old_order[b - 1]);
                    } else {
                        // b == p: everything before the new entry comes before it
                        assert(y == i);
                        assert(x == old_order[a]);
                        assert(!name_lt(ns[i as int], ns[x]));
                        lemma_name_lt_total(ns[i as int], ns[x]);
                    }
                }
                assert forall|j: int| 0 <= j < n implies (order@.contains(j as usize) <==> (j < i + 1 && shown(#[trigger] ns[j], all))) by {
                    if j == i {
                        assert(order@[p as int] == i);
                    }
                    if old_order.contains(j as usize) {
                        let w = choose|w: int| 0 <= w < old_order.len() && old_order[w] == j as usize;
                        if w < p { assert(order@[w] == j as usize); } else { assert(order@[w + 1] == j as usize); }
                    }
                    if order@.contains(j as usize) && j != i {
                        let w = choose|w: int| 0 <= w < order@.len() && order@[w] == j as usize;
                        if w < p { assert(old_order[w] == j as usize); } else if w > p { assert(old_order[w - 1] == j as usize); }
                    }
                }
            }
        } else {
            proof {
                assert forall|j: int| 0 <= j < n implies (order@.contains(j as usize) <==> (j < i + 1 && shown(#[trigger] ns[j], all))) by {
                    if j == i && order@.contains(j as usize) {
                        let w = choose|w: int| 0 <= w < order@.len() && order@[w] == j as usize;
                        assert(order@[w] < i);
                    }
                }
            }
        }
        i = i + 1;
    }
    assert forall|j: int| 0 <= j < names@.len() implies (order@.contains(j as usize) <==> shown(#[trigger] names@[j]@, all)) by {
        assert(ns[j] == names@[j]@);
    }
    order
}

/// A file that anyone may execute: not a directory, link, FIFO or socket,
/// with an execute bit set (what `-F` marks with `*`).
pub open spec fn is_executable(kind: FileKind, mode: u32) -> bool {
    kind != FileKind::Directory && kind != FileKind::Symlink && kind != FileKind::Fifo
        && kind != FileKind::Socket && mode & 0o111 != 0
}

/// The colour in which a name is shown: bold blue for a directory, bold cyan
/// for a symbolic link, bold green for an executable file, none otherwise.
pub open spec fn name_color(kind: FileKind, mode: u32) -> Option<Seq<char>> {
    if kind == FileKind::Directory {
        Some("\u{1b}[1;34m"@)
    } else if kind == FileKind::Symlink {
        Some("\u{1b}[1;36m"@)
    } else if is_executable(kind, mode) {
        Some("\u{1b}[1;32m"@)
    } else {
        None
    }
}

/// `name` in the colour of its kind, the colour closed by `ESC [0m`.
pub open spec fn spec_colored(name: Seq<char>, kind: FileKind, mode: u32) -> Seq<char> {
    match name_color(kind, mode) {
        Some(c) => c + name + "\u{1b}[0m"@,
        None => name,
    }
}

/// Shows `name` in the colour of an entry of kind `kind` and mode `mode`.
pub fn colored_name(name: &str, kind: FileKind, mode: u32) -> (r: String)
    ensures
        r@ == spec_colored(name@, kind, mode),
{
    let color = if kind == FileKind::Directory {
        Some("\u{1b}[1;34m")
    } else if kind == FileKind::Symlink {
        Some("\u{1b}[1;36m")
    } else if kind != FileKind::Fifo && kind != FileKind::Socket && mode & 0o111 != 0 {
        Some("\u{1b}[1;32m")
    } else {
        None
    };
    match color {
        Some(c) => {
            let mut r = String::from_str(c);
            r.append(name);
            r.append("\u{1b}[0m");
            r
        },
        None => String::from_str(name),
    }
}

/// How an entry's name is shown: escaped and coloured by its kind, then for
/// a symbolic link whose target is shown, `name -> target` with the target's
/// mark; otherwise the name with its own mark when classifying.
pub open spec fn spec_entry_display(
    name: Seq<char>,
    kind: FileKind,
    mode: u32,
    show_target: bool,
    classify: bool,
    target: Option<Seq<char>>,
    target_kind: Option<(FileKind, u32)>,
) -> Seq<char> {
    let base = spec_colored(spec_escape_leading_special(name), kind, mode);
    if show_target && kind == FileKind::Symlink {
        base + " -> "@ + (match target {
            Some(t) => t,
            None => "?"@,
        }) + (match (classify, target_kind) {
            (true, Some((k, m))) => spec_classification_suffix(k, m),
            _ => ""@,
        })
    } else if classify {
        base + spec_classification_suffix(kind, mode)
    } else {
        base
    }
}

/// The shown name of an entry of kind `kind` and mode `mode`, coloured by
/// its kind (directories, symbolic links and executables). Symbolic links
/// show their target (`target`, whose own kind and mode are `target_kind`)
/// when `show_target` is set, as in long listings and for a link named on
/// the command line.
pub fn entry_display(
    name: &str,
    kind: FileKind,
    mode: u32,
    show_target: bool,
    classify: bool,
    target: Option<&str>,
    target_kind: Option<(FileKind, u32)>,
) -> (r: String)
    ensures
        r@ == spec_entry_display(
            name@,
            kind,
            mode,
            show_target,
            classify,
            match target {
                Some(t) => Some(t@),
                None => None,
            },
            target_kind,
        ),
{
    let escaped = escape_leading_special(name);
    let base = colored_name(escaped.as_str(), kind, mode);
    if show_target && kind == FileKind::Symlink {
        decorate_symlink_long(base.as_str(), target, target_kind, classify)
    } else {
        decorate_entry(base.as_str(), kind, mode, classify)
    }
}

/// The name under which `ls` shows a path given on its command line: its
/// last component, or the whole path when that names nothing.
pub fn entry_name(path: &str) -> (r: String)
    ensures
        r@ == match spec_file_name(path@) {
            Some(n) => n,
            None => path@,
        },
{
    match file_name(path) {
        Some(n) => n,
        None => String::from_str(path),
    }
}

/// A short listing: the shown names separated by two spaces.
pub fn short_listing(names: &Vec<String>) -> (r: String)
    ensures
        r@ == crate::fmt::join_with(views_of(names@), "  "@),
{
    let v = crate::fmt::join_strings(names, "  ");
    string_of(v.as_slice())
}

/// The owner or group column: the name found for the id, or the id in
/// decimal when none was found.
pub fn owner_name(found: Option<&str>, id: u32) -> (r: String)
    ensures
        r@ == match found {
            Some(n) => n@,
            None => decimal(id as nat),
        },
{
    match found {
        Some(n) => String::from_str(n),
        None => string_of(decimal_chars(id as u64).as_slice()),
    }
}

} // verus!
