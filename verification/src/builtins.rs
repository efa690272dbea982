//! The computing part of the built-in commands other than `ls`: reading
//! their arguments, and the text they print.
use vstd::prelude::*;
use crate::fmt::{decimal, decimal_chars, join_strings, join_with, pad_left, pad_right, padded_left, padded_right, push_all};
use crate::options::{spec_split_options, split_options};
use crate::paths::{file_name, join_path, spec_file_name, spec_join};
use crate::text::{chars_eq, chars_of, push_char, string_of, views_of};

verus! {

/// `args` without the arguments equal to `w`, in order.
pub open spec fn without_word(args: Seq<Seq<char>>, w: Seq<char>) -> Seq<Seq<char>>
    decreases args.len(),
{
    if args.len() == 0 {
        Seq::empty()
    } else if args.last() == w {
        without_word(args.drop_last(), w)
    } else {
        without_word(args.drop_last(), w).push(args.last())
    }
}

/// Separates the arguments equal to the flag `flag` from the others: tells
/// whether the flag occurs and returns the others in order.
fn take_flag(args: &[String], flag: &[char]) -> (r: (bool, Vec<String>))
    ensures
        r.0 == views_of(args@).contains(flag@),
        views_of(r.1@) == without_word(views_of(args@), flag@),
{
    let ghost a = views_of(args@);
    let mut found = false;
    let mut rest: Vec<String> = Vec::new();
    let mut k: usize = 0;
    assert(views_of(rest@) =~= Seq::<Seq<char>>::empty());
    assert(a.take(0) =~= Seq::<Seq<char>>::empty());
    while k < args.len()
        invariant
            k <= args@.len(),
            a == views_of(args@),
            found == (exists|j: int| 0 <= j < k && #[trigger] a[j] == flag@),
            views_of(rest@) == without_word(a.take(k as int), flag@),
        decreases args@.len() - k,
    {
        let w = chars_of(args[k].as_str());
        let is_flag = chars_eq(w.as_slice(), flag);
        assert(a.take(k + 1).drop_last() =~= a.take(k as int));
        assert(a.take(k + 1).last() == a[k as int]);
        if is_flag {
            found = true;
        } else {
            let ghost before = views_of(rest@);
            rest.push(args[k].clone());
            assert(views_of(rest@) =~= before.push(a[k as int]));
        }
        k = k + 1;
    }
    assert(a.take(args@.len() as int) =~= a);
    assert(found == a.contains(flag@));
    (found, rest)
}

/// Where `cat` reads from.
#[derive(Debug)]
pub enum CatSource {
    /// Standard input (no file arguments at all, or the argument `-`).
    Stdin,
    /// The named file.
    File(String),
}

/// What `cat` does: whether it numbers lines, and the sources in order.
pub open spec fn cat_sources_match(sources: Seq<CatSource>, files: Seq<Seq<char>>) -> bool {
    &&& sources.len() == files.len()
    &&& forall|k: int| 0 <= k < files.len() ==> match #[trigger] sources[k] {
        CatSource::Stdin => files[k] == "-"@,
        CatSource::File(f) => f@ == files[k] && files[k] != "-"@,
    }
}

/// Reads the arguments of `cat`: `-n` (anywhere) asks for numbered lines;
/// every other argument is a source, `-` meaning standard input. With no
/// argument at all, `cat` copies standard input without numbers.
pub fn cat_plan(args: &[String]) -> (r: (bool, Vec<CatSource>))
    ensures
        args@.len() == 0 ==> !r.0 && r.1@.len() == 1 && r.1@[0] is Stdin,
        args@.len() > 0 ==> {
            &&& r.0 == views_of(args@).contains("-n"@)
            &&& cat_sources_match(r.1@, without_word(views_of(args@), "-n"@))
        },
{
    if args.len() == 0 {
        let mut v: Vec<CatSource> = Vec::new();
        v.push(CatSource::Stdin);
        return (false, v);
    }
    let flag = chars_of("-n");
    let (number, files) = take_flag(args, flag.as_slice());
    let ghost fs = views_of(files@);
    let dash = chars_of("-");
    let mut sources: Vec<CatSource> = Vec::new();
    let mut k: usize = 0;
    while k < files.len()
        invariant
            k <= files@.len(),
            fs == views_of(files@),
            dash@ == "-"@,
            sources@.len() == k,
            forall|j: int| 0 <= j < k ==> match #[trigger] sources@[j] {
                CatSource::Stdin => fs[j] == "-"@,
                CatSource::File(f) => f@ == fs[j] && fs[j] != "-"@,
            },
        decreases files@.len() - k,
    {
        let w = chars_of(files[k].as_str());
        if chars_eq(w.as_slice(), dash.as_slice()) {
            sources.push(CatSource::Stdin);
        } else {
            sources.push(CatSource::File(files[k].clone()));
        }
        k = k + 1;
    }
    (number, sources)
}

/// A line as `cat -n` prints it: its number right-aligned to 6, a tab, the line.
pub open spec fn spec_numbered_line(n: u64, line: Seq<char>) -> Seq<char> {
    pad_left(decimal(n as nat), 6) + seq!['\t'] + line
}

/// Formats line number `n` in front of `line`.
pub fn numbered_line(n: u64, line: &str) -> (r: String)
    ensures
        r@ == spec_numbered_line(n, line@),
{
    let mut v = padded_left(decimal_chars(n).as_slice(), 6);
    v.push('\t');
    push_all(&mut v, chars_of(line).as_slice());
    string_of(v.as_slice())
}

/// The lines of a text, as `str::lines` gives them, from position `i` on:
/// a line ends at `\n`, which is dropped together with a `\r` just before
/// it; a last line without `\n` counts only if it is not empty.
pub open spec fn lines_from(s: Seq<char>, i: int, done: Seq<Seq<char>>, cur: Seq<char>) -> Seq<Seq<char>>
    decreases s.len() - i,
{
    if i < 0 || i >= s.len() {
        if cur.len() > 0 { done.push(cur) } else { done }
    } else if s[i] == '\n' {
        lines_from(s, i + 1, done.push(if cur.len() > 0 && cur.last() == '\r' { cur.drop_last() } else { cur }), Seq::empty())
    } else {
        lines_from(s, i + 1, done, cur.push(s[i]))
    }
}

pub open spec fn spec_lines(s: Seq<char>) -> Seq<Seq<char>> {
    lines_from(s, 0, Seq::empty(), Seq::empty())
}

/// Splits a text into its lines.
pub fn text_lines(text: &str) -> (r: Vec<String>)
    ensures
        views_of(r@) == spec_lines(text@),
{
    let s = chars_of(text);
    let n = s.len();
    let mut done: Vec<String> = Vec::new();
    let mut cur: Vec<char> = Vec::new();
    let mut i: usize = 0;
    assert(views_of(done@) =~= Seq::<Seq<char>>::empty());
    while i < n
        invariant
            n == s@.len(),
            i <= n,
            spec_lines(s@) == lines_from(s@, i as int, views_of(done@), cur@),
        decreases n - i,
    {
        if s[i] == '\n' {
            if cur.len() > 0 && cur[cur.len() - 1] == '\r' {
                cur.pop();
            }
            let ghost before = views_of(done@);
            let ghost line = cur@;
            done.push(string_of(cur.as_slice()));
            assert(views_of(done@) =~= before.push(line));
            cur = Vec::new();
        } else {
            cur.push(s[i]);
        }
        i = i + 1;
    }
    if cur.len() > 0 {
        let ghost before = views_of(done@);
        done.push(string_of(cur.as_slice()));
        assert(views_of(done@) =~= before.push(cur@));
    }
    done
}

/// Several error messages reported at once, one per line.
pub fn join_errors(errors: &Vec<String>) -> (r: String)
    ensures
        r@ == join_with(views_of(errors@), "\n"@),
{
    let v = join_strings(errors, "\n");
    string_of(v.as_slice())
}

/// What `echo` prints: the arguments joined by spaces, and whether a newline
/// follows. A first argument `-n` is not printed and drops the newline.
pub fn echo_output(args: &[String]) -> (r: (String, bool))
    ensures
        args@.len() > 0 && args@[0]@ == "-n"@ ==> r.0@ == join_with(views_of(args@).drop_first(), " "@) && !r.1,
        !(args@.len() > 0 && args@[0]@ == "-n"@) ==> r.0@ == join_with(views_of(args@), " "@) && r.1,
{
    let flag = chars_of("-n");
    let mut all: Vec<String> = Vec::new();
    let mut k: usize = 0;
    while k < args.len()
        invariant
            k <= args@.len(),
            all@ == args@.take(k as int),
        decreases args@.len() - k,
    {
        all.push(args[k].clone());
        assert(all@ =~= args@.take(k + 1));
        k = k + 1;
    }
    assert(all@ =~= args@);
    if args.len() > 0 && chars_eq(chars_of(args[0].as_str()).as_slice(), flag.as_slice()) {
        all.remove(0);
        assert(views_of(all@) =~= views_of(args@).drop_first());
        let v = join_strings(&all, " ");
        (string_of(v.as_slice()), false)
    } else {
        let v = join_strings(&all, " ");
        (string_of(v.as_slice()), true)
    }
}

/// The characters of an optional string.
pub open spec fn opt_view(s: Option<&str>) -> Option<Seq<char>> {
    match s {
        Some(t) => Some(t@),
        None => None,
    }
}

/// The home directory, or `/` when `HOME` is not set.
pub open spec fn home_or_root(home: Option<Seq<char>>) -> Seq<char> {
    match home {
        Some(h) => h,
        None => "/"@,
    }
}

/// Where `cd` goes: home without an argument or with `~`, home followed by
/// the rest of an argument starting with `~/`, the previous directory for
/// `-` (an error when there is none), and the argument itself otherwise.
pub open spec fn spec_cd_target(
    arg: Option<Seq<char>>,
    oldpwd: Option<Seq<char>>,
    home: Option<Seq<char>>,
) -> Result<Seq<char>, Seq<char>> {
    match arg {
        None => Ok(home_or_root(home)),
        Some(a) => if a == "-"@ {
            match oldpwd {
                Some(o) => Ok(o),
                None => Err("cd: OLDPWD not set"@),
            }
        } else if a == "~"@ {
            Ok(home_or_root(home))
        } else if a.len() >= 2 && a[0] == '~' && a[1] == '/' {
            Ok(home_or_root(home) + a.drop_first())
        } else {
            Ok(a)
        },
    }
}

/// Works out the directory `cd` changes to, given its first argument and the
/// values of `OLDPWD` and `HOME`; also tells whether `cd` then prints the new
/// directory (it does for `cd -`).
pub fn cd_target(arg: Option<&str>, oldpwd: Option<&str>, home: Option<&str>) -> (r: Result<(String, bool), String>)
    ensures
        match spec_cd_target(opt_view(arg), opt_view(oldpwd), opt_view(home)) {
            Ok(t) => r matches Ok((d, announce)) && d@ == t && announce == (opt_view(arg) == Some("-"@)),
            Err(e) => r matches Err(m) && m@ == e,
        },
{
    let home_dir = match home {
        Some(h) => chars_of(h),
        None => chars_of("/"),
    };
    match arg {
        None => Ok((string_of(home_dir.as_slice()), false)),
        Some(a) => {
            let s = chars_of(a);
            if chars_eq(s.as_slice(), chars_of("-").as_slice()) {
                match oldpwd {
                    Some(o) => Ok((String::from_str(o), true)),
                    None => Err(String::from_str("cd: OLDPWD not set")),
                }
            } else if chars_eq(s.as_slice(), chars_of("~").as_slice()) {
                Ok((string_of(home_dir.as_slice()), false))
            } else if s.len() >= 2 && s[0] == '~' && s[1] == '/' {
                let mut v = home_dir;
                let mut k: usize = 1;
                let ghost base = v@;
                while k < s.len()
                    invariant
                        1 <= k <= s@.len(),
                        v@ =~= base + s@.subrange(1, k as int),
                    decreases s@.len() - k,
                {
                    v.push(s[k]);
                    k = k + 1;
                }
                assert(s@.subrange(1, s@.len() as int) =~= s@.drop_first());
                Ok((string_of(v.as_slice()), false))
            } else {
                Ok((String::from_str(a), false))
            }
        },
    }
}

/// Whether `c` is among `letters`.
fn has_letter(letters: &Vec<char>, c: char) -> (r: bool)
    ensures
        r == letters@.contains(c),
{
    let mut k: usize = 0;
    while k < letters.len()
        invariant
            k <= letters@.len(),
            forall|j: int| 0 <= j < k ==> letters@[j] != c,
        decreases letters@.len() - k,
    {
        if letters[k] == c {
            assert(letters@[k as int] == c);
            return true;
        }
        k = k + 1;
    }
    false
}

/// The message of an unknown option letter `c` of a command, such as
/// `cp: invalid option: -x`.
fn invalid_option(prefix: &str, c: char) -> (r: String)
    ensures
        r@ == prefix@.push(c),
{
    let mut e = String::from_str(prefix);
    push_char(&mut e, c);
    e
}

/// What `cp` copies: whether recursively, the sources, and the destination.
pub struct CpPlan {
    pub recursive: bool,
    pub sources: Vec<String>,
    pub dest: String,
}

/// Reads the arguments of `cp`: option words of the letters `r`/`R`
/// (recursive), then at least two operands, the last being the destination.
pub fn cp_plan(args: &[String]) -> (r: Result<CpPlan, String>)
    ensures
        args@.len() < 2 ==> (r matches Err(e) && e@ == "cp: missing destination operand"@),
        args@.len() >= 2 ==> match spec_split_options(views_of(args@), seq!['r', 'R']) {
            Err(c) => r matches Err(e) && e@ == "cp: invalid option: -"@.push(c),
            Ok((letters, ops)) => if ops.len() < 2 {
                r matches Err(e) && e@ == "cp: missing destination operand"@
            } else {
                r matches Ok(p) && {
                    &&& p.recursive == (letters.contains('r') || letters.contains('R'))
                    &&& views_of(p.sources@) == ops.drop_last()
                    &&& p.dest@ == ops.last()
                }
            },
        },
{
    if args.len() < 2 {
        return Err(String::from_str("cp: missing destination operand"));
    }
    match split_options(args, &['r', 'R']) {
        Err(c) => Err(invalid_option("cp: invalid option: -", c)),
        Ok((letters, mut ops)) => {
            if ops.len() < 2 {
                return Err(String::from_str("cp: missing destination operand"));
            }
            let ghost all = views_of(ops@);
            let dest = ops.pop().unwrap();
            assert(views_of(ops@) =~= all.drop_last());
            Ok(CpPlan {
                recursive: has_letter(&letters, 'r') || has_letter(&letters, 'R'),
                sources: ops,
                dest,
            })
        },
    }
}

/// What `rm` removes, and how.
pub struct RmPlan {
    pub recursive: bool,
    pub force: bool,
    pub targets: Vec<String>,
}

/// Reads the arguments of `rm`: option words of the letters `r`/`R`
/// (recursive) and `f` (force), and at least one target.
pub fn rm_plan(args: &[String]) -> (r: Result<RmPlan, String>)
    ensures
        args@.len() == 0 ==> (r matches Err(e) && e@ == "rm: missing operand"@),
        args@.len() > 0 ==> match spec_split_options(views_of(args@), seq!['r', 'R', 'f']) {
            Err(c) => r matches Err(e) && e@ == "rm: invalid option: -"@.push(c),
            Ok((letters, ops)) => if ops.len() == 0 {
                r matches Err(e) && e@ == "rm: missing operand"@
            } else {
                r matches Ok(p) && {
                    &&& p.recursive == (letters.contains('r') || letters.contains('R'))
                    &&& p.force == letters.contains('f')
                    &&& views_of(p.targets@) == ops
                }
            },
        },
{
    if args.len() == 0 {
        return Err(String::from_str("rm: missing operand"));
    }
    match split_options(args, &['r', 'R', 'f']) {
        Err(c) => Err(invalid_option("rm: invalid option: -", c)),
        Ok((letters, ops)) => {
            if ops.len() == 0 {
                return Err(String::from_str("rm: missing operand"));
            }
            Ok(RmPlan {
                recursive: has_letter(&letters, 'r') || has_letter(&letters, 'R'),
                force: has_letter(&letters, 'f'),
                targets: ops,
            })
        },
    }
}

/// What `mkdir` creates, and whether with its parents.
pub struct MkdirPlan {
    pub parents: bool,
    pub dirs: Vec<String>,
}

/// Reads the arguments of `mkdir`: `-p` (anywhere) creates missing parents;
/// every other argument is a directory to create, and there must be one.
pub fn mkdir_plan(args: &[String]) -> (r: Result<MkdirPlan, String>)
    ensures
        r is Err <==> (args@.len() == 0 || without_word(views_of(args@), "-p"@).len() == 0),
        r matches Err(e) ==> e@ == "mkdir: missing operand"@,
        r matches Ok(p) ==> {
            &&& p.parents == views_of(args@).contains("-p"@)
            &&& views_of(p.dirs@) == without_word(views_of(args@), "-p"@)
        },
{
    if args.len() == 0 {
        return Err(String::from_str("mkdir: missing operand"));
    }
    let flag = chars_of("-p");
    let (parents, dirs) = take_flag(args, flag.as_slice());
    if dirs.len() == 0 {
        return Err(String::from_str("mkdir: missing operand"));
    }
    Ok(MkdirPlan { parents, dirs })
}

/// What `mv` moves, and where.
pub struct MvPlan {
    pub sources: Vec<String>,
    pub dest: String,
}

/// Reads the arguments of `mv`: at least two, the last being the destination.
pub fn mv_plan(args: &[String]) -> (r: Result<MvPlan, String>)
    ensures
        r is Err <==> args@.len() < 2,
        r matches Err(e) ==> e@ == "mv: missing destination operand"@,
        r matches Ok(p) ==> {
            &&& views_of(p.sources@) == views_of(args@).drop_last()
            &&& p.dest@ == args@.last()@
        },
{
    if args.len() < 2 {
        return Err(String::from_str("mv: missing destination operand"));
    }
    let mut sources: Vec<String> = Vec::new();
    let last = args.len() - 1;
    let mut k: usize = 0;
    while k < last
        invariant
            args@.len() >= 2,
            last == args@.len() - 1,
            k <= last,
            views_of(sources@) =~= views_of(args@).take(k as int),
        decreases last - k,
    {
        let ghost before = views_of(sources@);
        sources.push(args[k].clone());
        assert(views_of(sources@) =~= before.push(args@[k as int]@));
        k = k + 1;
    }
    assert(views_of(args@).take(k as int) =~= views_of(args@).drop_last());
    Ok(MvPlan { sources, dest: args[args.len() - 1].clone() })
}

/// One line of the help text: the command column in bold green, padded to
/// 38 characters, then the description.
pub open spec fn spec_help_line(cmd: Seq<char>, desc: Seq<char>) -> Seq<char> {
    "  \u{1b}[1;32m"@ + pad_right(cmd, 38) + "\u{1b}[0m "@ + desc
}

/// Formats one line of the help text.
pub fn help_line(cmd: &str, desc: &str) -> (r: String)
    ensures
        r@ == spec_help_line(cmd@, desc@),
{
    let mut v = chars_of("  \u{1b}[1;32m");
    push_all(&mut v, padded_right(chars_of(cmd).as_slice(), 38).as_slice());
    push_all(&mut v, chars_of("\u{1b}[0m ").as_slice());
    push_all(&mut v, chars_of(desc).as_slice());
    string_of(v.as_slice())
}

/// The three texts written one after another.
fn concat3(a: &str, b: &str, c: &str) -> (r: String)
    ensures
        r@ == a@ + b@ + c@,
{
    let mut v = chars_of(a);
    push_all(&mut v, chars_of(b).as_slice());
    push_all(&mut v, chars_of(c).as_slice());
    string_of(v.as_slice())
}

/// Copying or moving several sources needs a directory to put them in.
pub fn target_check(command: &str, source_count: usize, dest: &str, dest_is_dir: bool) -> (r: Result<(), String>)
    ensures
        r is Err <==> (source_count > 1 && !dest_is_dir),
        r matches Err(e) ==> e@ == command@ + ": target '"@ + dest@ + "' is not a directory"@,
{
    if source_count > 1 && !dest_is_dir {
        let mut v = chars_of(command);
        push_all(&mut v, chars_of(": target '").as_slice());
        push_all(&mut v, chars_of(dest).as_slice());
        push_all(&mut v, chars_of("' is not a directory").as_slice());
        Err(string_of(v.as_slice()))
    } else {
        Ok(())
    }
}

/// Where a source goes: into the destination directory under its own name,
/// or to the destination itself when that is not a directory. `None` when
/// the destination is a directory and the source has no name (such as `/` or `..`).
pub open spec fn spec_destination(src: Seq<char>, dest: Seq<char>, dest_is_dir: bool) -> Option<Seq<char>> {
    if dest_is_dir {
        match spec_file_name(src) {
            Some(n) => Some(spec_join(dest, n)),
            None => None,
        }
    } else {
        Some(dest)
    }
}

fn destination(src: &str, dest: &str, dest_is_dir: bool) -> (r: Option<String>)
    ensures
        match spec_destination(src@, dest@, dest_is_dir) {
            Some(d) => r matches Some(t) && t@ == d,
            None => r is None,
        },
{
    if dest_is_dir {
        match file_name(src) {
            Some(n) => Some(join_path(dest, n.as_str())),
            None => None,
        }
    } else {
        Some(String::from_str(dest))
    }
}

/// What `cp` does with one source.
#[derive(Debug)]
pub enum CopyAction {
    /// Copy the directory tree to this path.
    CopyDir(String),
    /// Copy the file to this path.
    CopyFile(String),
}

/// Decides what `cp` does with the source `src`, given what the file system
/// says of it and of the destination: a missing source, a source without a
/// name going into a directory, and a directory without `-r` are errors.
pub fn cp_source_action(
    src: &str,
    dest: &str,
    src_exists: bool,
    src_is_dir: bool,
    dest_is_dir: bool,
    recursive: bool,
) -> (r: Result<CopyAction, String>)
    ensures
        !src_exists ==> (r matches Err(e) && e@ == "cp: "@ + src@ + ": No such file or directory"@),
        src_exists && spec_destination(src@, dest@, dest_is_dir) is None ==> (r matches Err(e) && e@
            == "cp: "@ + src@ + ": invalid path"@),
        src_exists && spec_destination(src@, dest@, dest_is_dir) is Some ==> {
            let d = spec_destination(src@, dest@, dest_is_dir).unwrap();
            if src_is_dir {
                if recursive {
                    r matches Ok(CopyAction::CopyDir(t)) && t@ == d
                } else {
                    r matches Err(e) && e@ == "cp: "@ + src@ + ": is a directory (use -r to copy)"@
                }
            } else {
                r matches Ok(CopyAction::CopyFile(t)) && t@ == d
            }
        },
{
    if !src_exists {
        return Err(concat3("cp: ", src, ": No such file or directory"));
    }
    let target = match destination(src, dest, dest_is_dir) {
        Some(t) => t,
        None => {
            return Err(concat3("cp: ", src, ": invalid path"));
        },
    };
    if src_is_dir {
        if !recursive {
            return Err(concat3("cp: ", src, ": is a directory (use -r to copy)"));
        }
        Ok(CopyAction::CopyDir(target))
    } else {
        Ok(CopyAction::CopyFile(target))
    }
}

/// Decides where `mv` moves the source `src`: a missing source and a source
/// without a name going into a directory are errors.
pub fn mv_destination(src: &str, dest: &str, src_exists: bool, dest_is_dir: bool) -> (r: Result<String, String>)
    ensures
        !src_exists ==> (r matches Err(e) && e@ == "mv: "@ + src@ + ": No such file or directory"@),
        src_exists ==> match spec_destination(src@, dest@, dest_is_dir) {
            Some(d) => r matches Ok(t) && t@ == d,
            None => r matches Err(e) && e@ == "mv: "@ + src@ + ": invalid path"@,
        },
{
    if !src_exists {
        return Err(concat3("mv: ", src, ": No such file or directory"));
    }
    match destination(src, dest, dest_is_dir) {
        Some(t) => Ok(t),
        None => Err(concat3("mv: ", src, ": invalid path")),
    }
}

/// What `rm` does with one target.
#[derive(Debug)]
pub enum RmAction {
    /// Nothing: a missing target under `-f`.
    Skip,
    /// Remove the directory tree.
    RemoveDir,
    /// Remove the file.
    RemoveFile,
    /// Report this error and go on with the next target.
    Refuse(String),
}

/// Decides what `rm` does with `target`, given what the file system says of
/// it: a missing target is skipped under `-f` and an error otherwise; a
/// directory needs `-r` and must not hold the current directory.
pub fn rm_target_action(
    target: &str,
    exists: bool,
    is_dir: bool,
    recursive: bool,
    force: bool,
    holds_cwd: bool,
) -> (r: RmAction)
    ensures
        !exists && force ==> r is Skip,
        !exists && !force ==> (r matches RmAction::Refuse(e) && e@ == "rm: "@ + target@ + ": No such file or directory"@),
        exists && is_dir && !recursive ==> (r matches RmAction::Refuse(e) && e@ == "rm: "@ + target@
            + ": is a directory (use -r to remove)"@),
        exists && is_dir && recursive && holds_cwd ==> (r matches RmAction::Refuse(e) && e@
            == "rm: cannot remove '"@ + target@ + "': current directory or parent"@),
        exists && is_dir && recursive && !holds_cwd ==> r is RemoveDir,
        exists && !is_dir ==> r is RemoveFile,
{
    if !exists {
        if force {
            return RmAction::Skip;
        }
        return RmAction::Refuse(concat3("rm: ", target, ": No such file or directory"));
    }
    if is_dir {
        if !recursive {
            return RmAction::Refuse(concat3("rm: ", target, ": is a directory (use -r to remove)"));
        }
        if holds_cwd {
            return RmAction::Refuse(concat3("rm: cannot remove '", target, "': current directory or parent"));
        }
        RmAction::RemoveDir
    } else {
        RmAction::RemoveFile
    }
}

} // verus!
