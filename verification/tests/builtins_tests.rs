use zero_shell::builtins::{
    cat_plan, cd_target, cp_plan, cp_source_action, echo_output, help_line, join_errors, mkdir_plan,
    mv_destination, mv_plan, numbered_line, rm_plan, rm_target_action, target_check, text_lines,
    CatSource, CopyAction, RmAction,
};
use zero_shell::paths::{file_name, join_path, path_starts_with};

fn strings(v: &[&str]) -> Vec<String> {
    v.iter().map(|s| s.to_string()).collect()
}

#[test]
fn cat_without_arguments_reads_stdin() {
    let (number, sources) = cat_plan(&[]);
    assert!(!number);
    assert_eq!(sources.len(), 1);
    assert!(matches!(sources[0], CatSource::Stdin));
}

#[test]
fn cat_numbering_and_sources() {
    let (number, sources) = cat_plan(&strings(&["a", "-n", "-", "b"]));
    assert!(number);
    assert_eq!(sources.len(), 3);
    assert!(matches!(&sources[0], CatSource::File(f) if f == "a"));
    assert!(matches!(sources[1], CatSource::Stdin));
    assert!(matches!(&sources[2], CatSource::File(f) if f == "b"));
}

#[test]
fn cat_with_only_the_flag_reads_nothing() {
    let (number, sources) = cat_plan(&strings(&["-n"]));
    assert!(number);
    assert!(sources.is_empty());
}

#[test]
fn numbered_lines() {
    assert_eq!(numbered_line(1, "hello"), "     1\thello");
    assert_eq!(numbered_line(1234567, "x\n"), "1234567\tx\n");
    assert_eq!(numbered_line(0, ""), "     0\t");
}

#[test]
fn lines_of_text() {
    assert_eq!(text_lines("a\nb"), vec!["a", "b"]);
    assert_eq!(text_lines("a\r\nb\n"), vec!["a", "b"]);
    assert_eq!(text_lines("a\n\nb\r"), vec!["a", "", "b\r"]);
    assert_eq!(text_lines("\n"), vec![""]);
    assert!(text_lines("").is_empty());
    let text = "one\ntwo\n\nthree";
    assert_eq!(text_lines(text).join("\n"), text);
}

#[test]
fn errors_are_joined_by_newlines() {
    assert_eq!(join_errors(&strings(&["e1", "e2"])), "e1\ne2");
    assert_eq!(join_errors(&strings(&["only"])), "only");
}

#[test]
fn echo_texts() {
    assert_eq!(echo_output(&strings(&["a", "b"])), ("a b".to_string(), true));
    assert_eq!(echo_output(&strings(&["-n", "a", "b"])), ("a b".to_string(), false));
    assert_eq!(echo_output(&strings(&["-n"])), (String::new(), false));
    assert_eq!(echo_output(&strings(&["a", "-n"])), ("a -n".to_string(), true));
    assert_eq!(echo_output(&[]), (String::new(), true));
}

#[test]
fn cd_targets() {
    assert_eq!(cd_target(None, None, Some("/home/u")), Ok(("/home/u".to_string(), false)));
    assert_eq!(cd_target(None, None, None), Ok(("/".to_string(), false)));
    assert_eq!(cd_target(Some("~"), None, Some("/h")), Ok(("/h".to_string(), false)));
    assert_eq!(cd_target(Some("~/src"), None, Some("/h")), Ok(("/h/src".to_string(), false)));
    assert_eq!(cd_target(Some("~/src"), None, None), Ok(("//src".to_string(), false)));
    assert_eq!(cd_target(Some("~user"), None, Some("/h")), Ok(("~user".to_string(), false)));
    assert_eq!(cd_target(Some("-"), Some("/old"), None), Ok(("/old".to_string(), true)));
    assert_eq!(cd_target(Some("-"), None, None), Err("cd: OLDPWD not set".to_string()));
    assert_eq!(cd_target(Some("/tmp"), None, None), Ok(("/tmp".to_string(), false)));
}

#[test]
fn cp_arguments() {
    assert_eq!(cp_plan(&strings(&["a"])).err().unwrap(), "cp: missing destination operand");
    assert_eq!(cp_plan(&strings(&["-r", "a"])).err().unwrap(), "cp: missing destination operand");
    assert_eq!(cp_plan(&strings(&["-rx", "a", "b"])).err().unwrap(), "cp: invalid option: -x");
    let plan = cp_plan(&strings(&["a", "-R", "b", "dir"])).ok().unwrap();
    assert!(plan.recursive);
    assert_eq!(plan.sources, vec!["a", "b"]);
    assert_eq!(plan.dest, "dir");
    let plan = cp_plan(&strings(&["a", "b"])).ok().unwrap();
    assert!(!plan.recursive);
}

#[test]
fn cp_sources() {
    assert_eq!(
        cp_source_action("x", "d", false, false, true, false).err().unwrap(),
        "cp: x: No such file or directory"
    );
    assert!(matches!(
        cp_source_action("a/f.txt", "d", true, false, true, false),
        Ok(CopyAction::CopyFile(t)) if t == "d/f.txt"
    ));
    assert!(matches!(
        cp_source_action("f.txt", "g.txt", true, false, false, false),
        Ok(CopyAction::CopyFile(t)) if t == "g.txt"
    ));
    assert_eq!(
        cp_source_action("sub", "d/", true, true, true, false).err().unwrap(),
        "cp: sub: is a directory (use -r to copy)"
    );
    assert!(matches!(
        cp_source_action("sub", "d/", true, true, true, true),
        Ok(CopyAction::CopyDir(t)) if t == "d/sub"
    ));
    assert_eq!(cp_source_action("..", "d", true, true, true, true).err().unwrap(), "cp: ..: invalid path");
}

#[test]
fn several_sources_need_a_directory() {
    assert_eq!(target_check("cp", 2, "f", false).unwrap_err(), "cp: target 'f' is not a directory");
    assert_eq!(target_check("mv", 3, "g", false).unwrap_err(), "mv: target 'g' is not a directory");
    assert!(target_check("cp", 2, "d", true).is_ok());
    assert!(target_check("cp", 1, "f", false).is_ok());
}

#[test]
fn mv_arguments_and_destinations() {
    assert_eq!(mv_plan(&strings(&["a"])).err().unwrap(), "mv: missing destination operand");
    let plan = mv_plan(&strings(&["a", "b", "c"])).ok().unwrap();
    assert_eq!(plan.sources, vec!["a", "b"]);
    assert_eq!(plan.dest, "c");
    assert_eq!(mv_destination("a", "d", false, true).unwrap_err(), "mv: a: No such file or directory");
    assert_eq!(mv_destination("x/a", "d", true, true).unwrap(), "d/a");
    assert_eq!(mv_destination("x/a", "b", true, false).unwrap(), "b");
    assert_eq!(mv_destination("/", "d", true, true).unwrap_err(), "mv: /: invalid path");
}

#[test]
fn rm_arguments() {
    assert_eq!(rm_plan(&[]).err().unwrap(), "rm: missing operand");
    assert_eq!(rm_plan(&strings(&["-rf"])).err().unwrap(), "rm: missing operand");
    assert_eq!(rm_plan(&strings(&["-i", "x"])).err().unwrap(), "rm: invalid option: -i");
    let plan = rm_plan(&strings(&["-Rf", "a", "b"])).ok().unwrap();
    assert!(plan.recursive && plan.force);
    assert_eq!(plan.targets, vec!["a", "b"]);
    let plan = rm_plan(&strings(&["a"])).ok().unwrap();
    assert!(!plan.recursive && !plan.force);
}

#[test]
fn rm_targets() {
    assert!(matches!(rm_target_action("x", false, false, false, true, false), RmAction::Skip));
    assert!(matches!(
        rm_target_action("x", false, false, false, false, false),
        RmAction::Refuse(e) if e == "rm: x: No such file or directory"
    ));
    assert!(matches!(
        rm_target_action("d", true, true, false, false, false),
        RmAction::Refuse(e) if e == "rm: d: is a directory (use -r to remove)"
    ));
    assert!(matches!(
        rm_target_action("..", true, true, true, false, true),
        RmAction::Refuse(e) if e == "rm: cannot remove '..': current directory or parent"
    ));
    assert!(matches!(rm_target_action("d", true, true, true, false, false), RmAction::RemoveDir));
    assert!(matches!(rm_target_action("f", true, false, false, false, false), RmAction::RemoveFile));
}

#[test]
fn mkdir_arguments() {
    assert_eq!(mkdir_plan(&[]).err().unwrap(), "mkdir: missing operand");
    assert_eq!(mkdir_plan(&strings(&["-p"])).err().unwrap(), "mkdir: missing operand");
    let plan = mkdir_plan(&strings(&["a", "-p", "b/c"])).ok().unwrap();
    assert!(plan.parents);
    assert_eq!(plan.dirs, vec!["a", "b/c"]);
    let plan = mkdir_plan(&strings(&["-px"])).ok().unwrap();
    assert!(!plan.parents);
    assert_eq!(plan.dirs, vec!["-px"]);
}

#[test]
fn help_lines() {
    assert_eq!(
        help_line("pwd", "Print."),
        format!("  \x1b[1;32m{:<38}\x1b[0m {}", "pwd", "Print.")
    );
}

#[test]
fn paths_names_and_prefixes() {
    assert_eq!(file_name("a/b.txt"), Some("b.txt".to_string()));
    assert_eq!(file_name("a/b/"), Some("b".to_string()));
    assert_eq!(file_name("."), None);
    assert_eq!(file_name("a/.."), None);
    assert_eq!(file_name(""), None);
    assert_eq!(join_path("dir", "f"), "dir/f");
    assert_eq!(join_path("dir/", "f"), "dir/f");
    assert_eq!(join_path("", "f"), "f");
    assert_eq!(join_path("dir", "/abs"), "/abs");
    assert_eq!(file_name(&join_path("some/dir", "name.txt")), Some("name.txt".to_string()));
    assert!(path_starts_with("/home/u/src", "/home/u"));
    assert!(path_starts_with("/home/u", "/home/u"));
    assert!(path_starts_with("/home//u/./x", "/home/u/"));
    assert!(!path_starts_with("/home/user", "/home/u"));
    assert!(!path_starts_with("/home", "/home/u"));
    assert!(path_starts_with("/anything", "/"));
    assert!(!path_starts_with("rel/a", "/rel"));
    assert!(path_starts_with("./a/b", "./a"));
    assert!(!path_starts_with("a/b", "./a"));
}
