use zero_shell::time::format_mtime;
use zero_shell::ls::{
    classification_suffix, decorate_entry, decorate_symlink_long, entry_display, entry_name,
    escape_leading_special, format_mode_with_acl, format_permissions, format_size_or_dev,
    has_acl_xattr, listing_order, long_line, parse_flags, short_listing, total_blocks, FileKind,
    LsOptions,
};

fn strings(v: &[&str]) -> Vec<String> {
    v.iter().map(|s| s.to_string()).collect()
}

#[test]
fn flags_default_to_current_directory() {
    let (opts, paths) = parse_flags(&[]).unwrap();
    assert_eq!(opts, LsOptions { long: false, all: false, classify: false });
    assert_eq!(paths, vec!["."]);
}

#[test]
fn flags_bundle_and_separate() {
    let (opts, paths) = parse_flags(&strings(&["-la", "x", "-F", "y"])).unwrap();
    assert_eq!(opts, LsOptions { long: true, all: true, classify: true });
    assert_eq!(paths, vec!["x", "y"]);
}

#[test]
fn lone_dash_is_not_a_path() {
    let (opts, paths) = parse_flags(&strings(&["-"])).unwrap();
    assert_eq!(opts, LsOptions { long: false, all: false, classify: false });
    assert_eq!(paths, vec!["."]);
}

#[test]
fn invalid_flag_is_refused() {
    assert_eq!(parse_flags(&strings(&["-lz", "-q"])).unwrap_err(), "ls: invalid option -- z");
}

#[test]
fn permission_strings() {
    assert_eq!(format_permissions(FileKind::Directory, 0o755), "drwxr-xr-x");
    assert_eq!(format_permissions(FileKind::Regular, 0o644), "-rw-r--r--");
    assert_eq!(format_permissions(FileKind::Regular, 0o4755), "-rwsr-xr-x");
    assert_eq!(format_permissions(FileKind::Regular, 0o4644), "-rwSr--r--");
    assert_eq!(format_permissions(FileKind::Regular, 0o2750), "-rwxr-s---");
    assert_eq!(format_permissions(FileKind::Regular, 0o2740), "-rwxr-S---");
    assert_eq!(format_permissions(FileKind::Directory, 0o1777), "drwxrwxrwt");
    assert_eq!(format_permissions(FileKind::Directory, 0o1776), "drwxrwxrwT");
    assert_eq!(format_permissions(FileKind::Symlink, 0o777), "lrwxrwxrwx");
    assert_eq!(format_permissions(FileKind::Fifo, 0o600), "prw-------");
    assert_eq!(format_permissions(FileKind::Socket, 0o000), "s---------");
    assert_eq!(format_permissions(FileKind::BlockDevice, 0o660), "brw-rw----");
    assert_eq!(format_permissions(FileKind::CharDevice, 0o666), "crw-rw-rw-");
    assert_eq!(format_permissions(FileKind::Regular, 0o100644), "-rw-r--r--");
}

#[test]
fn permission_string_has_ten_characters() {
    for mode in [0u32, 0o777, 0o7777, u32::MAX] {
        assert_eq!(format_permissions(FileKind::Regular, mode).chars().count(), 10);
    }
}

#[test]
fn acl_marker() {
    assert_eq!(format_mode_with_acl(FileKind::Regular, 0o644, true), "-rw-r--r--+");
    assert_eq!(format_mode_with_acl(FileKind::Regular, 0o644, false), "-rw-r--r-- ");
}

#[test]
fn sizes_and_devices() {
    assert_eq!(format_size_or_dev(FileKind::Regular, 0, 1234), "    1234");
    assert_eq!(format_size_or_dev(FileKind::Regular, 0, 123456789), "123456789");
    assert_eq!(format_size_or_dev(FileKind::Directory, 5, 0), "       0");
    // /dev/null is 1,3
    assert_eq!(format_size_or_dev(FileKind::CharDevice, 0x103, 0), "  1,   3");
    // /dev/sda1 is 8,1
    assert_eq!(format_size_or_dev(FileKind::BlockDevice, 0x801, 0), "  8,   1");
    // minor numbers above 255 take their high bits from bit 20 on
    assert_eq!(format_size_or_dev(FileKind::CharDevice, (1u64 << 20) | (4 << 8) | 2, 0), "  4, 258");
    assert_eq!(format_size_or_dev(FileKind::CharDevice, u64::MAX, 0), "4095,1048575");
}

#[test]
fn classification_marks() {
    assert_eq!(classification_suffix(FileKind::Directory, 0o755), "/");
    assert_eq!(classification_suffix(FileKind::Symlink, 0o777), "@");
    assert_eq!(classification_suffix(FileKind::Fifo, 0o644), "|");
    assert_eq!(classification_suffix(FileKind::Socket, 0o755), "=");
    assert_eq!(classification_suffix(FileKind::Regular, 0o744), "*");
    assert_eq!(classification_suffix(FileKind::Regular, 0o644), "");
    assert_eq!(classification_suffix(FileKind::CharDevice, 0o001), "*");
}

#[test]
fn decorating_names() {
    assert_eq!(decorate_entry("src", FileKind::Directory, 0o755, true), "src/");
    assert_eq!(decorate_entry("src", FileKind::Directory, 0o755, false), "src");
    assert_eq!(
        decorate_symlink_long("l", Some("/etc"), Some((FileKind::Directory, 0o755)), true),
        "l -> /etc/"
    );
    assert_eq!(decorate_symlink_long("l", Some("t"), None, true), "l -> t");
    assert_eq!(decorate_symlink_long("l", None, None, false), "l -> ?");
    assert_eq!(
        decorate_symlink_long("l", Some("run"), Some((FileKind::Regular, 0o755)), false),
        "l -> run"
    );
}

#[test]
fn escaping_leading_characters() {
    assert_eq!(escape_leading_special("file"), "file");
    assert_eq!(escape_leading_special(".hidden"), ".hidden");
    assert_eq!(escape_leading_special("9lives"), "9lives");
    assert_eq!(escape_leading_special("-rf"), "\\-rf");
    assert_eq!(escape_leading_special(" x"), "\\ x");
    assert_eq!(escape_leading_special("#tmp"), "\\#tmp");
    assert_eq!(escape_leading_special("étoile"), "étoile");
    assert_eq!(escape_leading_special(""), "");
}

#[test]
fn entry_display_for_links() {
    assert_eq!(
        entry_display("a", FileKind::Symlink, 0o777, true, true, Some("b"), Some((FileKind::Regular, 0o755))),
        "\x1b[1;36ma\x1b[0m -> b*"
    );
    assert_eq!(
        entry_display("a", FileKind::Symlink, 0o777, false, true, Some("b"), None),
        "\x1b[1;36ma\x1b[0m@"
    );
    assert_eq!(entry_display("_x", FileKind::Regular, 0o644, false, false, None, None), "\\_x");
}

#[test]
fn names_are_coloured_by_kind() {
    assert_eq!(
        entry_display("d", FileKind::Directory, 0o755, false, false, None, None),
        "\x1b[1;34md\x1b[0m"
    );
    assert_eq!(
        entry_display("d", FileKind::Directory, 0o755, true, true, None, None),
        "\x1b[1;34md\x1b[0m/"
    );
    assert_eq!(
        entry_display("run", FileKind::Regular, 0o755, false, true, None, None),
        "\x1b[1;32mrun\x1b[0m*"
    );
    assert_eq!(
        entry_display("l", FileKind::Symlink, 0o777, false, false, None, None),
        "\x1b[1;36ml\x1b[0m"
    );
    assert_eq!(entry_display("f", FileKind::Regular, 0o644, false, false, None, None), "f");
    assert_eq!(entry_display("p", FileKind::Fifo, 0o777, false, false, None, None), "p");
    assert_eq!(
        entry_display("-x", FileKind::Directory, 0o755, false, false, None, None),
        "\x1b[1;34m\\-x\x1b[0m"
    );
}

#[test]
fn names_of_paths() {
    assert_eq!(entry_name("/usr/bin/ls"), "ls");
    assert_eq!(entry_name("dir/"), "dir");
    assert_eq!(entry_name("a/."), "a");
    assert_eq!(entry_name(".."), "..");
    assert_eq!(entry_name("/"), "/");
}

#[test]
fn long_lines() {
    assert_eq!(
        long_line("-rw-r--r-- ", 1, "root", "wheel", "     120", "Jan  5 10:03", "notes"),
        "-rw-r--r--    1 root     wheel         120 Jan  5 10:03 notes"
    );
    assert_eq!(
        long_line("drwxr-xr-x ", 1234, "averyverylongname", "g", "4096", "t", "d"),
        "drwxr-xr-x  1234 averyverylongname g        4096 t d"
    );
}

#[test]
fn totals_are_halved() {
    assert_eq!(total_blocks(&[]), 0);
    assert_eq!(total_blocks(&[8, 8, 0]), 8);
    assert_eq!(total_blocks(&[1, 2]), 1);
}

#[test]
fn xattr_lists() {
    assert!(has_acl_xattr(b"system.posix_acl_access\0"));
    assert!(has_acl_xattr(b"user.x\0system.posix_acl_default\0"));
    assert!(has_acl_xattr(b"user.x\0system.posix_acl_default"));
    assert!(!has_acl_xattr(b"user.system.posix_acl_access\0"));
    assert!(!has_acl_xattr(b"system.posix_acl_accessX\0"));
    assert!(!has_acl_xattr(b"security.selinux\0"));
    assert!(!has_acl_xattr(b""));
}

#[test]
fn listing_sorts_and_hides() {
    let names = strings(&["zeta", ".git", "alpha", "Beta", "..x", "alp"]);
    let order = listing_order(&names, false);
    let shown: Vec<&str> = order.iter().map(|&i| names[i].as_str()).collect();
    assert_eq!(shown, vec!["Beta", "alp", "alpha", "zeta"]);
    let order = listing_order(&names, true);
    let shown: Vec<&str> = order.iter().map(|&i| names[i].as_str()).collect();
    assert_eq!(shown, vec!["..x", ".git", "Beta", "alp", "alpha", "zeta"]);
}

#[test]
fn listing_keeps_equal_names_in_order_and_never_repeats() {
    let names = strings(&["b", "a", "b", "a"]);
    let order = listing_order(&names, false);
    assert_eq!(order, vec![1, 3, 0, 2]);
    let empty: Vec<String> = Vec::new();
    assert!(listing_order(&empty, true).is_empty());
}

#[test]
fn short_listings() {
    assert_eq!(short_listing(&strings(&["a", "b/", "c*"])), "a  b/  c*");
    assert_eq!(short_listing(&strings(&[])), "");
}

#[test]
fn listing_times() {
    assert_eq!(format_mtime(0, 0).unwrap(), "Jan  1 00:00");
    assert_eq!(format_mtime(0, 3600).unwrap(), "Jan  1 01:00");
    assert_eq!(format_mtime(0, -60).unwrap(), "Dec 31 23:59");
    assert_eq!(format_mtime(1_700_000_000, 0).unwrap(), "Nov 14 22:13");
    assert!(format_mtime(0, 86_400).is_none());
    assert!(format_mtime(8_000_000_000_000, 0).is_some());
    assert!(format_mtime(-8_000_000_000_000, 0).is_some());
    assert!(format_mtime(i64::MAX, 0).is_none());
}

#[test]
fn owner_names() {
    assert_eq!(zero_shell::ls::owner_name(Some("root"), 0), "root");
    assert_eq!(zero_shell::ls::owner_name(None, 1000), "1000");
    assert_eq!(zero_shell::ls::owner_name(None, 0), "0");
    assert_eq!(zero_shell::ls::owner_name(None, u32::MAX), "4294967295");
}
