use std::path::Path;

use envguard::decode::{decode_utf16, infer_utf16_endianness, Utf16Endianness};
use envguard::report::report_line;
use envguard::token::contains_prefixed_token;
use envguard::walk::{entry_step, walk_step, EntryKind, WalkStep};
use envguard::Finding;

#[test]
fn links_are_neither_scanned_nor_entered() {
    for is_root in [true, false] {
        for skipped in [true, false] {
            assert_eq!(walk_step(EntryKind::Symlink, is_root, skipped), WalkStep::Ignore);
            assert_eq!(walk_step(EntryKind::Other, is_root, skipped), WalkStep::Ignore);
            assert_eq!(walk_step(EntryKind::File, is_root, skipped), WalkStep::Scan);
        }
    }
    assert_eq!(entry_step(EntryKind::Symlink, true, Path::new("src")), WalkStep::Ignore);
    assert_eq!(entry_step(EntryKind::Symlink, false, Path::new("a/link.env")), WalkStep::Ignore);
}

#[test]
fn skipped_directory_names_are_not_entered_below_the_start() {
    assert_eq!(walk_step(EntryKind::Directory, false, true), WalkStep::Ignore);
    assert_eq!(walk_step(EntryKind::Directory, false, false), WalkStep::Enter);
    assert_eq!(walk_step(EntryKind::Directory, true, true), WalkStep::Enter);
    assert_eq!(entry_step(EntryKind::Directory, false, Path::new("repo/node_modules")), WalkStep::Ignore);
    assert_eq!(entry_step(EntryKind::Directory, false, Path::new("repo/.git")), WalkStep::Ignore);
    assert_eq!(entry_step(EntryKind::Directory, false, Path::new("repo/src")), WalkStep::Enter);
    assert_eq!(entry_step(EntryKind::Directory, true, Path::new("target")), WalkStep::Enter);
    assert_eq!(entry_step(EntryKind::File, false, Path::new("repo/build")), WalkStep::Scan);
}

#[test]
fn report_lines_name_path_line_rule_and_message() {
    let on_name = Finding {
        path: "dir/.env".to_string(),
        line: 0,
        rule: "env-file",
        message: "environment file may contain credentials or other secrets",
    };
    let text: String = report_line(&on_name).into_iter().collect();
    assert_eq!(text, "  dir/.env [env-file] environment file may contain credentials or other secrets");
    let on_line = Finding {
        path: "a.conf".to_string(),
        line: 1207,
        rule: "sensitive-assignment",
        message: "non-placeholder value assigned to a sensitive-looking variable",
    };
    let text: String = report_line(&on_line).into_iter().collect();
    assert_eq!(
        text,
        "  a.conf:1207 [sensitive-assignment] non-placeholder value assigned to a sensitive-looking variable"
    );
    let single: String = report_line(&Finding { line: 9, ..on_line.clone() }).into_iter().collect();
    assert!(single.starts_with("  a.conf:9 ["));
    let ten: String = report_line(&Finding { line: 10, ..on_line }).into_iter().collect();
    assert!(ten.starts_with("  a.conf:10 ["));
}

#[test]
fn byte_swapped_utf16_reads_the_same() {
    let text = "x=1\nvalue: héllo\n";
    let mut little = Vec::new();
    let mut big = Vec::new();
    for unit in text.encode_utf16() {
        little.extend_from_slice(&unit.to_le_bytes());
        big.extend_from_slice(&unit.to_be_bytes());
    }
    assert_eq!(infer_utf16_endianness(&little), Some(Utf16Endianness::Little));
    assert_eq!(infer_utf16_endianness(&big), Some(Utf16Endianness::Big));
    assert_eq!(decode_utf16(&little), Some(text.to_string()));
    assert_eq!(decode_utf16(&big), Some(text.to_string()));
    let mut marked_little = vec![0xff, 0xfe];
    marked_little.extend_from_slice(&little);
    let mut marked_big = vec![0xfe, 0xff];
    marked_big.extend_from_slice(&big);
    assert_eq!(decode_utf16(&marked_little), decode_utf16(&marked_big));
    assert_eq!(decode_utf16(&marked_big), Some(text.to_string()));
}

#[test]
fn tokens_stay_found_in_longer_lines_and_with_shorter_tails() {
    let chars = |s: &str| s.chars().collect::<Vec<char>>();
    let prefix = chars(&["gh", "p_"].concat());
    let line = format!("{}{}", ["gh", "p_"].concat(), "a".repeat(30));
    assert!(contains_prefixed_token(&chars(&line), &prefix, 30));
    assert!(contains_prefixed_token(&chars(&format!("xx{line}yy")), &prefix, 30));
    assert!(contains_prefixed_token(&chars(&format!("=={line}")), &prefix, 30));
    assert!(contains_prefixed_token(&chars(&line), &prefix, 12));
    assert!(!contains_prefixed_token(&chars(&line), &prefix, 31));
}
