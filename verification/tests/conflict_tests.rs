use ibexgit_core::conflict::{
    build_model, marker_at, scan_blocks, stage_code, validate_resolved, ConflictType, Marker,
    WorktreeState,
};
use ibexgit_core::model::IndexEntry;



const MERGE_STYLE: &str =
    "top\n<<<<<<< HEAD\nours 1\nours 2\n=======\ntheirs 1\n>>>>>>> feature\nbottom\n";
const DIFF3_STYLE: &str =
    "a\n<<<<<<< HEAD\nours\n||||||| base label\nbase\n=======\ntheirs\n>>>>>>> other\n";

#[test]
fn markers_match_git_rules() {
    assert_eq!(marker_at("<<<<<<< HEAD"), Some(Marker::Start));
    assert_eq!(marker_at("<<<<<<<"), Some(Marker::Start));
    assert_eq!(marker_at("<<<<<<<x"), None);
    assert_eq!(marker_at("======="), Some(Marker::Sep));
    assert_eq!(marker_at("========"), None);
    assert_eq!(marker_at("======= foo"), None);
    assert_eq!(marker_at(">>>>>>> feature\n"), Some(Marker::End));
    assert_eq!(marker_at(">>>>>>> feature\r"), Some(Marker::End));
    assert_eq!(
        marker_at("||||||| merged common ancestors"),
        Some(Marker::Base)
    );
    assert_eq!(marker_at("||||||||"), None);
    assert_eq!(marker_at("content"), None);
    // an exact ======= line matches even after a setext-style title —
    // harmless: the scanner ignores separators while Idle
    assert_eq!(marker_at("======="), Some(Marker::Sep));
}

#[test]
fn scan_merge_style() {
    let blocks = scan_blocks(MERGE_STYLE);
    assert_eq!(blocks.len(), 1);
    let b = blocks[0];
    assert_eq!(b.start, 1);
    assert_eq!(b.current_start, 2);
    assert_eq!(b.current_end, 4);
    assert_eq!(b.base_start, None);
    assert_eq!(b.incoming_start, 5);
    assert_eq!(b.incoming_end, 6);
    assert_eq!(b.end, 6);
}

#[test]
fn scan_diff3_style() {
    let blocks = scan_blocks(DIFF3_STYLE);
    assert_eq!(blocks.len(), 1);
    let b = blocks[0];
    assert_eq!(b.start, 1);
    assert_eq!(b.current_start, 2);
    assert_eq!(b.current_end, 3);
    assert_eq!(b.base_start, Some(4));
    assert_eq!(b.base_end, Some(5));
    assert_eq!(b.incoming_start, 6);
    assert_eq!(b.incoming_end, 7);
    assert_eq!(b.end, 7);
}

#[test]
fn scan_multiple_and_trailing_newline() {
    let text =
        "<<<<<<< A\nx\n=======\ny\n>>>>>>> B\nmid\n<<<<<<< C\nz\n=======\nw\n>>>>>>> D\n";
    let blocks = scan_blocks(text);
    assert_eq!(blocks.len(), 2);
    assert_eq!(blocks[0].start, 0);
    assert_eq!(blocks[0].end, 4);
    assert_eq!(blocks[1].start, 6);
    assert_eq!(blocks[1].end, 10);
}

#[test]
fn scan_incomplete_dropped() {
    // EOF before >>>>>>>: block dropped, leftovers caught at resolve.
    assert!(scan_blocks("<<<<<<< A\nx\n=======\ny\n").is_empty());
    assert!(scan_blocks("<<<<<<< A\nx\n").is_empty());
    assert!(scan_blocks("plain text").is_empty());
}

#[test]
fn scan_crlf() {
    let blocks = scan_blocks("<<<<<<< A\r\nx\r\n=======\r\ny\r\n>>>>>>> B\r\n");
    assert_eq!(blocks.len(), 1);
    assert_eq!(blocks[0].current_start, 1);
    assert_eq!(blocks[0].incoming_start, 3);
}

#[test]
fn validate_resolved_rejects_markers() {
    assert!(validate_resolved("clean text\n").is_ok());
    assert!(validate_resolved("clean with ======= underline\n").is_ok());
    assert!(validate_resolved(MERGE_STYLE).is_err());
    assert!(validate_resolved("<<<<<<< stray\n").is_err());
    assert!(validate_resolved(">>>>>>> stray\n").is_err());
    // resolved version of MERGE_STYLE keeping ours:
    assert!(validate_resolved("top\nours 1\nours 2\nbottom\n").is_ok());
}

fn entry(path: &str, sha: &str, stage: u32) -> IndexEntry {
    IndexEntry {
        path: path.to_string(),
        mode: "100644".into(),
        sha: sha.to_string(),
        stage,
    }
}

#[test]
fn stage_codes() {
    assert_eq!(stage_code(&[1, 2, 3]), Some("UU"));
    assert_eq!(stage_code(&[2, 3]), Some("AA"));
    assert_eq!(stage_code(&[2]), Some("AU"));
    assert_eq!(stage_code(&[3]), Some("UA"));
    assert_eq!(stage_code(&[1, 2]), Some("UD"));
    assert_eq!(stage_code(&[1, 3]), Some("DU"));
    assert_eq!(stage_code(&[1]), Some("DD"));
    assert_eq!(stage_code(&[]), None);
}

#[test]
fn build_model_content_conflict() {
    let records = vec![
        entry("f.txt", "base", 1),
        entry("f.txt", "ours", 2),
        entry("f.txt", "theirs", 3),
    ];
    let stages: Vec<(u32, IndexEntry)> = vec![
        (1, entry("f.txt", "base", 1)),
        (2, entry("f.txt", "ours", 2)),
        (3, entry("f.txt", "theirs", 3)),
    ];
    let sides = vec![
        (1, Some(b"base\n".to_vec())),
        (2, Some(b"ours\n".to_vec())),
        (3, Some(b"theirs\n".to_vec())),
    ];
    let m = build_model(
        "f.txt",
        &records,
        &stages,
        WorktreeState::Regular,
        Some(MERGE_STYLE.as_bytes()),
        false,
        &sides,
    );
    assert_eq!(m.code, "UU");
    assert_eq!(m.conflict_type, ConflictType::Content);
    assert!(m.editable);
    assert!(m.has_base && m.has_current && m.has_incoming);
    assert_eq!(m.block_count, 1);
    assert!(!m.crlf);
    assert_eq!(m.base_text.as_deref(), Some("base\n"));
}

#[test]
fn build_model_delete_modify() {
    // theirs deleted: stages {1,2} = UD
    let records = vec![entry("f.txt", "base", 1), entry("f.txt", "ours", 2)];
    let stages = vec![
        (1, entry("f.txt", "base", 1)),
        (2, entry("f.txt", "ours", 2)),
    ];
    let sides = vec![(1, Some(b"base\n".to_vec())), (2, Some(b"ours\n".to_vec()))];
    let m = build_model(
        "f.txt",
        &records,
        &stages,
        WorktreeState::Regular,
        Some(b"ours\n"),
        false,
        &sides,
    );
    assert_eq!(m.code, "UD");
    assert_eq!(m.conflict_type, ConflictType::DeleteModify);
    assert!(!m.has_incoming);
    assert_eq!(m.incoming_text, None);
}

#[test]
fn build_model_binary_and_oversize_and_directory() {
    let records = vec![entry("bin", "o", 2), entry("bin", "t", 3)];
    let stages = vec![(2, entry("bin", "o", 2)), (3, entry("bin", "t", 3))];

    // binary: the worktree file itself carries a NUL byte
    let sides = vec![(2, Some(b"x".to_vec())), (3, Some(b"y".to_vec()))];
    let m = build_model(
        "bin",
        &records,
        &stages,
        WorktreeState::Regular,
        Some(b"\0\0binary"),
        false,
        &sides,
    );
    assert_eq!(m.code, "AA");
    assert_eq!(m.conflict_type, ConflictType::Binary);
    assert!(m.binary);
    assert!(!m.editable);
    assert!(!m.directory);

    // oversized: a side above the cap comes through as None bytes
    let sides = vec![(2, None), (3, Some(b"x".to_vec()))];
    let m = build_model(
        "bin",
        &records,
        &stages,
        WorktreeState::Oversized,
        None,
        false,
        &sides,
    );
    assert!(m.oversized);
    assert!(!m.editable);

    // directory: path is a dir in the worktree, sides present and sized
    let sides = vec![(2, Some(b"a".to_vec())), (3, Some(b"b".to_vec()))];
    let m = build_model(
        "bin",
        &records,
        &stages,
        WorktreeState::Directory,
        None,
        false,
        &sides,
    );
    assert!(m.directory);
    assert!(!m.binary);
    assert_eq!(m.conflict_type, ConflictType::DirectoryFile);
}

#[test]
fn build_model_rename_pair() {
    // base blob "base" renamed by both sides: UD at ours_name, DU at theirs
    let records = vec![
        entry("old.txt", "base", 1),
        entry("ours.txt", "base", 1),
        entry("ours.txt", "ours", 2),
        entry("theirs.txt", "base", 1),
        entry("theirs.txt", "theirs", 3),
    ];
    let stages_ours = vec![
        (1, entry("ours.txt", "base", 1)),
        (2, entry("ours.txt", "ours", 2)),
    ];
    let m = build_model(
        "ours.txt",
        &records,
        &stages_ours,
        WorktreeState::Regular,
        Some(b"ours\n"),
        false,
        &[(1, Some(b"base\n".to_vec())), (2, Some(b"ours\n".to_vec()))],
    );
    assert_eq!(m.conflict_type, ConflictType::Rename);

    // without the twin path this is a plain modify/delete
    let no_twin = vec![entry("ours.txt", "base", 1), entry("ours.txt", "ours", 2)];
    let m2 = build_model(
        "ours.txt",
        &no_twin,
        &stages_ours,
        WorktreeState::Regular,
        Some(b"ours\n"),
        false,
        &[(1, Some(b"base\n".to_vec())), (2, Some(b"ours\n".to_vec()))],
    );
    assert_eq!(m2.conflict_type, ConflictType::DeleteModify);
}

#[test]
fn build_model_submodule_not_editable() {
    let mut sub = entry("sub", "c0ffee", 2);
    sub.mode = "160000".into();
    let mut sub3 = entry("sub", "f00d", 3);
    sub3.mode = "160000".into();
    let records = vec![sub.clone(), sub3.clone()];
    let stages = vec![(2, sub), (3, sub3)];
    let m = build_model(
        "sub",
        &records,
        &stages,
        WorktreeState::Directory,
        None,
        false,
        &[(2, Some(b"subdir".to_vec())), (3, Some(b"subdir".to_vec()))],
    );
    assert!(!m.editable);
    assert!(m.submodule);
    assert!(m.directory);
}

#[test]
fn build_model_crlf_flag() {
    let records = vec![entry("f.txt", "o", 2), entry("f.txt", "t", 3)];
    let stages = vec![(2, entry("f.txt", "o", 2)), (3, entry("f.txt", "t", 3))];
    let sides = vec![(2, Some(b"a".to_vec())), (3, Some(b"b".to_vec()))];
    let m = build_model(
        "f.txt",
        &records,
        &stages,
        WorktreeState::Regular,
        Some(b"<<<<<<< A\r\nx\r\n=======\r\ny\r\n>>>>>>> B\r\n"),
        false,
        &sides,
    );
    assert!(m.crlf);
    assert_eq!(m.block_count, 1);
}

#[test]
fn build_model_non_utf8_not_editable() {
    let records = vec![entry("f", "o", 2), entry("f", "t", 3)];
    let stages = vec![(2, entry("f", "o", 2)), (3, entry("f", "t", 3))];
    let sides = vec![(2, Some(b"a".to_vec())), (3, Some(b"b".to_vec()))];
    let m = build_model(
        "f",
        &records,
        &stages,
        WorktreeState::Regular,
        Some(&[0xC3, 0x28, b'\n']),
        false,
        &sides,
    );
    assert!(!m.editable);
    assert!(m.worktree_text.is_none());
    // invalid-UTF-8 alone must not look like a directory
    assert!(!m.directory);
    assert!(!m.oversized);
}

#[test]
fn empty_block_has_empty_sections() {
    let blocks = scan_blocks("a\n<<<<<<< HEAD\n>>>>>>> other\nb\n");
    assert_eq!(blocks.len(), 1);
    let b = blocks[0];
    assert_eq!(b.start, 1);
    assert_eq!(b.current_start, 2);
    assert_eq!(b.current_end, 2);
    assert_eq!(b.incoming_start, 2);
    assert_eq!(b.incoming_end, 2);
    assert_eq!(b.end, 2);
}

#[test]
fn empty_current_side_before_separator() {
    let blocks = scan_blocks("<<<<<<< HEAD\n=======\ntheirs\n>>>>>>> other\n");
    let b = blocks[0];
    assert_eq!(b.current_start, 1);
    assert_eq!(b.current_end, 1);
    assert_eq!(b.incoming_start, 2);
    assert_eq!(b.end, 3);
}
