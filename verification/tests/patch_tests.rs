use ibexgit_core::model::{
    DiffFile, DiffHunk, DiffLine, DiffLineKind, DiffModel, DiffSource, LineSelection,
};
use ibexgit_core::patch::{build_line_patch, LineOp};



fn line(kind: DiffLineKind, content: &str, left: Option<u32>, right: Option<u32>) -> DiffLine {
    DiffLine {
        content: content.into(),
        left_no: left,
        right_no: right,
        kind,
        no_eol: false,
    }
}

fn hunk(
    old_start: u32,
    old_count: u32,
    new_start: u32,
    new_count: u32,
    lines: Vec<DiffLine>,
) -> DiffHunk {
    DiffHunk {
        old_start,
        old_count,
        new_start,
        new_count,
        header: String::new(),
        lines,
    }
}

fn file(hunks: Vec<DiffHunk>) -> DiffFile {
    DiffFile {
        old_path: Some("f.txt".into()),
        new_path: Some("f.txt".into()),
        similarity: None,
        binary: false,
        hunks,
    }
}

fn sels(pairs: &[(u32, u32)]) -> Vec<LineSelection> {
    pairs
        .iter()
        .map(|&(hunk, line)| LineSelection { hunk, line })
        .collect()
}

#[test]
fn stage_subset_of_replace_hunk() {
    // ctx / -a / -b / +A / +B / ctx — stage only `+A`.
    let f = file(vec![hunk(
        1,
        4,
        1,
        4,
        vec![
            line(DiffLineKind::Context, "top", Some(1), Some(1)),
            line(DiffLineKind::Remove, "a", Some(2), None),
            line(DiffLineKind::Remove, "b", Some(3), None),
            line(DiffLineKind::Add, "A", None, Some(2)),
            line(DiffLineKind::Add, "B", None, Some(3)),
            line(DiffLineKind::Context, "bot", Some(4), Some(4)),
        ],
    )]);
    let patch = build_line_patch(&f, "f.txt", &sels(&[(0, 3)]), LineOp::Stage).unwrap();
    // Unselected `+B` drops out; unselected `-a`/`-b` become context.
    // New index region: top, a, b, A, bot (staging only adds A).
    assert_eq!(
        patch,
        "diff --git a/f.txt b/f.txt\n\
         --- a/f.txt\n\
         +++ b/f.txt\n\
         @@ -1,4 +1,5 @@\n\
         \x20top\n\
         \x20a\n\
         \x20b\n\
         +A\n\
         \x20bot\n"
    );
}

#[test]
fn stage_selected_removal_keeps_unselected_additions_out() {
    let f = file(vec![hunk(
        1,
        3,
        1,
        2,
        vec![
            line(DiffLineKind::Context, "top", Some(1), Some(1)),
            line(DiffLineKind::Remove, "old", Some(2), None),
            line(DiffLineKind::Add, "new1", None, Some(2)),
            line(DiffLineKind::Add, "new2", None, Some(3)),
        ],
    )]);
    // Stage only the removal: index drops `old`, gains nothing.
    let patch = build_line_patch(&f, "f.txt", &sels(&[(0, 1)]), LineOp::Stage).unwrap();
    assert_eq!(
        patch,
        "diff --git a/f.txt b/f.txt\n\
         --- a/f.txt\n\
         +++ b/f.txt\n\
         @@ -1,2 +1 @@\n\
         \x20top\n\
         -old\n"
    );
}

#[test]
fn discard_subset_anchors_new_side() {
    // Same hunk; discard only `+new1`. Reverse patch Q:
    // old side (W') = ctx, new2; new side (worktree) = ctx, new1, new2.
    let f = file(vec![hunk(
        1,
        2,
        1,
        3,
        vec![
            line(DiffLineKind::Context, "top", Some(1), Some(1)),
            line(DiffLineKind::Remove, "old", Some(2), None),
            line(DiffLineKind::Add, "new1", None, Some(2)),
            line(DiffLineKind::Add, "new2", None, Some(3)),
        ],
    )]);
    let patch = build_line_patch(&f, "f.txt", &sels(&[(0, 2)]), LineOp::Discard).unwrap();
    assert_eq!(
        patch,
        "diff --git a/f.txt b/f.txt\n\
         --- a/f.txt\n\
         +++ b/f.txt\n\
         @@ -1,2 +1,3 @@\n\
         \x20top\n\
         +new1\n\
         \x20new2\n"
    );
}

#[test]
fn unstage_matches_discard_emission() {
    let f = file(vec![hunk(
        1,
        2,
        1,
        3,
        vec![
            line(DiffLineKind::Context, "top", Some(1), Some(1)),
            line(DiffLineKind::Remove, "old", Some(2), None),
            line(DiffLineKind::Add, "new1", None, Some(2)),
            line(DiffLineKind::Add, "new2", None, Some(3)),
        ],
    )]);
    let discard = build_line_patch(&f, "f.txt", &sels(&[(0, 2)]), LineOp::Discard).unwrap();
    let unstage = build_line_patch(&f, "f.txt", &sels(&[(0, 2)]), LineOp::Unstage).unwrap();
    assert_eq!(discard, unstage);
}

#[test]
fn multi_hunk_running_delta() {
    // Two hunks; select one add in each.
    let f = file(vec![
        hunk(
            1,
            3,
            1,
            4,
            vec![
                line(DiffLineKind::Context, "a", Some(1), Some(1)),
                line(DiffLineKind::Add, "X", None, Some(2)),
                line(DiffLineKind::Context, "b", Some(2), Some(3)),
                line(DiffLineKind::Context, "c", Some(3), Some(4)),
            ],
        ),
        hunk(
            10,
            2,
            11,
            3,
            vec![
                line(DiffLineKind::Context, "d", Some(10), Some(11)),
                line(DiffLineKind::Add, "Y", None, Some(12)),
                line(DiffLineKind::Context, "e", Some(11), Some(13)),
            ],
        ),
    ]);
    let patch = build_line_patch(&f, "f.txt", &sels(&[(0, 1), (1, 1)]), LineOp::Stage).unwrap();
    assert!(patch.contains("@@ -1,3 +1,4 @@\n"));
    // Second hunk's new start shifts by +1 (the staged X line above).
    assert!(patch.contains("@@ -10,2 +11,3 @@\n"), "{patch}");
}

#[test]
fn new_file_partial_stage_uses_devnull_old_side() {
    let mut f = file(vec![hunk(
        0,
        0,
        1,
        3,
        vec![
            line(DiffLineKind::Add, "one", None, Some(1)),
            line(DiffLineKind::Add, "two", None, Some(2)),
            line(DiffLineKind::Add, "three", None, Some(3)),
        ],
    )]);
    f.old_path = None;
    f.new_path = Some("new.txt".into());
    let patch =
        build_line_patch(&f, "new.txt", &sels(&[(0, 0), (0, 2)]), LineOp::Stage).unwrap();
    assert!(patch.contains("--- /dev/null\n"), "{patch}");
    assert!(patch.contains("+++ b/new.txt\n"));
    assert!(patch.contains("@@ -0,0 +1,2 @@\n"));
    assert!(patch.contains("+one\n"));
    assert!(!patch.contains("two"));
    assert!(patch.contains("+three\n"));
}

#[test]
fn deleted_file_fully_staged_uses_devnull_new_side() {
    let mut f = file(vec![hunk(
        1,
        2,
        0,
        0,
        vec![
            line(DiffLineKind::Remove, "a", Some(1), None),
            line(DiffLineKind::Remove, "b", Some(2), None),
        ],
    )]);
    f.new_path = None;
    let patch = build_line_patch(&f, "f.txt", &sels(&[(0, 0), (0, 1)]), LineOp::Stage).unwrap();
    assert!(patch.contains("--- a/f.txt\n"), "{patch}");
    assert!(patch.contains("+++ /dev/null\n"));
    assert!(patch.contains("-a\n") && patch.contains("-b\n"));
}

#[test]
fn deleted_file_partially_staged_keeps_b_side() {
    let mut f = file(vec![hunk(
        1,
        2,
        0,
        0,
        vec![
            line(DiffLineKind::Remove, "a", Some(1), None),
            line(DiffLineKind::Remove, "b", Some(2), None),
        ],
    )]);
    f.new_path = None;
    let patch = build_line_patch(&f, "f.txt", &sels(&[(0, 0)]), LineOp::Stage).unwrap();
    assert!(patch.contains("@@ -1,2 +1 @@\n"), "{patch}");
    assert!(patch.contains("-a\n") && !patch.contains("-b\n"));
}

#[test]
fn no_newline_hunk_verbatim_when_fully_selected() {
    // index: "last" (no EOL); worktree: last\nnew.
    // Marker hunks are all-or-nothing; selecting every changed line
    // reproduces the original hunk verbatim.
    let f = file(vec![hunk(
        1,
        1,
        1,
        2,
        vec![
            DiffLine {
                no_eol: true,
                ..line(DiffLineKind::Remove, "last", Some(1), None)
            },
            line(DiffLineKind::Add, "last", None, Some(1)),
            line(DiffLineKind::Add, "new", None, Some(2)),
        ],
    )]);
    // Partial selections are refused: the EOL-ness of the last line is
    // entangled with its neighbouring lines, so the outcome would be
    // ambiguous (e.g. staging `+last` alone would duplicate the line).
    assert!(build_line_patch(&f, "f.txt", &sels(&[(0, 2)]), LineOp::Stage).is_err());
    assert!(build_line_patch(&f, "f.txt", &sels(&[(0, 1)]), LineOp::Stage).is_err());

    // Full selection (including the removal) → verbatim hunk.
    let patch =
        build_line_patch(&f, "f.txt", &sels(&[(0, 0), (0, 1), (0, 2)]), LineOp::Stage).unwrap();
    assert_eq!(
        patch,
        "diff --git a/f.txt b/f.txt\n\
         --- a/f.txt\n\
         +++ b/f.txt\n\
         @@ -1 +1,2 @@\n\
         -last\n\
         \\ No newline at end of file\n\
         +last\n\
         +new\n"
    );
}

#[test]
fn no_newline_discard_all_restores_index_bytes() {
    // worktree file ends without EOL: -a / +b(marker). Discard both
    // changed lines (all-or-nothing) restores the worktree to "a\n".
    let f = file(vec![hunk(
        1,
        1,
        1,
        1,
        vec![
            line(DiffLineKind::Remove, "a", Some(1), None),
            DiffLine {
                no_eol: true,
                ..line(DiffLineKind::Add, "b", None, Some(1))
            },
        ],
    )]);
    // Partial selection (only +b) is refused.
    assert!(build_line_patch(&f, "f.txt", &sels(&[(0, 1)]), LineOp::Discard).is_err());
    let patch =
        build_line_patch(&f, "f.txt", &sels(&[(0, 0), (0, 1)]), LineOp::Discard).unwrap();
    // Q = verbatim hunk; reverse-applied it restores "a\n".
    assert_eq!(
        patch,
        "diff --git a/f.txt b/f.txt\n\
         --- a/f.txt\n\
         +++ b/f.txt\n\
         @@ -1 +1 @@\n\
         -a\n\
         +b\n\
         \\ No newline at end of file\n"
    );
}

#[test]
fn context_no_eol_kept_on_both_sides() {
    // ctx "end" marked (both sides end without newline); nothing after.
    // Discard the removal above it → ctx stays last on both sides.
    let f = file(vec![hunk(
        1,
        2,
        1,
        1,
        vec![
            line(DiffLineKind::Remove, "gone", Some(1), None),
            DiffLine {
                no_eol: true,
                ..line(DiffLineKind::Context, "end", Some(2), Some(2))
            },
        ],
    )]);
    let patch = build_line_patch(&f, "f.txt", &sels(&[(0, 0)]), LineOp::Discard).unwrap();
    assert_eq!(
        patch,
        "diff --git a/f.txt b/f.txt\n\
         --- a/f.txt\n\
         +++ b/f.txt\n\
         @@ -1,2 +1 @@\n\
         -gone\n\
         \x20end\n\
         \\ No newline at end of file\n"
    );
}

#[test]
fn first_line_of_hunk_selectable_alone() {
    // Hunk starts with a removal (no leading context): selecting only the
    // first `-` must produce a valid patch (PLAN P4 边界: hunk 首行).
    let f = file(vec![hunk(
        1,
        2,
        1,
        2,
        vec![
            line(DiffLineKind::Remove, "one", Some(1), None),
            line(DiffLineKind::Add, "ONE", None, Some(1)),
            line(DiffLineKind::Remove, "two", Some(2), None),
            line(DiffLineKind::Add, "TWO", None, Some(2)),
        ],
    )]);
    let patch = build_line_patch(&f, "f.txt", &sels(&[(0, 0)]), LineOp::Stage).unwrap();
    assert!(patch.contains("@@ -1,2 +1 @@\n"), "{patch}");
    assert!(patch.contains("-one\n"));
    assert!(patch.contains("\x20two\n"));
    assert!(!patch.contains("+ONE"));
    assert!(!patch.contains("+TWO"));
}

#[test]
fn empty_selection_and_context_only_are_noops() {
    let f = file(vec![hunk(
        1,
        2,
        1,
        2,
        vec![
            line(DiffLineKind::Context, "a", Some(1), Some(1)),
            line(DiffLineKind::Add, "b", None, Some(2)),
        ],
    )]);
    assert_eq!(
        build_line_patch(&f, "f.txt", &[], LineOp::Stage).unwrap(),
        ""
    );
    // Context-only selection ignores context lines.
    assert_eq!(
        build_line_patch(&f, "f.txt", &sels(&[(0, 0)]), LineOp::Stage).unwrap(),
        ""
    );
}

#[test]
fn binary_and_rename_rejected() {
    let mut f = file(vec![hunk(
        1,
        1,
        1,
        1,
        vec![line(DiffLineKind::Add, "x", None, Some(1))],
    )]);
    f.binary = true;
    assert!(build_line_patch(&f, "f", &sels(&[(0, 0)]), LineOp::Stage).is_err());
    let mut f = file(vec![hunk(
        1,
        1,
        1,
        1,
        vec![line(DiffLineKind::Add, "x", None, Some(1))],
    )]);
    f.old_path = Some("old.txt".into());
    f.new_path = Some("new.txt".into());
    assert!(build_line_patch(&f, "new.txt", &sels(&[(0, 0)]), LineOp::Stage).is_err());
}

#[test]
fn out_of_range_selection_errors() {
    // Out-of-range selections must not panic; unknown indices are simply
    // never matched, so the result is an empty (no-op) patch.
    let f = file(vec![hunk(
        1,
        1,
        1,
        1,
        vec![line(DiffLineKind::Add, "x", None, Some(1))],
    )]);
    let patch = build_line_patch(&f, "f.txt", &sels(&[(9, 9)]), LineOp::Stage).unwrap();
    assert_eq!(patch, "");
}

#[test]
fn model_helper_finds_files() {
    let model = DiffModel {
        id: 7,
        source: DiffSource::Worktree,
        old_revision: None,
        new_revision: None,
        files: vec![file(vec![])],
    };
    assert!(model.find_file("f.txt").is_some());
    assert!(model.find_file("nope").is_none());
}
