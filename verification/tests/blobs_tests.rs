use ibexgit_core::blobs::{
    batch_input, batch_outcome, batch_stream_ok, blob_shas, conflict_models, group_unmerged, parse_batch_blobs, PathProbe,
};
use ibexgit_core::conflict::{ConflictType, WorktreeState};
use ibexgit_core::error::AppError;
use ibexgit_core::model::IndexEntry;

fn entry(path: &str, sha: &str, stage: u32) -> IndexEntry {
    IndexEntry { path: path.into(), mode: "100644".into(), sha: sha.into(), stage }
}

#[test]
fn groups_unmerged_records_by_first_seen_path() {
    let recs = vec![entry("b.txt", "b1", 1), entry("a.txt", "a2", 2), entry("b.txt", "b2", 2), entry("a.txt", "a3", 3), entry("b.txt", "b3", 3)];
    let groups = group_unmerged(&recs);
    assert_eq!(groups.len(), 2);
    assert_eq!(groups[0].0, "b.txt");
    assert_eq!(groups[0].1.iter().map(|(s, e)| (*s, e.sha.as_str())).collect::<Vec<_>>(), vec![(1, "b1"), (2, "b2"), (3, "b3")]);
    assert_eq!(groups[1].0, "a.txt");
    assert_eq!(groups[1].1.iter().map(|(s, e)| (*s, e.sha.as_str())).collect::<Vec<_>>(), vec![(2, "a2"), (3, "a3")]);
    assert!(group_unmerged(&[]).is_empty());
}

#[test]
fn batch_input_lists_each_sha_on_a_line() {
    assert_eq!(batch_input(&["abc", "def"]), "abc\ndef\n");
    assert_eq!(batch_input(&[]), "");
}

#[test]
fn parses_batch_stream_in_requested_order() {
    let mut stream = Vec::new();
    stream.extend_from_slice(b"aaa blob 5\nhello\n");
    stream.extend_from_slice(b"bbb missing\n");
    stream.extend_from_slice(b"ccc blob 0\n\n");
    stream.extend_from_slice(b"ddd tree 3\n");
    let shas = ["ddd", "aaa", "bbb", "ccc"];
    assert!(batch_stream_ok(&stream, shas.len()));
    let blobs = parse_batch_blobs(&stream, &shas);
    assert_eq!(blobs.len(), 4);
    assert_eq!(blobs[0], None);
    assert_eq!(blobs[1].as_deref(), Some(&b"hello"[..]));
    assert_eq!(blobs[2], None);
    assert_eq!(blobs[3], None);
}

#[test]
fn truncated_batch_stream_leaves_the_rest_empty() {
    let stream = b"aaa blob 3\nxy\nbbb blob 100\nshort".to_vec();
    let shas = ["aaa", "bbb"];
    assert!(batch_stream_ok(&stream, 2));
    let blobs = parse_batch_blobs(&stream, &shas);
    assert_eq!(blobs[0].as_deref(), Some(&b"xy\n"[..]));
    assert_eq!(blobs[1], None);
}

#[test]
fn batch_stream_ending_without_line_feed_cannot_be_read_further() {
    // the payload ends the stream with no trailing line feed and a second
    // record is expected: reading on would start past the end
    let stream = b"aaa blob 2\nxy".to_vec();
    assert!(batch_stream_ok(&stream, 1));
    assert!(!batch_stream_ok(&stream, 2));
}

#[test]
fn batch_failure_is_a_git_error() {
    match batch_outcome(Some(128), b"", "fatal: not a git repository".into(), &["aaa"]) {
        Err(AppError::GitCommand { command, stderr, stdout, .. }) => {
            assert_eq!(command, "git cat-file --batch");
            assert_eq!(stderr, "fatal: not a git repository");
            assert!(stdout.is_empty());
        }
        other => panic!("unexpected {other:?}"),
    }
    let ok = batch_outcome(Some(0), b"aaa blob 1\nz\n", String::new(), &["aaa"]).unwrap();
    assert_eq!(ok[0].as_deref(), Some(&b"z"[..]));
}

#[test]
fn models_take_their_blobs_in_stage_order() {

    let recs = vec![
        entry("a.txt", "a1", 1),
        entry("a.txt", "a2", 2),
        entry("a.txt", "a3", 3),
        entry("b.txt", "b2", 2),
    ];
    let groups = group_unmerged(&recs);
    assert_eq!(blob_shas(&groups), vec!["a1", "a2", "a3", "b2"]);
    let blobs = vec![Some(b"base\n".to_vec()), Some(b"ours\n".to_vec()), Some(b"theirs\n".to_vec())];
    let probes = vec![
        PathProbe {
            state: WorktreeState::Regular,
            worktree_bytes: Some(b"<<<<<<< HEAD\nours\n=======\ntheirs\n>>>>>>> x\n".to_vec()),
            sibling_directory: false,
        },
        PathProbe { state: WorktreeState::Missing, worktree_bytes: None, sibling_directory: false },
    ];
    let models = conflict_models(&recs, &groups, &blobs, &probes);
    assert_eq!(models.len(), 2);
    assert_eq!(models[0].path, "a.txt");
    assert_eq!(models[0].conflict_type, ConflictType::Content);
    assert_eq!(models[0].block_count, 1);
    assert_eq!(models[0].base_text.as_deref(), Some("base\n"));
    assert_eq!(models[0].current_text.as_deref(), Some("ours\n"));
    assert_eq!(models[0].incoming_text.as_deref(), Some("theirs\n"));
    // the flat result ran out before b.txt's stage: no current text
    assert_eq!(models[1].path, "b.txt");
    assert!(models[1].has_current);
    assert_eq!(models[1].current_text, None);
}
