use ibexgit_core::conflict::{scan_blocks, validate_resolved};
use ibexgit_core::context::{batch_for_map_reduce, PathFilter};
use ibexgit_core::model::{NumstatCommit, NumstatFile};
use ibexgit_core::parse::config_last_wins;
use ibexgit_core::sse::SseParser;
use ibexgit_core::text::split_chars;

#[test]
fn joining_the_pieces_of_a_split_gives_the_text_back() {
    for text in ["a,b,,c", "", ",", "no separator", ",lead,trail,"] {
        let chars: Vec<char> = text.chars().collect();
        let pieces = split_chars(&chars, ',');
        let joined: Vec<String> = pieces.iter().map(|p| p.iter().collect()).collect();
        assert_eq!(joined.join(","), text);
    }
}

#[test]
fn resolved_exactly_when_no_marker_line_is_left() {
    let with_markers = "x\n<<<<<<< HEAD\na\n=======\nb\n>>>>>>> other\n";
    assert!(validate_resolved(with_markers).is_err());
    assert_eq!(scan_blocks(with_markers).len(), 1);
    let separator_only = "title\n=======\nbody\n";
    assert!(validate_resolved(separator_only).is_ok());
}

#[test]
fn chunking_does_not_change_the_events() {
    let stream = b"data: one\n\nevent: x\ndata: two\r\n\r\ndata: th";
    let mut whole = SseParser::new();
    let mut all = whole.feed(stream);
    all.extend(whole.finish());
    let mut bytewise = SseParser::new();
    let mut pieces = Vec::new();
    for b in stream.iter() {
        pieces.extend(bytewise.feed(&[*b]));
    }
    pieces.extend(bytewise.finish());
    assert_eq!(all, pieces);
    assert_eq!(all.len(), 3);
}

#[test]
fn later_config_entries_win() {
    let m = config_last_wins(vec![
        ("a".to_string(), "1".to_string()),
        ("a".to_string(), "2".to_string()),
        ("b".to_string(), "3".to_string()),
        ("a".to_string(), "4".to_string()),
    ]);
    assert_eq!(m.get("a").map(String::as_str), Some("4"));
    assert_eq!(m.get("b").map(String::as_str), Some("3"));
    assert_eq!(m.len(), 2);
}

fn commit(subject: &str, nfiles: usize) -> NumstatCommit {
    NumstatCommit {
        hash: "h".into(),
        short_hash: "s".into(),
        author: "A".into(),
        email: "a@x".into(),
        date: "d".into(),
        subject: subject.into(),
        repo: String::new(),
        files: (0..nfiles)
            .map(|i| NumstatFile { path: format!("f{i}.rs"), orig_path: None, additions: 1, deletions: 1, binary: false })
            .collect(),
    }
}

#[test]
fn batches_cover_every_commit_once_in_order() {
    let commits: Vec<NumstatCommit> = (0..23).map(|i| commit(&format!("c{i}"), i % 4)).collect();
    let batches = batch_for_map_reduce(&commits, &PathFilter::empty(), 5, 120);
    let flat: Vec<usize> = batches.concat();
    assert_eq!(flat, (0..23).collect::<Vec<usize>>());
    assert!(batches.iter().all(|b| !b.is_empty() && b.len() <= 5));
    // A commit larger than the byte limit still gets a batch of its own.
    let big = vec![commit("huge", 40), commit("small", 0)];
    assert_eq!(batch_for_map_reduce(&big, &PathFilter::empty(), 5, 50), vec![vec![0], vec![1]]);
}
