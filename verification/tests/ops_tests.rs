use ibexgit_core::model::{GraphFilter, OperationKind};
use ibexgit_core::ops::{
    detect_operation_state, graph_args, graph_outcome, hash_jump_probe, hash_jump_start,
    GitDirProbe,
};
use ibexgit_core::error::AppError;

fn probe() -> GitDirProbe {
    GitDirProbe {
        rebase_merge: false,
        rebase_merge_onto: None,
        rebase_merge_msgnum: None,
        rebase_merge_end: None,
        rebase_apply: false,
        rebase_apply_applying: false,
        rebase_apply_onto: None,
        rebase_apply_msgnum: None,
        rebase_apply_next: None,
        rebase_apply_last: None,
        rebase_apply_end: None,
        rebase_head: None,
        merge_head: false,
        merge_head_text: None,
        cherry_pick_head: false,
        cherry_pick_head_text: None,
        revert_head: false,
        revert_head_text: None,
        merge_msg: None,
        bisect_log: false,
    }
}

#[test]
fn none_when_clean() {
    assert!(detect_operation_state(&probe()).is_none());
}

#[test]
fn merge_state_with_message() {
    let mut p = probe();
    p.merge_head = true;
    p.merge_head_text = Some("abc123\n".into());
    p.merge_msg = Some("Merge branch 'feat'\n\n# Conflicts:\n#\tf.txt\n".into());
    let st = detect_operation_state(&p).unwrap();
    assert_eq!(st.kind, OperationKind::Merge);
    assert_eq!(st.onto.as_deref(), Some("abc123"));
    assert_eq!(
        st.message.as_deref(),
        Some("Merge branch 'feat'\n\n# Conflicts:\n#\tf.txt")
    );
}

#[test]
fn rebase_merge_steps() {
    let mut p = probe();
    p.rebase_merge = true;
    p.rebase_merge_msgnum = Some("2\n".into());
    p.rebase_merge_end = Some("5\n".into());
    p.rebase_merge_onto = Some("deadbeef\n".into());
    // a rebase conflict also leaves CHERRY_PICK_HEAD behind — rebase wins
    p.cherry_pick_head = true;
    p.cherry_pick_head_text = Some("xyz\n".into());
    let st = detect_operation_state(&p).unwrap();
    assert_eq!(st.kind, OperationKind::Rebase);
    assert_eq!(st.step, Some(2));
    assert_eq!(st.total, Some(5));
    assert_eq!(st.onto.as_deref(), Some("deadbeef"));
}

#[test]
fn cherry_pick_and_revert() {
    let mut p = probe();
    p.cherry_pick_head = true;
    p.cherry_pick_head_text = Some("cp1\n".into());
    assert_eq!(detect_operation_state(&p).unwrap().kind, OperationKind::CherryPick);
    p.cherry_pick_head = false;
    p.cherry_pick_head_text = None;
    p.revert_head = true;
    p.revert_head_text = Some("rv1\n".into());
    assert_eq!(detect_operation_state(&p).unwrap().kind, OperationKind::Revert);
}

#[test]
fn rebase_apply_is_rebase_but_am_is_apply() {
    let mut p = probe();
    p.rebase_apply = true;
    p.rebase_apply_next = Some("1\n".into());
    p.rebase_apply_last = Some("3\n".into());
    let st = detect_operation_state(&p).unwrap();
    assert_eq!(st.kind, OperationKind::Rebase);
    assert_eq!(st.step, Some(1));
    assert_eq!(st.total, Some(3));
    p.rebase_apply_applying = true;
    assert_eq!(detect_operation_state(&p).unwrap().kind, OperationKind::Apply);
}

#[test]
fn rebase_onto_falls_back_to_rebase_head_and_bisect_is_last() {
    let mut p = probe();
    p.rebase_merge = true;
    p.rebase_merge_onto = Some("   \n".into());
    p.rebase_head = Some("cafe\n".into());
    p.rebase_merge_msgnum = Some("x".into());
    let st = detect_operation_state(&p).unwrap();
    assert_eq!(st.onto.as_deref(), Some("cafe"));
    assert_eq!(st.step, None);
    let mut q = probe();
    q.bisect_log = true;
    let b = detect_operation_state(&q).unwrap();
    assert_eq!(b.kind, OperationKind::Bisect);
    assert_eq!(b.onto, None);
}

fn filter() -> GraphFilter {
    GraphFilter { text: None, author: None, since: None, until: None, paths: Vec::new() }
}

#[test]
fn hash_jump_only_for_hex_prefixes() {
    let mut f = filter();
    f.text = Some("abC1".into());
    assert_eq!(hash_jump_probe(&f).as_deref(), Some("abC1^{commit}"));
    f.text = Some("abc".into());
    assert_eq!(hash_jump_probe(&f), None);
    f.text = Some("fix bug".into());
    assert_eq!(hash_jump_probe(&f), None);
    assert_eq!(hash_jump_start(Some(0), "  deadbeef\n").as_deref(), Some("deadbeef"));
    assert_eq!(hash_jump_start(Some(1), "deadbeef"), None);
    assert_eq!(hash_jump_start(None, "deadbeef"), None);
}

#[test]
fn graph_args_full_filter_and_jump() {
    let mut f = filter();
    f.text = Some("login".into());
    f.author = Some("alice".into());
    f.since = Some("2026-01-01".into());
    f.until = Some(String::new());
    f.paths = vec!["src".into(), "docs/a.md".into()];
    let args = graph_args("/r", 10, 50, &f, &None);
    assert_eq!(
        args,
        vec![
            "-C", "/r", "log", "--topo-order", "--no-color",
            "--format=%H%n%h%n%an%n%ae%n%aI%n%s%n%d%n%P",
            "-i", "--grep", "login", "-i", "--author", "alice", "--since", "2026-01-01",
            "--skip", "10", "-n", "50", "--", "src", "docs/a.md",
        ]
    );
    // A hash jump replaces the message grep; no paging at the limit sentinel.
    let jumped = graph_args("/r", 0, u32::MAX, &f, &Some("abc".into()));
    assert_eq!(jumped[6], "abc");
    assert!(!jumped.iter().any(|a| a == "--grep"));
    assert!(!jumped.iter().any(|a| a == "-n"));
    assert!(!jumped.iter().any(|a| a == "--skip"));
}

#[test]
fn graph_outcome_unborn_head_and_failure() {
    assert!(graph_outcome(Some(128), String::new(), "fatal: your current branch 'main' does not have any commits yet".into())
        .unwrap()
        .is_empty());
    match graph_outcome(Some(-1), "o".into(), "boom".into()) {
        Err(AppError::GitCommand { command, stderr, stdout, detail }) => {
            assert_eq!(command, "git exited with code Some(-1)");
            assert_eq!(stderr, "boom");
            assert_eq!(stdout, "o");
            assert_eq!(detail, None);
        }
        other => panic!("unexpected {other:?}"),
    }
    match graph_outcome(None, String::new(), String::new()) {
        Err(AppError::GitCommand { command, .. }) => assert_eq!(command, "git exited with code None"),
        other => panic!("unexpected {other:?}"),
    }
    assert!(graph_outcome(Some(0), String::new(), String::new()).unwrap().is_empty());
}
