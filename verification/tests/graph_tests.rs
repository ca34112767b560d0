use ibexgit_core::graph::{GraphRow, LayoutState};
use ibexgit_core::model::CommitInfo;


fn commit(hash: &str, parents: &[&str]) -> CommitInfo {
    CommitInfo {
        hash: hash.to_string(),
        short_hash: hash.to_string(),
        author: "a".into(),
        email: "a@t".into(),
        date: "2026-01-01T00:00:00Z".into(),
        message: hash.to_string(),
        refs: Vec::new(),
        parents: parents.iter().map(|p| p.to_string()).collect(),
    }
}

fn layout_all(commits: &[CommitInfo]) -> (Vec<GraphRow>, LayoutState) {
    let mut state = LayoutState::new();
    let mut rows = Vec::new();
    state.layout(commits, &mut rows);
    (rows, state)
}

fn edges_flag(row: &GraphRow, from_node: bool, to_node: bool) -> Vec<(u32, u32)> {
    row.edges
        .iter()
        .filter(|e| e.from_node == from_node && e.to_node == to_node)
        .map(|e| (e.from, e.to))
        .collect()
}

#[test]
fn linear_history_uses_single_lane() {
    let (rows, state) =
        layout_all(&[commit("c", &["b"]), commit("b", &["a"]), commit("a", &[])]);
    assert_eq!(state.width, 1);
    for (i, r) in rows.iter().enumerate() {
        assert_eq!(r.lane, 0);
        let out = edges_flag(r, true, false);
        let inflow = edges_flag(r, false, true);
        if i == 0 {
            // HEAD: no child above → no inflow edge.
            assert!(inflow.is_empty());
            assert_eq!(out, vec![(0, 0)]);
        } else if r.commit.parents.is_empty() {
            // Root: the flow from above ends here — inflow, no out.
            assert_eq!(inflow, vec![(0, 0)]);
            assert!(out.is_empty());
        } else {
            assert_eq!(out, vec![(0, 0)]);
            assert_eq!(inflow, vec![(0, 0)]);
        }
    }
}

#[test]
fn branch_reuses_parent_lane_and_merges_back() {
    // main: a→b→c ; feature forks at b: d→(b)
    let (rows, state) = layout_all(&[
        commit("c", &["b"]),
        commit("d", &["b"]),
        commit("b", &["a"]),
        commit("a", &[]),
    ]);
    assert_eq!(state.width, 2, "fork needs a second column only");
    assert_eq!(rows[0].lane, 0);
    assert_eq!(rows[1].lane, 1);
    // d's edge merges diagonally into b's lane (0), landing at the row
    // boundary (b's upper half continues it straight into the node).
    assert_eq!(edges_flag(&rows[1], true, false), vec![(1, 0)]);
    // b receives the straight inflow from c's lane.
    assert_eq!(edges_flag(&rows[2], false, true), vec![(0, 0)]);
    // Everything collapses back to a single lane at the root.
    assert_eq!(state.active_count(), 0);
}

#[test]
fn merge_commit_fans_out_two_parents() {
    // M merges X and Y; both continue to Z.
    let (rows, state) = layout_all(&[
        commit("m", &["x", "y"]),
        commit("x", &["z"]),
        commit("y", &["z"]),
        commit("z", &[]),
    ]);
    assert_eq!(
        edges_flag(&rows[0], true, false),
        vec![(0, 0), (0, 1)],
        "first parent straight, second fans out"
    );
    // y merges diagonally into z's lane.
    assert_eq!(edges_flag(&rows[2], true, false), vec![(1, 0)]);
    assert_eq!(rows[3].lane, 0);
    assert_eq!(state.active_count(), 0);
    assert_eq!(state.width, 2);
    assert_eq!(state.width(), state.width);
}

#[test]
fn first_parent_flowing_elsewhere_releases_node_lane() {
    // m's first parent x already flows in lane 0 (routed by earlier
    // sibling s) → m's own lane 1 is released and both parent edges go
    // diagonal out of the node.
    let (rows, state) = layout_all(&[
        commit("s", &["x"]),
        commit("m", &["x", "y"]),
        commit("x", &["z"]),
        commit("y", &["z"]),
        commit("z", &[]),
    ]);
    assert_eq!(rows[0].lane, 0);
    assert_eq!(rows[1].lane, 1, "m takes the next free lane");
    assert_eq!(
        edges_flag(&rows[1], true, false),
        vec![(1, 0), (1, 2)],
        "both parents diagonal from m's node"
    );
    // After the whole stream every flow has ended at the root.
    assert_eq!(state.active_count(), 0);
    assert_eq!(state.width, 3);
}

#[test]
fn freed_lane_is_reused_for_next_branch() {
    let (rows, state) = layout_all(&[
        commit("c", &["b"]),
        commit("d", &["b"]),
        commit("b", &["a"]),
        commit("e", &["a"]),
        commit("a", &[]),
    ]);
    assert_eq!(rows[1].lane, 1, "first fork takes lane 1");
    assert_eq!(rows[3].lane, 1, "second fork reuses freed lane 1");
    assert_eq!(state.width, 2);
    assert_eq!(edges_flag(&rows[3], true, false), vec![(1, 0)]);
}

/// Core rendering invariant: every edge crossing a row boundary must
/// continue on the next row at the same lane — otherwise virtualized
/// rows would draw disconnected lines.
#[test]
fn every_row_connects_to_previous_via_shared_lanes() {
    let (rows, _) = layout_all(&[
        commit("m", &["x", "y"]),
        commit("x", &["z"]),
        commit("y", &["z"]),
        commit("z", &[]),
    ]);
    for w in rows.windows(2) {
        let (lower, upper) = (&w[0], &w[1]);
        for e in &lower.edges {
            // Where does this edge arrive at the bottom of `lower`?
            // to_node-only edges terminate at the node — skip them.
            let arrive = if e.from_node {
                Some(e.to)
            } else if e.to_node {
                None
            } else {
                Some(e.from)
            };
            let Some(arrive) = arrive else { continue };
            let found = upper.edges.iter().any(|u| match (u.from_node, u.to_node) {
                // Inflow into upper's node must land on its lane.
                (_, true) => u.from == arrive && upper.lane == arrive,
                // Pass-through or a lower-half edge starting from the
                // top boundary... lower-half edges start at the node,
                // so only pass-through receives from above.
                (false, false) => u.from == arrive,
                (true, false) => false,
            });
            assert!(
                found,
                "edge arriving lane {arrive} on row {} must continue on row {}",
                lower.commit.hash, upper.commit.hash
            );
        }
    }
}

#[test]
fn multiple_roots_share_columns_via_free_list() {
    let (rows, state) = layout_all(&[
        commit("b", &["a"]),
        commit("a", &[]),
        commit("d", &["c"]),
        commit("c", &[]),
    ]);
    // The first chain's lane is released before the second root, so
    // both chains share column 0 (free-list reuse keeps width minimal).
    assert_eq!(rows[0].lane, 0);
    assert_eq!(rows[2].lane, 0);
    assert_eq!(state.width, 1);
    assert_eq!(state.active_count(), 0, "both roots end as leaves");
}

#[test]
fn resumable_layout_matches_single_pass() {
    // Laying out in two batches (500/批 增量) must equal one pass.
    let commits = vec![
        commit("m", &["x", "y"]),
        commit("x", &["z"]),
        commit("y", &["z"]),
        commit("z", &[]),
    ];
    let (one_pass, _) = layout_all(&commits);
    let mut state = LayoutState::new();
    let mut rows = Vec::new();
    state.layout(&commits[..2], &mut rows);
    state.layout(&commits[2..], &mut rows);
    assert_eq!(rows, one_pass);
}

/// Generate a topo-valid fixture: oldest→newest (parents already
/// exist), then reversed into topo order. Main line with a merge every
/// 8th main commit; the merged branch chain is extended 2 commits past
/// each merge point so future merges have fresh tips.
fn generate_fixture(n: usize) -> Vec<CommitInfo> {
    let mut oldest_first: Vec<CommitInfo> = Vec::with_capacity(n);
    let mut branch_tips: Vec<Option<usize>> = vec![None; 3];
    let mut main_prev: Option<usize> = None;
    let mut next_id = 0usize;
    let mut main_count = 0usize;
    while oldest_first.len() < n {
        let cur = next_id;
        next_id += 1;
        let mut parents: Vec<String> = Vec::new();
        if let Some(p) = main_prev {
            parents.push(format!("c{p}"));
        }
        let is_merge = main_prev.is_some() && main_count.is_multiple_of(8);
        if is_merge {
            let b = (main_count / 8) % 3;
            if let Some(t) = branch_tips[b] {
                parents.push(format!("c{t}"));
            }
        }
        // The merge commit itself must be pushed BEFORE its extension
        // chain (the chain hangs off it, i.e. is newer).
        oldest_first.push(commit(
            &format!("c{cur}"),
            &parents.iter().map(|s| s.as_str()).collect::<Vec<_>>(),
        ));
        if is_merge && oldest_first.len() + 2 < n {
            let b = (main_count / 8) % 3;
            let mut prev = cur;
            for _ in 0..2 {
                let next = next_id;
                next_id += 1;
                oldest_first.push(commit(&format!("c{next}"), &[&format!("c{prev}")]));
                prev = next;
            }
            branch_tips[b] = Some(prev);
        }
        main_prev = Some(cur);
        main_count += 1;
    }
    oldest_first.into_iter().rev().collect()
}
