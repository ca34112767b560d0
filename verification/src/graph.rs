//! Commit-graph lane layout over a topo-ordered commit stream (children
//! before parents). The layout is resumable: it keeps an "active lanes"
//! state so batches can be appended incrementally, and every row is
//! self-contained (its node, and each edge segment crossing it).

use vstd::prelude::*;
use crate::model::{CommitInfo, CommitInfoV, seq_view, lemma_seq_view_push};
use crate::text::{to_chars, eq_chars, strs};

verus! {

// =====================
// Rows
// =====================

/// One edge segment drawn within a single commit row.
#[derive(Debug, Clone, Copy, PartialEq, Eq, Structural)]
pub struct GraphEdge {
    /// Lane (column) where the edge starts on this row.
    pub from: u32,
    /// Lane (column) where the edge ends on this row.
    pub to: u32,
    /// The edge starts at this row's node (lower half).
    pub from_node: bool,
    /// The edge ends at this row's node (upper half).
    pub to_node: bool,
}

/// One rendered row of the commit graph.
#[derive(Debug, Clone, PartialEq, Eq)]
pub struct GraphRow {
    pub commit: CommitInfo,
    /// Column of this commit's node.
    pub lane: u32,
    pub edges: Vec<GraphEdge>,
}

pub struct GraphRowV {
    pub commit: CommitInfoV,
    pub lane: u32,
    pub edges: Seq<GraphEdge>,
}

impl View for GraphRow {
    type V = GraphRowV;

    open spec fn view(&self) -> GraphRowV {
        GraphRowV { commit: self.commit@, lane: self.lane, edges: self.edges@ }
    }
}

/// One page of the commit graph: `start` is the row index of `rows[0]`.
#[derive(Debug, Clone)]
pub struct GraphPage {
    pub rows: Vec<GraphRow>,
    pub start: u32,
    /// The history is exhausted: no further pages.
    pub complete: bool,
    /// Lanes used so far (column count).
    pub width: u32,
}

// =====================
// Lane state model
// =====================

/// The lane state: `active[l]` is the commit the flow in lane `l` points
/// at; `free` the released lanes, ascending; `lane_of` the flowing commits
/// with their lanes; `width` the column count.
pub struct Lanes {
    pub active: Seq<Option<Seq<char>>>,
    pub free: Seq<nat>,
    pub lane_of: Seq<(Seq<char>, nat)>,
    pub width: nat,
}

/// First entry of `m` at or after `i` for commit `h`.
pub open spec fn key_from(m: Seq<(Seq<char>, nat)>, h: Seq<char>, i: int) -> Option<int>
    decreases m.len() - i,
{
    if i < 0 || i >= m.len() {
        None
    } else if m[i].0 == h {
        Some(i)
    } else {
        key_from(m, h, i + 1)
    }
}

pub open spec fn lookup(m: Seq<(Seq<char>, nat)>, h: Seq<char>) -> Option<nat> {
    match key_from(m, h, 0) {
        Some(k) => Some(m[k].1),
        None => None,
    }
}

pub open spec fn forget(m: Seq<(Seq<char>, nat)>, h: Seq<char>) -> Seq<(Seq<char>, nat)> {
    match key_from(m, h, 0) {
        Some(k) => m.remove(k),
        None => m,
    }
}

pub open spec fn record(m: Seq<(Seq<char>, nat)>, h: Seq<char>, l: nat) -> Seq<(Seq<char>, nat)> {
    match key_from(m, h, 0) {
        Some(k) => m.update(k, (h, l)),
        None => m.push((h, l)),
    }
}

/// First position at or after `i` whose lane is at least `x`.
pub open spec fn pos_from(s: Seq<nat>, x: nat, i: int) -> int
    decreases s.len() - i,
{
    if i < 0 || i >= s.len() {
        s.len() as int
    } else if s[i] >= x {
        i
    } else {
        pos_from(s, x, i + 1)
    }
}

/// Adds lane `x` to the ascending free list.
pub open spec fn free_insert(s: Seq<nat>, x: nat) -> Seq<nat> {
    let p = pos_from(s, x, 0);
    if p < s.len() && s[p] == x {
        s
    } else {
        s.insert(p, x)
    }
}

/// The lowest free lane, else a new column.
pub open spec fn acquire(st: Lanes) -> (nat, Lanes) {
    if st.free.len() > 0 {
        (st.free[0], Lanes { free: st.free.skip(1), ..st })
    } else {
        let l = st.active.len();
        (
            l,
            Lanes {
                active: st.active.push(None),
                width: if st.width >= l + 1 {
                    st.width
                } else {
                    l + 1
                },
                ..st
            },
        )
    }
}

/// Lane `l` stops flowing and becomes free.
pub open spec fn release(st: Lanes, l: nat) -> Lanes {
    Lanes {
        lane_of: match st.active[l as int] {
            Some(prev) => forget(st.lane_of, prev),
            None => st.lane_of,
        },
        active: st.active.update(l as int, None),
        free: free_insert(st.free, l),
        ..st
    }
}

/// Lane `l` now flows towards commit `h`.
pub open spec fn flow_to(st: Lanes, l: nat, h: Seq<char>) -> Lanes {
    Lanes { active: st.active.update(l as int, Some(h)), lane_of: record(st.lane_of, h, l), ..st }
}

pub open spec fn edge(from: nat, to: nat, from_node: bool, to_node: bool) -> GraphEdge {
    GraphEdge { from: from as u32, to: to as u32, from_node, to_node }
}

/// A row under construction: lanes, edges so far, and whether the node's
/// lane is still free for the first parent.
pub struct RowAcc {
    pub st: Lanes,
    pub edges: Seq<GraphEdge>,
    pub reusable: bool,
}

/// Routes parent number `i` out of the node in `lane`.
pub open spec fn parent_step(acc: RowAcc, lane: nat, i: int, parent: Seq<char>) -> RowAcc {
    match lookup(acc.st.lane_of, parent) {
        Some(target) => RowAcc { edges: acc.edges.push(edge(lane, target, true, false)), ..acc },
        None => if i == 0 && acc.reusable {
            RowAcc {
                st: flow_to(acc.st, lane, parent),
                edges: acc.edges.push(edge(lane, lane, true, false)),
                reusable: false,
            }
        } else {
            let (t, s) = acquire(acc.st);
            RowAcc {
                st: flow_to(s, t, parent),
                edges: acc.edges.push(edge(lane, t, true, false)),
                reusable: acc.reusable,
            }
        },
    }
}

pub open spec fn route_parents(acc: RowAcc, lane: nat, ps: Seq<Seq<char>>) -> RowAcc
    decreases ps.len(),
{
    if ps.len() == 0 {
        acc
    } else {
        parent_step(route_parents(acc, lane, ps.drop_last()), lane, ps.len() - 1, ps.last())
    }
}

/// Vertical pass-through edges of the lanes below `n` that flow, but the node's.
pub open spec fn pass_edges(active: Seq<Option<Seq<char>>>, lane: nat, n: int) -> Seq<GraphEdge>
    decreases n,
{
    if n <= 0 {
        Seq::<GraphEdge>::empty()
    } else {
        let p = pass_edges(active, lane, n - 1);
        if active[n - 1] is Some && n - 1 != lane {
            p.push(edge((n - 1) as nat, (n - 1) as nat, false, false))
        } else {
            p
        }
    }
}

/// The node lane, whether a flow arrives there, and the state after taking it.
pub open spec fn node_lane(st: Lanes, hash: Seq<char>) -> (nat, bool, Lanes) {
    match lookup(st.lane_of, hash) {
        Some(l) => (l, true, Lanes { lane_of: forget(st.lane_of, hash), ..st }),
        None => (acquire(st).0, false, acquire(st).1),
    }
}

/// Lays out one commit: the new state, its lane and its edges.
pub open spec fn layout_one(st: Lanes, c: CommitInfoV) -> (Lanes, nat, Seq<GraphEdge>) {
    let (lane, inflow, st1) = node_lane(st, c.hash);
    let edges0 = if inflow {
        seq![edge(lane, lane, false, true)]
    } else {
        Seq::<GraphEdge>::empty()
    };
    let acc = route_parents(RowAcc { st: st1, edges: edges0, reusable: true }, lane, c.parents);
    let st3 = if acc.reusable {
        release(acc.st, lane)
    } else {
        acc.st
    };
    (st3, lane, acc.edges + pass_edges(st3.active, lane, st3.active.len() as int))
}

/// The state after laying out `cs`.
pub open spec fn layout_state(st: Lanes, cs: Seq<CommitInfoV>) -> Lanes
    decreases cs.len(),
{
    if cs.len() == 0 {
        st
    } else {
        layout_one(layout_state(st, cs.drop_last()), cs.last()).0
    }
}

/// The rows of `cs`.
pub open spec fn layout_rows(st: Lanes, cs: Seq<CommitInfoV>) -> Seq<GraphRowV>
    decreases cs.len(),
{
    if cs.len() == 0 {
        Seq::<GraphRowV>::empty()
    } else {
        let r = layout_one(layout_state(st, cs.drop_last()), cs.last());
        layout_rows(st, cs.drop_last()).push(
            GraphRowV { commit: cs.last(), lane: r.1 as u32, edges: r.2 },
        )
    }
}

/// A consistent lane state: free lanes are ascending, in range and idle;
/// each flowing commit is recorded once, at a lane that flows towards it.
pub open spec fn lanes_wf(st: Lanes) -> bool {
    &&& forall|k: int| 0 <= k < st.free.len() ==> #[trigger] st.free[k] < st.active.len() && st.active[st.free[k] as int] is None
    &&& forall|j: int, k: int| 0 <= j < k < st.free.len() ==> st.free[j] < st.free[k]
    &&& forall|k: int| 0 <= k < st.lane_of.len() ==> #[trigger] st.lane_of[k].1 < st.active.len() && st.active[st.lane_of[k].1 as int] == Some(st.lane_of[k].0)
    &&& forall|j: int, k: int| 0 <= j < k < st.lane_of.len() ==> st.lane_of[j].0 != st.lane_of[k].0
}

pub open spec fn active_lanes(active: Seq<Option<Seq<char>>>) -> nat
    decreases active.len(),
{
    if active.len() == 0 {
        0
    } else {
        active_lanes(active.drop_last()) + if active.last() is Some {
            1nat
        } else {
            0nat
        }
    }
}


// =====================
// Lemmas on the lane state
// =====================

proof fn lemma_key_from(m: Seq<(Seq<char>, nat)>, h: Seq<char>, i: int)
    requires
        0 <= i,
    ensures
        match key_from(m, h, i) {
            Some(k) => i <= k < m.len() && m[k].0 == h && forall|j: int| i <= j < k ==> m[j].0 != h,
            None => forall|j: int| i <= j < m.len() ==> m[j].0 != h,
        },
    decreases m.len() - i,
{
    if i < m.len() && m[i].0 != h {
        lemma_key_from(m, h, i + 1);
    }
}

proof fn lemma_pos_from(s: Seq<nat>, x: nat, i: int)
    requires
        0 <= i <= s.len(),
    ensures
        i <= pos_from(s, x, i) <= s.len(),
        forall|j: int| i <= j < pos_from(s, x, i) ==> s[j] < x,
        pos_from(s, x, i) < s.len() ==> s[pos_from(s, x, i)] >= x,
    decreases s.len() - i,
{
    if i < s.len() && s[i] < x {
        lemma_pos_from(s, x, i + 1);
    }
}

/// No recorded commit flows in lane `l`.
pub open spec fn no_entry_at(m: Seq<(Seq<char>, nat)>, l: nat) -> bool {
    forall|k: int| 0 <= k < m.len() ==> #[trigger] m[k].1 != l
}

pub open spec fn not_free(free: Seq<nat>, l: nat) -> bool {
    forall|k: int| 0 <= k < free.len() ==> #[trigger] free[k] != l
}

proof fn lemma_forget(st: Lanes, h: Seq<char>)
    requires
        lanes_wf(st),
    ensures
        lanes_wf(Lanes { lane_of: forget(st.lane_of, h), ..st }),
        lookup(forget(st.lane_of, h), h) is None,
        forall|k: int|
            0 <= k < forget(st.lane_of, h).len() ==> exists|j: int|
                0 <= j < st.lane_of.len() && st.lane_of[j] == #[trigger] forget(st.lane_of, h)[k],
        forall|l: nat|
            no_entry_at(st.lane_of, l) ==> #[trigger] no_entry_at(forget(st.lane_of, h), l),
{
    let m = st.lane_of;
    lemma_key_from(m, h, 0);
    let r = forget(m, h);
    match key_from(m, h, 0) {
        Some(k) => {
            assert forall|j: int| 0 <= j < r.len() implies r[j] == (if j < k {
                m[j]
            } else {
                m[j + 1]
            }) by {}
            assert forall|a: int| 0 <= a < r.len() implies exists|j: int|
                0 <= j < m.len() && m[j] == #[trigger] r[a] by {
                if a < k {
                    assert(m[a] == r[a]);
                } else {
                    assert(m[a + 1] == r[a]);
                }
            }
            lemma_key_from(r, h, 0);
            if let Some(k2) = key_from(r, h, 0) {
                if k2 < k {
                    assert(r[k2] == m[k2]);
                } else {
                    assert(r[k2] == m[k2 + 1]);
                    assert(m[k].0 != m[k2 + 1].0);
                }
            }
            assert forall|a: int, b: int| 0 <= a < b < r.len() implies r[a].0 != r[b].0 by {
                let ia = if a < k {
                    a
                } else {
                    a + 1
                };
                let ib = if b < k {
                    b
                } else {
                    b + 1
                };
                assert(r[a] == m[ia] && r[b] == m[ib] && ia < ib);
            }
        },
        None => {},
    }
}

proof fn lemma_flow_to(st: Lanes, l: nat, h: Seq<char>)
    requires
        lanes_wf(st),
        l < st.active.len(),
        not_free(st.free, l),
        no_entry_at(st.lane_of, l),
    ensures
        lanes_wf(flow_to(st, l, h)),
        lookup(flow_to(st, l, h).lane_of, h) == Some(l),
        forall|x: nat| x != l && #[trigger] no_entry_at(st.lane_of, x) ==> exists|k: int|
            0 <= k < flow_to(st, l, h).lane_of.len() && flow_to(st, l, h).lane_of[k].0 == h
                && forall|j: int|
                0 <= j < flow_to(st, l, h).lane_of.len() && j != k ==> flow_to(
                    st,
                    l,
                    h,
                ).lane_of[j].1 != x,
{
    let m = st.lane_of;
    let r = record(m, h, l);
    let a2 = st.active.update(l as int, Some(h));
    lemma_key_from(m, h, 0);
    match key_from(m, h, 0) {
        Some(k) => {
            assert(r[k] == (h, l));
            lemma_key_from(r, h, 0);
            assert forall|j: int| 0 <= j < r.len() implies #[trigger] r[j].1 < a2.len()
                && a2[r[j].1 as int] == Some(r[j].0) by {
                if j != k {
                    assert(r[j] == m[j]);
                    assert(m[j].1 != l);
                }
            }
            assert forall|a: int, b: int| 0 <= a < b < r.len() implies r[a].0 != r[b].0 by {
                if a != k && b != k {
                    assert(r[a] == m[a] && r[b] == m[b]);
                } else if a == k {
                    assert(r[b] == m[b]);
                    assert(m[k].0 != m[b].0);
                } else {
                    assert(r[a] == m[a]);
                    assert(m[a].0 != m[k].0);
                }
            }
            assert forall|x: nat| x != l && #[trigger] no_entry_at(m, x) implies exists|k0: int|
                0 <= k0 < r.len() && r[k0].0 == h && forall|j: int|
                    0 <= j < r.len() && j != k0 ==> r[j].1 != x by {
                assert forall|j: int| 0 <= j < r.len() && j != k implies r[j].1 != x by {
                    assert(r[j] == m[j]);
                }
            }
        },
        None => {
            assert(r == m.push((h, l)));
            assert(r[m.len() as int] == (h, l));
            lemma_key_from(r, h, 0);
            assert forall|j: int| 0 <= j < r.len() implies #[trigger] r[j].1 < a2.len()
                && a2[r[j].1 as int] == Some(r[j].0) by {
                if j < m.len() {
                    assert(r[j] == m[j]);
                    assert(m[j].1 != l);
                }
            }
            assert forall|a: int, b: int| 0 <= a < b < r.len() implies r[a].0 != r[b].0 by {
                assert(r[a] == m[a]);
                if b < m.len() {
                    assert(r[b] == m[b]);
                }
            }
            assert forall|x: nat| x != l && #[trigger] no_entry_at(m, x) implies exists|k0: int|
                0 <= k0 < r.len() && r[k0].0 == h && forall|j: int|
                    0 <= j < r.len() && j != k0 ==> r[j].1 != x by {
                let k0 = m.len() as int;
                assert forall|j: int| 0 <= j < r.len() && j != k0 implies r[j].1 != x by {
                    assert(r[j] == m[j]);
                }
            }
        },
    }
    let st2 = flow_to(st, l, h);
    assert forall|k: int| 0 <= k < st2.free.len() implies #[trigger] st2.free[k] < st2.active.len()
        && st2.active[st2.free[k] as int] is None by {
        assert(st.free[k] != l);
    }
}


proof fn lemma_acquire(st: Lanes)
    requires
        lanes_wf(st),
    ensures
        ({
            let (t, s) = acquire(st);
            &&& lanes_wf(s)
            &&& t < s.active.len()
            &&& s.active[t as int] is None
            &&& not_free(s.free, t)
            &&& no_entry_at(s.lane_of, t)
            &&& s.lane_of == st.lane_of
            &&& s.active.len() >= st.active.len()
            &&& forall|x: int| 0 <= x < st.active.len() ==> s.active[x] == st.active[x]
            &&& forall|x: nat| #[trigger] not_free(st.free, x) ==> not_free(s.free, x)
            &&& (st.active.len() <= t || !not_free(st.free, t))
        }),
{
    let (t, s) = acquire(st);
    if st.free.len() > 0 {
        assert forall|k: int| 0 <= k < s.free.len() implies #[trigger] s.free[k] != t by {
            assert(s.free[k] == st.free[k + 1]);
        }
        assert forall|k: int| 0 <= k < s.lane_of.len() implies #[trigger] s.lane_of[k].1 != t by {
            assert(st.active[st.lane_of[k].1 as int] is Some);
        }
        assert forall|x: nat| #[trigger] not_free(st.free, x) implies not_free(s.free, x) by {
            assert forall|k: int| 0 <= k < s.free.len() implies #[trigger] s.free[k] != x by {
                assert(s.free[k] == st.free[k + 1]);
            }
        }
        assert(st.free[0] == t);
    } else {
        assert forall|k: int| 0 <= k < s.lane_of.len() implies #[trigger] s.lane_of[k].1 != t by {}
    }
}

proof fn lemma_free_insert(s: Seq<nat>, x: nat)
    requires
        forall|j: int, k: int| 0 <= j < k < s.len() ==> s[j] < s[k],
    ensures
        forall|j: int, k: int|
            0 <= j < k < free_insert(s, x).len() ==> free_insert(s, x)[j] < free_insert(s, x)[k],
        forall|k: int|
            0 <= k < free_insert(s, x).len() ==> #[trigger] free_insert(s, x)[k] == x || exists|
                j: int,
            |
                0 <= j < s.len() && s[j] == free_insert(s, x)[k],
        forall|y: nat| y != x && #[trigger] not_free(s, y) ==> not_free(free_insert(s, x), y),
{
    lemma_pos_from(s, x, 0);
    let p = pos_from(s, x, 0);
    let r = free_insert(s, x);
    if p < s.len() && s[p] == x {
        assert forall|k: int| 0 <= k < r.len() implies #[trigger] r[k] == x || exists|j: int|
            0 <= j < s.len() && s[j] == r[k] by {
            assert(s[k] == r[k]);
        }
    } else {
        assert forall|k: int| 0 <= k < r.len() implies r[k] == (if k < p {
            s[k]
        } else if k == p {
            x
        } else {
            s[k - 1]
        }) by {}
        assert forall|j: int, k: int| 0 <= j < k < r.len() implies r[j] < r[k] by {
            if k < p {
            } else if k == p {
                assert(s[j] < x);
            } else if j < p {
                assert(s[k - 1] >= s[p]);
            } else if j == p {
                assert(s[k - 1] >= s[p]);
                if k - 1 > p {
                    assert(s[p] < s[k - 1]);
                }
            } else {
            }
        }
        assert forall|k: int| 0 <= k < r.len() implies #[trigger] r[k] == x || exists|j: int|
            0 <= j < s.len() && s[j] == r[k] by {
            if k < p {
                assert(s[k] == r[k]);
            } else if k > p {
                assert(s[k - 1] == r[k]);
            }
        }
    }
    assert forall|y: nat| y != x && #[trigger] not_free(s, y) implies not_free(r, y) by {
        assert forall|k: int| 0 <= k < r.len() implies #[trigger] r[k] != y by {
            if r[k] != x {
                let j = choose|j: int| 0 <= j < s.len() && s[j] == r[k];
                assert(s[j] != y);
            }
        }
    }
}

proof fn lemma_release(st: Lanes, l: nat)
    requires
        lanes_wf(st),
        l < st.active.len(),
    ensures
        lanes_wf(release(st, l)),
        release(st, l).active.len() == st.active.len(),
        forall|x: int| 0 <= x < st.active.len() && x != l ==> release(st, l).active[x] == st.active[x],
        forall|y: nat| y != l && #[trigger] not_free(st.free, y) ==> not_free(release(st, l).free, y),
{
    let r = release(st, l);
    lemma_free_insert(st.free, l);
    match st.active[l as int] {
        Some(prev) => {
            lemma_forget(st, prev);
            let m = forget(st.lane_of, prev);
            assert forall|k: int| 0 <= k < r.lane_of.len() implies #[trigger] r.lane_of[k].1
                < r.active.len() && r.active[r.lane_of[k].1 as int] == Some(r.lane_of[k].0) by {
                let j = choose|j: int| 0 <= j < st.lane_of.len() && st.lane_of[j] == m[k];
                if st.lane_of[j].1 == l {
                    assert(st.lane_of[j].0 == prev);
                    lemma_key_from(m, prev, 0);
                    assert(m[k].0 == prev);
                    assert(key_from(m, prev, 0) is Some);
                }
            }
        },
        None => {
            assert forall|k: int| 0 <= k < r.lane_of.len() implies #[trigger] r.lane_of[k].1
                < r.active.len() && r.active[r.lane_of[k].1 as int] == Some(r.lane_of[k].0) by {
                assert(st.lane_of[k].1 != l);
            }
        },
    }
    assert forall|k: int| 0 <= k < r.free.len() implies #[trigger] r.free[k] < r.active.len()
        && r.active[r.free[k] as int] is None by {
        if r.free[k] != l {
            let j = choose|j: int| 0 <= j < st.free.len() && st.free[j] == r.free[k];
        }
    }
}


/// What routing parents keeps: a consistent state whose node lane is in
/// range and not free, and unrecorded while the first parent may take it.
pub open spec fn route_ok(acc: RowAcc, lane: nat) -> bool {
    &&& lanes_wf(acc.st)
    &&& lane < acc.st.active.len()
    &&& not_free(acc.st.free, lane)
    &&& acc.reusable ==> no_entry_at(acc.st.lane_of, lane)
}

proof fn lemma_parent_step(acc: RowAcc, lane: nat, i: int, parent: Seq<char>)
    requires
        route_ok(acc, lane),
    ensures
        route_ok(parent_step(acc, lane, i, parent), lane),
{
    match lookup(acc.st.lane_of, parent) {
        Some(target) => {},
        None => {
            if i == 0 && acc.reusable {
                lemma_flow_to(acc.st, lane, parent);
                let st2 = flow_to(acc.st, lane, parent);
                assert forall|k: int| 0 <= k < st2.free.len() implies #[trigger] st2.free[k] != lane by {
                    assert(acc.st.free[k] != lane);
                }
            } else {
                lemma_acquire(acc.st);
                let (t, s) = acquire(acc.st);
                assert(t != lane);
                lemma_flow_to(s, t, parent);
                let st2 = flow_to(s, t, parent);
                assert forall|k: int| 0 <= k < st2.free.len() implies #[trigger] st2.free[k] != lane by {
                    assert(not_free(s.free, lane));
                    assert(s.free[k] != lane);
                }
                if acc.reusable {
                    lemma_key_from(s.lane_of, parent, 0);
                    assert forall|k: int| 0 <= k < st2.lane_of.len() implies #[trigger] st2.lane_of[k].1
                        != lane by {
                        match key_from(s.lane_of, parent, 0) {
                            Some(k0) => {
                                if k != k0 {
                                    assert(st2.lane_of[k] == s.lane_of[k]);
                                }
                            },
                            None => {
                                if k < s.lane_of.len() {
                                    assert(st2.lane_of[k] == s.lane_of[k]);
                                }
                            },
                        }
                    }
                }
            }
        },
    }
}

proof fn lemma_route(acc: RowAcc, lane: nat, ps: Seq<Seq<char>>)
    requires
        route_ok(acc, lane),
    ensures
        route_ok(route_parents(acc, lane, ps), lane),
    decreases ps.len(),
{
    if ps.len() > 0 {
        lemma_route(acc, lane, ps.drop_last());
        lemma_parent_step(route_parents(acc, lane, ps.drop_last()), lane, ps.len() - 1, ps.last());
    }
}

proof fn lemma_node_lane(st: Lanes, hash: Seq<char>)
    requires
        lanes_wf(st),
    ensures
        route_ok(
            RowAcc { st: node_lane(st, hash).2, edges: Seq::<GraphEdge>::empty(), reusable: true },
            node_lane(st, hash).0,
        ),
{
    let (lane, inflow, st1) = node_lane(st, hash);
    match lookup(st.lane_of, hash) {
        Some(l) => {
            lemma_key_from(st.lane_of, hash, 0);
            lemma_forget(st, hash);
            let k = key_from(st.lane_of, hash, 0)->0;
            assert(st.active[l as int] == Some(hash));
            assert forall|j: int| 0 <= j < st.free.len() implies #[trigger] st.free[j] != l by {}
            assert forall|j: int| 0 <= j < st1.lane_of.len() implies #[trigger] st1.lane_of[j].1
                != l by {
                let j0 = choose|j0: int|
                    0 <= j0 < st.lane_of.len() && st.lane_of[j0] == st1.lane_of[j];
                if st.lane_of[j0].1 == l {
                    assert(st.lane_of[j0].0 == hash);
                    lemma_key_from(st1.lane_of, hash, 0);
                    assert(key_from(st1.lane_of, hash, 0) is Some);
                }
            }
        },
        None => {
            lemma_acquire(st);
        },
    }
}

/// Laying out a commit keeps the lane state consistent.
proof fn lemma_layout_one_wf(st: Lanes, c: CommitInfoV)
    requires
        lanes_wf(st),
    ensures
        lanes_wf(layout_one(st, c).0),
{
    let (lane, inflow, st1) = node_lane(st, c.hash);
    let edges0 = if inflow {
        seq![edge(lane, lane, false, true)]
    } else {
        Seq::<GraphEdge>::empty()
    };
    lemma_node_lane(st, c.hash);
    let acc0 = RowAcc { st: st1, edges: edges0, reusable: true };
    assert(route_ok(acc0, lane));
    lemma_route(acc0, lane, c.parents);
    let acc = route_parents(acc0, lane, c.parents);
    if acc.reusable {
        lemma_release(acc.st, lane);
    }
}

proof fn lemma_layout_state_wf(st: Lanes, cs: Seq<CommitInfoV>)
    requires
        lanes_wf(st),
    ensures
        lanes_wf(layout_state(st, cs)),
    decreases cs.len(),
{
    if cs.len() > 0 {
        lemma_layout_state_wf(st, cs.drop_last());
        lemma_layout_one_wf(layout_state(st, cs.drop_last()), cs.last());
    }
}


// =====================
// The layout
// =====================

/// Resumable lane state: the unit a cached graph resumes its layout from.
#[derive(Debug, Clone)]
pub struct LayoutState {
    /// `active[l]`: the commit the flow in lane `l` points at.
    active: Vec<Option<Vec<char>>>,
    /// Released lanes available for reuse, ascending.
    free: Vec<usize>,
    /// Flowing commit and its lane, one entry per commit.
    lane_of: Vec<(Vec<char>, usize)>,
    /// Highest lane index ever used + 1 (the column count).
    pub width: usize,
}

pub open spec fn opt_chars(o: Option<Vec<char>>) -> Option<Seq<char>> {
    match o {
        Some(v) => Some(v@),
        None => None,
    }
}

impl View for LayoutState {
    type V = Lanes;

    closed spec fn view(&self) -> Lanes {
        Lanes {
            active: self.active@.map_values(|o: Option<Vec<char>>| opt_chars(o)),
            free: self.free@.map_values(|x: usize| x as nat),
            lane_of: self.lane_of@.map_values(|p: (Vec<char>, usize)| (p.0@, p.1 as nat)),
            width: self.width as nat,
        }
    }
}

fn copy_chars(v: &[char]) -> (r: Vec<char>)
    ensures
        r@ == v@,
{
    let mut r: Vec<char> = Vec::new();
    let mut i: usize = 0;
    while i < v.len()
        invariant
            0 <= i <= v@.len(),
            r@ == v@.take(i as int),
        decreases v.len() - i,
    {
        r.push(v[i]);
        assert(v@.take(i + 1) =~= v@.take(i as int).push(v@[i as int]));
        i += 1;
    }
    assert(v@.take(v@.len() as int) =~= v@);
    r
}

fn pass_edge(l: usize) -> (r: GraphEdge)
    ensures
        r == edge(l as nat, l as nat, false, false),
{
    GraphEdge { from: l as u32, to: l as u32, from_node: false, to_node: false }
}

fn out_edge(from: usize, to: usize) -> (r: GraphEdge)
    ensures
        r == edge(from as nat, to as nat, true, false),
{
    GraphEdge { from: from as u32, to: to as u32, from_node: true, to_node: false }
}

impl LayoutState {
    /// The lane state a layout starts from: no lanes.
    pub closed spec fn wf(&self) -> bool {
        lanes_wf(self@)
    }

    pub fn new() -> (r: Self)
        ensures
            r@ == (Lanes {
                active: Seq::<Option<Seq<char>>>::empty(),
                free: Seq::<nat>::empty(),
                lane_of: Seq::<(Seq<char>, nat)>::empty(),
                width: 0,
            }),
            r.wf(),
    {
        let r = LayoutState { active: Vec::new(), free: Vec::new(), lane_of: Vec::new(), width: 0 };
        assert(r@.active =~= Seq::<Option<Seq<char>>>::empty());
        assert(r@.free =~= Seq::<nat>::empty());
        assert(r@.lane_of =~= Seq::<(Seq<char>, nat)>::empty());
        r
    }

    /// The column count: the highest lane index ever used, plus one (the
    /// public `width` field).
    pub fn width(&self) -> (r: usize)
        ensures
            r as nat == self@.width,
    {
        self.width
    }

    /// Number of currently active (non-free) lanes.
    pub fn active_count(&self) -> (r: usize)
        ensures
            r == active_lanes(self@.active),
    {
        let ghost a = self@.active;
        let mut n: usize = 0;
        let mut i: usize = 0;
        while i < self.active.len()
            invariant
                a == self@.active,
                0 <= i <= a.len(),
                n == active_lanes(a.take(i as int)),
                n <= i,
            decreases self.active.len() - i,
        {
            assert(a.take(i + 1).drop_last() =~= a.take(i as int));
            assert(a[i as int] == opt_chars(self.active@[i as int]));
            if self.active[i].is_some() {
                n += 1;
            }
            i += 1;
        }
        assert(a.take(a.len() as int) =~= a);
        n
    }

    /// Number of released lanes available for reuse.
    pub fn free_len(&self) -> (r: usize)
        ensures
            r == self@.free.len(),
    {
        self.free.len()
    }

    fn key_index(&self, h: &[char]) -> (r: Option<usize>)
        ensures
            match r {
                Some(k) => key_from(self@.lane_of, h@, 0) == Some(k as int) && k < self.lane_of@.len(),
                None => key_from(self@.lane_of, h@, 0) is None,
            },
    {
        let ghost m = self@.lane_of;
        let mut i: usize = 0;
        while i < self.lane_of.len()
            invariant
                m == self@.lane_of,
                0 <= i <= m.len(),
                key_from(m, h@, 0) == key_from(m, h@, i as int),
            decreases self.lane_of.len() - i,
        {
            assert(m[i as int].0 == self.lane_of@[i as int].0@);
            if eq_chars(self.lane_of[i].0.as_slice(), h) {
                return Some(i);
            }
            i += 1;
        }
        None
    }

    fn lookup_lane(&self, h: &[char]) -> (r: Option<usize>)
        ensures
            match r {
                Some(l) => lookup(self@.lane_of, h@) == Some(l as nat),
                None => lookup(self@.lane_of, h@) is None,
            },
    {
        match self.key_index(h) {
            Some(k) => Some(self.lane_of[k].1),
            None => None,
        }
    }

    fn forget_key(&mut self, h: &[char])
        ensures
            final(self)@ == (Lanes { lane_of: forget(old(self)@.lane_of, h@), ..old(self)@ }),
    {
        match self.key_index(h) {
            Some(k) => {
                self.lane_of.remove(k);
                assert(self@.lane_of =~= forget(old(self)@.lane_of, h@));
            },
            None => {},
        }
    }

    fn record_key(&mut self, h: &[char], l: usize)
        ensures
            final(self)@ == (Lanes { lane_of: record(old(self)@.lane_of, h@, l as nat), ..old(self)@ }),
    {
        let key = copy_chars(h);
        match self.key_index(h) {
            Some(k) => {
                self.lane_of.set(k, (key, l));
                assert(self@.lane_of =~= record(old(self)@.lane_of, h@, l as nat));
            },
            None => {
                self.lane_of.push((key, l));
                assert(self@.lane_of =~= record(old(self)@.lane_of, h@, l as nat));
            },
        }
    }

    /// Lowest free lane, else a new column.
    fn acquire_lane(&mut self) -> (r: usize)
        ensures
            (r as nat, final(self)@) == acquire(old(self)@),
    {
        if self.free.len() > 0 {
            let l = self.free.remove(0);
            assert(self@.free =~= old(self)@.free.skip(1));
            l
        } else {
            let l = self.active.len();
            self.active.push(None);
            let n = self.active.len();
            if self.width < n {
                self.width = n;
            }
            assert(self@.active =~= old(self)@.active.push(None));
            l
        }
    }

    fn release_lane(&mut self, l: usize)
        requires
            l < old(self)@.active.len(),
        ensures
            final(self)@ == release(old(self)@, l as nat),
    {
        let prev = match &self.active[l] {
            Some(p) => Some(copy_chars(p.as_slice())),
            None => None,
        };
        assert(opt_chars(prev) == old(self)@.active[l as int]);
        match prev {
            Some(p) => self.forget_key(p.as_slice()),
            None => {},
        }
        self.active.set(l, None);
        let mut p: usize = 0;
        let ghost fv = self@.free;
        while p < self.free.len() && self.free[p] < l
            invariant
                fv == self@.free,
                0 <= p <= fv.len(),
                pos_from(fv, l as nat, 0) == pos_from(fv, l as nat, p as int),
            decreases self.free.len() - p,
        {
            p += 1;
        }
        if !(p < self.free.len() && self.free[p] == l) {
            self.free.insert(p, l);
        }
        assert(self@.free =~= free_insert(old(self)@.free, l as nat));
        assert(self@.active =~= old(self)@.active.update(l as int, None));
    }

    /// Lane `l` now flows towards commit `h`.
    fn flow_to_lane(&mut self, l: usize, h: &[char])
        requires
            l < old(self)@.active.len(),
        ensures
            final(self)@ == flow_to(old(self)@, l as nat, h@),
    {
        let v = copy_chars(h);
        self.active.set(l, Some(v));
        self.record_key(h, l);
        assert(self@.active =~= old(self)@.active.update(l as int, Some(h@)));
    }
}


fn clone_strings(v: &Vec<String>) -> (r: Vec<String>)
    ensures
        strs(r@) == strs(v@),
{
    let mut r: Vec<String> = Vec::new();
    let mut i: usize = 0;
    while i < v.len()
        invariant
            0 <= i <= v@.len(),
            strs(r@) == strs(v@.take(i as int)),
        decreases v.len() - i,
    {
        r.push(v[i].clone());
        assert(strs(v@.take(i + 1)) =~= strs(v@.take(i as int)).push(v@[i as int]@));
        i += 1;
    }
    assert(v@.take(v@.len() as int) =~= v@);
    r
}

fn clone_commit(c: &CommitInfo) -> (r: CommitInfo)
    ensures
        r@ == c@,
{
    CommitInfo {
        hash: c.hash.clone(),
        short_hash: c.short_hash.clone(),
        author: c.author.clone(),
        email: c.email.clone(),
        date: c.date.clone(),
        message: c.message.clone(),
        refs: clone_strings(&c.refs),
        parents: clone_strings(&c.parents),
    }
}

impl LayoutState {
    /// Lays out a single commit: its lane and edge segments.
    fn layout_one(&mut self, commit: &CommitInfo) -> (r: (usize, Vec<GraphEdge>))
        requires
            lanes_wf(old(self)@),
        ensures
            (final(self)@, r.0 as nat, r.1@) == layout_one(old(self)@, commit@),
            lanes_wf(final(self)@),
    {
        proof {
            lemma_layout_one_wf(self@, commit@);
            lemma_node_lane(self@, commit@.hash);
        }
        let ghost st0 = self@;
        let hash = to_chars(commit.hash.as_str());
        let mut edges: Vec<GraphEdge> = Vec::new();
        // 1. The node's lane: one a child already routed here, else the
        //    lowest free lane, else a new column.
        let (lane, inflow) = match self.lookup_lane(hash.as_slice()) {
            Some(l) => {
                self.forget_key(hash.as_slice());
                (l, true)
            },
            None => {
                let l = self.acquire_lane();
                (l, false)
            },
        };
        assert((lane as nat, inflow, self@) == node_lane(st0, commit@.hash));
        if inflow {
            edges.push(GraphEdge { from: lane as u32, to: lane as u32, from_node: false, to_node: true });
        }
        let ghost acc0 = RowAcc { st: self@, edges: edges@, reusable: true };
        assert(acc0.edges =~= (if inflow {
            seq![edge(lane as nat, lane as nat, false, true)]
        } else {
            Seq::<GraphEdge>::empty()
        }));
        // 2. Route the parents out of the node.
        let ghost ps = commit@.parents;
        let mut reusable = true;
        let mut i: usize = 0;
        while i < commit.parents.len()
            invariant
                ps == commit@.parents,
                ps == strs(commit.parents@),
                0 <= i <= ps.len(),
                route_ok(acc0, lane as nat),
                (RowAcc { st: self@, edges: edges@, reusable }) == route_parents(
                    acc0,
                    lane as nat,
                    ps.take(i as int),
                ),
                route_ok(RowAcc { st: self@, edges: edges@, reusable }, lane as nat),
            decreases commit.parents.len() - i,
        {
            let ghost acc = RowAcc { st: self@, edges: edges@, reusable };
            proof {
                lemma_parent_step(acc, lane as nat, i as int, ps[i as int]);
                if lookup(acc.st.lane_of, ps[i as int]) is None && !(i == 0 && reusable) {
                    lemma_acquire(acc.st);
                }
            }
            let parent = to_chars(commit.parents[i].as_str());
            assert(parent@ == ps[i as int]);
            match self.lookup_lane(parent.as_slice()) {
                Some(target) => {
                    edges.push(out_edge(lane, target));
                },
                None => {
                    let target = if i == 0 && reusable {
                        reusable = false;
                        lane
                    } else {
                        self.acquire_lane()
                    };
                    self.flow_to_lane(target, parent.as_slice());
                    edges.push(out_edge(lane, target));
                },
            }
            assert(ps.take(i + 1).drop_last() =~= ps.take(i as int));
            assert(ps.take(i + 1).last() == ps[i as int]);
            assert((RowAcc { st: self@, edges: edges@, reusable }) == parent_step(
                acc,
                lane as nat,
                i as int,
                ps[i as int],
            ));
            i += 1;
        }
        assert(ps.take(ps.len() as int) =~= ps);
        // 3. Release the node's lane unless the first parent took it over.
        if reusable {
            self.release_lane(lane);
        }
        // 4. Pass-through edges of every other flowing lane.
        let ghost base = edges@;
        let ghost act = self@.active;
        let mut l: usize = 0;
        while l < self.active.len()
            invariant
                act == self@.active,
                0 <= l <= act.len(),
                edges@ == base + pass_edges(act, lane as nat, l as int),
            decreases self.active.len() - l,
        {
            assert(act[l as int] == opt_chars(self.active@[l as int]));
            if self.active[l].is_some() && l != lane {
                edges.push(pass_edge(l));
            }
            assert(edges@ =~= base + pass_edges(act, lane as nat, l + 1));
            l += 1;
        }
        (lane, edges)
    }

    /// Lay out `commits` (topo-order, children first), appending rendered
    /// rows to `out`. Resumable: call again with the next batch on the
    /// same state.
    pub fn layout(&mut self, commits: &[CommitInfo], out: &mut Vec<GraphRow>)
        requires
            old(self).wf(),
        ensures
            final(self).wf(),
            final(self)@ == layout_state(old(self)@, seq_view(commits@)),
            seq_view(final(out)@) == seq_view(old(out)@) + layout_rows(old(self)@, seq_view(commits@)),
    {
        let ghost st0 = self@;
        let ghost cs = seq_view(commits@);
        let ghost out0 = seq_view(out@);
        let mut i: usize = 0;
        while i < commits.len()
            invariant
                cs == seq_view(commits@),
                0 <= i <= cs.len(),
                lanes_wf(self@),
                self@ == layout_state(st0, cs.take(i as int)),
                seq_view(out@) == out0 + layout_rows(st0, cs.take(i as int)),
            decreases commits.len() - i,
        {
            let commit = &commits[i];
            let (lane, edges) = self.layout_one(commit);
            let row = GraphRow { commit: clone_commit(commit), lane: lane as u32, edges };
            proof {
                lemma_seq_view_push(out@, row);
            }
            out.push(row);
            assert(cs.take(i + 1).drop_last() =~= cs.take(i as int));
            assert(cs.take(i + 1).last() == commit@);
            assert(seq_view(out@) =~= out0 + layout_rows(st0, cs.take(i + 1)));
            i += 1;
        }
        assert(cs.take(cs.len() as int) =~= cs);
    }
}


// =====================
// Laws
// =====================

proof fn lemma_rows_len(st: Lanes, cs: Seq<CommitInfoV>)
    ensures
        layout_rows(st, cs).len() == cs.len(),
    decreases cs.len(),
{
    if cs.len() > 0 {
        lemma_rows_len(st, cs.drop_last());
    }
}

/// Row `i` of a layout is the layout of commit `i` from the state the
/// commits before it left.
proof fn lemma_row_at(st: Lanes, cs: Seq<CommitInfoV>, i: int)
    requires
        0 <= i < cs.len(),
    ensures
        layout_rows(st, cs)[i] == (GraphRowV {
            commit: cs[i],
            lane: layout_one(layout_state(st, cs.take(i)), cs[i]).1 as u32,
            edges: layout_one(layout_state(st, cs.take(i)), cs[i]).2,
        }),
        layout_state(st, cs.take(i + 1)) == layout_one(layout_state(st, cs.take(i)), cs[i]).0,
    decreases cs.len(),
{
    assert(cs.take(i + 1).drop_last() =~= cs.take(i));
    assert(cs.take(i + 1).last() == cs[i]);
    lemma_rows_len(st, cs.drop_last());
    if i < cs.len() - 1 {
        lemma_row_at(st, cs.drop_last(), i);
        assert(cs.drop_last().take(i) =~= cs.take(i));
        assert(cs.drop_last()[i] == cs[i]);
    } else {
        assert(cs.drop_last() =~= cs.take(i));
    }
}

/// Laying out commits in two batches on the same state gives the rows and
/// the state of laying them out in one pass.
pub proof fn lemma_layout_resumable(st: Lanes, first: Seq<CommitInfoV>, second: Seq<CommitInfoV>)
    ensures
        layout_state(st, first + second) == layout_state(layout_state(st, first), second),
        layout_rows(st, first + second) == layout_rows(st, first) + layout_rows(
            layout_state(st, first),
            second,
        ),
    decreases second.len(),
{
    if second.len() == 0 {
        assert(first + second =~= first);
    } else {
        lemma_layout_resumable(st, first, second.drop_last());
        assert((first + second).drop_last() =~= first + second.drop_last());
        assert((first + second).last() == second.last());
    }
}

/// Where an edge leaves its row at the bottom: the lane it ends in, or
/// nothing for an edge that ends at the node.
pub open spec fn arrives(e: GraphEdge) -> Option<u32> {
    if e.from_node {
        Some(e.to)
    } else if e.to_node {
        None
    } else {
        Some(e.from)
    }
}

/// The row takes over lane `a` from the row above: a flow into its node in
/// that lane, or a straight pass-through.
pub open spec fn continues(upper: GraphRowV, a: u32) -> bool {
    exists|k: int|
        0 <= k < upper.edges.len() && ((#[trigger] upper.edges[k].to_node && upper.edges[k].from == a
            && upper.lane == a) || (!upper.edges[k].from_node && !upper.edges[k].to_node
            && upper.edges[k].from == a))
}

/// Every edge leaving `lower` at its bottom continues on `upper`.
pub open spec fn rows_connect(lower: GraphRowV, upper: GraphRowV) -> bool {
    forall|k: int|
        0 <= k < lower.edges.len() ==> match arrives(#[trigger] lower.edges[k]) {
            Some(a) => continues(upper, a),
            None => true,
        }
}

/// Lane `l` flows in `active`.
pub open spec fn flows(active: Seq<Option<Seq<char>>>, l: nat) -> bool {
    l < active.len() && active[l as int] is Some
}

/// The out-edges routed so far end in flowing lanes, and in the node's lane
/// only once the first parent took it.
pub open spec fn targets_flow(acc: RowAcc, lane: nat) -> bool {
    forall|k: int|
        0 <= k < acc.edges.len() ==> ((#[trigger] acc.edges[k]).to_node && !acc.edges[k].from_node)
            || (acc.edges[k].from_node && !acc.edges[k].to_node && exists|t: nat|
            flows(acc.st.active, t) && acc.edges[k].to == t as u32 && (t == lane ==> !acc.reusable))
}

proof fn lemma_parent_step_targets(acc: RowAcc, lane: nat, i: int, parent: Seq<char>)
    requires
        route_ok(acc, lane),
        targets_flow(acc, lane),
    ensures
        targets_flow(parent_step(acc, lane, i, parent), lane),
        forall|l: nat|
            flows(acc.st.active, l) && l != lane ==> #[trigger] flows(
                parent_step(acc, lane, i, parent).st.active,
                l,
            ) && parent_step(acc, lane, i, parent).st.active[l as int] == acc.st.active[l as int],
        parent_step(acc, lane, i, parent).st.active.len() >= acc.st.active.len(),
{
    let r = parent_step(acc, lane, i, parent);
    match lookup(acc.st.lane_of, parent) {
        Some(target) => {
            lemma_key_from(acc.st.lane_of, parent, 0);
            let k0 = key_from(acc.st.lane_of, parent, 0)->0;
            assert(acc.st.lane_of[k0].1 == target);
            assert(flows(acc.st.active, target));
            if target == lane && acc.reusable {
                assert(acc.st.lane_of[k0].1 != lane);
            }
            assert forall|k: int| 0 <= k < r.edges.len() implies ((#[trigger] r.edges[k]).to_node
                && !r.edges[k].from_node) || (r.edges[k].from_node && !r.edges[k].to_node && exists|t: nat|
                flows(r.st.active, t) && r.edges[k].to == t as u32 && (t == lane ==> !r.reusable)) by {
                if k == acc.edges.len() {
                    assert(flows(r.st.active, target) && r.edges[k].to == target as u32);
                } else {
                    assert(r.edges[k] == acc.edges[k]);
                }
            }
        },
        None => {
            if i == 0 && acc.reusable {
                assert forall|k: int| 0 <= k < r.edges.len() implies ((#[trigger] r.edges[k]).to_node
                    && !r.edges[k].from_node) || (r.edges[k].from_node && !r.edges[k].to_node && exists|t: nat|
                    flows(r.st.active, t) && r.edges[k].to == t as u32 && (t == lane
                        ==> !r.reusable)) by {
                    if k == acc.edges.len() {
                        assert(flows(r.st.active, lane) && r.edges[k].to == lane as u32);
                    } else {
                        assert(r.edges[k] == acc.edges[k]);
                        if !r.edges[k].to_node {
                            let t = choose|t: nat|
                                flows(acc.st.active, t) && acc.edges[k].to == t as u32 && (t == lane
                                    ==> !acc.reusable);
                            assert(flows(r.st.active, t));
                        }
                    }
                }
            } else {
                lemma_acquire(acc.st);
                let (t0, s) = acquire(acc.st);
                assert(t0 != lane);
                assert forall|k: int| 0 <= k < r.edges.len() implies ((#[trigger] r.edges[k]).to_node
                    && !r.edges[k].from_node) || (r.edges[k].from_node && !r.edges[k].to_node && exists|t: nat|
                    flows(r.st.active, t) && r.edges[k].to == t as u32 && (t == lane
                        ==> !r.reusable)) by {
                    if k == acc.edges.len() {
                        assert(flows(r.st.active, t0) && r.edges[k].to == t0 as u32);
                    } else {
                        assert(r.edges[k] == acc.edges[k]);
                        if !r.edges[k].to_node {
                            let t = choose|t: nat|
                                flows(acc.st.active, t) && acc.edges[k].to == t as u32 && (t == lane
                                    ==> !acc.reusable);
                            assert(s.active[t as int] == acc.st.active[t as int]);
                            assert(t != t0);
                            assert(flows(r.st.active, t));
                        }
                    }
                }
                assert forall|l: nat| flows(acc.st.active, l) && l != lane implies #[trigger] flows(
                    r.st.active,
                    l,
                ) && r.st.active[l as int] == acc.st.active[l as int] by {
                    assert(s.active[l as int] == acc.st.active[l as int]);
                    assert(l != t0);
                }
            }
        },
    }
}

proof fn lemma_route_targets(acc: RowAcc, lane: nat, ps: Seq<Seq<char>>)
    requires
        route_ok(acc, lane),
        targets_flow(acc, lane),
    ensures
        targets_flow(route_parents(acc, lane, ps), lane),
        forall|l: nat|
            flows(acc.st.active, l) && l != lane ==> #[trigger] flows(
                route_parents(acc, lane, ps).st.active,
                l,
            ),
        route_parents(acc, lane, ps).edges.len() >= acc.edges.len(),
        forall|k: int|
            0 <= k < acc.edges.len() ==> #[trigger] route_parents(acc, lane, ps).edges[k]
                == acc.edges[k],
    decreases ps.len(),
{
    if ps.len() > 0 {
        let prev = route_parents(acc, lane, ps.drop_last());
        lemma_route_targets(acc, lane, ps.drop_last());
        lemma_route(acc, lane, ps.drop_last());
        lemma_parent_step_targets(prev, lane, ps.len() - 1, ps.last());
        assert forall|l: nat| flows(acc.st.active, l) && l != lane implies #[trigger] flows(
            route_parents(acc, lane, ps).st.active,
            l,
        ) by {
            assert(flows(prev.st.active, l));
        }
        assert forall|k: int| 0 <= k < acc.edges.len() implies #[trigger] route_parents(
            acc,
            lane,
            ps,
        ).edges[k] == acc.edges[k] by {
            assert(prev.edges[k] == acc.edges[k]);
        }
    }
}

proof fn lemma_pass_edges(active: Seq<Option<Seq<char>>>, lane: nat, n: int)
    requires
        0 <= n <= active.len(),
    ensures
        forall|k: int|
            0 <= k < pass_edges(active, lane, n).len() ==> !(#[trigger] pass_edges(active, lane, n)[k]).from_node
                && !pass_edges(active, lane, n)[k].to_node && exists|t: nat|
                flows(active, t) && pass_edges(active, lane, n)[k].from == t as u32,
        forall|l: nat|
            l < n && flows(active, l) && l != lane ==> exists|k: int|
                0 <= k < pass_edges(active, lane, n).len() && #[trigger] pass_edges(active, lane, n)[k]
                    == edge(l, l, false, false),
    decreases n,
{
    if n > 0 {
        lemma_pass_edges(active, lane, n - 1);
        let p = pass_edges(active, lane, n - 1);
        let r = pass_edges(active, lane, n);
        assert forall|k: int| 0 <= k < r.len() implies !(#[trigger] r[k]).from_node && !r[k].to_node
            && exists|t: nat| flows(active, t) && r[k].from == t as u32 by {
            if k < p.len() {
                assert(r[k] == p[k]);
            } else {
                assert(flows(active, (n - 1) as nat));
            }
        }
        assert forall|l: nat| l < n && flows(active, l) && l != lane implies exists|k: int|
            0 <= k < r.len() && #[trigger] r[k] == edge(l, l, false, false) by {
            if l < n - 1 {
                let k = choose|k: int| 0 <= k < p.len() && #[trigger] p[k] == edge(l, l, false, false);
                assert(r[k] == p[k]);
            } else {
                assert(r[p.len() as int] == edge(l, l, false, false));
            }
        }
    }
}

/// Every edge of a row that leaves it at the bottom ends in a lane that
/// flows in the state the row leaves.
proof fn lemma_row_lands(st: Lanes, c: CommitInfoV)
    requires
        lanes_wf(st),
    ensures
        forall|k: int|
            0 <= k < layout_one(st, c).2.len() ==> match arrives(#[trigger] layout_one(st, c).2[k]) {
                Some(a) => exists|t: nat| flows(layout_one(st, c).0.active, t) && a == t as u32,
                None => true,
            },
{
    let (lane, inflow, st1) = node_lane(st, c.hash);
    let edges0 = if inflow {
        seq![edge(lane, lane, false, true)]
    } else {
        Seq::<GraphEdge>::empty()
    };
    lemma_node_lane(st, c.hash);
    let acc0 = RowAcc { st: st1, edges: edges0, reusable: true };
    assert(targets_flow(acc0, lane));
    lemma_route(acc0, lane, c.parents);
    lemma_route_targets(acc0, lane, c.parents);
    let acc = route_parents(acc0, lane, c.parents);
    let st3 = if acc.reusable {
        release(acc.st, lane)
    } else {
        acc.st
    };
    if acc.reusable {
        lemma_release(acc.st, lane);
    }
    lemma_pass_edges(st3.active, lane, st3.active.len() as int);
    let pe = pass_edges(st3.active, lane, st3.active.len() as int);
    let edges = acc.edges + pe;
    assert(layout_one(st, c).2 == edges);
    assert(layout_one(st, c).0 == st3);
    assert forall|k: int| 0 <= k < edges.len() implies match arrives(#[trigger] edges[k]) {
        Some(a) => exists|t: nat| flows(st3.active, t) && a == t as u32,
        None => true,
    } by {
        if k < acc.edges.len() {
            assert(edges[k] == acc.edges[k]);
            if !acc.edges[k].to_node {
                let t = choose|t: nat|
                    flows(acc.st.active, t) && acc.edges[k].to == t as u32 && (t == lane
                        ==> !acc.reusable);
                assert(flows(st3.active, t));
                assert(arrives(edges[k]) == Some(t as u32));
            }
        } else {
            let e = pe[k - acc.edges.len()];
            assert(edges[k] == e);
            let t = choose|t: nat| flows(st3.active, t) && e.from == t as u32;
            assert(arrives(edges[k]) == Some(t as u32));
        }
    }
}

/// A row continues every lane that flows in the state it starts from.
proof fn lemma_row_takes_over(st: Lanes, c: CommitInfoV, l: nat)
    requires
        lanes_wf(st),
        flows(st.active, l),
    ensures
        continues(
            GraphRowV { commit: c, lane: layout_one(st, c).1 as u32, edges: layout_one(st, c).2 },
            l as u32,
        ),
{
    let (lane, inflow, st1) = node_lane(st, c.hash);
    let edges0 = if inflow {
        seq![edge(lane, lane, false, true)]
    } else {
        Seq::<GraphEdge>::empty()
    };
    let row = GraphRowV { commit: c, lane: layout_one(st, c).1 as u32, edges: layout_one(st, c).2 };
    lemma_node_lane(st, c.hash);
    let acc0 = RowAcc { st: st1, edges: edges0, reusable: true };
    assert(targets_flow(acc0, lane));
    lemma_route(acc0, lane, c.parents);
    lemma_route_targets(acc0, lane, c.parents);
    if inflow && lane == l {
        assert(route_parents(acc0, lane, c.parents).edges[0] == edges0[0]);
        assert(row.edges[0] == edge(l, l, false, true));
        assert(row.lane == l as u32);
    } else {
        match lookup(st.lane_of, c.hash) {
            Some(x) => {},
            None => {
                lemma_acquire(st);
            },
        }
        assert(lane != l);
        assert(flows(st1.active, l));
        assert(targets_flow(acc0, lane));
        lemma_route(acc0, lane, c.parents);
        lemma_route_targets(acc0, lane, c.parents);
        let acc = route_parents(acc0, lane, c.parents);
        assert(flows(acc.st.active, l));
        let st3 = if acc.reusable {
            release(acc.st, lane)
        } else {
            acc.st
        };
        if acc.reusable {
            lemma_release(acc.st, lane);
        }
        assert(flows(st3.active, l));
        lemma_pass_edges(st3.active, lane, st3.active.len() as int);
        let pe = pass_edges(st3.active, lane, st3.active.len() as int);
        let k = choose|k: int| 0 <= k < pe.len() && #[trigger] pe[k] == edge(l, l, false, false);
        assert(row.edges[acc.edges.len() + k] == pe[k]);
    }
}

/// Consecutive rows connect: every edge leaving a row at its bottom
/// continues on the next row in the same lane, into that row's node or
/// straight through it.
pub proof fn lemma_rows_connect(st: Lanes, cs: Seq<CommitInfoV>, i: int)
    requires
        lanes_wf(st),
        0 <= i,
        i + 1 < cs.len(),
    ensures
        rows_connect(layout_rows(st, cs)[i], layout_rows(st, cs)[i + 1]),
{
    lemma_row_at(st, cs, i);
    lemma_row_at(st, cs, i + 1);
    let s = layout_state(st, cs.take(i));
    lemma_layout_state_wf(st, cs.take(i));
    lemma_layout_one_wf(s, cs[i]);
    let s2 = layout_one(s, cs[i]).0;
    lemma_row_lands(s, cs[i]);
    let lower = layout_rows(st, cs)[i];
    let upper = layout_rows(st, cs)[i + 1];
    assert(upper == GraphRowV {
        commit: cs[i + 1],
        lane: layout_one(s2, cs[i + 1]).1 as u32,
        edges: layout_one(s2, cs[i + 1]).2,
    });
    assert forall|k: int| 0 <= k < lower.edges.len() implies match arrives(#[trigger] lower.edges[k]) {
        Some(a) => continues(upper, a),
        None => true,
    } by {
        if let Some(a) = arrives(lower.edges[k]) {
            let t = choose|t: nat| flows(s2.active, t) && a == t as u32;
            lemma_row_takes_over(s2, cs[i + 1], t);
        }
    }
}

// =====================
// A layout in topological order ends idle
// =====================

/// Some entry records that `h` flows in lane `l`.
pub open spec fn has_entry(m: Seq<(Seq<char>, nat)>, h: Seq<char>, l: nat) -> bool {
    exists|k: int| 0 <= k < m.len() && m[k].0 == h && m[k].1 == l
}

/// Some entry is for commit `h`.
pub open spec fn has_key(m: Seq<(Seq<char>, nat)>, h: Seq<char>) -> bool {
    exists|k: int| 0 <= k < m.len() && m[k].0 == h
}

/// Every flowing lane but `skip` is recorded in `lane_of`.
pub open spec fn flows_recorded(st: Lanes, skip: int) -> bool {
    forall|l: int|
        0 <= l < st.active.len() && l != skip && #[trigger] st.active[l] is Some ==> has_entry(
            st.lane_of,
            st.active[l]->0,
            l as nat,
        )
}

/// The empty lane state a layout starts from.
pub open spec fn no_lanes() -> Lanes {
    Lanes {
        active: Seq::<Option<Seq<char>>>::empty(),
        free: Seq::<nat>::empty(),
        lane_of: Seq::<(Seq<char>, nat)>::empty(),
        width: 0,
    }
}

/// Hashes are distinct, and each parent is the hash of a later commit.
pub open spec fn topo_ordered(cs: Seq<CommitInfoV>) -> bool {
    &&& forall|i: int, j: int| 0 <= i < j < cs.len() ==> #[trigger] cs[i].hash != #[trigger] cs[j].hash
    &&& forall|i: int, p: int|
        0 <= i < cs.len() && 0 <= p < cs[i].parents.len() ==> exists|j: int|
            i < j < cs.len() && cs[j].hash == #[trigger] cs[i].parents[p]
}

proof fn lemma_forget_entries(m: Seq<(Seq<char>, nat)>, h: Seq<char>)
    ensures
        forall|x: Seq<char>, l: nat| x != h && #[trigger] has_entry(m, x, l) ==> has_entry(forget(m, h), x, l),
        forall|x: Seq<char>| #[trigger] has_key(forget(m, h), x) ==> has_key(m, x),
        key_from(m, h, 0) is None ==> forget(m, h) == m,
{
    lemma_key_from(m, h, 0);
    let r = forget(m, h);
    match key_from(m, h, 0) {
        Some(k) => {
            assert forall|x: Seq<char>, l: nat| x != h && #[trigger] has_entry(m, x, l) implies has_entry(r, x, l) by {
                let j = choose|j: int| 0 <= j < m.len() && m[j].0 == x && m[j].1 == l;
                if j < k {
                    assert(r[j] == m[j]);
                } else {
                    assert(j != k);
                    assert(r[j - 1] == m[j]);
                }
            }
            assert forall|x: Seq<char>| #[trigger] has_key(r, x) implies has_key(m, x) by {
                let j = choose|j: int| 0 <= j < r.len() && r[j].0 == x;
                if j < k {
                    assert(r[j] == m[j]);
                } else {
                    assert(r[j] == m[j + 1]);
                }
            }
        },
        None => {},
    }
}

proof fn lemma_no_key(m: Seq<(Seq<char>, nat)>, h: Seq<char>)
    ensures
        key_from(m, h, 0) is None <==> !has_key(m, h),
{
    lemma_key_from(m, h, 0);
}

/// Taking the node lane keeps every other flow recorded, leaves the node
/// lane idle or flowing to the node, and drops the node's key.
proof fn lemma_node_lane_flows(st: Lanes, hash: Seq<char>)
    requires
        lanes_wf(st),
        flows_recorded(st, -1),
    ensures
        ({
            let (lane, inflow, st1) = node_lane(st, hash);
            &&& flows_recorded(st1, lane as int)
            &&& lane < st1.active.len()
            &&& (st1.active[lane as int] is None || st1.active[lane as int] == Some(hash))
            &&& !has_key(st1.lane_of, hash)
            &&& forall|x: Seq<char>| #[trigger] has_key(st1.lane_of, x) ==> has_key(st.lane_of, x)
        }),
{
    let (lane, inflow, st1) = node_lane(st, hash);
    lemma_node_lane(st, hash);
    lemma_key_from(st.lane_of, hash, 0);
    match lookup(st.lane_of, hash) {
        Some(l) => {
            lemma_forget(st, hash);
            lemma_forget_entries(st.lane_of, hash);
            lemma_no_key(st1.lane_of, hash);
            let kf = key_from(st.lane_of, hash, 0)->0;
            assert forall|x: int| 0 <= x < st1.active.len() && x != lane as int && #[trigger] st1.active[x] is Some implies has_entry(
                st1.lane_of,
                st1.active[x]->0,
                x as nat,
            ) by {
                let h = st.active[x]->0;
                assert(has_entry(st.lane_of, h, x as nat));
                if h == hash {
                    let j = choose|j: int| 0 <= j < st.lane_of.len() && st.lane_of[j].0 == h && st.lane_of[j].1 == x as nat;
                    if j != kf {
                        if j < kf {
                            assert(st.lane_of[j].0 != st.lane_of[kf].0);
                        } else {
                            assert(st.lane_of[kf].0 != st.lane_of[j].0);
                        }
                    }
                }
            }
        },
        None => {
            lemma_acquire(st);
            lemma_no_key(st.lane_of, hash);
            assert forall|x: int| 0 <= x < st1.active.len() && x != lane as int && #[trigger] st1.active[x] is Some implies has_entry(
                st1.lane_of,
                st1.active[x]->0,
                x as nat,
            ) by {
                if x >= st.active.len() {
                    assert(st1.active.len() == st.active.len() + 1);
                    assert(x == lane);
                } else {
                    assert(st1.active[x] == st.active[x]);
                }
            }
        },
    }
}

/// The row invariant while parents are routed out of the node in `lane`.
pub open spec fn row_flows(acc: RowAcc, lane: nat, hash: Seq<char>) -> bool {
    &&& route_ok(acc, lane)
    &&& flows_recorded(acc.st, if acc.reusable { lane as int } else { -1 })
    &&& acc.reusable ==> (acc.st.active[lane as int] is None || acc.st.active[lane as int] == Some(hash))
    &&& !has_key(acc.st.lane_of, hash)
}

proof fn lemma_parent_step_flows(acc: RowAcc, lane: nat, i: int, parent: Seq<char>, hash: Seq<char>)
    requires
        row_flows(acc, lane, hash),
        parent != hash,
    ensures
        row_flows(parent_step(acc, lane, i, parent), lane, hash),
        forall|x: Seq<char>| #[trigger] has_key(parent_step(acc, lane, i, parent).st.lane_of, x) ==> has_key(
            acc.st.lane_of,
            x,
        ) || x == parent,
{
    lemma_parent_step(acc, lane, i, parent);
    let r = parent_step(acc, lane, i, parent);
    let st = acc.st;
    lemma_key_from(st.lane_of, parent, 0);
    match lookup(st.lane_of, parent) {
        Some(target) => {},
        None => {
            if i == 0 && acc.reusable {
                let m2 = st.lane_of.push((parent, lane));
                assert(r.st.lane_of == m2);
                assert(m2[st.lane_of.len() as int] == (parent, lane));
                assert forall|x: int| 0 <= x < r.st.active.len() && #[trigger] r.st.active[x] is Some implies has_entry(
                    r.st.lane_of,
                    r.st.active[x]->0,
                    x as nat,
                ) by {
                    if x == lane as int {
                        assert(m2[st.lane_of.len() as int].0 == parent);
                    } else {
                        let h = st.active[x]->0;
                        let j = choose|j: int| 0 <= j < st.lane_of.len() && st.lane_of[j].0 == h && st.lane_of[j].1 == x as nat;
                        assert(m2[j] == st.lane_of[j]);
                    }
                }
                assert forall|x: Seq<char>| #[trigger] has_key(r.st.lane_of, x) implies has_key(st.lane_of, x) || x == parent by {
                    let j = choose|j: int| 0 <= j < m2.len() && m2[j].0 == x;
                    if j < st.lane_of.len() {
                        assert(m2[j] == st.lane_of[j]);
                    }
                }
                assert(!has_key(r.st.lane_of, hash));
            } else {
                lemma_acquire(st);
                let (t, s) = acquire(st);
                let m2 = s.lane_of.push((parent, t));
                assert(r.st.lane_of == m2);
                assert(m2[s.lane_of.len() as int] == (parent, t));
                assert(t != lane);
                let skip: int = if acc.reusable { lane as int } else { -1 };
                assert forall|x: int| 0 <= x < r.st.active.len() && x != skip && #[trigger] r.st.active[x] is Some implies has_entry(
                    r.st.lane_of,
                    r.st.active[x]->0,
                    x as nat,
                ) by {
                    if x == t as int {
                        assert(m2[s.lane_of.len() as int].0 == parent);
                    } else if x < st.active.len() {
                        assert(s.active[x] == st.active[x]);
                        let h = st.active[x]->0;
                        let j = choose|j: int| 0 <= j < st.lane_of.len() && st.lane_of[j].0 == h && st.lane_of[j].1 == x as nat;
                        assert(m2[j] == st.lane_of[j]);
                    } else {
                        assert(s.active.len() <= st.active.len() + 1);
                        assert(x == t);
                    }
                }
                assert forall|x: Seq<char>| #[trigger] has_key(r.st.lane_of, x) implies has_key(st.lane_of, x) || x == parent by {
                    let j = choose|j: int| 0 <= j < m2.len() && m2[j].0 == x;
                    if j < st.lane_of.len() {
                        assert(m2[j] == st.lane_of[j]);
                    }
                }
                assert(!has_key(r.st.lane_of, hash));
                if acc.reusable {
                    assert(r.st.active[lane as int] == st.active[lane as int]);
                }
            }
        },
    }
}

proof fn lemma_route_flows(acc: RowAcc, lane: nat, ps: Seq<Seq<char>>, hash: Seq<char>)
    requires
        row_flows(acc, lane, hash),
        forall|i: int| 0 <= i < ps.len() ==> #[trigger] ps[i] != hash,
    ensures
        row_flows(route_parents(acc, lane, ps), lane, hash),
        forall|x: Seq<char>| #[trigger] has_key(route_parents(acc, lane, ps).st.lane_of, x) ==> has_key(
            acc.st.lane_of,
            x,
        ) || ps.contains(x),
    decreases ps.len(),
{
    if ps.len() > 0 {
        let init = ps.drop_last();
        assert forall|i: int| 0 <= i < init.len() implies #[trigger] init[i] != hash by {
            assert(init[i] == ps[i]);
        }
        lemma_route_flows(acc, lane, init, hash);
        assert(ps.last() == ps[ps.len() - 1]);
        lemma_parent_step_flows(route_parents(acc, lane, init), lane, ps.len() - 1, ps.last(), hash);
        assert forall|x: Seq<char>| #[trigger] has_key(route_parents(acc, lane, ps).st.lane_of, x) implies has_key(
            acc.st.lane_of,
            x,
        ) || ps.contains(x) by {
            if has_key(route_parents(acc, lane, init).st.lane_of, x) {
                if init.contains(x) {
                    let j = choose|j: int| 0 <= j < init.len() && init[j] == x;
                    assert(ps[j] == x);
                }
            } else {
                assert(ps[ps.len() - 1] == x);
            }
        }
    }
}

/// Laying out one commit keeps every flow recorded, drops the commit's
/// key, and adds keys only for its parents.
proof fn lemma_layout_one_flows(st: Lanes, c: CommitInfoV)
    requires
        lanes_wf(st),
        flows_recorded(st, -1),
        forall|i: int| 0 <= i < c.parents.len() ==> #[trigger] c.parents[i] != c.hash,
    ensures
        flows_recorded(layout_one(st, c).0, -1),
        !has_key(layout_one(st, c).0.lane_of, c.hash),
        forall|x: Seq<char>| #[trigger] has_key(layout_one(st, c).0.lane_of, x) ==> has_key(st.lane_of, x)
            || c.parents.contains(x),
{
    let (lane, inflow, st1) = node_lane(st, c.hash);
    let edges0 = if inflow {
        seq![edge(lane, lane, false, true)]
    } else {
        Seq::<GraphEdge>::empty()
    };
    lemma_node_lane_flows(st, c.hash);
    lemma_node_lane(st, c.hash);
    let acc0 = RowAcc { st: st1, edges: edges0, reusable: true };
    assert(row_flows(acc0, lane, c.hash));
    lemma_route_flows(acc0, lane, c.parents, c.hash);
    let acc = route_parents(acc0, lane, c.parents);
    if acc.reusable {
        lemma_release(acc.st, lane);
        let r = release(acc.st, lane);
        lemma_no_key(acc.st.lane_of, c.hash);
        match acc.st.active[lane as int] {
            Some(prev) => {
                assert(prev == c.hash);
                lemma_forget_entries(acc.st.lane_of, prev);
                assert(r.lane_of == acc.st.lane_of);
            },
            None => {},
        }
        assert forall|x: int| 0 <= x < r.active.len() && #[trigger] r.active[x] is Some implies has_entry(
            r.lane_of,
            r.active[x]->0,
            x as nat,
        ) by {
            assert(x != lane as int);
            assert(r.active[x] == acc.st.active[x]);
        }
    }
}

/// Hashes of the first `n` commits, and their parents.
pub open spec fn laid_out_hash(cs: Seq<CommitInfoV>, n: int, h: Seq<char>) -> bool {
    exists|i: int| 0 <= i < n && cs[i].hash == h
}

pub open spec fn laid_out_parent(cs: Seq<CommitInfoV>, n: int, h: Seq<char>) -> bool {
    exists|i: int| 0 <= i < n && cs[i].parents.contains(h)
}

proof fn lemma_prefix_flows(cs: Seq<CommitInfoV>, n: int)
    requires
        topo_ordered(cs),
        0 <= n <= cs.len(),
    ensures
        lanes_wf(layout_state(no_lanes(), cs.take(n))),
        flows_recorded(layout_state(no_lanes(), cs.take(n)), -1),
        forall|x: Seq<char>| #[trigger] has_key(layout_state(no_lanes(), cs.take(n)).lane_of, x) ==> laid_out_parent(
            cs,
            n,
            x,
        ) && !laid_out_hash(cs, n, x),
    decreases n,
{
    let pre = cs.take(n);
    lemma_layout_state_wf(no_lanes(), pre);
    if n == 0 {
        assert(pre.len() == 0);
    } else {
        lemma_prefix_flows(cs, n - 1);
        let st = layout_state(no_lanes(), cs.take(n - 1));
        let c = cs[n - 1];
        assert(pre.drop_last() =~= cs.take(n - 1));
        assert(pre.last() == c);
        lemma_layout_state_wf(no_lanes(), cs.take(n - 1));
        assert forall|i: int| 0 <= i < c.parents.len() implies #[trigger] c.parents[i] != c.hash by {
            let j = choose|j: int| n - 1 < j < cs.len() && cs[j].hash == cs[n - 1].parents[i];
            assert(cs[n - 1].hash != cs[j].hash);
        }
        lemma_layout_one_flows(st, c);
        let st2 = layout_state(no_lanes(), pre);
        assert(st2 == layout_one(st, c).0);
        assert forall|x: Seq<char>| #[trigger] has_key(st2.lane_of, x) implies laid_out_parent(cs, n, x) && !laid_out_hash(
            cs,
            n,
            x,
        ) by {
            if has_key(st.lane_of, x) {
                assert(laid_out_parent(cs, n - 1, x));
                let i = choose|i: int| 0 <= i < n - 1 && cs[i].parents.contains(x);
                assert(laid_out_parent(cs, n, x));
            } else {
                assert(c.parents.contains(x));
                assert(laid_out_parent(cs, n, x));
                let p = choose|p: int| 0 <= p < c.parents.len() && c.parents[p] == x;
                let j = choose|j: int| n - 1 < j < cs.len() && cs[j].hash == cs[n - 1].parents[p];
                if laid_out_hash(cs, n - 1, x) {
                    let i = choose|i: int| 0 <= i < n - 1 && cs[i].hash == x;
                    assert(cs[i].hash != cs[j].hash);
                }
            }
            if laid_out_hash(cs, n, x) {
                let i = choose|i: int| 0 <= i < n && cs[i].hash == x;
                if i < n - 1 {
                    assert(laid_out_hash(cs, n - 1, x));
                } else {
                    assert(x == c.hash);
                }
            }
        }
    }
}

proof fn lemma_idle_lanes(active: Seq<Option<Seq<char>>>)
    requires
        forall|l: int| 0 <= l < active.len() ==> #[trigger] active[l] is None,
    ensures
        active_lanes(active) == 0,
    decreases active.len(),
{
    if active.len() > 0 {
        let init = active.drop_last();
        assert forall|l: int| 0 <= l < init.len() implies #[trigger] init[l] is None by {
            assert(init[l] == active[l]);
        }
        lemma_idle_lanes(init);
        assert(active[active.len() - 1] is None);
    }
}

/// Laying out commits in topological order (distinct hashes, each parent
/// after its child) from no lanes ends with no active lane: every flow
/// reached the commit it pointed at.
pub proof fn law_topo_layout_ends_idle(cs: Seq<CommitInfoV>)
    requires
        topo_ordered(cs),
    ensures
        active_lanes(layout_state(no_lanes(), cs).active) == 0,
{
    lemma_prefix_flows(cs, cs.len() as int);
    assert(cs.take(cs.len() as int) =~= cs);
    let st = layout_state(no_lanes(), cs);
    assert forall|l: int| 0 <= l < st.active.len() implies #[trigger] st.active[l] is None by {
        if st.active[l] is Some {
            let h = st.active[l]->0;
            assert(has_entry(st.lane_of, h, l as nat));
            let k = choose|k: int| 0 <= k < st.lane_of.len() && st.lane_of[k].0 == h && st.lane_of[k].1 == l as nat;
            assert(has_key(st.lane_of, h));
            let i = choose|i: int| 0 <= i < cs.len() && cs[i].parents.contains(h);
            let p = choose|p: int| 0 <= p < cs[i].parents.len() && cs[i].parents[p] == h;
            let j = choose|j: int| i < j < cs.len() && cs[j].hash == cs[i].parents[p];
            assert(laid_out_hash(cs, cs.len() as int, h));
        }
    }
    lemma_idle_lanes(st.active);
}

} // verus!
