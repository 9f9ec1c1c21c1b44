//! Lane allocation: from a newest-first commit list and branch pointers to
//! the rows of the commit graph.
//!
//! The layout is built one row at a time over a vector of lanes, each lane
//! empty or holding the id of a parent that a row above is waiting for.
//! The spec functions below describe that process step by step; the
//! executable `build_graph` is proved to follow them.

use vstd::prelude::*;

use crate::branch::BranchInfo;
use crate::commit::{CommitId, CommitInfo};

verus! {

/// How a connector runs from a commit to one of its parents.
#[derive(Clone, Copy, Debug, PartialEq, Eq, Structural)]
pub enum ConnectionType {
    /// Same lane: a straight continuation.
    Direct,
    /// The parent's lane is to the left (lower index).
    MergeIn,
    /// The parent's lane is to the right (higher index).
    BranchOut,
}

/// A connector from a commit's lane to the lane of one of its parents.
#[derive(Clone, Copy, Debug, PartialEq, Eq, Structural)]
pub struct Connection {
    pub target_oid: CommitId,
    pub source_lane: usize,
    pub target_lane: usize,
    pub connection_type: ConnectionType,
}

/// One row of the graph.
#[derive(Debug)]
pub struct GraphNode {
    pub commit: CommitInfo,
    pub lane: usize,
    pub row: usize,
    pub connections: Vec<Connection>,
    /// Which lanes carry a vertical line in this row.
    pub active_lanes: Vec<bool>,
    /// Names of the branches whose tip is this commit, in branch-list order.
    pub branch_names: Vec<String>,
    /// Whether the HEAD branch points at this commit.
    pub is_head: bool,
}

/// The rows of the graph, in input order, and the highest lane used.
#[derive(Debug)]
pub struct GraphLayout {
    pub nodes: Vec<GraphNode>,
    pub max_lane: usize,
}

/// The lane vector: each slot empty or waiting for one parent.
pub type Lanes = Seq<Option<CommitId>>;

pub open spec fn classify(source: int, target: int) -> ConnectionType {
    if source == target {
        ConnectionType::Direct
    } else if target > source {
        ConnectionType::BranchOut
    } else {
        ConnectionType::MergeIn
    }
}

/// Whether `id` is one of the commits being laid out.
pub open spec fn in_window(commits: Seq<CommitInfo>, id: CommitId) -> bool {
    exists|i: int| 0 <= i < commits.len() && commits[i].oid == id
}

/// The lowest index below `n` whose slot equals `t`.
pub open spec fn first_match(lanes: Lanes, t: Option<CommitId>, n: int) -> Option<int>
    decreases n,
{
    if n <= 0 {
        None
    } else {
        match first_match(lanes, t, n - 1) {
            Some(i) => Some(i),
            None => if lanes[n - 1] == t {
                Some(n - 1)
            } else {
                None
            },
        }
    }
}

/// The lowest lane whose slot equals `t`.
pub open spec fn find(lanes: Lanes, t: Option<CommitId>) -> Option<int> {
    first_match(lanes, t, lanes.len() as int)
}

/// The lane a new line of history gets: the lowest empty one, or a new one
/// at the end.
pub open spec fn free_lane(lanes: Lanes) -> int {
    match find(lanes, None) {
        Some(i) => i,
        None => lanes.len() as int,
    }
}

/// `lanes`, grown by one empty slot where `i` is its length.
pub open spec fn with_slot(lanes: Lanes, i: int) -> Lanes {
    if i < lanes.len() {
        lanes
    } else {
        lanes.push(None)
    }
}

/// The lane of a commit: the one where a child left it pending, else a free one.
pub open spec fn commit_lane(lanes: Lanes, id: CommitId) -> int {
    match find(lanes, Some(id)) {
        Some(i) => i,
        None => free_lane(lanes),
    }
}

/// Which lanes are drawn in the row of a commit in `lane`, given the lanes
/// once that lane exists: the pending ones and the commit's own.
pub open spec fn snapshot(lanes: Lanes, lane: int) -> Seq<bool> {
    Seq::new(lanes.len(), |i: int| i == lane || lanes[i] is Some)
}

pub open spec fn connection(p: CommitId, source: int, target: int) -> Connection {
    Connection {
        target_oid: p,
        source_lane: source as usize,
        target_lane: target as usize,
        connection_type: classify(source, target),
    }
}

/// Routes the parent `p`, at position `k` of the commit's parent list, from
/// the commit's `lane`: the lanes afterwards and the connector, if any.
pub open spec fn route_parent(commits: Seq<CommitInfo>, lanes: Lanes, lane: int, k: int, p: CommitId) -> (Lanes, Option<Connection>) {
    if !in_window(commits, p) {
        (lanes, None)
    } else {
        match find(lanes, Some(p)) {
            Some(t) => (lanes, Some(connection(p, lane, t))),
            None => if k == 0 {
                (lanes.update(lane, Some(p)), Some(connection(p, lane, lane)))
            } else {
                let t = free_lane(lanes);
                (with_slot(lanes, t).update(t, Some(p)), Some(connection(p, lane, t)))
            },
        }
    }
}

/// The lanes and connectors after routing the first `n` parents.
pub open spec fn route_upto(commits: Seq<CommitInfo>, lanes: Lanes, lane: int, parents: Seq<CommitId>, n: int) -> (Lanes, Seq<Connection>)
    decreases n,
{
    if n <= 0 {
        (lanes, Seq::empty())
    } else {
        let prev = route_upto(commits, lanes, lane, parents, n - 1);
        let step = route_parent(commits, prev.0, lane, n - 1, parents[n - 1]);
        (step.0, match step.1 {
            Some(c) => prev.1.push(c),
            None => prev.1,
        })
    }
}

/// The lanes once row `c` has its lane and that lane is consumed.
pub open spec fn opened(lanes: Lanes, c: CommitInfo) -> Lanes {
    let l = commit_lane(lanes, c.oid);
    with_slot(lanes, l).update(l, None)
}

/// The lanes and connectors once all parents of `c` are routed.
pub open spec fn row_route(commits: Seq<CommitInfo>, lanes: Lanes, c: CommitInfo) -> (Lanes, Seq<Connection>) {
    route_upto(commits, opened(lanes, c), commit_lane(lanes, c.oid), c.parent_oids@, c.parent_oids@.len() as int)
}

/// The lanes before row `r` is processed.
pub open spec fn lanes_before(commits: Seq<CommitInfo>, r: int) -> Lanes
    decreases r,
{
    if r <= 0 {
        Seq::empty()
    } else {
        row_route(commits, lanes_before(commits, r - 1), commits[r - 1]).0
    }
}

pub open spec fn row_lane(commits: Seq<CommitInfo>, r: int) -> int {
    commit_lane(lanes_before(commits, r), commits[r].oid)
}

pub open spec fn row_connections(commits: Seq<CommitInfo>, r: int) -> Seq<Connection> {
    row_route(commits, lanes_before(commits, r), commits[r]).1
}

pub open spec fn row_snapshot(commits: Seq<CommitInfo>, r: int) -> Seq<bool> {
    let lanes = lanes_before(commits, r);
    let l = row_lane(commits, r);
    snapshot(with_slot(lanes, l), l)
}

/// The highest of `m` and the targets of `conns`.
pub open spec fn max_target(conns: Seq<Connection>, m: int) -> int
    decreases conns.len(),
{
    if conns.len() == 0 {
        m
    } else {
        let t = conns.last().target_lane as int;
        let rest = max_target(conns.drop_last(), m);
        if t > rest {
            t
        } else {
            rest
        }
    }
}

/// The highest lane used by the first `r` rows (0 when there are none).
pub open spec fn max_lane_upto(commits: Seq<CommitInfo>, r: int) -> int
    decreases r,
{
    if r <= 0 {
        0
    } else {
        let m = max_target(row_connections(commits, r - 1), max_lane_upto(commits, r - 1));
        let l = row_lane(commits, r - 1);
        if l > m {
            l
        } else {
            m
        }
    }
}

/// Names of the first `n` branches whose tip is `id`, in order.
pub open spec fn names_at(branches: Seq<BranchInfo>, id: CommitId, n: int) -> Seq<String>
    decreases n,
{
    if n <= 0 {
        Seq::empty()
    } else if branches[n - 1].tip_oid == id {
        names_at(branches, id, n - 1).push(branches[n - 1].name)
    } else {
        names_at(branches, id, n - 1)
    }
}

/// The tip of the last HEAD branch among the first `n`.
pub open spec fn head_tip(branches: Seq<BranchInfo>, n: int) -> Option<CommitId>
    decreases n,
{
    if n <= 0 {
        None
    } else if branches[n - 1].is_head {
        Some(branches[n - 1].tip_oid)
    } else {
        head_tip(branches, n - 1)
    }
}

/// `s` filled up with `false` to length `w`.
pub open spec fn padded(s: Seq<bool>, w: int) -> Seq<bool> {
    if s.len() < w {
        s + Seq::new((w - s.len()) as nat, |i: int| false)
    } else {
        s
    }
}

/// The commit HEAD resolves to: the tip of the HEAD branch, else the
/// commit of a detached HEAD.
pub open spec fn head_commit_of(branches: Seq<BranchInfo>, detached_head: Option<CommitId>) -> Option<CommitId> {
    match head_tip(branches, branches.len() as int) {
        Some(t) => Some(t),
        None => detached_head,
    }
}

/// What row `r` of the layout of `commits` and `branches` holds, its
/// drawn lanes filled up to `width`.
pub open spec fn node_matches(
    commits: Seq<CommitInfo>,
    branches: Seq<BranchInfo>,
    head: Option<CommitId>,
    node: GraphNode,
    r: int,
    width: int,
) -> bool {
    &&& node.row == r
    &&& node.lane == row_lane(commits, r)
    &&& node.commit.oid == commits[r].oid
    &&& node.commit.parent_oids@ == commits[r].parent_oids@
    &&& node.commit.short_id == commits[r].short_id
    &&& node.commit.author_name == commits[r].author_name
    &&& node.commit.author_email == commits[r].author_email
    &&& node.commit.timestamp == commits[r].timestamp
    &&& node.commit.message == commits[r].message
    &&& node.commit.full_message == commits[r].full_message
    &&& node.connections@ == row_connections(commits, r)
    &&& node.active_lanes@ == padded(row_snapshot(commits, r), width)
    &&& node.branch_names@ == names_at(branches, commits[r].oid, branches.len() as int)
    &&& node.is_head == (head == Some(commits[r].oid))
}

// ---------------------------------------------------------------------------
// Facts about the model

proof fn lemma_first_match(lanes: Lanes, t: Option<CommitId>, n: int)
    requires
        0 <= n <= lanes.len(),
    ensures
        match first_match(lanes, t, n) {
            Some(i) => 0 <= i < n && lanes[i] == t && forall|j: int| 0 <= j < i ==> lanes[j] != t,
            None => forall|j: int| 0 <= j < n ==> lanes[j] != t,
        },
    decreases n,
{
    if n > 0 {
        lemma_first_match(lanes, t, n - 1);
    }
}

proof fn lemma_find(lanes: Lanes, t: Option<CommitId>)
    ensures
        match find(lanes, t) {
            Some(i) => 0 <= i < lanes.len() && lanes[i] == t && forall|j: int| 0 <= j < i ==> lanes[j] != t,
            None => forall|j: int| 0 <= j < lanes.len() ==> lanes[j] != t,
        },
{
    lemma_first_match(lanes, t, lanes.len() as int);
}

proof fn lemma_find_unique(lanes: Lanes, t: Option<CommitId>, i: int)
    requires
        0 <= i < lanes.len(),
        lanes[i] == t,
        forall|j: int| 0 <= j < i ==> lanes[j] != t,
    ensures
        find(lanes, t) == Some(i),
{
    lemma_find(lanes, t);
    match find(lanes, t) {
        Some(k) => {
            if k < i {
            } else if k > i {
            }
        },
        None => {},
    }
}

proof fn lemma_find_none(lanes: Lanes, t: Option<CommitId>)
    requires
        forall|j: int| 0 <= j < lanes.len() ==> lanes[j] != t,
    ensures
        find(lanes, t) is None,
{
    lemma_find(lanes, t);
}

proof fn lemma_free_lane(lanes: Lanes)
    ensures
        0 <= free_lane(lanes) <= lanes.len(),
        free_lane(lanes) < with_slot(lanes, free_lane(lanes)).len(),
        with_slot(lanes, free_lane(lanes))[free_lane(lanes)] is None,
        forall|j: int| 0 <= j < free_lane(lanes) ==> lanes[j] is Some,
{
    lemma_find(lanes, None);
}

proof fn lemma_commit_lane(lanes: Lanes, id: CommitId)
    ensures
        0 <= commit_lane(lanes, id) <= lanes.len(),
        commit_lane(lanes, id) < with_slot(lanes, commit_lane(lanes, id)).len(),
{
    lemma_find(lanes, Some(id));
    lemma_free_lane(lanes);
}

/// Routing keeps the commit's lane and every connector starts there,
/// is classified by its two lanes, and ends at a lane that exists.
proof fn lemma_route_upto(commits: Seq<CommitInfo>, lanes: Lanes, lane: int, parents: Seq<CommitId>, n: int)
    requires
        0 <= lane < lanes.len(),
        0 <= n <= parents.len(),
        route_upto(commits, lanes, lane, parents, n).0.len() <= usize::MAX,
    ensures
        ({
            let res = route_upto(commits, lanes, lane, parents, n);
            &&& res.0.len() >= lanes.len()
            &&& forall|j: int| 0 <= j < res.1.len() ==> {
                &&& res.1[j].source_lane == lane
                &&& res.1[j].target_lane < res.0.len()
                &&& res.1[j].connection_type == classify(lane, res.1[j].target_lane as int)
            }
        }),
    decreases n,
{
    if n > 0 {
        let prev = route_upto(commits, lanes, lane, parents, n - 1);
        lemma_find(prev.0, Some(parents[n - 1]));
        lemma_free_lane(prev.0);
        lemma_route_upto(commits, lanes, lane, parents, n - 1);
    }
}

// ---------------------------------------------------------------------------
// Laws of the allocator

/// No parent is pending in two lanes at once.
pub open spec fn distinct_pending(lanes: Lanes) -> bool {
    forall|i: int, j: int| 0 <= i < j < lanes.len() && lanes[i] is Some ==> lanes[i] != lanes[j]
}

/// Routing the parents of a commit whose lane is empty only fills empty
/// lanes, and never makes a parent pending twice.
proof fn lemma_route_fills_empty(commits: Seq<CommitInfo>, lanes: Lanes, lane: int, parents: Seq<CommitId>, n: int)
    requires
        0 <= lane < lanes.len(),
        lanes[lane] is None,
        0 <= n <= parents.len(),
    ensures
        ({
            let out = route_upto(commits, lanes, lane, parents, n).0;
            &&& out.len() >= lanes.len()
            &&& forall|i: int| 0 <= i < lanes.len() && lanes[i] is Some ==> out[i] == lanes[i]
            &&& distinct_pending(lanes) ==> distinct_pending(out)
        }),
    decreases n,
{
    if n > 0 {
        lemma_route_fills_empty(commits, lanes, lane, parents, n - 1);
        let prev = route_upto(commits, lanes, lane, parents, n - 1).0;
        lemma_find(prev, Some(parents[n - 1]));
        lemma_free_lane(prev);
        if n - 1 == 0 {
            assert(prev == lanes);
        }
    }
}

proof fn lemma_row_step(commits: Seq<CommitInfo>, lanes: Lanes, c: CommitInfo)
    ensures
        ({
            let out = row_route(commits, lanes, c).0;
            &&& forall|i: int| 0 <= i < lanes.len() && lanes[i] is Some && lanes[i] != Some(c.oid) ==> out[i] == lanes[i]
            &&& distinct_pending(lanes) ==> distinct_pending(out)
        }),
{
    let l = commit_lane(lanes, c.oid);
    lemma_find(lanes, Some(c.oid));
    lemma_free_lane(lanes);
    lemma_commit_lane(lanes, c.oid);
    let o = opened(lanes, c);
    assert forall|i: int| 0 <= i < lanes.len() && lanes[i] is Some && lanes[i] != Some(c.oid) implies o[i] == lanes[i] by {}
    lemma_route_fills_empty(commits, o, l, c.parent_oids@, c.parent_oids@.len() as int);
}

/// No dangling lane reuse: at every row boundary no parent is pending in two
/// lanes, and a lane that waits for a parent other than the commit of row
/// `r` still waits for it after that row, so no allocation takes it.
pub proof fn lemma_no_lane_reuse(commits: Seq<CommitInfo>, r: int)
    requires
        0 <= r < commits.len(),
    ensures
        distinct_pending(lanes_before(commits, r)),
        distinct_pending(lanes_before(commits, r + 1)),
        forall|i: int|
            0 <= i < lanes_before(commits, r).len() && lanes_before(commits, r)[i] is Some && lanes_before(commits, r)[i]
                != Some(commits[r].oid) ==> #[trigger] lanes_before(commits, r + 1)[i] == lanes_before(commits, r)[i],
    decreases r,
{
    if r > 0 {
        lemma_no_lane_reuse(commits, r - 1);
    }
    lemma_row_step(commits, lanes_before(commits, r), commits[r]);
}

/// Each connector of a row ends in a lane that, once the row is routed,
/// waits for the connector's parent.
proof fn lemma_route_targets(commits: Seq<CommitInfo>, lanes: Lanes, lane: int, parents: Seq<CommitId>, n: int)
    requires
        0 <= lane < lanes.len(),
        lanes[lane] is None,
        0 <= n <= parents.len(),
        route_upto(commits, lanes, lane, parents, n).0.len() <= usize::MAX,
    ensures
        ({
            let res = route_upto(commits, lanes, lane, parents, n);
            forall|j: int|
                0 <= j < res.1.len() ==> (#[trigger] res.1[j]).target_lane < res.0.len() && res.0[res.1[j].target_lane as int]
                    == Some(res.1[j].target_oid)
        }),
    decreases n,
{
    if n > 0 {
        let prev = route_upto(commits, lanes, lane, parents, n - 1);
        let p = parents[n - 1];
        lemma_find(prev.0, Some(p));
        lemma_free_lane(prev.0);
        assert(prev.0.len() <= route_upto(commits, lanes, lane, parents, n).0.len());
        lemma_route_fills_empty(commits, lanes, lane, parents, n - 1);
        lemma_route_targets(commits, lanes, lane, parents, n - 1);
        if n - 1 == 0 {
            assert(prev.0 == lanes);
        }
    }
}

/// A connector ends in the lane its parent's own row takes: the parent
/// waits there from the child's row until its own, provided the commits
/// have distinct ids and the parent comes after the child.
pub proof fn lemma_connector_reaches_parent(commits: Seq<CommitInfo>, i: int, j: int, k: int)
    requires
        0 <= i < k < commits.len(),
        forall|a: int, b: int| 0 <= a < b < commits.len() ==> commits[a].oid != commits[b].oid,
        0 <= j < row_connections(commits, i).len(),
        row_connections(commits, i)[j].target_oid == commits[k].oid,
        lanes_before(commits, commits.len() as int).len() <= usize::MAX,
    ensures
        row_connections(commits, i)[j].target_lane == row_lane(commits, k),
{
    let p = commits[k].oid;
    let t = row_connections(commits, i)[j].target_lane as int;
    let before = lanes_before(commits, i);
    let c = commits[i];
    let l = commit_lane(before, c.oid);
    lemma_find(before, Some(c.oid));
    lemma_free_lane(before);
    lemma_commit_lane(before, c.oid);
    lemma_lanes_grow(commits, i + 1, commits.len() as int);
    lemma_route_targets(commits, opened(before, c), l, c.parent_oids@, c.parent_oids@.len() as int);
    assert(lanes_before(commits, i + 1)[t] == Some(p));
    lemma_pending_kept(commits, i + 1, k, t, p);
    lemma_no_lane_reuse(commits, k);
    let at_k = lanes_before(commits, k);
    lemma_find(at_k, Some(p));
    match find(at_k, Some(p)) {
        Some(u) => {
            if u != t {
                if u < t {
                    assert(at_k[u] != at_k[t]);
                } else {
                    assert(at_k[t] != at_k[u]);
                }
            }
        },
        None => {},
    }
}

/// A lane waiting for `p` after row `a - 1` still waits for it before row
/// `b`, when no row in between is `p`'s.
proof fn lemma_pending_kept(commits: Seq<CommitInfo>, a: int, b: int, t: int, p: CommitId)
    requires
        0 < a <= b < commits.len(),
        0 <= t < lanes_before(commits, a).len(),
        lanes_before(commits, a)[t] == Some(p),
        forall|r: int| a <= r < b ==> commits[r].oid != p,
    ensures
        t < lanes_before(commits, b).len(),
        lanes_before(commits, b)[t] == Some(p),
    decreases b - a,
{
    if a < b {
        lemma_pending_kept(commits, a, b - 1, t, p);
        lemma_no_lane_reuse(commits, b - 1);
        lemma_lanes_grow(commits, b - 1, b);
    }
}

/// A linear history: each commit's only parent is the next one, and every
/// parent of the oldest after its first lies outside the window.
pub open spec fn linear_history(commits: Seq<CommitInfo>) -> bool {
    &&& forall|i: int| 0 <= i < commits.len() - 1 ==> (#[trigger] commits[i]).parent_oids@ == seq![commits[i + 1].oid]
    &&& commits.len() > 0 ==> forall|k: int|
        1 <= k < commits.last().parent_oids@.len() ==> !in_window(commits, #[trigger] commits.last().parent_oids@[k])
}

/// Routing from a single empty lane, where only the first parent may lie in
/// the window, keeps one lane and ends every connector in lane 0.
proof fn lemma_single_lane_route(commits: Seq<CommitInfo>, ps: Seq<CommitId>, n: int)
    requires
        0 <= n <= ps.len(),
        forall|k: int| 1 <= k < ps.len() ==> !in_window(commits, #[trigger] ps[k]),
    ensures
        route_upto(commits, seq![None::<CommitId>], 0, ps, n).0.len() == 1,
        forall|j: int|
            0 <= j < route_upto(commits, seq![None::<CommitId>], 0, ps, n).1.len() ==> (#[trigger] route_upto(
                commits,
                seq![None::<CommitId>],
                0,
                ps,
                n,
            ).1[j]).target_lane == 0,
    decreases n,
{
    if n > 0 {
        lemma_single_lane_route(commits, ps, n - 1);
        let prev = route_upto(commits, seq![None::<CommitId>], 0, ps, n - 1);
        if in_window(commits, ps[n - 1]) {
            assert(n - 1 == 0);
            assert(prev.0 == seq![None::<CommitId>]);
            lemma_find(prev.0, Some(ps[n - 1]));
        }
    }
}

proof fn lemma_linear_rows(commits: Seq<CommitInfo>, r: int)
    requires
        linear_history(commits),
        0 <= r <= commits.len(),
    ensures
        max_lane_upto(commits, r) == 0,
        0 < r < commits.len() ==> lanes_before(commits, r) == seq![Some(commits[r].oid)],
        r == commits.len() && r > 0 ==> lanes_before(commits, r).len() == 1,
    decreases r,
{
    if r > 0 {
        lemma_linear_rows(commits, r - 1);
        let q = r - 1;
        let c = commits[q];
        let lanes = lanes_before(commits, q);
        lemma_find(lanes, Some(c.oid));
        lemma_free_lane(lanes);
        assert(row_lane(commits, q) == 0);
        let o = opened(lanes, c);
        assert(o == seq![None::<CommitId>]);
        let ps = c.parent_oids@;
        if q < commits.len() - 1 {
            assert(ps == seq![commits[q + 1].oid]);
            assert(in_window(commits, ps[0]));
            lemma_find(o, Some(ps[0]));
            assert(route_upto(commits, o, 0, ps, 0).0 == o);
            assert(row_route(commits, lanes, c).0 == o.update(0, Some(ps[0])));
            assert(o.update(0, Some(ps[0])) =~= seq![Some(commits[r].oid)]);
        } else {
            assert(commits.last() == c);
        }
        lemma_single_lane_route(commits, ps, ps.len() as int);
        let conns = row_connections(commits, q);
        lemma_max_target_bound(conns, 0, 1);
        lemma_max_target_ge(conns, 0);
    }
}

/// Lane boundedness on a linear history: however many commits, every row
/// and connector stays in lane 0.
pub proof fn lemma_linear_history_one_lane(commits: Seq<CommitInfo>)
    requires
        linear_history(commits),
    ensures
        max_lane_upto(commits, commits.len() as int) == 0,
        forall|r: int| 0 <= r < commits.len() ==> row_lane(commits, r) == 0,
        forall|r: int, j: int|
            0 <= r < commits.len() && 0 <= j < row_connections(commits, r).len() ==> (#[trigger] row_connections(
                commits,
                r,
            )[j]).target_lane == 0,
{
    lemma_linear_rows(commits, commits.len() as int);
    assert forall|r: int| 0 <= r < commits.len() implies row_lane(commits, r) == 0 by {
        lemma_linear_rows(commits, r);
        lemma_find(lanes_before(commits, r), Some(commits[r].oid));
        lemma_free_lane(lanes_before(commits, r));
    }
    assert forall|r: int, j: int|
        0 <= r < commits.len() && 0 <= j < row_connections(commits, r).len() implies (#[trigger] row_connections(
            commits,
            r,
        )[j]).target_lane == 0 by {
        lemma_max_lane_covers(commits, r, commits.len() as int);
    }
}

/// How many of the first `n` lanes wait for a parent.
pub open spec fn pending_upto(lanes: Lanes, n: int) -> int
    decreases n,
{
    if n <= 0 {
        0
    } else {
        pending_upto(lanes, n - 1) + if lanes[n - 1] is Some {
            1int
        } else {
            0
        }
    }
}

/// How many lanes wait for a parent.
pub open spec fn pending_count(lanes: Lanes) -> int {
    pending_upto(lanes, lanes.len() as int)
}

/// The most parents pending at once at a row boundary among the first `r`
/// rows and the end of row `r - 1`.
pub open spec fn peak_pending(commits: Seq<CommitInfo>, r: int) -> int
    decreases r,
{
    if r <= 0 {
        pending_count(lanes_before(commits, 0))
    } else {
        let p = peak_pending(commits, r - 1);
        let c = pending_count(lanes_before(commits, r));
        if c > p {
            c
        } else {
            p
        }
    }
}

proof fn lemma_pending_update(lanes: Lanes, i: int, v: Option<CommitId>, n: int)
    requires
        0 <= i < lanes.len(),
        0 <= n <= lanes.len(),
    ensures
        pending_upto(lanes.update(i, v), n) == pending_upto(lanes, n) + if i < n {
            (if v is Some {
                1int
            } else {
                0
            }) - (if lanes[i] is Some {
                1int
            } else {
                0
            })
        } else {
            0
        },
    decreases n,
{
    if n > 0 {
        lemma_pending_update(lanes, i, v, n - 1);
    }
}

proof fn lemma_pending_prefix(a: Lanes, b: Lanes, n: int)
    requires
        0 <= n <= a.len(),
        n <= b.len(),
        forall|j: int| 0 <= j < n ==> a[j] == b[j],
    ensures
        pending_upto(a, n) == pending_upto(b, n),
    decreases n,
{
    if n > 0 {
        lemma_pending_prefix(a, b, n - 1);
    }
}

proof fn lemma_pending_full(lanes: Lanes, n: int)
    requires
        0 <= n <= lanes.len(),
        forall|j: int| 0 <= j < n ==> lanes[j] is Some,
    ensures
        pending_upto(lanes, n) == n,
    decreases n,
{
    if n > 0 {
        lemma_pending_full(lanes, n - 1);
    }
}

proof fn lemma_pending_push_none(lanes: Lanes)
    ensures
        pending_count(lanes.push(None)) == pending_count(lanes),
{
    let l2 = lanes.push(None);
    lemma_pending_prefix(lanes, l2, lanes.len() as int);
}

/// Routing never lowers the pending count, and grows the lanes only when
/// every lane is pending, so they never outnumber the pending ones by more
/// than they did before.
proof fn lemma_route_width(commits: Seq<CommitInfo>, lanes: Lanes, lane: int, parents: Seq<CommitId>, n: int)
    requires
        0 <= lane < lanes.len(),
        lanes[lane] is None,
        0 <= n <= parents.len(),
    ensures
        ({
            let out = route_upto(commits, lanes, lane, parents, n).0;
            &&& pending_count(out) >= pending_count(lanes)
            &&& (out.len() <= lanes.len() || out.len() <= pending_count(out))
            &&& out.len() >= lanes.len()
        }),
    decreases n,
{
    if n > 0 {
        lemma_route_width(commits, lanes, lane, parents, n - 1);
        lemma_route_fills_empty(commits, lanes, lane, parents, n - 1);
        let prev = route_upto(commits, lanes, lane, parents, n - 1).0;
        let p = parents[n - 1];
        lemma_find(prev, Some(p));
        lemma_free_lane(prev);
        if in_window(commits, p) && find(prev, Some(p)) is None {
            if n - 1 == 0 {
                assert(prev == lanes);
                lemma_pending_update(prev, lane, Some(p), prev.len() as int);
            } else {
                let t = free_lane(prev);
                if t < prev.len() {
                    lemma_pending_update(prev, t, Some(p), prev.len() as int);
                } else {
                    let grown = prev.push(None);
                    lemma_pending_push_none(prev);
                    lemma_pending_full(prev, prev.len() as int);
                    lemma_pending_update(grown, t, Some(p), grown.len() as int);
                }
            }
        }
    }
}

/// Over one row the lanes outnumber the pending parents, at either boundary,
/// by at most one more than they did before.
proof fn lemma_row_width(commits: Seq<CommitInfo>, lanes: Lanes, c: CommitInfo)
    ensures
        ({
            let out = row_route(commits, lanes, c).0;
            let l = commit_lane(lanes, c.oid);
            &&& out.len() <= lanes.len() || out.len() <= pending_count(lanes) + 1 || out.len() <= pending_count(out)
            &&& l < out.len()
            &&& out.len() >= lanes.len()
        }),
{
    let l = commit_lane(lanes, c.oid);
    lemma_find(lanes, Some(c.oid));
    lemma_free_lane(lanes);
    lemma_commit_lane(lanes, c.oid);
    let o = opened(lanes, c);
    if l == lanes.len() {
        lemma_pending_full(lanes, lanes.len() as int);
    }
    lemma_route_width(commits, o, l, c.parent_oids@, c.parent_oids@.len() as int);
}

proof fn lemma_max_target_bound(conns: Seq<Connection>, m: int, w: int)
    requires
        m < w,
        forall|j: int| 0 <= j < conns.len() ==> (#[trigger] conns[j]).target_lane < w,
    ensures
        max_target(conns, m) < w,
    decreases conns.len(),
{
    if conns.len() > 0 {
        let init = conns.drop_last();
        assert forall|j: int| 0 <= j < init.len() implies (#[trigger] init[j]).target_lane < w by {
            assert(init[j] == conns[j]);
        }
        lemma_max_target_bound(init, m, w);
    }
}

proof fn lemma_width_bound(commits: Seq<CommitInfo>, r: int)
    requires
        0 <= r <= commits.len(),
        lanes_before(commits, r).len() <= usize::MAX,
        forall|q: int| 0 <= q <= r ==> #[trigger] lanes_before(commits, q).len() <= lanes_before(commits, r).len(),
    ensures
        lanes_before(commits, r).len() <= peak_pending(commits, r) + 1,
        r > 0 ==> max_lane_upto(commits, r) < lanes_before(commits, r).len(),
        peak_pending(commits, r) >= 0,
    decreases r,
{
    if r > 0 {
        let q = r - 1;
        let before = lanes_before(commits, q);
        let c = commits[q];
        assert forall|k: int| 0 <= k <= q implies #[trigger] lanes_before(commits, k).len() <= lanes_before(commits, q).len() by {
            lemma_lanes_grow(commits, k, q);
        }
        lemma_width_bound(commits, q);
        lemma_row_width(commits, before, c);
        let l = commit_lane(before, c.oid);
        lemma_commit_lane(before, c.oid);
        let o = opened(before, c);
        lemma_route_upto(commits, o, l, c.parent_oids@, c.parent_oids@.len() as int);
        let conns = row_connections(commits, q);
        let w = lanes_before(commits, r).len() as int;
        if q > 0 {
            lemma_max_target_bound(conns, max_lane_upto(commits, q), w);
        } else {
            lemma_max_target_bound(conns, 0, w);
        }
    } else {
        assert(pending_count(lanes_before(commits, 0)) == 0);
    }
}

proof fn lemma_lanes_grow(commits: Seq<CommitInfo>, a: int, b: int)
    requires
        0 <= a <= b <= commits.len(),
    ensures
        lanes_before(commits, a).len() <= lanes_before(commits, b).len(),
    decreases b - a,
{
    if a < b {
        lemma_lanes_grow(commits, a, b - 1);
        lemma_row_width(commits, lanes_before(commits, b - 1), commits[b - 1]);
    }
}

/// Lane boundedness: the highest lane a layout uses is at most the largest
/// number of parents pending at once at a row boundary, however many
/// commits there are.
pub proof fn lemma_lanes_bounded_by_pending(commits: Seq<CommitInfo>)
    requires
        lanes_before(commits, commits.len() as int).len() <= usize::MAX,
    ensures
        max_lane_upto(commits, commits.len() as int) <= peak_pending(commits, commits.len() as int),
{
    let n = commits.len() as int;
    assert forall|q: int| 0 <= q <= n implies #[trigger] lanes_before(commits, q).len() <= lanes_before(commits, n).len() by {
        lemma_lanes_grow(commits, q, n);
    }
    lemma_width_bound(commits, n);
}

// ---------------------------------------------------------------------------
// Building the layout

/// The lowest lane whose slot equals `t`.
fn find_slot(lanes: &Vec<Option<CommitId>>, t: Option<CommitId>) -> (r: Option<usize>)
    ensures
        match r {
            Some(i) => find(lanes@, t) == Some(i as int),
            None => find(lanes@, t) is None,
        },
{
    let mut i: usize = 0;
    while i < lanes.len()
        invariant
            i <= lanes.len(),
            forall|j: int| 0 <= j < i ==> lanes@[j] != t,
        decreases lanes.len() - i,
    {
        let hit = match (lanes[i], t) {
            (Some(a), Some(b)) => a == b,
            (None, None) => true,
            _ => false,
        };
        if hit {
            proof {
                lemma_find_unique(lanes@, t, i as int);
            }
            return Some(i);
        }
        i += 1;
    }
    proof {
        lemma_find_none(lanes@, t);
    }
    None
}

/// Takes the lowest empty lane, growing the vector where none is empty.
fn take_free_lane(lanes: &mut Vec<Option<CommitId>>) -> (r: usize)
    ensures
        r == free_lane(old(lanes)@),
        final(lanes)@ == with_slot(old(lanes)@, r as int),
        r < final(lanes)@.len(),
{
    proof {
        lemma_find(lanes@, None);
    }
    match find_slot(lanes, None) {
        Some(i) => i,
        None => {
            lanes.push(None);
            lanes.len() - 1
        },
    }
}

/// Whether `id` is one of `commits`.
fn contains_commit(commits: &[CommitInfo], id: CommitId) -> (r: bool)
    ensures
        r == in_window(commits@, id),
{
    let mut i: usize = 0;
    while i < commits.len()
        invariant
            i <= commits.len(),
            forall|j: int| 0 <= j < i ==> commits@[j].oid != id,
        decreases commits.len() - i,
    {
        if commits[i].oid == id {
            return true;
        }
        i += 1;
    }
    false
}

/// Routes each parent of a commit in `lane`, in order, and returns the connectors.
fn route_parents(
    commits: &[CommitInfo],
    lanes: &mut Vec<Option<CommitId>>,
    lane: usize,
    parents: &Vec<CommitId>,
) -> (conns: Vec<Connection>)
    requires
        lane < old(lanes)@.len(),
    ensures
        (final(lanes)@, conns@) == route_upto(commits@, old(lanes)@, lane as int, parents@, parents@.len() as int),
{
    let ghost start = lanes@;
    let mut conns: Vec<Connection> = Vec::new();
    let mut k: usize = 0;
    while k < parents.len()
        invariant
            k <= parents.len(),
            lane < lanes@.len(),
            (lanes@, conns@) == route_upto(commits@, start, lane as int, parents@, k as int),
        decreases parents.len() - k,
    {
        let p = parents[k];
        proof {
            lemma_find(lanes@, Some(p));
        }
        if contains_commit(commits, p) {
            let target: usize = match find_slot(lanes, Some(p)) {
                Some(t) => t,
                None => {
                    if k == 0 {
                        lanes[lane] = Some(p);
                        lane
                    } else {
                        let t = take_free_lane(lanes);
                        lanes[t] = Some(p);
                        t
                    }
                },
            };
            let kind = if lane == target {
                ConnectionType::Direct
            } else if target > lane {
                ConnectionType::BranchOut
            } else {
                ConnectionType::MergeIn
            };
            conns.push(Connection { target_oid: p, source_lane: lane, target_lane: target, connection_type: kind });
        }
        k += 1;
    }
    conns
}

/// Which lanes are drawn in a row whose commit sits in `lane`.
fn snapshot_of(lanes: &Vec<Option<CommitId>>, lane: usize) -> (s: Vec<bool>)
    ensures
        s@ == snapshot(lanes@, lane as int),
{
    let mut s: Vec<bool> = Vec::new();
    let mut i: usize = 0;
    while i < lanes.len()
        invariant
            i <= lanes.len(),
            s@ == snapshot(lanes@, lane as int).subrange(0, i as int),
        decreases lanes.len() - i,
    {
        s.push(i == lane || lanes[i].is_some());
        i += 1;
    }
    s
}

/// The tip of the last HEAD branch, if any.
fn head_commit(branches: &[BranchInfo]) -> (r: Option<CommitId>)
    ensures
        r == head_tip(branches@, branches@.len() as int),
{
    let mut head: Option<CommitId> = None;
    let mut i: usize = 0;
    while i < branches.len()
        invariant
            i <= branches.len(),
            head == head_tip(branches@, i as int),
        decreases branches.len() - i,
    {
        if branches[i].is_head {
            head = Some(branches[i].tip_oid);
        }
        i += 1;
    }
    head
}

/// Names of the branches whose tip is `id`, in branch-list order.
fn names_for(branches: &[BranchInfo], id: CommitId) -> (r: Vec<String>)
    ensures
        r@ == names_at(branches@, id, branches@.len() as int),
{
    let mut names: Vec<String> = Vec::new();
    let mut i: usize = 0;
    while i < branches.len()
        invariant
            i <= branches.len(),
            names@ == names_at(branches@, id, i as int),
        decreases branches.len() - i,
    {
        if branches[i].tip_oid == id {
            names.push(branches[i].name.clone());
        }
        i += 1;
    }
    names
}

proof fn lemma_max_target_ge(conns: Seq<Connection>, m: int)
    ensures
        max_target(conns, m) >= m,
        forall|j: int| 0 <= j < conns.len() ==> max_target(conns, m) >= (#[trigger] conns[j]).target_lane,
    decreases conns.len(),
{
    if conns.len() > 0 {
        let init = conns.drop_last();
        lemma_max_target_ge(init, m);
        assert forall|j: int| 0 <= j < conns.len() implies max_target(conns, m) >= (#[trigger] conns[j]).target_lane by {
            if j < init.len() {
                assert(init[j] == conns[j]);
            }
        }
    }
}

/// Row `r`'s lane and connector targets are at most the highest lane of
/// the first `n` rows, when `r < n`.
proof fn lemma_max_lane_covers(commits: Seq<CommitInfo>, r: int, n: int)
    requires
        0 <= r < n,
    ensures
        row_lane(commits, r) <= max_lane_upto(commits, n),
        forall|j: int|
            0 <= j < row_connections(commits, r).len() ==> (#[trigger] row_connections(commits, r)[j]).target_lane
                <= max_lane_upto(commits, n),
        max_lane_upto(commits, n) >= 0,
    decreases n,
{
    lemma_max_target_ge(row_connections(commits, n - 1), max_lane_upto(commits, n - 1));
    if r < n - 1 {
        lemma_max_lane_covers(commits, r, n - 1);
    } else if n - 1 > 0 {
        lemma_max_lane_covers(commits, 0, n - 1);
    }
}

/// The highest of `m` and the targets of `conns`.
fn highest_target(conns: &Vec<Connection>, m: usize) -> (r: usize)
    ensures
        r == max_target(conns@, m as int),
{
    let mut best = m;
    let mut j: usize = 0;
    while j < conns.len()
        invariant
            j <= conns@.len(),
            best == max_target(conns@.subrange(0, j as int), m as int),
        decreases conns.len() - j,
    {
        assert(conns@.subrange(0, j + 1).drop_last() == conns@.subrange(0, j as int));
        if conns[j].target_lane > best {
            best = conns[j].target_lane;
        }
        j += 1;
    }
    assert(conns@.subrange(0, conns@.len() as int) == conns@);
    best
}

/// Lays out row `row` over `lanes`: returns the commit's lane, the lanes
/// drawn in the row, and the connectors to its parents.
fn lay_out_row(commits: &[CommitInfo], lanes: &mut Vec<Option<CommitId>>, row: usize) -> (r: (usize, Vec<bool>, Vec<Connection>))
    requires
        row < commits@.len(),
        old(lanes)@ == lanes_before(commits@, row as int),
    ensures
        final(lanes)@ == lanes_before(commits@, row + 1),
        r.0 == row_lane(commits@, row as int),
        r.1@ == row_snapshot(commits@, row as int),
        r.2@ == row_connections(commits@, row as int),
        r.0 < final(lanes)@.len(),
        forall|j: int|
            0 <= j < r.2@.len() ==> {
                &&& (#[trigger] r.2@[j]).source_lane == r.0
                &&& r.2@[j].target_lane < final(lanes)@.len()
                &&& r.2@[j].connection_type == classify(r.0 as int, r.2@[j].target_lane as int)
            },
{
    let commit = &commits[row];
    let ghost before = lanes@;
    proof {
        lemma_find(before, Some(commit.oid));
        lemma_commit_lane(before, commit.oid);
    }
    let lane = match find_slot(lanes, Some(commit.oid)) {
        Some(l) => l,
        None => take_free_lane(lanes),
    };
    assert(lanes@ == with_slot(before, lane as int));
    let snapshot = snapshot_of(lanes, lane);
    lanes[lane] = None;
    assert(lanes@ == opened(before, *commit));
    let connections = route_parents(commits, lanes, lane, &commit.parent_oids);
    let width = lanes.len();
    proof {
        assert(lanes@.len() == width);
        lemma_route_upto(commits@, opened(before, *commit), lane as int, commit.parent_oids@, commit.parent_oids@.len() as int);
    }
    (lane, snapshot, connections)
}

/// `s` filled up with `false` to length `w`.
fn pad_lanes(s: &Vec<bool>, w: usize) -> (r: Vec<bool>)
    ensures
        r@ == padded(s@, w as int),
{
    let mut r: Vec<bool> = Vec::new();
    let mut i: usize = 0;
    while i < s.len()
        invariant
            i <= s@.len(),
            r@ == s@.subrange(0, i as int),
        decreases s.len() - i,
    {
        r.push(s[i]);
        i += 1;
    }
    assert(s@.subrange(0, s@.len() as int) =~= s@);
    assert(r@ =~= s@ + Seq::new(0, |k: int| false));
    while r.len() < w
        invariant
            r@.len() >= s@.len(),
            r@.len() <= w || r@.len() == s@.len(),
            r@ == s@ + Seq::new((r@.len() - s@.len()) as nat, |k: int| false),
        decreases w - r.len(),
    {
        r.push(false);
        assert(r@ =~= s@ + Seq::new((r@.len() - s@.len()) as nat, |k: int| false));
    }
    if s.len() >= w {
        assert(r@ =~= s@);
    }
    r
}

/// What a layout of `commits` and `branches`, with HEAD at `head`, holds:
/// every row as the allocator lays it out, drawn across `max_lane + 1`
/// lanes, and every connector classified by its two lanes.
pub open spec fn layout_matches(
    commits: Seq<CommitInfo>,
    branches: Seq<BranchInfo>,
    head: Option<CommitId>,
    layout: GraphLayout,
) -> bool {
    &&& layout.nodes@.len() == commits.len()
    &&& layout.max_lane == max_lane_upto(commits, commits.len() as int)
    &&& forall|r: int|
        0 <= r < commits.len() ==> node_matches(commits, branches, head, #[trigger] layout.nodes@[r], r, layout.max_lane + 1)
    &&& forall|r: int|
        0 <= r < commits.len() ==> {
            &&& (#[trigger] layout.nodes@[r]).lane <= layout.max_lane
            &&& layout.nodes@[r].active_lanes@.len() >= layout.max_lane + 1
        }
    &&& forall|r: int, j: int|
        0 <= r < commits.len() && 0 <= j < layout.nodes@[r].connections@.len() ==> {
            let c = #[trigger] layout.nodes@[r].connections@[j];
            &&& c.source_lane == layout.nodes@[r].lane
            &&& c.target_lane <= layout.max_lane
            &&& c.connection_type == classify(c.source_lane as int, c.target_lane as int)
            &&& (c.connection_type == ConnectionType::Direct <==> c.source_lane == c.target_lane)
            &&& (c.connection_type == ConnectionType::BranchOut <==> c.target_lane > c.source_lane)
            &&& (c.connection_type == ConnectionType::MergeIn <==> c.target_lane < c.source_lane)
        }
}

/// Lays out `commits` (newest first, children before parents) as rows of a
/// lane graph and attaches the names of the branches in `branches`; the
/// HEAD row is the tip of the HEAD branch.
///
/// Row `r` holds `commits[r]` in the lane its child left for it, or in the
/// lowest free lane; each parent inside the window gets a connector to the
/// lane where it is already pending, to the commit's own lane (first
/// parent), or to the lowest free lane (other parents). Parents outside the
/// window get none. Every row's drawn lanes span `max_lane + 1` lanes.
pub fn build_graph(commits: &[CommitInfo], branches: &[BranchInfo]) -> (layout: GraphLayout)
    ensures
        layout_matches(commits@, branches@, head_commit_of(branches@, None), layout),
{
    build_graph_at(commits, branches, None)
}

/// As `build_graph`, with HEAD detached at `detached_head` when no branch
/// is HEAD.
pub fn build_graph_at(commits: &[CommitInfo], branches: &[BranchInfo], detached_head: Option<CommitId>) -> (layout: GraphLayout)
    ensures
        layout_matches(commits@, branches@, head_commit_of(branches@, detached_head), layout),
{
    let n = commits.len();

    // First pass: the highest lane, which fixes the width of every row.
    let mut lanes: Vec<Option<CommitId>> = Vec::new();
    let mut max_lane: usize = 0;
    let mut row: usize = 0;
    while row < n
        invariant
            n == commits@.len(),
            row <= n,
            lanes@ == lanes_before(commits@, row as int),
            max_lane == max_lane_upto(commits@, row as int),
            row > 0 ==> max_lane < lanes@.len(),
        decreases n - row,
    {
        let ghost before = lanes@;
        let (lane, _snapshot, connections) = lay_out_row(commits, &mut lanes, row);
        let m = highest_target(&connections, max_lane);
        proof {
            lemma_row_width(commits@, before, commits@[row as int]);
            if connections@.len() > 0 {
                lemma_max_target_bound(connections@, max_lane as int, lanes@.len() as int);
            }
            assert(max_target(connections@, max_lane as int) < lanes@.len() || connections@.len() == 0);
        }
        max_lane = if lane > m {
            lane
        } else {
            m
        };
        row += 1;
    }
    let width: usize = if n > 0 {
        let grown = lanes.len();
        assert(max_lane < grown);
        max_lane + 1
    } else {
        1
    };

    // Second pass: the rows.
    let head = match head_commit(branches) {
        Some(t) => Some(t),
        None => detached_head,
    };
    let mut lanes: Vec<Option<CommitId>> = Vec::new();
    let mut nodes: Vec<GraphNode> = Vec::new();
    let mut row: usize = 0;
    while row < n
        invariant
            n == commits@.len(),
            row <= n,
            width == max_lane + 1,
            max_lane == max_lane_upto(commits@, n as int),
            head == head_commit_of(branches@, detached_head),
            lanes@ == lanes_before(commits@, row as int),
            nodes@.len() == row,
            forall|r: int|
                0 <= r < row ==> node_matches(
                    commits@,
                    branches@,
                    head_commit_of(branches@, detached_head),
                    #[trigger] nodes@[r],
                    r,
                    width as int,
                ),
            forall|r: int| 0 <= r < row ==> (#[trigger] nodes@[r]).lane <= max_lane,
            forall|r: int|
                0 <= r < row ==> (#[trigger] nodes@[r]).active_lanes@.len() >= width,
            forall|r: int, j: int|
                0 <= r < row && 0 <= j < nodes@[r].connections@.len() ==> {
                    let c = #[trigger] nodes@[r].connections@[j];
                    &&& c.source_lane == nodes@[r].lane
                    &&& c.target_lane <= max_lane
                    &&& c.connection_type == classify(c.source_lane as int, c.target_lane as int)
                },
        decreases n - row,
    {
        let commit = &commits[row];
        let (lane, snapshot, connections) = lay_out_row(commits, &mut lanes, row);
        proof {
            lemma_max_lane_covers(commits@, row as int, n as int);
        }
        let node = GraphNode {
            commit: commit.clone(),
            lane,
            row,
            connections,
            active_lanes: pad_lanes(&snapshot, width),
            branch_names: names_for(branches, commit.oid),
            is_head: match head {
                Some(h) => h == commit.oid,
                None => false,
            },
        };
        nodes.push(node);
        row += 1;
    }
    GraphLayout { nodes, max_lane }
}

} // verus!
