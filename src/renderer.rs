//! What a row of the graph column shows, cell by cell. Glyphs and colours
//! are chosen by the caller; this module decides which cells hold a commit,
//! a vertical line, a horizontal connector or nothing.

use vstd::prelude::*;

use crate::graph::{Connection, ConnectionType, GraphNode};

verus! {

/// The characters the graph is drawn with.
#[derive(Debug, Clone, Copy, PartialEq, Eq, Structural)]
pub struct GraphChars {
    pub vertical: char,
    pub horizontal: char,
    pub commit: char,
    pub commit_selected: char,
    pub merge_left: char,
    pub merge_right: char,
    pub branch_left: char,
    pub branch_right: char,
    pub tee_right: char,
    pub tee_left: char,
    pub cross: char,
}

impl Default for GraphChars {
    fn default() -> (r: Self)
        ensures
            r == (GraphChars {
                vertical: '│',
                horizontal: '─',
                commit: '●',
                commit_selected: '◉',
                merge_left: '╭',
                merge_right: '╮',
                branch_left: '╰',
                branch_right: '╯',
                tee_right: '├',
                tee_left: '┤',
                cross: '┼',
            }),
    {
        GraphChars {
            vertical: '│',
            horizontal: '─',
            commit: '●',
            commit_selected: '◉',
            merge_left: '╭',
            merge_right: '╮',
            branch_left: '╰',
            branch_right: '╯',
            tee_right: '├',
            tee_left: '┤',
            cross: '┼',
        }
    }
}

/// What one cell of the graph column holds; `lane` gives its colour.
#[derive(Debug, Clone, Copy, PartialEq, Eq, Structural)]
pub enum Cell {
    Blank,
    Commit { lane: usize },
    Vertical { lane: usize },
    Horizontal { lane: usize },
}

/// Whether `conns` has a connector ending in lane `i`.
pub open spec fn is_target(conns: Seq<Connection>, i: int) -> bool {
    exists|j: int| 0 <= j < conns.len() && conns[j].target_lane == i
}

/// The highest of `w` and one past each target of `conns`.
pub open spec fn targets_width(conns: Seq<Connection>, w: int) -> int
    decreases conns.len(),
{
    if conns.len() == 0 {
        w
    } else {
        let rest = targets_width(conns.drop_last(), w);
        let t = conns.last().target_lane + 1;
        if t > rest {
            t
        } else {
            rest
        }
    }
}

/// Whether a connector of a commit in `lane` runs through the gap right of
/// column `col`: rightwards from the commit's lane to a higher lane, or
/// leftwards from a lower lane to the commit's lane.
pub open spec fn gap_connected(conns: Seq<Connection>, lane: int, col: int) -> bool {
    exists|j: int|
        0 <= j < conns.len() && conns[j].source_lane == lane && {
            ||| (conns[j].target_lane > lane && lane <= col < conns[j].target_lane)
            ||| (conns[j].target_lane < lane && conns[j].target_lane <= col < lane)
        }
}

/// Whether a connector other than a straight one spans the gap right of
/// column `col`.
pub open spec fn gap_crossed(conns: Seq<Connection>, col: int) -> bool {
    exists|j: int|
        0 <= j < conns.len() && conns[j].connection_type != ConnectionType::Direct && {
            let lo = if conns[j].source_lane <= conns[j].target_lane {
                conns[j].source_lane
            } else {
                conns[j].target_lane
            };
            let hi = if conns[j].source_lane <= conns[j].target_lane {
                conns[j].target_lane
            } else {
                conns[j].source_lane
            };
            lo <= col < hi
        }
}

/// The cell of column `col` of a row with the commit in `lane`.
pub open spec fn lane_cell(active: Seq<bool>, lane: int, col: int) -> Cell {
    if col == lane {
        Cell::Commit { lane: lane as usize }
    } else if col < active.len() && active[col] {
        Cell::Vertical { lane: col as usize }
    } else {
        Cell::Blank
    }
}

/// The cell in the gap right of column `col`.
pub open spec fn gap_cell(conns: Seq<Connection>, lane: int, col: int) -> Cell {
    if gap_connected(conns, lane, col) {
        Cell::Horizontal { lane: lane as usize }
    } else {
        Cell::Blank
    }
}

proof fn lemma_targets_width(conns: Seq<Connection>, w: int)
    ensures
        targets_width(conns, w) >= w,
        forall|k: int| 0 <= k < conns.len() ==> targets_width(conns, w) > (#[trigger] conns[k]).target_lane,
    decreases conns.len(),
{
    if conns.len() > 0 {
        lemma_targets_width(conns.drop_last(), w);
        assert forall|k: int| 0 <= k < conns.len() implies targets_width(conns, w) > (#[trigger] conns[k]).target_lane by {
            if k < conns.len() - 1 {
                assert(conns.drop_last()[k] == conns[k]);
            }
        }
    }
}

/// Lane `lane` marked active from the next row on: the lanes a connector of
/// `node` ends in, and the other lanes that were active.
pub fn update_active_lanes(node: &GraphNode, active_lanes: &mut Vec<bool>)
    requires
        node.lane < usize::MAX,
        forall|j: int| 0 <= j < node.connections@.len() ==> (#[trigger] node.connections@[j]).target_lane < usize::MAX,
    ensures
        final(active_lanes)@.len() == targets_width(
            node.connections@,
            if old(active_lanes)@.len() > node.lane {
                old(active_lanes)@.len() as int
            } else {
                node.lane + 1
            },
        ),
        forall|i: int|
            0 <= i < final(active_lanes)@.len() ==> #[trigger] final(active_lanes)@[i] == (is_target(node.connections@, i) || (i
                != node.lane && i < old(active_lanes)@.len() && old(active_lanes)@[i])),
{
    let ghost start = active_lanes@;
    let lane = node.lane;
    while active_lanes.len() <= lane
        invariant
            lane < usize::MAX,
            start.len() <= active_lanes@.len(),
            active_lanes@.len() <= lane + 1 || active_lanes@.len() == start.len(),
            forall|i: int| 0 <= i < active_lanes@.len() ==> #[trigger] active_lanes@[i] == (i < start.len() && start[i]),
        decreases lane + 1 - active_lanes.len(),
    {
        active_lanes.push(false);
    }

    let mut has_parent_on_same_lane = false;
    let mut j: usize = 0;
    while j < node.connections.len()
        invariant
            j <= node.connections@.len(),
            has_parent_on_same_lane == exists|k: int| 0 <= k < j && node.connections@[k].target_lane == lane,
        decreases node.connections.len() - j,
    {
        if node.connections[j].target_lane == lane {
            has_parent_on_same_lane = true;
        }
        j += 1;
    }
    active_lanes[lane] = has_parent_on_same_lane;

    let ghost base = active_lanes@;
    let mut j: usize = 0;
    while j < node.connections.len()
        invariant
            j <= node.connections@.len(),
            lane < base.len(),
            forall|k: int| 0 <= k < node.connections@.len() ==> (#[trigger] node.connections@[k]).target_lane < usize::MAX,
            active_lanes@.len() == targets_width(node.connections@.subrange(0, j as int), base.len() as int),
            forall|i: int|
                0 <= i < active_lanes@.len() ==> #[trigger] active_lanes@[i] == (is_target(
                    node.connections@.subrange(0, j as int),
                    i,
                ) || (i < base.len() && base[i])),
        decreases node.connections.len() - j,
    {
        let ghost prefix = node.connections@.subrange(0, j as int);
        let ghost next = node.connections@.subrange(0, j + 1);
        assert(next.drop_last() == prefix);
        assert(next.last() == node.connections@[j as int]);
        let target = node.connections[j].target_lane;
        let ghost before = active_lanes@;
        while active_lanes.len() <= target
            invariant
                target < usize::MAX,
                before.len() <= active_lanes@.len(),
                active_lanes@.len() <= target + 1 || active_lanes@.len() == before.len(),
                forall|i: int| 0 <= i < active_lanes@.len() ==> #[trigger] active_lanes@[i] == (i < before.len() && before[i]),
            decreases target + 1 - active_lanes.len(),
        {
            active_lanes.push(false);
        }
        active_lanes[target] = true;
        proof {
            lemma_targets_width(prefix, base.len() as int);
        }
        assert forall|i: int| 0 <= i < active_lanes@.len() implies #[trigger] active_lanes@[i] == (is_target(next, i) || (i
            < base.len() && base[i])) by {
            if is_target(prefix, i) {
                let k = choose|k: int| 0 <= k < prefix.len() && prefix[k].target_lane == i;
                assert(next[k] == prefix[k]);
            }
            if is_target(next, i) && i != target {
                let k = choose|k: int| 0 <= k < next.len() && next[k].target_lane == i;
                assert(k < prefix.len());
                assert(prefix[k] == next[k]);
            }
        }
        j += 1;
    }
    assert(node.connections@.subrange(0, node.connections@.len() as int) == node.connections@);
}

/// Whether a connector of the row runs through the gap right of `col`.
fn has_gap_connection(conns: &Vec<Connection>, lane: usize, col: usize) -> (r: bool)
    ensures
        r == gap_connected(conns@, lane as int, col as int),
{
    let mut j: usize = 0;
    while j < conns.len()
        invariant
            j <= conns@.len(),
            forall|k: int|
                0 <= k < j ==> !(conns@[k].source_lane == lane && {
                    ||| (conns@[k].target_lane > lane && lane <= col < conns@[k].target_lane)
                    ||| (conns@[k].target_lane < lane && conns@[k].target_lane <= col < lane)
                }),
        decreases conns.len() - j,
    {
        let c = conns[j];
        if c.source_lane == lane && ((c.target_lane > lane && col >= lane && col < c.target_lane) || (c.target_lane < lane
            && col >= c.target_lane && col < lane)) {
            return true;
        }
        j += 1;
    }
    false
}

/// Whether a connector other than a straight one spans the gap right of `col`.
pub fn has_crossing_connection(conns: &Vec<Connection>, col: usize) -> (r: bool)
    ensures
        r == gap_crossed(conns@, col as int),
{
    let mut j: usize = 0;
    while j < conns.len()
        invariant
            j <= conns@.len(),
            forall|k: int|
                0 <= k < j ==> !(conns@[k].connection_type != ConnectionType::Direct && {
                    let lo = if conns@[k].source_lane <= conns@[k].target_lane {
                        conns@[k].source_lane
                    } else {
                        conns@[k].target_lane
                    };
                    let hi = if conns@[k].source_lane <= conns@[k].target_lane {
                        conns@[k].target_lane
                    } else {
                        conns@[k].source_lane
                    };
                    lo <= col < hi
                }),
        decreases conns.len() - j,
    {
        let c = conns[j];
        let lo = if c.source_lane <= c.target_lane {
            c.source_lane
        } else {
            c.target_lane
        };
        let hi = if c.source_lane <= c.target_lane {
            c.target_lane
        } else {
            c.source_lane
        };
        let straight = match c.connection_type {
            ConnectionType::Direct => true,
            _ => false,
        };
        if !straight && col >= lo && col < hi {
            return true;
        }
        j += 1;
    }
    false
}

/// The cells of the graph column of `node` in a layout whose highest lane is
/// `max_lane`: for each lane a cell, and between two lanes a gap cell.
pub fn graph_cells(node: &GraphNode, max_lane: usize) -> (cells: Vec<Cell>)
    requires
        max_lane < usize::MAX / 2,
    ensures
        cells@.len() == 2 * max_lane + 1,
        forall|col: int| 0 <= col <= max_lane ==> #[trigger] cells@[2 * col] == lane_cell(node.active_lanes@, node.lane as int, col),
        forall|col: int|
            0 <= col < max_lane ==> #[trigger] cells@[2 * col + 1] == gap_cell(node.connections@, node.lane as int, col),
{
    let lane = node.lane;
    let mut cells: Vec<Cell> = Vec::new();
    let mut col: usize = 0;
    while col <= max_lane
        invariant
            max_lane < usize::MAX / 2,
            col <= max_lane + 1,
            cells@.len() == if col <= max_lane {
                2 * col
            } else {
                2 * col - 1
            },
            forall|c: int| 0 <= c < col ==> #[trigger] cells@[2 * c] == lane_cell(node.active_lanes@, lane as int, c),
            forall|c: int| 0 <= c < col && c < max_lane ==> #[trigger] cells@[2 * c + 1] == gap_cell(node.connections@, lane as int, c),
        decreases max_lane + 1 - col,
    {
        let cell = if col == lane {
            Cell::Commit { lane }
        } else if col < node.active_lanes.len() && node.active_lanes[col] {
            Cell::Vertical { lane: col }
        } else {
            Cell::Blank
        };
        cells.push(cell);
        if col < max_lane {
            if has_gap_connection(&node.connections, lane, col) {
                cells.push(Cell::Horizontal { lane });
            } else {
                cells.push(Cell::Blank);
            }
        }
        col += 1;
    }
    cells
}

} // verus!
