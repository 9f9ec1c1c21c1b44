use git_graph_tui::commit::{CommitId, CommitInfo};
use git_graph_tui::graph::{build_graph, Connection, ConnectionType};
use git_graph_tui::renderer::{graph_cells, has_crossing_connection, update_active_lanes, Cell, GraphChars};

fn commit(n: u64, parents: &[u64]) -> CommitInfo {
    CommitInfo {
        oid: CommitId { hi: 0, mid: n, lo: 0 },
        short_id: String::new(),
        author_name: String::new(),
        author_email: String::new(),
        timestamp: 0,
        message: String::new(),
        full_message: String::new(),
        parent_oids: parents.iter().map(|p| CommitId { hi: 0, mid: *p, lo: 0 }).collect(),
    }
}

#[test]
fn default_glyphs() {
    let g = GraphChars::default();
    assert_eq!(g.vertical, '│');
    assert_eq!(g.horizontal, '─');
    assert_eq!(g.commit, '●');
    assert_eq!(g.commit_selected, '◉');
    assert_eq!(g.cross, '┼');
}

#[test]
fn merge_row_cells() {
    let commits = vec![commit(1, &[2, 3]), commit(2, &[]), commit(3, &[])];
    let layout = build_graph(&commits, &[]);
    let cells = graph_cells(&layout.nodes[0], layout.max_lane);
    assert_eq!(cells, vec![Cell::Commit { lane: 0 }, Cell::Horizontal { lane: 0 }, Cell::Blank]);
    let cells = graph_cells(&layout.nodes[1], layout.max_lane);
    assert_eq!(cells, vec![Cell::Commit { lane: 0 }, Cell::Blank, Cell::Vertical { lane: 1 }]);
}

#[test]
fn converging_row_draws_leftwards() {
    let commits = vec![commit(1, &[3]), commit(2, &[3]), commit(3, &[])];
    let layout = build_graph(&commits, &[]);
    let cells = graph_cells(&layout.nodes[1], layout.max_lane);
    assert_eq!(cells, vec![Cell::Vertical { lane: 0 }, Cell::Horizontal { lane: 1 }, Cell::Commit { lane: 1 }]);
    assert!(has_crossing_connection(&layout.nodes[1].connections, 0));
    assert!(!has_crossing_connection(&layout.nodes[1].connections, 1));
}

#[test]
fn active_lanes_follow_the_connectors() {
    let commits = vec![commit(1, &[2, 3]), commit(2, &[]), commit(3, &[])];
    let layout = build_graph(&commits, &[]);
    let mut active = vec![false, false, true, true];
    update_active_lanes(&layout.nodes[0], &mut active);
    assert_eq!(active, vec![true, true, true, true]);
    let mut active = vec![true];
    update_active_lanes(&layout.nodes[1], &mut active);
    assert_eq!(active, vec![false]);
    let mut active = Vec::new();
    update_active_lanes(&layout.nodes[2], &mut active);
    assert_eq!(active, vec![false, false]);
}

#[test]
fn straight_connectors_cross_nothing() {
    let id = CommitId { hi: 1, mid: 1, lo: 1 };
    let conns = vec![Connection { target_oid: id, source_lane: 2, target_lane: 2, connection_type: ConnectionType::Direct }];
    assert!(!has_crossing_connection(&conns, 2));
    let conns = vec![Connection { target_oid: id, source_lane: 3, target_lane: 1, connection_type: ConnectionType::MergeIn }];
    assert!(has_crossing_connection(&conns, 1));
    assert!(has_crossing_connection(&conns, 2));
    assert!(!has_crossing_connection(&conns, 3));
}
