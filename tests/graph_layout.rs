use git_graph_tui::branch::BranchInfo;
use git_graph_tui::commit::{CommitId, CommitInfo};
use git_graph_tui::graph::{build_graph, build_graph_at, ConnectionType, GraphLayout};

fn id(n: u64) -> CommitId {
    CommitId { hi: n, mid: 0, lo: 0 }
}

fn commit(n: u64, parents: &[u64]) -> CommitInfo {
    CommitInfo {
        oid: id(n),
        short_id: format!("{:07x}", n),
        author_name: "Author".to_string(),
        author_email: "author@example.com".to_string(),
        timestamp: 1_700_000_000 + n as i64,
        message: format!("commit {}", n),
        full_message: format!("commit {}\n\nbody", n),
        parent_oids: parents.iter().map(|p| id(*p)).collect(),
    }
}

fn branch(name: &str, tip: u64, is_head: bool) -> BranchInfo {
    BranchInfo { name: name.to_string(), is_head, is_remote: false, upstream: None, tip_oid: id(tip) }
}

fn assert_classified(layout: &GraphLayout) {
    for node in &layout.nodes {
        for c in &node.connections {
            assert_eq!(c.source_lane, node.lane);
            let expected = if c.source_lane == c.target_lane {
                ConnectionType::Direct
            } else if c.target_lane > c.source_lane {
                ConnectionType::BranchOut
            } else {
                ConnectionType::MergeIn
            };
            assert_eq!(c.connection_type, expected);
            assert!(c.target_lane <= layout.max_lane);
        }
        assert!(node.lane <= layout.max_lane);
    }
}

#[test]
fn three_commit_chain_stays_in_lane_zero() {
    let commits = vec![commit(1, &[2]), commit(2, &[3]), commit(3, &[])];
    let layout = build_graph(&commits, &[]);
    assert_eq!(layout.nodes.len(), 3);
    assert_eq!(layout.max_lane, 0);
    for (row, node) in layout.nodes.iter().enumerate() {
        assert_eq!(node.lane, 0);
        assert_eq!(node.row, row);
        assert_eq!(node.commit.oid, commits[row].oid);
    }
    let conns: Vec<_> = layout.nodes.iter().flat_map(|n| n.connections.iter()).collect();
    assert_eq!(conns.len(), 2);
    assert!(conns.iter().all(|c| c.connection_type == ConnectionType::Direct));
    assert_eq!(conns[0].target_oid, id(2));
    assert_eq!(conns[1].target_oid, id(3));
}

#[test]
fn long_linear_history_has_one_lane() {
    let n = 200u64;
    let commits: Vec<CommitInfo> = (0..n).map(|i| if i + 1 < n { commit(i, &[i + 1]) } else { commit(i, &[]) }).collect();
    let layout = build_graph(&commits, &[]);
    assert_eq!(layout.max_lane, 0);
    assert!(layout.nodes.iter().all(|node| node.lane == 0));
}

#[test]
fn merge_second_parent_takes_lowest_free_lane() {
    // The merge commit has a first parent and a second one.
    let commits = vec![commit(10, &[11, 12]), commit(11, &[]), commit(12, &[])];
    let layout = build_graph(&commits, &[]);
    let m = &layout.nodes[0];
    assert_eq!(m.lane, 0);
    assert_eq!(m.connections.len(), 2);
    assert_eq!(m.connections[0].target_lane, 0);
    assert_eq!(m.connections[0].connection_type, ConnectionType::Direct);
    assert_eq!(m.connections[1].target_lane, 1);
    assert_eq!(m.connections[1].connection_type, ConnectionType::BranchOut);
    assert_eq!(layout.nodes[1].lane, 0);
    assert_eq!(layout.nodes[2].lane, 1);
    assert_eq!(layout.max_lane, 1);
    assert_eq!(layout.nodes[0].active_lanes, vec![true, false]);
    assert_eq!(layout.nodes[1].active_lanes, vec![true, true]);
    assert_eq!(layout.nodes[2].active_lanes, vec![false, true]);
    assert_classified(&layout);
}

#[test]
fn two_names_on_one_commit_keep_branch_order() {
    let commits = vec![commit(1, &[2]), commit(2, &[])];
    let branches = vec![branch("main", 1, true), branch("feature", 2, false), branch("release", 1, false)];
    let layout = build_graph(&commits, &branches);
    assert_eq!(layout.nodes[0].branch_names, vec!["main".to_string(), "release".to_string()]);
    assert_eq!(layout.nodes[1].branch_names, vec!["feature".to_string()]);
    assert!(layout.nodes[0].is_head);
    assert!(!layout.nodes[1].is_head);
}

#[test]
fn empty_commit_list_gives_empty_layout() {
    let layout = build_graph(&[], &[branch("main", 1, true)]);
    assert!(layout.nodes.is_empty());
    assert_eq!(layout.max_lane, 0);
}

#[test]
fn parents_outside_the_window_are_dropped() {
    let commits = vec![commit(1, &[2, 99]), commit(2, &[98])];
    let layout = build_graph(&commits, &[branch("gone", 97, false)]);
    assert_eq!(layout.nodes[0].connections.len(), 1);
    assert_eq!(layout.nodes[0].connections[0].target_oid, id(2));
    assert!(layout.nodes[1].connections.is_empty());
    assert_eq!(layout.max_lane, 0);
    assert!(layout.nodes.iter().all(|n| n.branch_names.is_empty()));
}

#[test]
fn converging_children_merge_in_from_the_right() {
    // Two tips share the parent C.
    let commits = vec![commit(1, &[3]), commit(2, &[3]), commit(3, &[])];
    let layout = build_graph(&commits, &[]);
    assert_eq!(layout.nodes[0].lane, 0);
    assert_eq!(layout.nodes[1].lane, 1);
    let c = &layout.nodes[1].connections[0];
    assert_eq!((c.source_lane, c.target_lane), (1, 0));
    assert_eq!(c.connection_type, ConnectionType::MergeIn);
    assert_eq!(layout.nodes[2].lane, 0);
    assert_classified(&layout);
}

#[test]
fn pending_lanes_are_not_reused() {
    // A waits for X in lane 0 while B opens lane 1 for Y.
    let commits = vec![commit(1, &[3]), commit(2, &[4]), commit(3, &[]), commit(4, &[])];
    let layout = build_graph(&commits, &[]);
    let lanes: Vec<usize> = layout.nodes.iter().map(|n| n.lane).collect();
    assert_eq!(lanes, vec![0, 1, 0, 1]);
    assert_eq!(layout.nodes[1].active_lanes, vec![true, true]);
    assert_eq!(layout.nodes[3].active_lanes, vec![false, true]);
    assert_classified(&layout);
}

#[test]
fn freed_lane_is_taken_again() {
    // After X ends lane 0 is free again for the next tip.
    let commits = vec![commit(1, &[2]), commit(2, &[]), commit(3, &[])];
    let layout = build_graph(&commits, &[]);
    let lanes: Vec<usize> = layout.nodes.iter().map(|n| n.lane).collect();
    assert_eq!(lanes, vec![0, 0, 0]);
    assert_eq!(layout.nodes[2].active_lanes, vec![true]);
}

#[test]
fn octopus_merge_opens_lanes_in_order() {
    let commits = vec![commit(1, &[2, 3, 4]), commit(2, &[]), commit(3, &[]), commit(4, &[])];
    let layout = build_graph(&commits, &[]);
    let targets: Vec<usize> = layout.nodes[0].connections.iter().map(|c| c.target_lane).collect();
    assert_eq!(targets, vec![0, 1, 2]);
    assert_eq!(layout.max_lane, 2);
    assert_classified(&layout);
}

#[test]
fn commit_clone_keeps_its_fields() {
    let c = commit(5, &[6, 7]);
    let d = c.clone();
    assert_eq!(d.oid, c.oid);
    assert_eq!(d.parent_oids, c.parent_oids);
    assert_eq!(d.message, c.message);
    assert_eq!(d.timestamp, c.timestamp);
}

#[test]
fn linear_history_with_truncated_merge_at_the_bottom() {
    // The oldest commit is a merge whose parents lie outside the window.
    let commits = vec![commit(1, &[2]), commit(2, &[3]), commit(3, &[90, 91, 92])];
    let layout = build_graph(&commits, &[]);
    assert_eq!(layout.max_lane, 0);
    assert!(layout.nodes.iter().all(|n| n.lane == 0));
    assert!(layout.nodes[2].connections.is_empty());
}

#[test]
fn rows_keep_every_commit_field() {
    let commits = vec![commit(1, &[2]), commit(2, &[])];
    let layout = build_graph(&commits, &[]);
    for (node, c) in layout.nodes.iter().zip(commits.iter()) {
        assert_eq!(node.commit.short_id, c.short_id);
        assert_eq!(node.commit.author_name, c.author_name);
        assert_eq!(node.commit.author_email, c.author_email);
        assert_eq!(node.commit.timestamp, c.timestamp);
        assert_eq!(node.commit.full_message, c.full_message);
    }
}

#[test]
fn detached_head_marks_its_commit() {
    let commits = vec![commit(1, &[2]), commit(2, &[])];
    let layout = build_graph_at(&commits, &[branch("topic", 1, false)], Some(id(2)));
    assert!(!layout.nodes[0].is_head);
    assert!(layout.nodes[1].is_head);
    let layout = build_graph_at(&commits, &[branch("main", 1, true)], Some(id(2)));
    assert!(layout.nodes[0].is_head);
    assert!(!layout.nodes[1].is_head);
}
