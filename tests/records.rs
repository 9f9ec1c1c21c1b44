use git_graph_tui::branch::{branch_order, BranchInfo};
use git_graph_tui::commit::CommitId;
use git_graph_tui::config::{fetch_interval_from, refresh_interval_from, Config, RefreshConfig};
use git_graph_tui::diff::{CommitDiffInfo, DeltaRecord, DeltaStatus, FileChangeKind, LineRecord, MAX_FILES_TO_DISPLAY};
use git_graph_tui::repository::working_tree_status;

#[test]
fn default_config() {
    let c = Config::default();
    assert_eq!(c.refresh, RefreshConfig { auto_refresh: true, refresh_interval: 10, auto_fetch: true, fetch_interval: 60 });
}

#[test]
fn intervals_are_raised_to_their_minimum() {
    assert_eq!(refresh_interval_from(0), 1);
    assert_eq!(refresh_interval_from(5), 5);
    assert_eq!(fetch_interval_from(3), 10);
    assert_eq!(fetch_interval_from(30), 30);
}

fn delta(status: DeltaStatus, binary: bool, old: Option<&str>, new: Option<&str>) -> DeltaRecord {
    DeltaRecord { status, binary, old_path: old.map(|s| s.to_string()), new_path: new.map(|s| s.to_string()) }
}

fn line(path: &str, origin: char) -> LineRecord {
    LineRecord { binary: false, old_path: Some(path.to_string()), new_path: Some(path.to_string()), origin }
}

#[test]
fn diff_summary_counts_lines_per_file() {
    let deltas = vec![
        delta(DeltaStatus::Modified, false, Some("a.rs"), Some("a.rs")),
        delta(DeltaStatus::Deleted, false, Some("gone.rs"), None),
        delta(DeltaStatus::Added, true, None, Some("logo.png")),
        delta(DeltaStatus::Other, false, Some("x"), Some("x")),
    ];
    let mut removed = LineRecord { binary: false, old_path: Some("gone.rs".to_string()), new_path: None, origin: '-' };
    let lines = vec![
        line("a.rs", '+'),
        line("a.rs", '+'),
        line("a.rs", '-'),
        line("a.rs", ' '),
        line("other.rs", '+'),
    ];
    let mut lines = lines;
    lines.push(LineRecord { binary: false, old_path: None, new_path: None, origin: '+' });
    removed.origin = '-';
    lines.push(removed);
    let info = CommitDiffInfo::from_records(&deltas, &lines);
    assert_eq!(info.total_files, 4);
    assert!(!info.truncated);
    assert_eq!(info.files.len(), 2);
    assert_eq!(info.files[0].path, "a.rs");
    assert_eq!(info.files[0].kind, FileChangeKind::Modified);
    assert_eq!((info.files[0].insertions, info.files[0].deletions), (2, 1));
    assert_eq!(info.files[1].path, "gone.rs");
    assert_eq!(info.files[1].kind, FileChangeKind::Deleted);
    assert_eq!((info.files[1].insertions, info.files[1].deletions), (0, 1));
    assert_eq!(info.total_insertions, 2);
    assert_eq!(info.total_deletions, 2);
}

#[test]
fn diff_summary_lists_at_most_the_limit() {
    let deltas: Vec<DeltaRecord> = (0..MAX_FILES_TO_DISPLAY + 5)
        .map(|i| delta(DeltaStatus::Added, false, None, Some(&format!("f{}", i))))
        .collect();
    let lines = vec![line("f60", '+'), line("f0", '+')];
    let info = CommitDiffInfo::from_records(&deltas, &lines);
    assert_eq!(info.total_files, MAX_FILES_TO_DISPLAY + 5);
    assert!(info.truncated);
    assert_eq!(info.files.len(), MAX_FILES_TO_DISPLAY);
    assert_eq!(info.total_insertions, 1);
    assert_eq!(info.files[0].insertions, 1);
}

#[test]
fn empty_diff_summary() {
    let info = CommitDiffInfo::from_records(&[], &[]);
    assert!(info.files.is_empty());
    assert_eq!(info.total_files, 0);
    let d = CommitDiffInfo::default();
    assert_eq!(d.total_insertions, 0);
}

#[test]
fn working_tree_counts_changed_files() {
    assert_eq!(working_tree_status(&[]), None);
    assert_eq!(working_tree_status(&[0, 1 << 7, 1 << 14]), None);
    let s = working_tree_status(&[1, 1 << 8, (1 << 1) | (1 << 9), 1 << 7, 1 << 11]).unwrap();
    assert_eq!(s.file_count, 4);
}

fn named(name: &str, is_head: bool) -> BranchInfo {
    BranchInfo {
        name: name.to_string(),
        is_head,
        is_remote: name.starts_with("origin/"),
        upstream: None,
        tip_oid: CommitId { hi: 0, mid: 0, lo: 0 },
    }
}

#[test]
fn branches_are_listed_head_first_then_by_name() {
    let names = ["zeta", "alpha", "Beta", "origin/alpha", "\u{e9}t\u{e9}", "alp", "alpha2"];
    let branches: Vec<BranchInfo> = names.iter().map(|n| named(n, *n == "zeta")).collect();
    let order = branch_order(&branches);
    let listed: Vec<&str> = order.iter().map(|&i| branches[i].name.as_str()).collect();
    let mut expected: Vec<&str> = names.iter().copied().filter(|n| *n != "zeta").collect();
    expected.sort();
    expected.insert(0, "zeta");
    assert_eq!(listed, expected);
}

#[test]
fn equal_branch_keys_keep_their_order() {
    let branches = vec![named("same", false), named("a", false), named("same", false)];
    assert_eq!(branch_order(&branches), vec![1, 0, 2]);
    assert!(branch_order(&[]).is_empty());
}
