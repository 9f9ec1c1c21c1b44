use git_graph_tui::action::Action;
use git_graph_tui::app::{AppMode, AppState, Command, ConfirmAction, InputAction};
use git_graph_tui::branch::BranchInfo;
use git_graph_tui::commit::{CommitId, CommitInfo};
use git_graph_tui::graph::{build_graph, GraphLayout};

fn id(n: u64) -> CommitId {
    CommitId { hi: n, mid: 7, lo: 1 }
}

fn commit(n: u64, parents: &[u64]) -> CommitInfo {
    CommitInfo {
        oid: id(n),
        short_id: format!("{:07x}", n),
        author_name: "A".to_string(),
        author_email: String::new(),
        timestamp: 0,
        message: String::new(),
        full_message: String::new(),
        parent_oids: parents.iter().map(|p| id(*p)).collect(),
    }
}

fn branch(name: &str, tip: u64, is_head: bool, is_remote: bool) -> BranchInfo {
    BranchInfo { name: name.to_string(), is_head, is_remote, upstream: None, tip_oid: id(tip) }
}

/// Five commits in a line; branches on rows 1 and 3.
fn fixture() -> (GraphLayout, Vec<BranchInfo>) {
    let commits: Vec<CommitInfo> = (0..5u64).map(|i| if i < 4 { commit(i, &[i + 1]) } else { commit(i, &[]) }).collect();
    let branches = vec![
        branch("main", 0, true, false),
        branch("feature", 1, false, false),
        branch("origin/feature", 3, false, true),
    ];
    let layout = build_graph(&commits, &branches);
    (layout, branches)
}

#[test]
fn selection_moves_and_clamps() {
    let (layout, branches) = fixture();
    let mut s = AppState::new();
    assert_eq!(s.selected, Some(0));
    s.handle_action(Action::MoveUp, &layout, &branches);
    assert_eq!(s.selected, Some(0));
    s.handle_action(Action::MoveDown, &layout, &branches);
    assert_eq!(s.selected, Some(1));
    s.handle_action(Action::PageDown, &layout, &branches);
    assert_eq!(s.selected, Some(4));
    s.handle_action(Action::PageUp, &layout, &branches);
    assert_eq!(s.selected, Some(0));
    s.handle_action(Action::GoToBottom, &layout, &branches);
    assert_eq!(s.selected, Some(4));
    s.handle_action(Action::GoToTop, &layout, &branches);
    assert_eq!(s.selected, Some(0));
}

#[test]
fn move_selection_on_empty_layout_selects_row_zero() {
    let mut s = AppState::new();
    s.move_selection(5, 0);
    assert_eq!(s.selected, Some(0));
    s.select_last(0);
    assert_eq!(s.selected, Some(0));
}

#[test]
fn jumps_between_labelled_rows() {
    let (layout, branches) = fixture();
    let mut s = AppState::new();
    s.handle_action(Action::NextBranch, &layout, &branches);
    assert_eq!(s.selected, Some(1));
    s.handle_action(Action::NextBranch, &layout, &branches);
    assert_eq!(s.selected, Some(3));
    s.handle_action(Action::NextBranch, &layout, &branches);
    assert_eq!(s.selected, Some(3));
    s.handle_action(Action::PrevBranch, &layout, &branches);
    assert_eq!(s.selected, Some(1));
    s.handle_action(Action::PrevBranch, &layout, &branches);
    assert_eq!(s.selected, Some(0));
    s.handle_action(Action::PrevBranch, &layout, &branches);
    assert_eq!(s.selected, Some(0));
}

#[test]
fn selected_branch_is_looked_up_by_first_name() {
    let (layout, branches) = fixture();
    let mut s = AppState::new();
    assert_eq!(s.selected_branch(&layout.nodes, &branches), Some(0));
    s.selected = Some(1);
    assert_eq!(s.selected_branch(&layout.nodes, &branches), Some(1));
    s.selected = Some(2);
    assert_eq!(s.selected_branch(&layout.nodes, &branches), None);
    s.selected = Some(9);
    assert_eq!(s.selected_commit_node(&layout.nodes), None);
}

#[test]
fn checkout_picks_branch_or_commit() {
    let (layout, branches) = fixture();
    let mut s = AppState::new();
    s.selected = Some(1);
    match s.handle_action(Action::Checkout, &layout, &branches) {
        Some(Command::CheckoutBranch(name)) => assert_eq!(name, "feature"),
        other => panic!("unexpected {:?}", other),
    }
    s.selected = Some(2);
    match s.handle_action(Action::Checkout, &layout, &branches) {
        Some(Command::CheckoutCommit(oid)) => assert_eq!(oid, id(2)),
        other => panic!("unexpected {:?}", other),
    }
    s.selected = Some(3);
    assert!(s.handle_action(Action::Checkout, &layout, &branches).is_none());
}

#[test]
fn create_branch_prompt_collects_input() {
    let (layout, branches) = fixture();
    let mut s = AppState::new();
    s.selected = Some(2);
    assert!(s.handle_action(Action::CreateBranch, &layout, &branches).is_none());
    match &s.mode {
        AppMode::Input { title, input, action } => {
            assert_eq!(title, "New Branch Name");
            assert!(input.is_empty());
            assert_eq!(*action, InputAction::CreateBranch);
        }
        other => panic!("unexpected {:?}", other),
    }
    for c in ['f', 'i', 'x', 'y'] {
        s.handle_action(Action::InputChar(c), &layout, &branches);
    }
    s.handle_action(Action::InputBackspace, &layout, &branches);
    match s.handle_action(Action::Confirm, &layout, &branches) {
        Some(Command::CreateBranch { name, target }) => {
            assert_eq!(name, "fix");
            assert_eq!(target, id(2));
        }
        other => panic!("unexpected {:?}", other),
    }
    assert!(matches!(s.mode, AppMode::Input { .. }));
    s.finish_command();
    assert!(matches!(s.mode, AppMode::Normal));
}

#[test]
fn empty_branch_name_closes_the_prompt() {
    let (layout, branches) = fixture();
    let mut s = AppState::new();
    s.handle_action(Action::CreateBranch, &layout, &branches);
    s.handle_action(Action::InputBackspace, &layout, &branches);
    assert!(s.handle_action(Action::Confirm, &layout, &branches).is_none());
    assert!(matches!(s.mode, AppMode::Normal));
}

#[test]
fn delete_asks_for_confirmation() {
    let (layout, branches) = fixture();
    let mut s = AppState::new();
    s.selected = Some(1);
    s.handle_action(Action::DeleteBranch, &layout, &branches);
    match &s.mode {
        AppMode::Confirm { message, action: ConfirmAction::DeleteBranch(name) } => {
            assert_eq!(message, "Delete branch 'feature'?");
            assert_eq!(name, "feature");
        }
        other => panic!("unexpected {:?}", other),
    }
    match s.handle_action(Action::Confirm, &layout, &branches) {
        Some(Command::DeleteBranch(name)) => assert_eq!(name, "feature"),
        other => panic!("unexpected {:?}", other),
    }
    s.handle_action(Action::Cancel, &layout, &branches);
    assert!(matches!(s.mode, AppMode::Normal));
}

#[test]
fn head_and_remote_branches_are_protected() {
    let (layout, branches) = fixture();
    let mut s = AppState::new();
    s.handle_action(Action::DeleteBranch, &layout, &branches);
    assert!(matches!(s.mode, AppMode::Normal));
    s.handle_action(Action::Merge, &layout, &branches);
    assert!(matches!(s.mode, AppMode::Normal));
    s.selected = Some(3);
    s.handle_action(Action::DeleteBranch, &layout, &branches);
    assert!(matches!(s.mode, AppMode::Normal));
    s.handle_action(Action::Merge, &layout, &branches);
    match &s.mode {
        AppMode::Confirm { message, action: ConfirmAction::Merge(name) } => {
            assert_eq!(message, "Merge 'origin/feature' into current branch?");
            assert_eq!(name, "origin/feature");
        }
        other => panic!("unexpected {:?}", other),
    }
}

#[test]
fn rebase_asks_for_confirmation() {
    let (layout, branches) = fixture();
    let mut s = AppState::new();
    s.selected = Some(1);
    s.handle_action(Action::Rebase, &layout, &branches);
    match &s.mode {
        AppMode::Confirm { message, action: ConfirmAction::Rebase(name) } => {
            assert_eq!(message, "Rebase current branch onto 'feature'?");
            assert_eq!(name, "feature");
        }
        other => panic!("unexpected {:?}", other),
    }
}

#[test]
fn help_and_quit() {
    let (layout, branches) = fixture();
    let mut s = AppState::new();
    s.handle_action(Action::ToggleHelp, &layout, &branches);
    assert!(matches!(s.mode, AppMode::Help));
    s.handle_action(Action::MoveDown, &layout, &branches);
    assert_eq!(s.selected, Some(0));
    s.handle_action(Action::Quit, &layout, &branches);
    assert!(matches!(s.mode, AppMode::Normal));
    assert!(!s.should_quit);
    assert!(matches!(s.handle_action(Action::Refresh, &layout, &branches), Some(Command::Refresh)));
    s.handle_action(Action::Quit, &layout, &branches);
    assert!(s.should_quit);
}

#[test]
fn selection_is_clamped_after_refresh() {
    let mut s = AppState::new();
    s.selected = Some(10);
    s.clamp_selection(4);
    assert_eq!(s.selected, Some(3));
    s.clamp_selection(0);
    assert_eq!(s.selected, Some(0));
}
