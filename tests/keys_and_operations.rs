use git_graph_tui::action::Action;
use git_graph_tui::app::{AppMode, ConfirmAction, InputAction};
use git_graph_tui::commit::CommitId;
use git_graph_tui::keybindings::{map_key_to_action, KeyCode, KeyPress, CONTROL, NO_MODIFIERS, SHIFT};
use git_graph_tui::operations::{local_branch_name, merge_plan, remote_checkout_plan, MergePlan, RemoteCheckout};

fn key(code: KeyCode, modifiers: u8) -> KeyPress {
    KeyPress { code, modifiers }
}

#[test]
fn normal_mode_bindings() {
    let m = AppMode::Normal;
    assert_eq!(map_key_to_action(key(KeyCode::Char('j'), NO_MODIFIERS), &m), Some(Action::MoveDown));
    assert_eq!(map_key_to_action(key(KeyCode::Up, NO_MODIFIERS), &m), Some(Action::MoveUp));
    assert_eq!(map_key_to_action(key(KeyCode::Char('d'), CONTROL), &m), Some(Action::PageDown));
    assert_eq!(map_key_to_action(key(KeyCode::Char('d'), NO_MODIFIERS), &m), Some(Action::DeleteBranch));
    assert_eq!(map_key_to_action(key(KeyCode::Char('G'), SHIFT), &m), Some(Action::GoToBottom));
    assert_eq!(map_key_to_action(key(KeyCode::Char('G'), NO_MODIFIERS), &m), None);
    assert_eq!(map_key_to_action(key(KeyCode::BackTab, SHIFT), &m), Some(Action::PrevBranch));
    assert_eq!(map_key_to_action(key(KeyCode::Char('R'), SHIFT), &m), Some(Action::Refresh));
    assert_eq!(map_key_to_action(key(KeyCode::Esc, NO_MODIFIERS), &m), Some(Action::Quit));
    assert_eq!(map_key_to_action(key(KeyCode::Char('j'), CONTROL), &m), None);
}

#[test]
fn dialog_bindings() {
    let help = AppMode::Help;
    assert_eq!(map_key_to_action(key(KeyCode::Char('?'), NO_MODIFIERS), &help), Some(Action::ToggleHelp));
    assert_eq!(map_key_to_action(key(KeyCode::Char('j'), NO_MODIFIERS), &help), None);
    let input = AppMode::Input { title: String::new(), input: String::new(), action: InputAction::Search };
    assert_eq!(map_key_to_action(key(KeyCode::Char('q'), SHIFT), &input), Some(Action::InputChar('q')));
    assert_eq!(map_key_to_action(key(KeyCode::Backspace, NO_MODIFIERS), &input), Some(Action::InputBackspace));
    assert_eq!(map_key_to_action(key(KeyCode::Enter, NO_MODIFIERS), &input), Some(Action::Confirm));
    let confirm = AppMode::Confirm { message: String::new(), action: ConfirmAction::Merge("x".to_string()) };
    assert_eq!(map_key_to_action(key(KeyCode::Char('y'), NO_MODIFIERS), &confirm), Some(Action::Confirm));
    assert_eq!(map_key_to_action(key(KeyCode::Char('n'), NO_MODIFIERS), &confirm), Some(Action::Cancel));
    assert_eq!(map_key_to_action(key(KeyCode::Other, NO_MODIFIERS), &confirm), None);
}

#[test]
fn merge_plans() {
    assert_eq!(merge_plan(true, true, true), MergePlan::UpToDate);
    assert_eq!(merge_plan(false, true, true), MergePlan::FastForward);
    assert_eq!(merge_plan(false, false, true), MergePlan::MergeCommit);
    assert_eq!(merge_plan(false, false, false), MergePlan::Nothing);
}

#[test]
fn remote_branch_names() {
    assert_eq!(local_branch_name("origin/feature/x"), Some("feature/x".to_string()));
    assert_eq!(local_branch_name("origin/"), Some(String::new()));
    assert_eq!(local_branch_name("upstream/main"), None);
    assert_eq!(local_branch_name("origin"), None);
}

#[test]
fn remote_checkout_plans() {
    let a = CommitId { hi: 1, mid: 2, lo: 3 };
    let b = CommitId { hi: 1, mid: 2, lo: 4 };
    assert_eq!(remote_checkout_plan(Some(a), a), RemoteCheckout::CheckoutLocal);
    assert_eq!(remote_checkout_plan(Some(b), a), RemoteCheckout::MoveLocal);
    assert_eq!(remote_checkout_plan(None, a), RemoteCheckout::CreateTracking);
}
