//! What the user asked for, after key mapping.

use vstd::prelude::*;

verus! {

#[derive(Debug, Clone, Copy, PartialEq, Eq)]
pub enum Action {
    // Navigation
    MoveUp,
    MoveDown,
    PageUp,
    PageDown,
    GoToTop,
    GoToBottom,
    NextBranch,
    PrevBranch,
    BranchLeft,
    BranchRight,
    // Repository operations
    Checkout,
    CreateBranch,
    DeleteBranch,
    Merge,
    Rebase,
    // Interface
    ToggleHelp,
    Search,
    Refresh,
    Quit,
    // Dialogs
    Confirm,
    Cancel,
    InputChar(char),
    InputBackspace,
}

} // verus!
