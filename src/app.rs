//! Decisions of the interactive viewer: which mode it is in, which row is
//! selected, and which repository operation an action asks for.
//!
//! `AppState::handle_action` never touches the repository: it returns the
//! `Command` to run. The caller runs it, rebuilds the layout, clamps the
//! selection with `clamp_selection`, and on success calls
//! `finish_command`; on failure the mode stays as it was.

use vstd::prelude::*;

use crate::action::Action;
use crate::branch::BranchInfo;
use crate::commit::CommitId;
use crate::graph::{GraphLayout, GraphNode};

verus! {

/// What a text prompt is for.
#[derive(Debug, Clone, Copy, PartialEq, Eq)]
pub enum InputAction {
    CreateBranch,
    Search,
}

/// What a yes/no prompt is for, with the branch it concerns.
#[derive(Debug)]
pub enum ConfirmAction {
    DeleteBranch(String),
    Merge(String),
    Rebase(String),
}

#[derive(Debug)]
pub enum AppMode {
    Normal,
    Help,
    Input { title: String, input: String, action: InputAction },
    Confirm { message: String, action: ConfirmAction },
}

/// A repository operation for the caller to run.
#[derive(Debug)]
pub enum Command {
    Refresh,
    CheckoutBranch(String),
    CheckoutCommit(CommitId),
    CreateBranch { name: String, target: CommitId },
    DeleteBranch(String),
    Merge(String),
    Rebase(String),
}

/// The viewer's state apart from the repository and the layout.
#[derive(Debug)]
pub struct AppState {
    pub mode: AppMode,
    pub selected: Option<usize>,
    pub should_quit: bool,
}

pub enum ConfirmView {
    DeleteBranch(Seq<char>),
    Merge(Seq<char>),
    Rebase(Seq<char>),
}

pub enum ModeView {
    Normal,
    Help,
    Input { title: Seq<char>, input: Seq<char>, action: InputAction },
    Confirm { message: Seq<char>, action: ConfirmView },
}

pub enum CommandView {
    Refresh,
    CheckoutBranch(Seq<char>),
    CheckoutCommit(CommitId),
    CreateBranch(Seq<char>, CommitId),
    DeleteBranch(Seq<char>),
    Merge(Seq<char>),
    Rebase(Seq<char>),
}

pub struct StateView {
    pub mode: ModeView,
    pub selected: Option<usize>,
    pub should_quit: bool,
}

impl View for ConfirmAction {
    type V = ConfirmView;

    open spec fn view(&self) -> ConfirmView {
        match self {
            ConfirmAction::DeleteBranch(n) => ConfirmView::DeleteBranch(n@),
            ConfirmAction::Merge(n) => ConfirmView::Merge(n@),
            ConfirmAction::Rebase(n) => ConfirmView::Rebase(n@),
        }
    }
}

impl View for AppMode {
    type V = ModeView;

    open spec fn view(&self) -> ModeView {
        match self {
            AppMode::Normal => ModeView::Normal,
            AppMode::Help => ModeView::Help,
            AppMode::Input { title, input, action } => ModeView::Input { title: title@, input: input@, action: *action },
            AppMode::Confirm { message, action } => ModeView::Confirm { message: message@, action: action@ },
        }
    }
}

impl View for Command {
    type V = CommandView;

    open spec fn view(&self) -> CommandView {
        match self {
            Command::Refresh => CommandView::Refresh,
            Command::CheckoutBranch(n) => CommandView::CheckoutBranch(n@),
            Command::CheckoutCommit(id) => CommandView::CheckoutCommit(*id),
            Command::CreateBranch { name, target } => CommandView::CreateBranch(name@, *target),
            Command::DeleteBranch(n) => CommandView::DeleteBranch(n@),
            Command::Merge(n) => CommandView::Merge(n@),
            Command::Rebase(n) => CommandView::Rebase(n@),
        }
    }
}

impl View for AppState {
    type V = StateView;

    open spec fn view(&self) -> StateView {
        StateView { mode: self.mode@, selected: self.selected, should_quit: self.should_quit }
    }
}

pub open spec fn command_view(c: Option<Command>) -> Option<CommandView> {
    match c {
        Some(c) => Some(c@),
        None => None,
    }
}

// ---------------------------------------------------------------------------
// Navigation over the rows

/// The selected row, 0 when nothing is selected.
pub open spec fn cursor(selected: Option<usize>) -> int {
    match selected {
        Some(i) => i as int,
        None => 0,
    }
}

pub open spec fn last_row(n: int) -> int {
    if n > 0 {
        n - 1
    } else {
        0
    }
}

/// `x` clamped into the rows `0 ..= last_row(n)`.
pub open spec fn clamp_row(x: int, n: int) -> int {
    if x < 0 {
        0
    } else if x > last_row(n) {
        last_row(n)
    } else {
        x
    }
}

pub open spec fn labeled(node: GraphNode) -> bool {
    node.branch_names@.len() > 0
}

/// The first labelled row in `lo .. hi`.
pub open spec fn first_labeled_in(nodes: Seq<GraphNode>, lo: int, hi: int) -> Option<int>
    decreases hi - lo,
{
    if lo >= hi {
        None
    } else if labeled(nodes[lo]) {
        Some(lo)
    } else {
        first_labeled_in(nodes, lo + 1, hi)
    }
}

/// The last labelled row in `lo .. hi`.
pub open spec fn last_labeled_in(nodes: Seq<GraphNode>, lo: int, hi: int) -> Option<int>
    decreases hi - lo,
{
    if lo >= hi {
        None
    } else if labeled(nodes[hi - 1]) {
        Some(hi - 1)
    } else {
        last_labeled_in(nodes, lo, hi - 1)
    }
}

pub open spec fn moved(selected: Option<usize>, delta: int, n: int) -> Option<usize> {
    Some(clamp_row(cursor(selected) + delta, n) as usize)
}

/// The selection after a jump to the next labelled row (unchanged if none).
pub open spec fn jumped_next(selected: Option<usize>, nodes: Seq<GraphNode>) -> Option<usize> {
    match first_labeled_in(nodes, cursor(selected) + 1, nodes.len() as int) {
        Some(i) => Some(i as usize),
        None => selected,
    }
}

/// The selection after a jump to the previous labelled row (unchanged if none).
pub open spec fn jumped_prev(selected: Option<usize>, nodes: Seq<GraphNode>) -> Option<usize> {
    let hi = if cursor(selected) < nodes.len() {
        cursor(selected)
    } else {
        nodes.len() as int
    };
    match last_labeled_in(nodes, 0, hi) {
        Some(i) => Some(i as usize),
        None => selected,
    }
}

/// The selected row, if it is a row of the layout.
pub open spec fn selected_row(selected: Option<usize>, n: int) -> Option<int> {
    match selected {
        Some(i) => if i < n {
            Some(i as int)
        } else {
            None
        },
        None => None,
    }
}

/// The first branch name on the selected row.
pub open spec fn selected_label(selected: Option<usize>, nodes: Seq<GraphNode>) -> Option<String> {
    match selected_row(selected, nodes.len() as int) {
        Some(r) => if labeled(nodes[r]) {
            Some(nodes[r].branch_names@[0])
        } else {
            None
        },
        None => None,
    }
}

/// The first of the first `n` branches named `name`.
pub open spec fn branch_named(branches: Seq<BranchInfo>, name: Seq<char>, n: int) -> Option<int>
    decreases n,
{
    if n <= 0 {
        None
    } else {
        match branch_named(branches, name, n - 1) {
            Some(i) => Some(i),
            None => if branches[n - 1].name@ == name {
                Some(n - 1)
            } else {
                None
            },
        }
    }
}

proof fn lemma_branch_named(branches: Seq<BranchInfo>, name: Seq<char>, n: int)
    requires
        0 <= n <= branches.len(),
    ensures
        match branch_named(branches, name, n) {
            Some(i) => 0 <= i < n && branches[i].name@ == name,
            None => true,
        },
    decreases n,
{
    if n > 0 {
        lemma_branch_named(branches, name, n - 1);
    }
}

proof fn lemma_branch_named_kept(branches: Seq<BranchInfo>, name: Seq<char>, n: int, m: int)
    requires
        0 <= n <= m <= branches.len(),
        branch_named(branches, name, n) is Some,
    ensures
        branch_named(branches, name, m) == branch_named(branches, name, n),
    decreases m - n,
{
    if n < m {
        lemma_branch_named_kept(branches, name, n, m - 1);
    }
}

/// The branch of the selected row: its first name, looked up by name.
pub open spec fn selected_branch_index(selected: Option<usize>, nodes: Seq<GraphNode>, branches: Seq<BranchInfo>) -> Option<int> {
    match selected_label(selected, nodes) {
        Some(name) => branch_named(branches, name@, branches.len() as int),
        None => None,
    }
}

pub open spec fn is_prefix(p: Seq<char>, s: Seq<char>) -> bool {
    p.len() <= s.len() && s.subrange(0, p.len() as int) == p
}

/// What a checkout on the selected row asks for: the row's first branch
/// unless it is a remote one, else the commit itself.
pub open spec fn checkout_command(selected: Option<usize>, nodes: Seq<GraphNode>) -> Option<CommandView> {
    match selected_row(selected, nodes.len() as int) {
        Some(r) => if labeled(nodes[r]) {
            let name = nodes[r].branch_names@[0]@;
            if is_prefix("origin/"@, name) {
                None
            } else {
                Some(CommandView::CheckoutBranch(name))
            }
        } else {
            Some(CommandView::CheckoutCommit(nodes[r].commit.oid))
        },
        None => None,
    }
}

// ---------------------------------------------------------------------------
// The transition

pub open spec fn normal_mode_step(s: StateView, a: Action, nodes: Seq<GraphNode>, branches: Seq<BranchInfo>) -> (StateView, Option<CommandView>) {
    let n = nodes.len() as int;
    let branch = selected_branch_index(s.selected, nodes, branches);
    match a {
        Action::Quit => (StateView { should_quit: true, ..s }, None),
        Action::MoveUp => (StateView { selected: moved(s.selected, -1, n), ..s }, None),
        Action::MoveDown => (StateView { selected: moved(s.selected, 1, n), ..s }, None),
        Action::PageUp => (StateView { selected: moved(s.selected, -10, n), ..s }, None),
        Action::PageDown => (StateView { selected: moved(s.selected, 10, n), ..s }, None),
        Action::GoToTop => (StateView { selected: Some(0), ..s }, None),
        Action::GoToBottom => (StateView { selected: Some(last_row(n) as usize), ..s }, None),
        Action::NextBranch => (StateView { selected: jumped_next(s.selected, nodes), ..s }, None),
        Action::PrevBranch => (StateView { selected: jumped_prev(s.selected, nodes), ..s }, None),
        Action::ToggleHelp => (StateView { mode: ModeView::Help, ..s }, None),
        Action::Refresh => (s, Some(CommandView::Refresh)),
        Action::Checkout => (s, checkout_command(s.selected, nodes)),
        Action::CreateBranch => (
            StateView {
                mode: ModeView::Input { title: "New Branch Name"@, input: Seq::empty(), action: InputAction::CreateBranch },
                ..s
            },
            None,
        ),
        Action::DeleteBranch => match branch {
            Some(i) => if !branches[i].is_head && !branches[i].is_remote {
                let name = branches[i].name@;
                (
                    StateView {
                        mode: ModeView::Confirm {
                            message: "Delete branch '"@ + name + "'?"@,
                            action: ConfirmView::DeleteBranch(name),
                        },
                        ..s
                    },
                    None,
                )
            } else {
                (s, None)
            },
            None => (s, None),
        },
        Action::Merge => match branch {
            Some(i) => if !branches[i].is_head {
                let name = branches[i].name@;
                (
                    StateView {
                        mode: ModeView::Confirm {
                            message: "Merge '"@ + name + "' into current branch?"@,
                            action: ConfirmView::Merge(name),
                        },
                        ..s
                    },
                    None,
                )
            } else {
                (s, None)
            },
            None => (s, None),
        },
        Action::Rebase => match branch {
            Some(i) => if !branches[i].is_head {
                let name = branches[i].name@;
                (
                    StateView {
                        mode: ModeView::Confirm {
                            message: "Rebase current branch onto '"@ + name + "'?"@,
                            action: ConfirmView::Rebase(name),
                        },
                        ..s
                    },
                    None,
                )
            } else {
                (s, None)
            },
            None => (s, None),
        },
        _ => (s, None),
    }
}

pub open spec fn help_mode_step(s: StateView, a: Action) -> StateView {
    match a {
        Action::ToggleHelp | Action::Quit | Action::Cancel => StateView { mode: ModeView::Normal, ..s },
        _ => s,
    }
}

pub open spec fn input_mode_step(s: StateView, a: Action, nodes: Seq<GraphNode>) -> (StateView, Option<CommandView>) {
    match s.mode {
        ModeView::Input { title, input, action } => match a {
            Action::Confirm => match action {
                InputAction::CreateBranch => match selected_row(s.selected, nodes.len() as int) {
                    Some(r) => if input.len() > 0 {
                        (s, Some(CommandView::CreateBranch(input, nodes[r].commit.oid)))
                    } else {
                        (StateView { mode: ModeView::Normal, ..s }, None)
                    },
                    None => (StateView { mode: ModeView::Normal, ..s }, None),
                },
                InputAction::Search => (StateView { mode: ModeView::Normal, ..s }, None),
            },
            Action::Cancel => (StateView { mode: ModeView::Normal, ..s }, None),
            Action::InputChar(c) => (StateView { mode: ModeView::Input { title, input: input.push(c), action }, ..s }, None),
            Action::InputBackspace => (
                StateView {
                    mode: ModeView::Input {
                        title,
                        input: if input.len() > 0 {
                            input.drop_last()
                        } else {
                            input
                        },
                        action,
                    },
                    ..s
                },
                None,
            ),
            _ => (s, None),
        },
        _ => (s, None),
    }
}

pub open spec fn confirm_mode_step(s: StateView, a: Action) -> (StateView, Option<CommandView>) {
    match s.mode {
        ModeView::Confirm { message, action } => match a {
            Action::Confirm => (s, Some(match action {
                ConfirmView::DeleteBranch(n) => CommandView::DeleteBranch(n),
                ConfirmView::Merge(n) => CommandView::Merge(n),
                ConfirmView::Rebase(n) => CommandView::Rebase(n),
            })),
            Action::Cancel => (StateView { mode: ModeView::Normal, ..s }, None),
            _ => (s, None),
        },
        _ => (s, None),
    }
}

/// The state after action `a` and the operation it asks for. A state that
/// comes with an operation is the one to keep if the operation fails.
pub open spec fn transition(s: StateView, a: Action, nodes: Seq<GraphNode>, branches: Seq<BranchInfo>) -> (StateView, Option<CommandView>) {
    match s.mode {
        ModeView::Normal => normal_mode_step(s, a, nodes, branches),
        ModeView::Help => (help_mode_step(s, a), None),
        ModeView::Input { .. } => input_mode_step(s, a, nodes),
        ModeView::Confirm { .. } => confirm_mode_step(s, a),
    }
}

proof fn lemma_selected_branch_bound(selected: Option<usize>, nodes: Seq<GraphNode>, branches: Seq<BranchInfo>)
    ensures
        match selected_branch_index(selected, nodes, branches) {
            Some(i) => 0 <= i < branches.len(),
            None => true,
        },
{
    match selected_label(selected, nodes) {
        Some(name) => lemma_branch_named(branches, name@, branches.len() as int),
        None => {},
    }
}

// ---------------------------------------------------------------------------
// Text helpers

/// Relies on `String::push`: appends `c` to the end of `s`.
#[verifier::external_body]
fn push_char(s: &mut String, c: char)
    ensures
        final(s)@ == old(s)@.push(c),
{
    s.push(c)
}

/// Relies on `String::pop`: removes the last character, if any.
#[verifier::external_body]
fn pop_char(s: &mut String)
    ensures
        old(s)@.len() > 0 ==> final(s)@ == old(s)@.drop_last(),
        old(s)@.len() == 0 ==> final(s)@ == old(s)@,
{
    s.pop();
}

/// The three parts written one after the other.
fn join3(a: &str, b: &str, c: &str) -> (r: String)
    ensures
        r@ == a@ + b@ + c@,
{
    let mut r = a.to_owned();
    r.append(b);
    r.append(c);
    r
}

/// Whether `s` starts with `p`.
pub(crate) fn has_prefix(s: &str, p: &str) -> (r: bool)
    ensures
        r == is_prefix(p@, s@),
{
    let n = s.unicode_len();
    let m = p.unicode_len();
    if m > n {
        return false;
    }
    let mut i: usize = 0;
    while i < m
        invariant
            m == p@.len(),
            n == s@.len(),
            m <= n,
            i <= m,
            forall|j: int| 0 <= j < i ==> s@[j] == p@[j],
        decreases m - i,
    {
        if s.get_char(i) != p.get_char(i) {
            return false;
        }
        i += 1;
    }
    assert(s@.subrange(0, m as int) =~= p@);
    true
}

// ---------------------------------------------------------------------------
// The viewer

impl AppState {
    /// Normal mode, first row selected.
    pub fn new() -> (r: Self)
        ensures
            r@ == (StateView { mode: ModeView::Normal, selected: Some(0), should_quit: false }),
    {
        AppState { mode: AppMode::Normal, selected: Some(0), should_quit: false }
    }

    /// Moves the selection by `delta` rows, clamped to the rows of a layout
    /// of `node_count` rows.
    pub fn move_selection(&mut self, delta: i32, node_count: usize)
        ensures
            final(self)@ == (StateView { selected: moved(old(self)@.selected, delta as int, node_count as int), ..old(self)@ }),
    {
        let max: usize = if node_count > 0 {
            node_count - 1
        } else {
            0
        };
        let current: usize = match self.selected {
            Some(i) => i,
            None => 0,
        };
        let new: usize = if delta < 0 {
            let back = (0i64 - delta as i64) as usize;
            if back > current {
                0
            } else if current - back > max {
                max
            } else {
                current - back
            }
        } else {
            let fwd = delta as usize;
            if current > max || fwd > max - current {
                max
            } else {
                current + fwd
            }
        };
        self.selected = Some(new);
    }

    pub fn select_first(&mut self)
        ensures
            final(self)@ == (StateView { selected: Some(0), ..old(self)@ }),
    {
        self.selected = Some(0);
    }

    pub fn select_last(&mut self, node_count: usize)
        ensures
            final(self)@ == (StateView { selected: Some(last_row(node_count as int) as usize), ..old(self)@ }),
    {
        let max: usize = if node_count > 0 {
            node_count - 1
        } else {
            0
        };
        self.selected = Some(max);
    }

    /// Keeps the selection inside a rebuilt layout of `node_count` rows.
    pub fn clamp_selection(&mut self, node_count: usize)
        ensures
            final(self)@ == (StateView {
                selected: match old(self)@.selected {
                    Some(i) => if i > last_row(node_count as int) {
                        Some(last_row(node_count as int) as usize)
                    } else {
                        Some(i)
                    },
                    None => None,
                },
                ..old(self)@
            }),
    {
        let max: usize = if node_count > 0 {
            node_count - 1
        } else {
            0
        };
        if let Some(selected) = self.selected {
            if selected > max {
                self.selected = Some(max);
            }
        }
    }

    /// Back to normal mode once a command has run.
    pub fn finish_command(&mut self)
        ensures
            final(self)@ == (StateView { mode: ModeView::Normal, ..old(self)@ }),
    {
        self.mode = AppMode::Normal;
    }

    /// Selects the nearest row below the selection that carries a branch name.
    pub fn jump_to_next_branch(&mut self, nodes: &Vec<GraphNode>)
        ensures
            final(self)@ == (StateView { selected: jumped_next(old(self)@.selected, nodes@), ..old(self)@ }),
    {
        let ghost s0 = self@;
        let current: usize = match self.selected {
            Some(i) => i,
            None => 0,
        };
        if current >= nodes.len() {
            return;
        }
        let mut i: usize = current + 1;
        while i < nodes.len()
            invariant
                current < i <= nodes@.len(),
                first_labeled_in(nodes@, current + 1, nodes@.len() as int) == first_labeled_in(nodes@, i as int, nodes@.len() as int),
                cursor(self.selected) == current,
                self@ == s0,
                s0 == old(self)@,
            decreases nodes.len() - i,
        {
            if nodes[i].branch_names.len() > 0 {
                assert(first_labeled_in(nodes@, i as int, nodes@.len() as int) == Some(i as int));
                self.selected = Some(i);
                return;
            }
            i += 1;
        }
    }

    /// Selects the nearest row above the selection that carries a branch name.
    pub fn jump_to_prev_branch(&mut self, nodes: &Vec<GraphNode>)
        ensures
            final(self)@ == (StateView { selected: jumped_prev(old(self)@.selected, nodes@), ..old(self)@ }),
    {
        let ghost s0 = self@;
        let current: usize = match self.selected {
            Some(i) => i,
            None => 0,
        };
        let hi: usize = if current < nodes.len() {
            current
        } else {
            nodes.len()
        };
        let mut i: usize = hi;
        while i > 0
            invariant
                i <= hi <= nodes@.len(),
                last_labeled_in(nodes@, 0, hi as int) == last_labeled_in(nodes@, 0, i as int),
                self@ == s0,
                s0 == old(self)@,
                hi == (if cursor(s0.selected) < nodes@.len() {
                    cursor(s0.selected)
                } else {
                    nodes@.len() as int
                }),
            decreases i,
        {
            if nodes[i - 1].branch_names.len() > 0 {
                assert(last_labeled_in(nodes@, 0, i as int) == Some(i - 1));
                self.selected = Some(i - 1);
                return;
            }
            i -= 1;
        }
    }

    /// The selected row, if it is a row of the layout.
    pub fn selected_commit_node(&self, nodes: &Vec<GraphNode>) -> (r: Option<usize>)
        ensures
            match r {
                Some(i) => selected_row(self.selected, nodes@.len() as int) == Some(i as int),
                None => selected_row(self.selected, nodes@.len() as int) is None,
            },
    {
        match self.selected {
            Some(i) => if i < nodes.len() {
                Some(i)
            } else {
                None
            },
            None => None,
        }
    }

    /// The branch of the selected row: the first one in `branches` whose
    /// name is the row's first branch name.
    pub fn selected_branch(&self, nodes: &Vec<GraphNode>, branches: &[BranchInfo]) -> (r: Option<usize>)
        ensures
            match r {
                Some(i) => selected_branch_index(self.selected, nodes@, branches@) == Some(i as int),
                None => selected_branch_index(self.selected, nodes@, branches@) is None,
            },
    {
        let row = match self.selected_commit_node(nodes) {
            Some(row) => row,
            None => return None,
        };
        if nodes[row].branch_names.len() == 0 {
            return None;
        }
        let name = &nodes[row].branch_names[0];
        let mut j: usize = 0;
        while j < branches.len()
            invariant
                j <= branches@.len(),
                branch_named(branches@, name@, j as int) is None,
                selected_row(self.selected, nodes@.len() as int) == Some(row as int),
                labeled(nodes@[row as int]),
                *name == nodes@[row as int].branch_names@[0],
            decreases branches.len() - j,
        {
            if branches[j].name == *name {
                proof {
                    lemma_branch_named_kept(branches@, name@, j as int + 1, branches@.len() as int);
                }
                return Some(j);
            }
            j += 1;
        }
        None
    }

    /// The checkout a `Checkout` action asks for on the selected row.
    fn do_checkout(&self, nodes: &Vec<GraphNode>) -> (r: Option<Command>)
        ensures
            command_view(r) == checkout_command(self.selected, nodes@),
    {
        let row = match self.selected_commit_node(nodes) {
            Some(row) => row,
            None => return None,
        };
        let node = &nodes[row];
        if node.branch_names.len() > 0 {
            let name = &node.branch_names[0];
            if has_prefix(name.as_str(), "origin/") {
                None
            } else {
                Some(Command::CheckoutBranch(name.clone()))
            }
        } else {
            Some(Command::CheckoutCommit(node.commit.oid))
        }
    }

    fn handle_normal_action(&mut self, action: Action, nodes: &Vec<GraphNode>, branches: &[BranchInfo]) -> (r: Option<Command>)
        requires
            old(self)@.mode is Normal,
        ensures
            (final(self)@, command_view(r)) == normal_mode_step(old(self)@, action, nodes@, branches@),
    {
        match action {
            Action::Quit => {
                self.should_quit = true;
                None
            },
            Action::MoveUp => {
                self.move_selection(-1, nodes.len());
                None
            },
            Action::MoveDown => {
                self.move_selection(1, nodes.len());
                None
            },
            Action::PageUp => {
                self.move_selection(-10, nodes.len());
                None
            },
            Action::PageDown => {
                self.move_selection(10, nodes.len());
                None
            },
            Action::GoToTop => {
                self.select_first();
                None
            },
            Action::GoToBottom => {
                self.select_last(nodes.len());
                None
            },
            Action::NextBranch => {
                self.jump_to_next_branch(nodes);
                None
            },
            Action::PrevBranch => {
                self.jump_to_prev_branch(nodes);
                None
            },
            Action::ToggleHelp => {
                self.mode = AppMode::Help;
                None
            },
            Action::Refresh => Some(Command::Refresh),
            Action::Checkout => self.do_checkout(nodes),
            Action::CreateBranch => {
                self.mode = AppMode::Input {
                    title: "New Branch Name".to_owned(),
                    input: String::new(),
                    action: InputAction::CreateBranch,
                };
                None
            },
            Action::DeleteBranch => {
                if let Some(i) = self.selected_branch(nodes, branches) {
                    proof {
                        lemma_selected_branch_bound(self.selected, nodes@, branches@);
                    }
                    let branch = &branches[i];
                    if !branch.is_head && !branch.is_remote {
                        self.mode = AppMode::Confirm {
                            message: join3("Delete branch '", branch.name.as_str(), "'?"),
                            action: ConfirmAction::DeleteBranch(branch.name.clone()),
                        };
                    }
                }
                None
            },
            Action::Merge => {
                if let Some(i) = self.selected_branch(nodes, branches) {
                    proof {
                        lemma_selected_branch_bound(self.selected, nodes@, branches@);
                    }
                    let branch = &branches[i];
                    if !branch.is_head {
                        self.mode = AppMode::Confirm {
                            message: join3("Merge '", branch.name.as_str(), "' into current branch?"),
                            action: ConfirmAction::Merge(branch.name.clone()),
                        };
                    }
                }
                None
            },
            Action::Rebase => {
                if let Some(i) = self.selected_branch(nodes, branches) {
                    proof {
                        lemma_selected_branch_bound(self.selected, nodes@, branches@);
                    }
                    let branch = &branches[i];
                    if !branch.is_head {
                        self.mode = AppMode::Confirm {
                            message: join3("Rebase current branch onto '", branch.name.as_str(), "'?"),
                            action: ConfirmAction::Rebase(branch.name.clone()),
                        };
                    }
                }
                None
            },
            _ => None,
        }
    }

    fn handle_help_action(&mut self, action: Action)
        requires
            old(self)@.mode is Help,
        ensures
            final(self)@ == help_mode_step(old(self)@, action),
    {
        match action {
            Action::ToggleHelp | Action::Quit | Action::Cancel => {
                self.mode = AppMode::Normal;
            },
            _ => {},
        }
    }

    fn handle_input_action(&mut self, action: Action, nodes: &Vec<GraphNode>) -> (r: Option<Command>)
        requires
            old(self)@.mode is Input,
        ensures
            (final(self)@, command_view(r)) == input_mode_step(old(self)@, action, nodes@),
    {
        let (title, input, input_action) = match &self.mode {
            AppMode::Input { title, input, action } => (title.clone(), input.clone(), *action),
            _ => return None,
        };
        match action {
            Action::Confirm => {
                match input_action {
                    InputAction::CreateBranch => {
                        if let Some(row) = self.selected_commit_node(nodes) {
                            if input.unicode_len() > 0 {
                                return Some(Command::CreateBranch { name: input, target: nodes[row].commit.oid });
                            }
                        }
                    },
                    InputAction::Search => {},
                }
                self.mode = AppMode::Normal;
                None
            },
            Action::Cancel => {
                self.mode = AppMode::Normal;
                None
            },
            Action::InputChar(c) => {
                let mut new_input = input;
                push_char(&mut new_input, c);
                self.mode = AppMode::Input { title, input: new_input, action: input_action };
                None
            },
            Action::InputBackspace => {
                let mut new_input = input;
                pop_char(&mut new_input);
                self.mode = AppMode::Input { title, input: new_input, action: input_action };
                None
            },
            _ => None,
        }
    }

    fn handle_confirm_action(&mut self, action: Action) -> (r: Option<Command>)
        requires
            old(self)@.mode is Confirm,
        ensures
            (final(self)@, command_view(r)) == confirm_mode_step(old(self)@, action),
    {
        match action {
            Action::Confirm => match &self.mode {
                AppMode::Confirm { action: ConfirmAction::DeleteBranch(name), .. } => Some(Command::DeleteBranch(name.clone())),
                AppMode::Confirm { action: ConfirmAction::Merge(name), .. } => Some(Command::Merge(name.clone())),
                AppMode::Confirm { action: ConfirmAction::Rebase(name), .. } => Some(Command::Rebase(name.clone())),
                _ => None,
            },
            Action::Cancel => {
                self.mode = AppMode::Normal;
                None
            },
            _ => None,
        }
    }

    /// Applies `action` to the viewer over `layout` and `branches`, and
    /// returns the repository operation it asks for, if any.
    pub fn handle_action(&mut self, action: Action, layout: &GraphLayout, branches: &[BranchInfo]) -> (r: Option<Command>)
        ensures
            (final(self)@, command_view(r)) == transition(old(self)@, action, layout.nodes@, branches@),
    {
        match &self.mode {
            AppMode::Normal => self.handle_normal_action(action, &layout.nodes, branches),
            AppMode::Help => {
                self.handle_help_action(action);
                None
            },
            AppMode::Input { .. } => self.handle_input_action(action, &layout.nodes),
            AppMode::Confirm { .. } => self.handle_confirm_action(action),
        }
    }
}

} // verus!
