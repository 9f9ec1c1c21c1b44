//! Which action a key press asks for, in each mode.

use vstd::prelude::*;

use crate::action::Action;
use crate::app::{AppMode, ModeView};

verus! {

/// A key, as the terminal reports it.
#[derive(Debug, Clone, Copy, PartialEq, Eq, Structural)]
pub enum KeyCode {
    Char(char),
    Up,
    Down,
    Home,
    End,
    Tab,
    BackTab,
    Enter,
    Esc,
    Backspace,
    /// Any key without a binding.
    Other,
}

/// No modifier held.
pub const NO_MODIFIERS: u8 = 0;

/// The shift modifier bit.
pub const SHIFT: u8 = 1;

/// The control modifier bit.
pub const CONTROL: u8 = 2;

/// A key with the set of modifiers held (a bit set: `SHIFT`, `CONTROL`, ...).
#[derive(Debug, Clone, Copy, PartialEq, Eq, Structural)]
pub struct KeyPress {
    pub code: KeyCode,
    pub modifiers: u8,
}

/// The bindings of normal mode; each needs exactly the modifiers shown.
pub open spec fn normal_key_action(k: KeyPress) -> Option<Action> {
    let none = k.modifiers == NO_MODIFIERS;
    let shift = k.modifiers == SHIFT;
    let ctrl = k.modifiers == CONTROL;
    match k.code {
        KeyCode::Char('j') if none => Some(Action::MoveDown),
        KeyCode::Down if none => Some(Action::MoveDown),
        KeyCode::Char('k') if none => Some(Action::MoveUp),
        KeyCode::Up if none => Some(Action::MoveUp),
        KeyCode::Char('d') if ctrl => Some(Action::PageDown),
        KeyCode::Char('u') if ctrl => Some(Action::PageUp),
        KeyCode::Char('g') if none => Some(Action::GoToTop),
        KeyCode::Home if none => Some(Action::GoToTop),
        KeyCode::Char('G') if shift => Some(Action::GoToBottom),
        KeyCode::End if none => Some(Action::GoToBottom),
        KeyCode::Char(']') if none => Some(Action::NextBranch),
        KeyCode::Tab if none => Some(Action::NextBranch),
        KeyCode::Char('[') if none => Some(Action::PrevBranch),
        KeyCode::BackTab if shift => Some(Action::PrevBranch),
        KeyCode::Enter if none => Some(Action::Checkout),
        KeyCode::Char('b') if none => Some(Action::CreateBranch),
        KeyCode::Char('d') if none => Some(Action::DeleteBranch),
        KeyCode::Char('m') if none => Some(Action::Merge),
        KeyCode::Char('r') if none => Some(Action::Rebase),
        KeyCode::Char('/') if none => Some(Action::Search),
        KeyCode::Char('R') if shift => Some(Action::Refresh),
        KeyCode::Char('?') if none => Some(Action::ToggleHelp),
        KeyCode::Char('q') if none => Some(Action::Quit),
        KeyCode::Esc if none => Some(Action::Quit),
        _ => None,
    }
}

/// The bindings of the help screen, whatever the modifiers.
pub open spec fn help_key_action(k: KeyPress) -> Option<Action> {
    match k.code {
        KeyCode::Esc | KeyCode::Char('q') | KeyCode::Char('?') => Some(Action::ToggleHelp),
        _ => None,
    }
}

/// The bindings of a text prompt, whatever the modifiers.
pub open spec fn input_key_action(k: KeyPress) -> Option<Action> {
    match k.code {
        KeyCode::Enter => Some(Action::Confirm),
        KeyCode::Esc => Some(Action::Cancel),
        KeyCode::Backspace => Some(Action::InputBackspace),
        KeyCode::Char(c) => Some(Action::InputChar(c)),
        _ => None,
    }
}

/// The bindings of a yes/no prompt, whatever the modifiers.
pub open spec fn confirm_key_action(k: KeyPress) -> Option<Action> {
    match k.code {
        KeyCode::Char('y') | KeyCode::Enter => Some(Action::Confirm),
        KeyCode::Char('n') | KeyCode::Esc => Some(Action::Cancel),
        _ => None,
    }
}

pub open spec fn key_action(k: KeyPress, mode: ModeView) -> Option<Action> {
    match mode {
        ModeView::Normal => normal_key_action(k),
        ModeView::Help => help_key_action(k),
        ModeView::Input { .. } => input_key_action(k),
        ModeView::Confirm { .. } => confirm_key_action(k),
    }
}

fn map_normal_mode(key: KeyPress) -> (r: Option<Action>)
    ensures
        r == normal_key_action(key),
{
    let none = key.modifiers == NO_MODIFIERS;
    let shift = key.modifiers == SHIFT;
    let ctrl = key.modifiers == CONTROL;
    match key.code {
        // Moving
        KeyCode::Char('j') if none => Some(Action::MoveDown),
        KeyCode::Down if none => Some(Action::MoveDown),
        KeyCode::Char('k') if none => Some(Action::MoveUp),
        KeyCode::Up if none => Some(Action::MoveUp),
        // Paging
        KeyCode::Char('d') if ctrl => Some(Action::PageDown),
        KeyCode::Char('u') if ctrl => Some(Action::PageUp),
        // First and last row
        KeyCode::Char('g') if none => Some(Action::GoToTop),
        KeyCode::Home if none => Some(Action::GoToTop),
        KeyCode::Char('G') if shift => Some(Action::GoToBottom),
        KeyCode::End if none => Some(Action::GoToBottom),
        // Jumps between branches
        KeyCode::Char(']') if none => Some(Action::NextBranch),
        KeyCode::Tab if none => Some(Action::NextBranch),
        KeyCode::Char('[') if none => Some(Action::PrevBranch),
        KeyCode::BackTab if shift => Some(Action::PrevBranch),
        // Repository operations
        KeyCode::Enter if none => Some(Action::Checkout),
        KeyCode::Char('b') if none => Some(Action::CreateBranch),
        KeyCode::Char('d') if none => Some(Action::DeleteBranch),
        KeyCode::Char('m') if none => Some(Action::Merge),
        KeyCode::Char('r') if none => Some(Action::Rebase),
        // Interface
        KeyCode::Char('/') if none => Some(Action::Search),
        KeyCode::Char('R') if shift => Some(Action::Refresh),
        KeyCode::Char('?') if none => Some(Action::ToggleHelp),
        KeyCode::Char('q') if none => Some(Action::Quit),
        KeyCode::Esc if none => Some(Action::Quit),
        _ => None,
    }
}

fn map_help_mode(key: KeyPress) -> (r: Option<Action>)
    ensures
        r == help_key_action(key),
{
    match key.code {
        KeyCode::Esc | KeyCode::Char('q') | KeyCode::Char('?') => Some(Action::ToggleHelp),
        _ => None,
    }
}

fn map_input_mode(key: KeyPress) -> (r: Option<Action>)
    ensures
        r == input_key_action(key),
{
    match key.code {
        KeyCode::Enter => Some(Action::Confirm),
        KeyCode::Esc => Some(Action::Cancel),
        KeyCode::Backspace => Some(Action::InputBackspace),
        KeyCode::Char(c) => Some(Action::InputChar(c)),
        _ => None,
    }
}

fn map_confirm_mode(key: KeyPress) -> (r: Option<Action>)
    ensures
        r == confirm_key_action(key),
{
    match key.code {
        KeyCode::Char('y') | KeyCode::Enter => Some(Action::Confirm),
        KeyCode::Char('n') | KeyCode::Esc => Some(Action::Cancel),
        _ => None,
    }
}

/// The action `key` asks for in `mode`, if it is bound there.
pub fn map_key_to_action(key: KeyPress, mode: &AppMode) -> (r: Option<Action>)
    ensures
        r == key_action(key, mode@),
{
    match mode {
        AppMode::Normal => map_normal_mode(key),
        AppMode::Help => map_help_mode(key),
        AppMode::Input { .. } => map_input_mode(key),
        AppMode::Confirm { .. } => map_confirm_mode(key),
    }
}

} // verus!
