//! The keys that the project list answers to.

use vstd::prelude::*;

verus! {

/// A key as the terminal reports it.
#[derive(Debug, Clone, Copy, PartialEq, Eq)]
pub enum Key {
    Char(char),
    Left,
    Down,
    Up,
    Home,
    End,
    Esc,
    /// Any other key.
    Other,
}

/// What a key press asks for.
#[derive(Debug, Clone, Copy, PartialEq, Eq)]
pub enum Action {
    /// Leave the program.
    Quit,
    /// Open the selected project.
    Open,
    /// Drop the selection.
    Unselect,
    /// Select the next project.
    Next,
    /// Select the previous project.
    Previous,
    /// Select the first project.
    Top,
    /// Select the last project.
    Bottom,
    /// The key means nothing here.
    Ignore,
}

/// The action bound to a key.
pub open spec fn bound_action(key: Key) -> Action {
    match key {
        Key::Esc => Action::Quit,
        Key::Char(c) => if c == 'o' {
            Action::Open
        } else if c == 'h' {
            Action::Unselect
        } else if c == 'j' {
            Action::Next
        } else if c == 'k' {
            Action::Previous
        } else if c == 'g' {
            Action::Top
        } else if c == 'G' {
            Action::Bottom
        } else {
            Action::Ignore
        },
        Key::Left => Action::Unselect,
        Key::Down => Action::Next,
        Key::Up => Action::Previous,
        Key::Home => Action::Top,
        Key::End => Action::Bottom,
        Key::Other => Action::Ignore,
    }
}

/// Finds the action bound to a pressed key.
pub fn action_for(key: Key) -> (action: Action)
    ensures
        action == bound_action(key),
{
    match key {
        Key::Esc => Action::Quit,
        Key::Char(c) => {
            if c == 'o' {
                Action::Open
            } else if c == 'h' {
                Action::Unselect
            } else if c == 'j' {
                Action::Next
            } else if c == 'k' {
                Action::Previous
            } else if c == 'g' {
                Action::Top
            } else if c == 'G' {
                Action::Bottom
            } else {
                Action::Ignore
            }
        },
        Key::Left => Action::Unselect,
        Key::Down => Action::Next,
        Key::Up => Action::Previous,
        Key::Home => Action::Top,
        Key::End => Action::Bottom,
        Key::Other => Action::Ignore,
    }
}

} // verus!
