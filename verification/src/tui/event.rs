use vstd::prelude::*;

use crate::tui::app::View;

verus! {

/// What a key press asks the interface to do.
#[derive(Clone, Copy, Debug, PartialEq, Eq, Structural)]
pub enum Action {
    Nothing,
    Quit,
    ReadMessage,
    BackToList,
    ScrollDown,
    ScrollUp,
    SelectNext,
    SelectPrev,
    DeleteMessage,
    ArchiveMessage,
    ToggleRead,
    NextMessage,
    ToggleFlag,
}

/// The keys the interface tells apart; every other key is `Other`.
#[derive(Clone, Copy, Debug, PartialEq, Eq, Structural)]
pub enum KeyCode {
    Char(char),
    Esc,
    Enter,
    Up,
    Down,
    Other,
}

/// The action of a key in the envelope list.
pub open spec fn list_key_action(key: KeyCode) -> Action {
    match key {
        KeyCode::Esc | KeyCode::Char('q') => Action::Quit,
        KeyCode::Down | KeyCode::Char('j') => Action::SelectNext,
        KeyCode::Up | KeyCode::Char('k') => Action::SelectPrev,
        KeyCode::Enter => Action::ReadMessage,
        KeyCode::Char('d') => Action::DeleteMessage,
        KeyCode::Char('a') => Action::ArchiveMessage,
        KeyCode::Char('r') => Action::ToggleRead,
        KeyCode::Char('f') => Action::ToggleFlag,
        _ => Action::Nothing,
    }
}

/// The action of a key while reading a message.
pub open spec fn read_key_action(key: KeyCode) -> Action {
    match key {
        KeyCode::Esc | KeyCode::Char('q') => Action::BackToList,
        KeyCode::Down | KeyCode::Char('j') => Action::ScrollDown,
        KeyCode::Up | KeyCode::Char('k') => Action::ScrollUp,
        KeyCode::Char('d') => Action::DeleteMessage,
        KeyCode::Char('a') => Action::ArchiveMessage,
        KeyCode::Char('r') => Action::ToggleRead,
        KeyCode::Char('n') => Action::NextMessage,
        KeyCode::Char('f') => Action::ToggleFlag,
        _ => Action::Nothing,
    }
}

/// The action of a key in a view: the envelope list and the message view
/// have their key maps; no key does anything elsewhere.
pub open spec fn key_action(view: View, key: KeyCode) -> Action {
    match view {
        View::EnvelopeList => list_key_action(key),
        View::MessageRead { .. } => read_key_action(key),
        _ => Action::Nothing,
    }
}

/// Maps a key press in the current view to an action.
pub fn action_for_key(view: &View, key: KeyCode, _searching: bool) -> (a: Action)
    ensures
        a == key_action(*view, key),
{
    match view {
        View::EnvelopeList => match key {
            KeyCode::Esc | KeyCode::Char('q') => Action::Quit,
            KeyCode::Down | KeyCode::Char('j') => Action::SelectNext,
            KeyCode::Up | KeyCode::Char('k') => Action::SelectPrev,
            KeyCode::Enter => Action::ReadMessage,
            KeyCode::Char('d') => Action::DeleteMessage,
            KeyCode::Char('a') => Action::ArchiveMessage,
            KeyCode::Char('r') => Action::ToggleRead,
            KeyCode::Char('f') => Action::ToggleFlag,
            _ => Action::Nothing,
        },
        View::MessageRead { .. } => match key {
            KeyCode::Esc | KeyCode::Char('q') => Action::BackToList,
            KeyCode::Down | KeyCode::Char('j') => Action::ScrollDown,
            KeyCode::Up | KeyCode::Char('k') => Action::ScrollUp,
            KeyCode::Char('d') => Action::DeleteMessage,
            KeyCode::Char('a') => Action::ArchiveMessage,
            KeyCode::Char('r') => Action::ToggleRead,
            KeyCode::Char('n') => Action::NextMessage,
            KeyCode::Char('f') => Action::ToggleFlag,
            _ => Action::Nothing,
        },
        _ => Action::Nothing,
    }
}

/// What an input event asks for: a key press is mapped by `key_action`;
/// a key that is released or held, and an event that is no key, ask for
/// nothing.
pub open spec fn event_action(view: View, key: Option<KeyCode>, pressed: bool) -> Action {
    match key {
        Some(k) => if pressed {
            key_action(view, k)
        } else {
            Action::Nothing
        },
        None => Action::Nothing,
    }
}

/// Maps an input event to an action: `key` is the key of a key event
/// (`None` for any other event), `pressed` whether it is a press.
pub fn action_for_event(view: &View, key: Option<KeyCode>, pressed: bool, searching: bool) -> (a: Action)
    ensures
        a == event_action(*view, key, pressed),
{
    match key {
        Some(k) => if pressed {
            action_for_key(view, k, searching)
        } else {
            Action::Nothing
        },
        None => Action::Nothing,
    }
}

} // verus!
