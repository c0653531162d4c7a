use himalaya::tui::app::View;
use himalaya::tui::event::{action_for_event, action_for_key, Action, KeyCode};

fn list_view() -> View {
    View::EnvelopeList
}

fn message_view() -> View {
    View::MessageRead {
        content: String::new(),
        scroll: 0,
        folder_context: None,
    }
}

#[test]
fn list_q_quits() {
    assert_eq!(
        action_for_key(&list_view(), KeyCode::Char('q'), false),
        Action::Quit
    );
}

#[test]
fn list_esc_quits() {
    assert_eq!(action_for_key(&list_view(), KeyCode::Esc, false), Action::Quit);
}

#[test]
fn list_j_selects_next() {
    assert_eq!(
        action_for_key(&list_view(), KeyCode::Char('j'), false),
        Action::SelectNext
    );
}

#[test]
fn list_k_selects_prev() {
    assert_eq!(
        action_for_key(&list_view(), KeyCode::Char('k'), false),
        Action::SelectPrev
    );
}

#[test]
fn list_enter_reads_message() {
    assert_eq!(
        action_for_key(&list_view(), KeyCode::Enter, false),
        Action::ReadMessage
    );
}

#[test]
fn list_d_deletes() {
    assert_eq!(
        action_for_key(&list_view(), KeyCode::Char('d'), false),
        Action::DeleteMessage
    );
}

#[test]
fn list_a_archives() {
    assert_eq!(
        action_for_key(&list_view(), KeyCode::Char('a'), false),
        Action::ArchiveMessage
    );
}

#[test]
fn list_r_toggles_read() {
    assert_eq!(
        action_for_key(&list_view(), KeyCode::Char('r'), false),
        Action::ToggleRead
    );
}

#[test]
fn list_f_toggles_flag() {
    assert_eq!(
        action_for_key(&list_view(), KeyCode::Char('f'), false),
        Action::ToggleFlag
    );
}

#[test]
fn list_unknown_key_is_none() {
    assert_eq!(
        action_for_key(&list_view(), KeyCode::Char('z'), false),
        Action::Nothing
    );
}

#[test]
fn message_esc_goes_back() {
    assert_eq!(
        action_for_key(&message_view(), KeyCode::Esc, false),
        Action::BackToList
    );
}

#[test]
fn message_q_goes_back() {
    assert_eq!(
        action_for_key(&message_view(), KeyCode::Char('q'), false),
        Action::BackToList
    );
}

#[test]
fn message_j_scrolls_down() {
    assert_eq!(
        action_for_key(&message_view(), KeyCode::Char('j'), false),
        Action::ScrollDown
    );
}

#[test]
fn message_k_scrolls_up() {
    assert_eq!(
        action_for_key(&message_view(), KeyCode::Char('k'), false),
        Action::ScrollUp
    );
}

#[test]
fn message_d_deletes() {
    assert_eq!(
        action_for_key(&message_view(), KeyCode::Char('d'), false),
        Action::DeleteMessage
    );
}

#[test]
fn message_a_archives() {
    assert_eq!(
        action_for_key(&message_view(), KeyCode::Char('a'), false),
        Action::ArchiveMessage
    );
}

#[test]
fn message_r_toggles_read() {
    assert_eq!(
        action_for_key(&message_view(), KeyCode::Char('r'), false),
        Action::ToggleRead
    );
}

#[test]
fn message_n_next_message() {
    assert_eq!(
        action_for_key(&message_view(), KeyCode::Char('n'), false),
        Action::NextMessage
    );
}

#[test]
fn message_f_toggles_flag() {
    assert_eq!(
        action_for_key(&message_view(), KeyCode::Char('f'), false),
        Action::ToggleFlag
    );
}

#[test]
fn message_b_is_none() {
    assert_eq!(
        action_for_key(&message_view(), KeyCode::Char('b'), false),
        Action::Nothing
    );
}

#[test]
fn message_unknown_key_is_none() {
    assert_eq!(
        action_for_key(&message_view(), KeyCode::Char('z'), false),
        Action::Nothing
    );
}

#[test]
fn arrows_move_in_both_views() {
    assert_eq!(action_for_key(&list_view(), KeyCode::Down, false), Action::SelectNext);
    assert_eq!(action_for_key(&list_view(), KeyCode::Up, false), Action::SelectPrev);
    assert_eq!(action_for_key(&message_view(), KeyCode::Down, false), Action::ScrollDown);
    assert_eq!(action_for_key(&message_view(), KeyCode::Up, false), Action::ScrollUp);
    assert_eq!(action_for_key(&list_view(), KeyCode::Char('n'), false), Action::Nothing);
    assert_eq!(action_for_key(&message_view(), KeyCode::Enter, false), Action::Nothing);
}

#[test]
fn only_key_presses_act() {
    assert_eq!(action_for_event(&list_view(), Some(KeyCode::Char('q')), true, false), Action::Quit);
    assert_eq!(action_for_event(&list_view(), Some(KeyCode::Char('q')), false, false), Action::Nothing);
    assert_eq!(action_for_event(&message_view(), None, true, false), Action::Nothing);
    assert_eq!(
        action_for_event(&message_view(), Some(KeyCode::Char('n')), true, false),
        Action::NextMessage
    );
}
