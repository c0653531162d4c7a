use himalaya::flag_arg::FlagName;
use himalaya::tui::app::{
    AccountSection, App, EnvelopeData, FolderEntry, FolderEnvelopeState, FolderListState, View,
};
use himalaya::tui::envelope::{Envelope, Mailbox};
use himalaya::tui::flags::sort_flags;

fn make_envelope(id: &str, subject: &str) -> EnvelopeData {
    EnvelopeData {
        id: id.to_string(),
        subject: subject.to_string(),
        from: "test@example.com".to_string(),
        date: "2025-01-01 00:00".to_string(),
        flags: String::new(),
        unseen: false,
        flagged: false,
        account: String::new(),
    }
}

#[test]
fn new_app_defaults() {
    let app = App::new(vec![], "INBOX".to_string());
    assert_eq!(app.selected, 0);
    assert_eq!(app.folder, "INBOX");
    assert!(!app.should_quit);
    assert!(matches!(app.view, View::EnvelopeList));
}

#[test]
fn select_next_advances() {
    let envelopes = vec![make_envelope("1", "a"), make_envelope("2", "b")];
    let mut app = App::new(envelopes, "INBOX".to_string());
    assert_eq!(app.selected, 0);
    app.select_next();
    assert_eq!(app.selected, 1);
}

#[test]
fn select_next_clamps_at_end() {
    let envelopes = vec![make_envelope("1", "a"), make_envelope("2", "b")];
    let mut app = App::new(envelopes, "INBOX".to_string());
    app.select_next();
    app.select_next();
    app.select_next();
    assert_eq!(app.selected, 1);
}

#[test]
fn select_next_empty_list() {
    let mut app = App::new(vec![], "INBOX".to_string());
    app.select_next();
    assert_eq!(app.selected, 0);
}

#[test]
fn select_prev_decrements() {
    let envelopes = vec![make_envelope("1", "a"), make_envelope("2", "b")];
    let mut app = App::new(envelopes, "INBOX".to_string());
    app.selected = 1;
    app.select_prev();
    assert_eq!(app.selected, 0);
}

#[test]
fn select_prev_clamps_at_zero() {
    let mut app = App::new(vec![make_envelope("1", "a")], "INBOX".to_string());
    app.select_prev();
    assert_eq!(app.selected, 0);
}

#[test]
fn envelope_data_from_envelope() {
    let env = Envelope {
        id: "42".to_string(),
        subject: "Test Subject".to_string(),
        from: Mailbox {
            name: Some("Alice".to_string()),
            addr: "alice@example.com".to_string(),
        },
        to: Mailbox {
            name: None,
            addr: "bob@example.com".to_string(),
        },
        date: "2025-01-15 10:30".to_string(),
        flags: vec![FlagName::Seen, FlagName::Flagged],
        has_attachment: false,
    };

    let data = EnvelopeData::from(&env);
    assert_eq!(data.id, "42");
    assert_eq!(data.subject, "Test Subject");
    assert_eq!(data.from, "Alice");
    assert_eq!(data.date, "2025-01-15 10:30");
    assert!(data.flags.contains('S'));
    assert!(data.flags.contains('F'));
    assert!(!data.unseen);
    assert!(data.flagged);
}

#[test]
fn envelope_data_uses_addr_when_no_name() {
    let env = Envelope {
        id: "1".to_string(),
        subject: String::new(),
        from: Mailbox {
            name: None,
            addr: "bob@example.com".to_string(),
        },
        to: Mailbox {
            name: None,
            addr: String::new(),
        },
        date: String::new(),
        flags: vec![],
        has_attachment: false,
    };

    let data = EnvelopeData::from(&env);
    assert_eq!(data.from, "bob@example.com");
    assert!(data.flags.is_empty());
    assert!(data.unseen);
    assert!(!data.flagged);
}

#[test]
fn multi_section_navigation() {
    let envelopes = vec![
        make_envelope("1", "a"),
        make_envelope("2", "b"),
        make_envelope("3", "c"),
    ];
    let sections = vec![
        AccountSection {
            name: "work".to_string(),
            start: 0,
            count: 2,
        },
        AccountSection {
            name: "personal".to_string(),
            start: 2,
            count: 1,
        },
    ];
    let mut app = App::new(envelopes, "INBOX".to_string()).with_sections(sections);

    assert_eq!(app.selected, 0);
    app.select_next();
    assert_eq!(app.selected, 1);
    app.select_next();
    assert_eq!(app.selected, 2);

    app.select_next();
    assert_eq!(app.selected, 2);
}

#[test]
fn remove_envelope_basic() {
    let envelopes = vec![
        make_envelope("1", "a"),
        make_envelope("2", "b"),
        make_envelope("3", "c"),
    ];
    let mut app = App::new(envelopes, "INBOX".to_string());
    app.selected = 1;
    let removed = app.remove_envelope(1);
    assert_eq!(removed.unwrap().id, "2");
    assert_eq!(app.envelopes.len(), 2);
    assert_eq!(app.selected, 1);
    assert_eq!(app.envelopes[1].id, "3");
}

#[test]
fn remove_envelope_last_item() {
    let envelopes = vec![make_envelope("1", "a"), make_envelope("2", "b")];
    let mut app = App::new(envelopes, "INBOX".to_string());
    app.selected = 1;
    app.remove_envelope(1);
    assert_eq!(app.envelopes.len(), 1);
    assert_eq!(app.selected, 0);
}

#[test]
fn remove_envelope_only_item() {
    let envelopes = vec![make_envelope("1", "a")];
    let mut app = App::new(envelopes, "INBOX".to_string());
    app.remove_envelope(0);
    assert!(app.envelopes.is_empty());
    assert_eq!(app.selected, 0);
}

#[test]
fn remove_envelope_out_of_bounds() {
    let mut app = App::new(vec![], "INBOX".to_string());
    assert!(app.remove_envelope(0).is_none());
}

#[test]
fn remove_envelope_updates_sections() {
    let envelopes = vec![
        make_envelope("1", "a"),
        make_envelope("2", "b"),
        make_envelope("3", "c"),
        make_envelope("4", "d"),
    ];
    let sections = vec![
        AccountSection {
            name: "work".to_string(),
            start: 0,
            count: 2,
        },
        AccountSection {
            name: "personal".to_string(),
            start: 2,
            count: 2,
        },
    ];
    let mut app = App::new(envelopes, "INBOX".to_string()).with_sections(sections);

    app.remove_envelope(0);
    assert_eq!(app.sections[0].count, 1);
    assert_eq!(app.sections[0].start, 0);
    assert_eq!(app.sections[1].start, 1);
    assert_eq!(app.sections[1].count, 2);
}

#[test]
fn remove_envelope_removes_empty_section() {
    let envelopes = vec![make_envelope("1", "a"), make_envelope("2", "b")];
    let sections = vec![
        AccountSection {
            name: "work".to_string(),
            start: 0,
            count: 1,
        },
        AccountSection {
            name: "personal".to_string(),
            start: 1,
            count: 1,
        },
    ];
    let mut app = App::new(envelopes, "INBOX".to_string()).with_sections(sections);

    app.remove_envelope(0);
    assert_eq!(app.sections.len(), 1);
    assert_eq!(app.sections[0].name, "personal");
    assert_eq!(app.sections[0].start, 0);
}

fn make_folder_list_view(count: usize, selected: usize) -> View {
    let folders = (0..count)
        .map(|i| FolderEntry {
            name: format!("folder{i}"),
            account: String::new(),
        })
        .collect();
    View::FolderList(FolderListState {
        folders,
        sections: Vec::new(),
        selected,
        saved_envelope_selected: 0,
    })
}

#[test]
fn folder_select_next_advances() {
    let mut app = App::new(vec![], "INBOX".to_string());
    app.view = make_folder_list_view(3, 0);
    app.folder_select_next();
    if let View::FolderList(state) = &app.view {
        assert_eq!(state.selected, 1);
    } else {
        panic!("expected FolderList view");
    }
}

#[test]
fn folder_select_next_clamps_at_end() {
    let mut app = App::new(vec![], "INBOX".to_string());
    app.view = make_folder_list_view(2, 1);
    app.folder_select_next();
    app.folder_select_next();
    if let View::FolderList(state) = &app.view {
        assert_eq!(state.selected, 1);
    } else {
        panic!("expected FolderList view");
    }
}

#[test]
fn folder_select_next_empty_list() {
    let mut app = App::new(vec![], "INBOX".to_string());
    app.view = make_folder_list_view(0, 0);
    app.folder_select_next();
    if let View::FolderList(state) = &app.view {
        assert_eq!(state.selected, 0);
    } else {
        panic!("expected FolderList view");
    }
}

#[test]
fn folder_select_prev_decrements() {
    let mut app = App::new(vec![], "INBOX".to_string());
    app.view = make_folder_list_view(3, 2);
    app.folder_select_prev();
    if let View::FolderList(state) = &app.view {
        assert_eq!(state.selected, 1);
    } else {
        panic!("expected FolderList view");
    }
}

#[test]
fn folder_select_prev_clamps_at_zero() {
    let mut app = App::new(vec![], "INBOX".to_string());
    app.view = make_folder_list_view(3, 0);
    app.folder_select_prev();
    if let View::FolderList(state) = &app.view {
        assert_eq!(state.selected, 0);
    } else {
        panic!("expected FolderList view");
    }
}

#[test]
fn folder_select_noop_on_wrong_view() {
    let mut app = App::new(vec![], "INBOX".to_string());
    app.folder_select_next();
    assert!(matches!(app.view, View::EnvelopeList));
    app.folder_select_prev();
    assert!(matches!(app.view, View::EnvelopeList));
}

#[test]
fn folder_envelope_remove_basic() {
    let mut state = FolderEnvelopeState {
        envelopes: vec![
            make_envelope("1", "a"),
            make_envelope("2", "b"),
            make_envelope("3", "c"),
        ],
        selected: 1,
        folder_name: "Sent".to_string(),
        account_key: String::new(),
        parent: FolderListState {
            folders: Vec::new(),
            sections: Vec::new(),
            selected: 0,
            saved_envelope_selected: 0,
        },
    };
    let removed = state.remove_envelope(1);
    assert_eq!(removed.unwrap().id, "2");
    assert_eq!(state.envelopes.len(), 2);
    assert_eq!(state.selected, 1);
}

#[test]
fn folder_envelope_remove_clamps_selected() {
    let mut state = FolderEnvelopeState {
        envelopes: vec![make_envelope("1", "a"), make_envelope("2", "b")],
        selected: 1,
        folder_name: "Sent".to_string(),
        account_key: String::new(),
        parent: FolderListState {
            folders: Vec::new(),
            sections: Vec::new(),
            selected: 0,
            saved_envelope_selected: 0,
        },
    };
    state.remove_envelope(1);
    assert_eq!(state.selected, 0);
}

#[test]
fn sort_flags_sfadt_order() {
    assert_eq!(sort_flags("FS"), "SF");
    assert_eq!(sort_flags("DATSF"), "SFADT");
    assert_eq!(sort_flags("S"), "S");
    assert_eq!(sort_flags(""), "");
    assert_eq!(sort_flags("*F"), "F*");
}
