use himalaya::tui::app::{AccountSection, App, EnvelopeData, Status, View};
use himalaya::tui::control::{
    account_key_for, active_envelope_context, add_letter, drop_letter, fetched_content, Command,
    Target,
};
use himalaya::tui::event::Action;
use himalaya::tui::load::{
    assemble_folders, assemble_inboxes, folder_listing, inboxes_to_open, pick_account_name,
};

fn envelope(id: &str, flags: &str, unseen: bool, account: &str) -> EnvelopeData {
    EnvelopeData {
        id: id.to_string(),
        subject: format!("subject {id}"),
        from: "a@b".to_string(),
        date: "2025-01-01".to_string(),
        flags: flags.to_string(),
        unseen,
        flagged: flags.contains('F'),
        account: account.to_string(),
    }
}

fn app_with(envs: Vec<EnvelopeData>) -> App {
    App::new(envs, "INBOX".to_string())
}

fn accounts(names: &[&str]) -> Vec<String> {
    names.iter().map(|n| n.to_string()).collect()
}

fn status_text(app: &App) -> Option<String> {
    match &app.status {
        Some(Status::Working(t)) => Some(format!("working:{t}")),
        Some(Status::Error(t)) => Some(format!("error:{t}")),
        Some(Status::Info(t)) => Some(format!("info:{t}")),
        None => None,
    }
}

#[test]
fn account_key_prefers_envelope_account() {
    let app = app_with(vec![envelope("1", "", false, "work"), envelope("2", "", false, "")]);
    assert_eq!(account_key_for(&app, "default"), "work");
    let mut app = app;
    app.selected = 1;
    assert_eq!(account_key_for(&app, "default"), "default");
    app.selected = 5;
    assert_eq!(account_key_for(&app, "default"), "default");
}

#[test]
fn context_describes_selected_envelope() {
    let app = app_with(vec![envelope("7", "F", true, "")]);
    let ctx = active_envelope_context(&app, "me").unwrap();
    assert_eq!(ctx.id, "7");
    assert!(ctx.unseen);
    assert!(ctx.flagged);
    assert_eq!(ctx.account_key, "me");
    assert_eq!(ctx.folder, "INBOX");
    assert!(active_envelope_context(&app_with(vec![]), "me").is_none());
}

#[test]
fn letters_are_added_in_order_and_dropped() {
    assert_eq!(add_letter(&"FT".to_string(), 'S'), "SFT");
    assert_eq!(add_letter(&"TS".to_string(), 'S'), "TS");
    assert_eq!(add_letter(&"*".to_string(), 'F'), "F*");
    assert_eq!(drop_letter(&"SFS".to_string(), 'S'), "F");
}

#[test]
fn quit_and_status_clearing() {
    let mut app = app_with(vec![]);
    app.status = Some(Status::Error("old".into()));
    assert!(matches!(app.dispatch(Action::Nothing, "", &accounts(&[])), Command::Idle));
    assert!(app.status.is_some());
    assert!(matches!(app.dispatch(Action::Quit, "", &accounts(&[])), Command::Idle));
    assert!(app.should_quit);
    assert!(app.status.is_none());
}

#[test]
fn read_asks_for_fetch_then_marks_seen() {
    let mut app = app_with(vec![envelope("12", "F", true, "work")]);
    let cmd = app.dispatch(Action::ReadMessage, "", &accounts(&["work"]));
    assert_eq!(status_text(&app), Some("working:Loading…".to_string()));
    let target = match cmd {
        Command::FetchMessage(t) => t,
        _ => panic!("expected a fetch"),
    };
    assert_eq!(target.id, 12);
    assert_eq!(target.account_key, "work");
    assert_eq!(target.folder, "INBOX");
    let next = app.finish_read(target, "Hello".to_string());
    assert!(matches!(next, Command::MarkSeen(ref t) if t.id == 12));
    assert!(matches!(&app.view, View::MessageRead { content, scroll: 0, .. } if content == "Hello"));
    assert!(!app.envelopes[0].unseen);
    assert_eq!(app.envelopes[0].flags, "SF");
    assert!(app.status.is_none());
}

#[test]
fn read_without_backend_or_with_bad_id_explains() {
    let mut app = app_with(vec![envelope("12", "", false, "work")]);
    let cmd = app.dispatch(Action::ReadMessage, "", &accounts(&["home"]));
    assert!(matches!(cmd, Command::Idle));
    assert!(matches!(&app.view, View::MessageRead { content, .. } if content == "No backend for account: work"));

    let mut app = app_with(vec![envelope("x1", "", true, "work")]);
    let cmd = app.dispatch(Action::ReadMessage, "", &accounts(&["work"]));
    assert!(matches!(cmd, Command::Idle));
    assert!(matches!(&app.view, View::MessageRead { content, .. } if content == "Invalid envelope ID: x1"));
    assert_eq!(app.envelopes[0].flags, "S");
    assert!(!app.envelopes[0].unseen);
}

#[test]
fn next_message_stops_at_the_end() {
    let mut app = app_with(vec![envelope("1", "", false, "w"), envelope("2", "", false, "w")]);
    assert!(matches!(app.dispatch(Action::NextMessage, "", &accounts(&["w"])), Command::Idle));
    assert_eq!(app.selected, 0);
    app.view = View::MessageRead { content: String::new(), scroll: 3, folder_context: None };
    let cmd = app.dispatch(Action::NextMessage, "", &accounts(&["w"]));
    assert!(matches!(cmd, Command::FetchMessage(ref t) if t.id == 2));
    assert_eq!(app.selected, 1);
    let cmd = app.dispatch(Action::NextMessage, "", &accounts(&["w"]));
    assert!(matches!(cmd, Command::Idle));
    assert_eq!(status_text(&app), Some("info:No more messages".to_string()));
}

#[test]
fn scrolling_only_in_message_view() {
    let mut app = app_with(vec![]);
    app.dispatch(Action::ScrollDown, "", &accounts(&[]));
    assert!(matches!(app.view, View::EnvelopeList));
    app.view = View::MessageRead { content: String::new(), scroll: u16::MAX, folder_context: None };
    app.dispatch(Action::ScrollDown, "", &accounts(&[]));
    assert!(matches!(app.view, View::MessageRead { scroll: u16::MAX, .. }));
    app.view = View::MessageRead { content: String::new(), scroll: 0, folder_context: None };
    app.dispatch(Action::ScrollUp, "", &accounts(&[]));
    assert!(matches!(app.view, View::MessageRead { scroll: 0, .. }));
    app.dispatch(Action::ScrollDown, "", &accounts(&[]));
    assert!(matches!(app.view, View::MessageRead { scroll: 1, .. }));
    app.dispatch(Action::BackToList, "", &accounts(&[]));
    assert!(matches!(app.view, View::EnvelopeList));
}

#[test]
fn delete_flow() {
    let sections = vec![AccountSection { name: "w".into(), start: 0, count: 2 }];
    let mut app = app_with(vec![envelope("1", "", false, "w"), envelope("2", "", false, "w")])
        .with_sections(sections);
    app.selected = 1;
    let cmd = app.dispatch(Action::DeleteMessage, "", &accounts(&["w"]));
    assert!(matches!(cmd, Command::Delete(ref t) if t.id == 2));
    assert_eq!(status_text(&app), Some("working:Deleting…".to_string()));
    app.finish_delete(Ok(()));
    assert_eq!(app.envelopes.len(), 1);
    assert_eq!(app.sections[0].count, 1);
    assert_eq!(app.selected, 0);
    assert_eq!(status_text(&app), Some("info:Deleted".to_string()));
    app.finish_delete(Err("boom".into()));
    assert_eq!(status_text(&app), Some("error:Delete failed: boom".to_string()));
}

#[test]
fn bad_id_fails_before_the_backend() {
    let mut app = app_with(vec![envelope("abc", "", false, "w")]);
    let cmd = app.dispatch(Action::ArchiveMessage, "", &accounts(&["w"]));
    assert!(matches!(cmd, Command::Idle));
    assert_eq!(
        status_text(&app),
        Some("error:Archive failed: invalid digit found in string".to_string())
    );
    let mut app = app_with(vec![envelope("", "", false, "w")]);
    app.dispatch(Action::ToggleRead, "", &accounts(&["w"]));
    assert_eq!(
        status_text(&app),
        Some("error:Toggle read failed: cannot parse integer from empty string".to_string())
    );
    let mut app = app_with(vec![envelope("99999999999999999999999", "", false, "w")]);
    app.dispatch(Action::DeleteMessage, "", &accounts(&["w"]));
    assert_eq!(
        status_text(&app),
        Some("error:Delete failed: number too large to fit in target type".to_string())
    );
    let mut app = app_with(vec![envelope("+", "", false, "w")]);
    app.dispatch(Action::ToggleFlag, "", &accounts(&["w"]));
    assert_eq!(
        status_text(&app),
        Some("error:Toggle flag failed: invalid digit found in string".to_string())
    );
    let mut app = app_with(vec![envelope("+7", "", false, "w")]);
    let cmd = app.dispatch(Action::DeleteMessage, "", &accounts(&["w"]));
    assert!(matches!(cmd, Command::Delete(Target { id: 7, .. })));
    let mut app = app_with(vec![envelope("1", "", false, "w")]);
    let cmd = app.dispatch(Action::ToggleFlag, "", &accounts(&["other"]));
    assert!(matches!(cmd, Command::Idle));
    assert!(app.status.is_none());
}

#[test]
fn archive_flow() {
    let mut app = app_with(vec![envelope("3", "", false, "")]);
    let cmd = app.dispatch(Action::ArchiveMessage, "me", &accounts(&["me"]));
    assert!(matches!(cmd, Command::Archive(ref t) if t.account_key == "me"));
    assert_eq!(status_text(&app), Some("working:Archiving…".to_string()));
    app.finish_archive("Archive", Ok(()));
    assert!(app.envelopes.is_empty());
    assert_eq!(status_text(&app), Some("info:Archived to Archive".to_string()));
}

#[test]
fn toggle_read_and_flag_flows() {
    let mut app = app_with(vec![envelope("5", "FT", true, "w")]);
    let cmd = app.dispatch(Action::ToggleRead, "", &accounts(&["w"]));
    let target: Target = match cmd {
        Command::SetSeen(t, add) => {
            assert!(add);
            t
        }
        _ => panic!("expected SetSeen"),
    };
    app.finish_toggle_read(&target, Ok(()));
    assert!(!app.envelopes[0].unseen);
    assert_eq!(app.envelopes[0].flags, "SFT");
    assert_eq!(status_text(&app), Some("info:Marked as read".to_string()));

    let cmd = app.dispatch(Action::ToggleRead, "", &accounts(&["w"]));
    let target = match cmd {
        Command::SetSeen(t, add) => {
            assert!(!add);
            t
        }
        _ => panic!("expected SetSeen"),
    };
    app.finish_toggle_read(&target, Ok(()));
    assert!(app.envelopes[0].unseen);
    assert_eq!(app.envelopes[0].flags, "FT");
    assert_eq!(status_text(&app), Some("info:Marked as unread".to_string()));

    let cmd = app.dispatch(Action::ToggleFlag, "", &accounts(&["w"]));
    let target = match cmd {
        Command::SetFlagged(t, add) => {
            assert!(!add);
            t
        }
        _ => panic!("expected SetFlagged"),
    };
    app.finish_toggle_flag(&target, Ok(()));
    assert!(!app.envelopes[0].flagged);
    assert_eq!(app.envelopes[0].flags, "T");
    assert_eq!(status_text(&app), Some("info:Unflagged".to_string()));
    app.finish_toggle_flag(&target, Err("nope".into()));
    assert_eq!(status_text(&app), Some("error:Toggle flag failed: nope".to_string()));
}

#[test]
fn account_choice() {
    let list = vec![
        ("a".to_string(), None),
        ("b".to_string(), Some(false)),
        ("c".to_string(), Some(true)),
        ("d".to_string(), Some(true)),
    ];
    assert_eq!(pick_account_name(None, &list), "c");
    assert_eq!(pick_account_name(Some("x".into()), &list), "x");
    assert_eq!(pick_account_name(None, &list[..2].to_vec()), "a");
    assert_eq!(pick_account_name(None, &vec![]), "");
}

#[test]
fn inboxes_are_tagged_and_sectioned() {
    let loaded = vec![
        ("work".to_string(), vec![envelope("1", "", false, ""), envelope("2", "", false, "")]),
        ("empty".to_string(), vec![]),
        ("home".to_string(), vec![envelope("3", "", false, "")]),
    ];
    let (all, sections) = assemble_inboxes(&loaded);
    assert_eq!(all.len(), 3);
    assert_eq!(all[0].account, "work");
    assert_eq!(all[2].account, "home");
    assert_eq!(all[2].id, "3");
    assert_eq!(sections.len(), 3);
    assert_eq!((sections[1].start, sections[1].count), (2, 0));
    assert_eq!((sections[2].start, sections[2].count), (2, 1));
}

#[test]
fn folders_skip_empty_accounts() {
    let loaded = vec![
        ("b".to_string(), vec!["INBOX".to_string(), "Sent".to_string()]),
        ("c".to_string(), vec![]),
        ("d".to_string(), vec!["Drafts".to_string()]),
    ];
    let (folders, sections) = assemble_folders(&loaded);
    assert_eq!(folders.len(), 3);
    assert_eq!(folders[2].name, "Drafts");
    assert_eq!(folders[2].account, "d");
    assert_eq!(sections.len(), 2);
    assert_eq!(sections[1].name, "d");
    assert_eq!((sections[1].start, sections[1].count), (2, 1));
}

#[test]
fn refresh_keeps_selection_in_range() {
    let mut app = app_with(vec![envelope("1", "", false, ""), envelope("2", "", false, "")]);
    app.selected = 1;
    app.begin_refresh();
    assert_eq!(status_text(&app), Some("working:Refreshing…".to_string()));
    app.apply_refresh(vec![envelope("9", "", false, "")], vec![]);
    assert_eq!(app.selected, 0);
    assert!(app.status.is_none());
    app.refresh_failed("down");
    assert_eq!(status_text(&app), Some("error:Refresh failed: down".to_string()));
}

#[test]
fn folder_listing_stops_at_first_failure() {
    let outcomes: Vec<(String, Result<Vec<String>, String>)> = vec![
        ("a".to_string(), Ok(vec!["INBOX".to_string()])),
        ("b".to_string(), Err("timeout".to_string())),
        ("c".to_string(), Err("refused".to_string())),
    ];
    assert_eq!(
        folder_listing(outcomes).err(),
        Some("Error loading folders for b: timeout".to_string())
    );
}

#[test]
fn folder_listing_gathers_every_account() {
    let outcomes: Vec<(String, Result<Vec<String>, String>)> = vec![
        ("a".to_string(), Ok(vec!["INBOX".to_string(), "Sent".to_string()])),
        ("b".to_string(), Ok(vec![])),
        ("c".to_string(), Ok(vec!["Archive".to_string()])),
    ];
    let (folders, sections) = folder_listing(outcomes).ok().unwrap();
    assert_eq!(folders.len(), 3);
    assert_eq!((folders[2].name.as_str(), folders[2].account.as_str()), ("Archive", "c"));
    assert_eq!(sections.len(), 2);
    assert_eq!((sections[1].name.as_str(), sections[1].start, sections[1].count), ("c", 2, 1));
    let (folders, sections) = folder_listing(vec![]).ok().unwrap();
    assert!(folders.is_empty() && sections.is_empty());
}

#[test]
fn no_account_no_interface() {
    let refused = inboxes_to_open(&vec![]).err();
    assert_eq!(
        refused,
        Some("no accounts loaded successfully; cannot start TUI".to_string())
    );
    let loaded = vec![("work".to_string(), vec![envelope("1", "", false, "")])];
    let (all, sections) = inboxes_to_open(&loaded).ok().unwrap();
    assert_eq!(all.len(), 1);
    assert_eq!(all[0].account, "work");
    assert_eq!(sections.len(), 1);
}

#[test]
fn fetched_message_text() {
    let ok: Result<Vec<Result<String, String>>, String> =
        Ok(vec![Ok("Subject: a\n\nhi\n".to_string()), Err("bad mime".to_string()), Ok("x".to_string())]);
    assert_eq!(
        fetched_content(&ok),
        "Subject: a\n\nhi\nError reading message: bad mimex"
    );
    let failed: Result<Vec<Result<String, String>>, String> = Err("gone".to_string());
    assert_eq!(fetched_content(&failed), "Error fetching message: gone");
    let empty: Result<Vec<Result<String, String>>, String> = Ok(vec![]);
    assert_eq!(fetched_content(&empty), "");
}
