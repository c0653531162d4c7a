use himalaya::tui::app::EnvelopeData;
use himalaya::tui::ui::{
    classify_line, is_header_line, list_title, message_lines, row_look, MessageLine, Tint,
};

#[test]
fn header_line_standard_headers() {
    assert!(is_header_line("From: alice@example.com"));
    assert!(is_header_line("Subject: Hello"));
    assert!(is_header_line("Date: 2025-01-01"));
    assert!(is_header_line("Content-Type: text/plain"));
    assert!(is_header_line("X-Custom-Header: value"));
}

#[test]
fn header_line_rejects_non_headers() {
    assert!(!is_header_line("Hello, world!"));
    assert!(!is_header_line("Dear Alice: how are you"));
    assert!(!is_header_line(""));
    assert!(!is_header_line("no colon here"));
    assert!(!is_header_line(": empty key"));
}

#[test]
fn header_line_needs_colon_space_and_ascii_name() {
    assert!(!is_header_line("Subject:Hello"));
    assert!(is_header_line("Subject: "));
    assert!(!is_header_line("Sübject: x"));
    assert!(!is_header_line("A:b: c: d"));
    assert!(is_header_line("A-b: c: d"));
    assert!(!is_header_line("A b: c"));
}

#[test]
fn classify_splits_headers_only() {
    match classify_line("Subject: Hi: there", true) {
        MessageLine::Header { key, value } => {
            assert_eq!(key, "Subject");
            assert_eq!(value, "Hi: there");
        }
        MessageLine::Body(_) => panic!("expected a header"),
    }
    match classify_line("just text", true) {
        MessageLine::Body(text) => assert_eq!(text, "just text"),
        MessageLine::Header { .. } => panic!("expected body text"),
    }
}

#[test]
fn classify_outside_headers_keeps_text() {
    match classify_line("Subject: Hi", false) {
        MessageLine::Body(text) => assert_eq!(text, "Subject: Hi"),
        MessageLine::Header { .. } => panic!("expected body text"),
    }
}

#[test]
fn message_lines_headers_only_before_first_blank() {
    let lines = message_lines("a\n\nK: v");
    assert_eq!(lines.len(), 3);
    match &lines[2] {
        MessageLine::Body(text) => assert_eq!(text, "K: v"),
        MessageLine::Header { .. } => panic!("a line after the blank line is body text"),
    }
    let lines = message_lines("From: x\nnot a header\nTo: y\n\nCc: z");
    assert_eq!(lines.len(), 5);
    assert!(matches!(&lines[0], MessageLine::Header { key, value } if key == "From" && value == "x"));
    assert!(matches!(&lines[1], MessageLine::Body(t) if t == "not a header"));
    assert!(matches!(&lines[2], MessageLine::Header { key, value } if key == "To" && value == "y"));
    assert!(matches!(&lines[3], MessageLine::Body(t) if t.is_empty()));
    assert!(matches!(&lines[4], MessageLine::Body(t) if t == "Cc: z"));
}

#[test]
fn message_lines_follow_str_lines() {
    let content = "From: a\r\nSubject: b\n\nbody\r";
    let lines = message_lines(content);
    let expected: Vec<&str> = content.lines().collect();
    assert_eq!(lines.len(), expected.len());
    assert_eq!(lines.len(), 4);
    match &lines[1] {
        MessageLine::Header { key, value } => {
            assert_eq!(key, "Subject");
            assert_eq!(value, "b");
        }
        MessageLine::Body(_) => panic!("expected a header"),
    }
    match &lines[3] {
        MessageLine::Body(text) => assert_eq!(text, "body\r"),
        MessageLine::Header { .. } => panic!("expected body text"),
    }
    assert_eq!(message_lines("").len(), 0);
    assert_eq!(message_lines("a\n").len(), 1);
    assert_eq!(message_lines("a\n\n").len(), 2);
}

#[test]
fn row_look_marks_unseen_and_flagged() {
    let mut e = EnvelopeData {
        id: "1".into(),
        subject: String::new(),
        from: String::new(),
        date: String::new(),
        flags: String::new(),
        unseen: true,
        flagged: true,
        account: String::new(),
    };
    let look = row_look(&e);
    assert!(look.bold);
    assert_eq!(look.flags_tint, Tint::Yellow);
    assert_eq!(look.from_tint, Tint::White);
    e.unseen = false;
    e.flagged = false;
    let look = row_look(&e);
    assert!(!look.bold);
    assert_eq!(look.flags_tint, Tint::DarkGray);
    assert_eq!(look.from_tint, Tint::Cyan);
    assert_eq!(look.date_tint, Tint::DarkGray);
}

#[test]
fn title_pads_folder_name() {
    assert_eq!(list_title("INBOX"), " INBOX ");
}
