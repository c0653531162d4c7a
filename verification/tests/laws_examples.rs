use himalaya::flag_arg::FlagName;
use himalaya::message_arg::MessageRawBodyArg;
use himalaya::template_arg::TemplateRawArg;
use himalaya::tui::app::{AccountSection, App, EnvelopeData};
use himalaya::tui::envelope::{Envelope, Mailbox};
use himalaya::tui::flags::sort_flags;
use himalaya::tui::load::assemble_inboxes;

fn envelope(id: &str) -> EnvelopeData {
    EnvelopeData {
        id: id.to_string(),
        subject: String::new(),
        from: String::new(),
        date: String::new(),
        flags: String::new(),
        unseen: false,
        flagged: false,
        account: String::new(),
    }
}

fn covers(sections: &[AccountSection], len: usize) -> bool {
    let mut next = 0;
    for s in sections {
        if s.start != next {
            return false;
        }
        next += s.count;
    }
    next == len
}

#[test]
fn body_text_is_crlf_only() {
    let text = MessageRawBodyArg {
        raw: vec!["a\rb\n".into(), "\r\nc\r".into(), "\n\n".into()],
    }
    .raw();
    let bytes = text.as_bytes();
    for (i, b) in bytes.iter().enumerate() {
        if *b == b'\n' {
            assert!(i > 0 && bytes[i - 1] == b'\r');
        }
        if *b == b'\r' {
            assert!(i + 1 < bytes.len() && bytes[i + 1] == b'\n');
        }
    }
    assert_eq!(text, "ab\r\n \r\nc \r\n\r\n");
}

#[test]
fn template_text_has_no_cr() {
    let text = TemplateRawArg {
        raw: vec!["\r\r".into(), "x\r\ny".into()],
    }
    .raw();
    assert_eq!(text, " x\ny");
}

#[test]
fn sorting_flags_permutes_orders_and_settles() {
    let once = sort_flags("x*TDAFS*S");
    assert_eq!(once, "SSFADTx**");
    assert_eq!(sort_flags(&once), once);
    let mut a: Vec<char> = once.chars().collect();
    let mut b: Vec<char> = "x*TDAFS*S".chars().collect();
    a.sort();
    b.sort();
    assert_eq!(a, b);
}

#[test]
fn envelope_flags_do_not_depend_on_order() {
    let make = |flags: Vec<FlagName>| Envelope {
        id: "1".into(),
        flags,
        subject: String::new(),
        from: Mailbox {
            name: None,
            addr: String::new(),
        },
        to: Mailbox {
            name: None,
            addr: String::new(),
        },
        date: String::new(),
        has_attachment: true,
    };
    let a = EnvelopeData::from(&make(vec![
        FlagName::Draft,
        FlagName::Custom("x".into()),
        FlagName::Seen,
        FlagName::Answered,
    ]));
    let b = EnvelopeData::from(&make(vec![
        FlagName::Seen,
        FlagName::Answered,
        FlagName::Custom("x".into()),
        FlagName::Draft,
    ]));
    assert_eq!(a.flags, "SAT*");
    assert_eq!(a.flags, b.flags);
    assert_eq!(a.unseen, b.unseen);
    assert_eq!(a.flagged, b.flagged);
    assert!(!a.unseen);
    assert!(!a.flagged);
}

#[test]
fn removals_keep_sections_covering() {
    let loaded = vec![
        ("a".to_string(), vec![envelope("1"), envelope("2")]),
        ("b".to_string(), vec![]),
        ("c".to_string(), vec![envelope("3")]),
        ("d".to_string(), vec![envelope("4"), envelope("5"), envelope("6")]),
    ];
    let (all, sections) = assemble_inboxes(&loaded);
    assert!(covers(&sections, all.len()));
    let mut app = App::new(all, "INBOX".into()).with_sections(sections);
    for index in [2usize, 0, 3, 0, 1, 0] {
        app.selected = index;
        assert!(app.remove_envelope(index).is_some());
        assert!(covers(&app.sections, app.envelopes.len()));
        assert!(app.envelopes.is_empty() || app.selected < app.envelopes.len());
    }
    assert!(app.envelopes.is_empty());
    assert!(app.remove_envelope(0).is_none());
}

#[test]
fn down_then_up_returns() {
    let mut app = App::new(vec![envelope("1"), envelope("2"), envelope("3")], "INBOX".into());
    app.selected = 1;
    app.select_next();
    app.select_prev();
    assert_eq!(app.selected, 1);
}
