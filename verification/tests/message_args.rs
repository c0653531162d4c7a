use himalaya::message_arg::{raw_header_parser, MessageRawArg, MessageRawBodyArg};
use himalaya::template_arg::TemplateRawArg;

#[test]
fn empty_body() {
    let arg = MessageRawBodyArg { raw: vec![] };
    assert_eq!(arg.raw(), "");
}

#[test]
fn joins_with_spaces() {
    let arg = MessageRawBodyArg {
        raw: vec!["hello".into(), "world".into()],
    };
    assert_eq!(arg.raw(), "hello world");
}

#[test]
fn normalizes_newlines() {
    let arg = MessageRawBodyArg {
        raw: vec!["line1\nline2".into()],
    };
    assert_eq!(arg.raw(), "line1\r\nline2");
}

#[test]
fn strips_bare_cr() {
    let arg = MessageRawBodyArg {
        raw: vec!["hello\rworld".into()],
    };
    assert_eq!(arg.raw(), "helloworld");
}

#[test]
fn simple_header() {
    assert_eq!(
        raw_header_parser("Subject: hello"),
        Ok(("Subject".into(), "hello".into()))
    );
}

#[test]
fn trims_whitespace() {
    assert_eq!(
        raw_header_parser("  Key  :  Val  "),
        Ok(("Key".into(), "Val".into()))
    );
}

#[test]
fn splits_on_first_colon_only() {
    assert_eq!(
        raw_header_parser("X-Custom: a:b:c"),
        Ok(("X-Custom".into(), "a:b:c".into()))
    );
}

#[test]
fn no_colon_is_error() {
    assert!(raw_header_parser("nocolon").is_err());
}

#[test]
fn empty_value() {
    assert_eq!(raw_header_parser("Key:"), Ok(("Key".into(), "".into())));
}

#[test]
fn empty_raw() {
    let arg = MessageRawArg { raw: vec![] };
    assert_eq!(arg.raw(), "");
}

#[test]
fn joins_and_normalizes() {
    let arg = MessageRawArg {
        raw: vec!["Subject: test\n\nbody".into()],
    };
    assert_eq!(arg.raw(), "Subject: test\r\n\r\nbody");
}

#[test]
fn empty_template() {
    let arg = TemplateRawArg { raw: vec![] };
    assert_eq!(arg.raw(), "");
}

#[test]
fn strips_cr_only() {
    let arg = TemplateRawArg {
        raw: vec!["line1\r\nline2".into()],
    };
    assert_eq!(arg.raw(), "line1\nline2");
}

#[test]
fn preserves_lf() {
    let arg = TemplateRawArg {
        raw: vec!["line1\nline2".into()],
    };
    assert_eq!(arg.raw(), "line1\nline2");
}

#[test]
fn header_error_quotes_the_header() {
    assert_eq!(
        raw_header_parser("no colon"),
        Err("cannot parse raw header \"no colon\"".to_string())
    );
}

#[test]
fn header_trims_unicode_whitespace() {
    assert_eq!(
        raw_header_parser("\u{a0}To\t:\u{3000}me\n"),
        Ok(("To".into(), "me".into()))
    );
}

#[test]
fn crlf_input_stays_crlf() {
    let arg = MessageRawArg {
        raw: vec!["a\r\nb".into(), "c\n".into()],
    };
    assert_eq!(arg.raw(), "a\r\nb c\r\n");
}

#[test]
fn normalising_twice_changes_nothing() {
    let once = MessageRawArg {
        raw: vec!["x\ny\r".into(), "\rz".into()],
    }
    .raw();
    let twice = MessageRawArg {
        raw: vec![once.clone()],
    }
    .raw();
    assert_eq!(once, "x\r\ny z");
    assert_eq!(twice, once);
}

#[test]
fn body_deref_gives_the_words() {
    let arg = MessageRawBodyArg {
        raw: vec!["a".into(), "b".into()],
    };
    assert_eq!(arg.len(), 2);
    assert_eq!(arg[1], "b");
}
