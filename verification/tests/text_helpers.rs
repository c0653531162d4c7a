use himalaya::text::{is_whitespace, lex_less, sorted_names};

#[test]
fn names_sort_like_strings() {
    let names: Vec<String> = vec!["work", "Home", "home", "", "wo", "é", "z"]
        .into_iter()
        .map(String::from)
        .collect();
    let mut expected = names.clone();
    expected.sort();
    assert_eq!(sorted_names(&names), expected);
    assert!(lex_less("a", "b"));
    assert!(lex_less("", "a"));
    assert!(!lex_less("a", "a"));
    assert!(!lex_less("ab", "a"));
}

fn listed_white_space(c: char) -> bool {
    matches!(c,
        '\u{9}'..='\u{d}'
        | ' '
        | '\u{85}'
        | '\u{a0}'
        | '\u{1680}'
        | '\u{2000}'..='\u{200a}'
        | '\u{2028}'
        | '\u{2029}'
        | '\u{202f}'
        | '\u{205f}'
        | '\u{3000}')
}

#[test]
fn whitespace_is_the_listed_set() {
    for u in 0..=0x10FFFFu32 {
        if let Some(c) = char::from_u32(u) {
            assert_eq!(c.is_whitespace(), listed_white_space(c), "{u:#x}");
        }
    }
}

#[test]
fn whitespace_agrees_with_std() {
    for u in 0..=0x10FFFFu32 {
        if let Some(c) = char::from_u32(u) {
            assert_eq!(is_whitespace(c), c.is_whitespace(), "{u:#x}");
        }
    }
}
