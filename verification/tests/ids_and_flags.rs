use himalaya::flag_arg::{into_tuple, FlagName, IdOrFlag};

#[test]
fn id_or_flag_from_numeric_string() {
    assert_eq!(IdOrFlag::from("42"), IdOrFlag::Id(42));
}

#[test]
fn id_or_flag_from_zero() {
    assert_eq!(IdOrFlag::from("0"), IdOrFlag::Id(0));
}

#[test]
fn id_or_flag_from_negative_is_flag() {
    assert!(matches!(IdOrFlag::from("-1"), IdOrFlag::Flag(_)));
}

#[test]
fn id_or_flag_from_word_is_flag() {
    assert!(matches!(IdOrFlag::from("seen"), IdOrFlag::Flag(_)));
}

#[test]
fn into_tuple_empty() {
    let (ids, flags) = into_tuple(&[]);
    assert!(ids.is_empty());
    assert!(flags.is_empty());
}

#[test]
fn into_tuple_mixed() {
    let input = vec![
        IdOrFlag::from("1"),
        IdOrFlag::from("seen"),
        IdOrFlag::from("2"),
        IdOrFlag::from("flagged"),
    ];
    let (ids, flags) = into_tuple(&input);
    assert_eq!(ids, vec![1, 2]);
    assert_eq!(flags.len(), 2);
}

#[test]
fn into_tuple_only_ids() {
    let input = vec![IdOrFlag::from("10"), IdOrFlag::from("20")];
    let (ids, flags) = into_tuple(&input);
    assert_eq!(ids, vec![10, 20]);
    assert!(flags.is_empty());
}

#[test]
fn into_tuple_only_flags() {
    let input = vec![IdOrFlag::from("seen"), IdOrFlag::from("flagged")];
    let (ids, flags) = into_tuple(&input);
    assert!(ids.is_empty());
    assert_eq!(flags.len(), 2);
}

#[test]
fn flag_names_ignore_case_and_spaces() {
    assert_eq!(IdOrFlag::from(" SEEN "), IdOrFlag::Flag(FlagName::Seen));
    assert_eq!(IdOrFlag::from("Replied"), IdOrFlag::Flag(FlagName::Answered));
    assert_eq!(IdOrFlag::from("trashed"), IdOrFlag::Flag(FlagName::Deleted));
    assert_eq!(IdOrFlag::from("draft"), IdOrFlag::Flag(FlagName::Draft));
    assert_eq!(IdOrFlag::from("Flagged"), IdOrFlag::Flag(FlagName::Flagged));
    assert_eq!(
        IdOrFlag::from("  Custom  "),
        IdOrFlag::Flag(FlagName::Custom("Custom".to_string()))
    );
    assert_eq!(
        IdOrFlag::from("drafts"),
        IdOrFlag::Flag(FlagName::Custom("drafts".to_string()))
    );
}

#[test]
fn ids_accept_a_plus_sign_only() {
    assert_eq!(IdOrFlag::from("+7"), IdOrFlag::Id(7));
    assert!(matches!(IdOrFlag::from("+"), IdOrFlag::Flag(_)));
    assert!(matches!(IdOrFlag::from(" 7"), IdOrFlag::Flag(_)));
    assert!(matches!(IdOrFlag::from(""), IdOrFlag::Flag(_)));
    assert!(matches!(
        IdOrFlag::from("99999999999999999999999999"),
        IdOrFlag::Flag(_)
    ));
}

#[test]
fn into_tuple_keeps_one_of_each_flag() {
    let input = vec![
        IdOrFlag::from("seen"),
        IdOrFlag::from("3"),
        IdOrFlag::from("SEEN"),
        IdOrFlag::from("3"),
    ];
    let (ids, flags) = into_tuple(&input);
    assert_eq!(ids, vec![3, 3]);
    assert_eq!(flags.len(), 1);
    assert!(flags.contains(&email::flag::Flag::Seen));
}
