use sdboot::cli::ColorMode;
use sdboot::interactive::split_position;

#[test]
fn check_split() {
    let input = "set kek  löl    something-something";
    let chunks = split_position(input);
    assert_eq!(Some((0, "set")), chunks.get(0).map(|(p, s)| (*p, s.as_str())));
    assert_eq!(Some((4, "kek")), chunks.get(1).map(|(p, s)| (*p, s.as_str())));
    assert_eq!(Some((8, "")), chunks.get(2).map(|(p, s)| (*p, s.as_str())));
    assert_eq!(Some((9, "löl")), chunks.get(3).map(|(p, s)| (*p, s.as_str())));
    // "ö" contains two bytes, hence 14, not 13.
    assert_eq!(Some((14, "")), chunks.get(4).map(|(p, s)| (*p, s.as_str())));
    assert_eq!(Some((15, "")), chunks.get(5).map(|(p, s)| (*p, s.as_str())));
    assert_eq!(Some((16, "")), chunks.get(6).map(|(p, s)| (*p, s.as_str())));
    assert_eq!(
        Some((17, "something-something")),
        chunks.get(7).map(|(p, s)| (*p, s.as_str()))
    );
    assert_eq!(None, chunks.get(8));

    let input = "set ";
    let chunks = split_position(input);
    assert_eq!(Some((0, "set")), chunks.get(0).map(|(p, s)| (*p, s.as_str())));
    assert_eq!(None, chunks.get(1));
}

#[test]
fn interactive_check_split() {
    let input = "set kek  löl    something-something";
    let chunks = split_position(input);
    assert_eq!(Some((0, "set")), chunks.get(0).map(|(p, s)| (*p, s.as_str())));
    assert_eq!(Some((4, "kek")), chunks.get(1).map(|(p, s)| (*p, s.as_str())));
    assert_eq!(Some((8, "")), chunks.get(2).map(|(p, s)| (*p, s.as_str())));
    assert_eq!(Some((9, "löl")), chunks.get(3).map(|(p, s)| (*p, s.as_str())));
    // "ö" contains two bytes, hence 14, not 13.
    assert_eq!(Some((14, "")), chunks.get(4).map(|(p, s)| (*p, s.as_str())));
    assert_eq!(Some((15, "")), chunks.get(5).map(|(p, s)| (*p, s.as_str())));
    assert_eq!(Some((16, "")), chunks.get(6).map(|(p, s)| (*p, s.as_str())));
    assert_eq!(
        Some((17, "something-something")),
        chunks.get(7).map(|(p, s)| (*p, s.as_str()))
    );
    assert_eq!(None, chunks.get(8));

    let input = "set ";
    let chunks = split_position(input);
    assert_eq!(Some((0, "set")), chunks.get(0).map(|(p, s)| (*p, s.as_str())));
    assert_eq!(None, chunks.get(1));
}

#[test]
fn matching_entries_filters_by_prefix() {
    let helper = sdboot::interactive::RustylineHelper::new(vec![
        "alpha".to_string(),
        "beta".to_string(),
        "alp".to_string(),
    ]);
    let matched = helper.matching_entries("al");
    assert_eq!(matched, vec!["alpha".to_string(), "alp".to_string()]);
    let all = helper.matching_entries("");
    assert_eq!(all.len(), 3);
    let none = helper.matching_entries("gamma");
    assert!(none.is_empty());
}

#[test]
fn color_mode_decides() {
    assert!(ColorMode::On.colorful(false));
    assert!(!ColorMode::Off.colorful(true));
    assert!(ColorMode::Auto.colorful(true));
    assert!(!ColorMode::Auto.colorful(false));
}
