use commander_rust::pattern::{Pattern, PatternType};

#[test]
fn can_match() {
    assert!(Pattern::is_word("yes"));
    assert!(Pattern::is_short("-f"));
    assert!(Pattern::is_long("--recursive"));
    assert!(Pattern::is_stmt("--output=yes"));

    assert!(!Pattern::is_word("/path"));
    assert!(!Pattern::is_short("--/path"));
    // don't support like this
    assert!(!Pattern::is_long("--long-item"));
    assert!(!Pattern::is_stmt("--outputis="));
}

#[test]
fn groups_check() {
    assert_eq!(Pattern {
        full: "name",
        ty: PatternType::Word,
        groups: vec!["name"]
    }, Pattern::match_str("name"));

    assert_eq!(Pattern {
        full: "-abc",
        ty: PatternType::Short,
        groups: vec!["abc"],
    }, Pattern::match_str("-abc"));

    assert_eq!(Pattern {
        full: "--long",
        ty: PatternType::Long,
        groups: vec!["long"],
    }, Pattern::match_str("--long"));

    assert_eq!(Pattern {
        full: "--output=./path/",
        ty: PatternType::Stmt,
        groups: vec!["output", "./path/"],
    }, Pattern::match_str("--output=./path/"));

    assert_eq!(Pattern {
        full: "/path/",
        ty: PatternType::Others,
        groups: vec![],
    }, Pattern::match_str("/path/"));
}

#[test]
fn statement_needs_more_than_four_bytes() {
    assert!(!Pattern::is_stmt("--=x"));
    assert!(Pattern::is_stmt("--=xy"));
    assert_eq!(Pattern::match_str("--=xy").groups, vec!["", "xy"]);
    assert_eq!(Pattern::match_str("").ty, PatternType::Word);
    assert_eq!(Pattern::new("x").ty, PatternType::Init);
}
