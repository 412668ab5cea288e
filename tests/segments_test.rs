use commander_rust::parser::Segment;

fn strings(v: &[&str]) -> Vec<String> {
    v.iter().map(|s| s.to_string()).collect()
}

#[test]
fn match_test() {
    // `word` test
    assert!(Segment::is_lit_word("hello"));
    assert!(Segment::is_lit_word("i18n"));
    assert!(Segment::is_lit_word("123"));
    assert!(!Segment::is_lit_word("1+2=3"));

    // `short` test
    assert!(Segment::is_short("-a"));
    assert!(Segment::is_short("-abc"));
    assert!(!Segment::is_short("-abc=hhh"));
    assert!(!Segment::is_short("-abc-def"));
    assert!(!Segment::is_short("--abc"));

    // `long` test
    assert!(Segment::is_long("--long"));
    assert!(Segment::is_long("--long-option"));
    assert!(Segment::is_long("--long=value"));
    assert!(Segment::is_long(r#"--long="hello world!""#));
    assert!(!Segment::is_long("--long="));

    // `--` test
    assert!(Segment::is_double_sub("--"));
    assert!(!Segment::is_double_sub("++"));
}

#[test]
fn parse_test() {
    let segments = Segment::from_vec(strings(&["cli", "sub_command"]));
    assert_eq!(
        vec![
            Segment::Raw(String::from("cli")),
            Segment::Raw(String::from("sub_command"))
        ],
        segments,
    );

    let segments = Segment::from_vec(strings(&["cli", "-a", "hello world!"]));
    assert_eq!(
        vec![
            Segment::Raw(String::from("cli")),
            Segment::Short("a".to_string(), vec![]),
            Segment::Raw(String::from("hello world!"))
        ],
        segments,
    );

    let segments = Segment::from_vec(strings(&["cli", "--long-options", "hello world!"]));
    assert_eq!(
        vec![
            Segment::Raw(String::from("cli")),
            Segment::Long(String::from("long-options"), vec![]),
            Segment::Raw(String::from("hello world!"))
        ],
        segments,
    );

    let segments = Segment::from_vec(strings(&["cli", "--long-options=/path/to/output", "hello world!"]));
    assert_eq!(
        vec![
            Segment::Raw(String::from("cli")),
            Segment::Long(String::from("long-options"), vec![Segment::Raw(String::from("/path/to/output"))]),
            Segment::Raw(String::from("hello world!"))
        ],
        segments,
    );

    let segments = Segment::from_vec(strings(&["cli", "--js-expr=let a = 123;", "hello world!"]));
    assert_eq!(
        vec![
            Segment::Raw(String::from("cli")),
            Segment::Long(String::from("js-expr"), vec![Segment::Raw(String::from("let a = 123;"))]),
            Segment::Raw(String::from("hello world!"))
        ],
        segments,
    );

    let segments = Segment::from_vec(strings(&["cli", "--", "-abc", "--long=abc", "*&%asd"]));
    assert_eq!(
        vec![
            Segment::Raw(String::from("cli")),
            Segment::DoubleSub,
            Segment::Raw(String::from("-abc")),
            Segment::Raw(String::from("--long=abc")),
            Segment::Raw(String::from("*&%asd")),
        ],
        segments,
    );

    // malformed flags are kept as raw text
    let segments = Segment::from_vec(strings(&["--long=", "-abc-cd", "--=", "---"]));
    assert_eq!(
        vec![
            Segment::Raw(String::from("--long=")),
            Segment::Raw(String::from("-abc-cd")),
            Segment::Raw(String::from("--=")),
            Segment::Raw(String::from("---")),
        ],
        segments,
    );
}

#[test]
fn short_cluster_splits_per_letter() {
    let segments = Segment::from_vec(strings(&["-abc"]));
    assert_eq!(
        vec![
            Segment::Short("a".to_string(), vec![]),
            Segment::Short("b".to_string(), vec![]),
            Segment::Short("c".to_string(), vec![]),
        ],
        segments,
    );
}

#[test]
fn long_with_inline_value() {
    let segments = Segment::from_vec(strings(&["--long=value"]));
    assert_eq!(
        vec![Segment::Long("long".to_string(), vec![Segment::Raw("value".to_string())])],
        segments,
    );
}

#[test]
fn value_keeps_later_equals_signs() {
    let segments = Segment::from_vec(strings(&["--a=b=c"]));
    assert_eq!(
        vec![Segment::Long("a".to_string(), vec![Segment::Raw("b=c".to_string())])],
        segments,
    );
}

#[test]
fn nothing_after_terminator_is_a_flag() {
    let segments = Segment::from_vec(strings(&["--", "-x", "--y=z"]));
    assert_eq!(
        vec![
            Segment::DoubleSub,
            Segment::Raw("-x".to_string()),
            Segment::Raw("--y=z".to_string()),
        ],
        segments,
    );
}

#[test]
fn empty_tokens_are_skipped_before_terminator_only() {
    let segments = Segment::from_vec(strings(&["", "a", "--", "", "--"]));
    assert_eq!(
        vec![
            Segment::Raw("a".to_string()),
            Segment::DoubleSub,
            Segment::Raw("".to_string()),
            Segment::Raw("--".to_string()),
        ],
        segments,
    );
}

#[test]
fn keys_need_words_between_single_hyphens() {
    assert!(!Segment::is_long("--a--b"));
    assert!(!Segment::is_long("--a-"));
    assert!(!Segment::is_long("--a-=v"));
    assert!(!Segment::is_long("---x"));
    assert!(Segment::is_long("--a_b-c9"));
    assert!(!Segment::is_lit_word(""));
    assert!(!Segment::is_lit_word("é"));
    assert!(!Segment::is_short("-"));
}
