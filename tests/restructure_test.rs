use commander_rust::model::{arity, args_are_valid};
use commander_rust::parser::{Segment, SegmentWrapper};
use commander_rust::traits::{PushOptions, PushSubCommand, PushArgument};
use commander_rust::{Argument, ArgumentType, Command, Options, SubCommand};

fn strings(v: &[&str]) -> Vec<String> {
    v.iter().map(|s| s.to_string()).collect()
}

fn raw(s: &str) -> Segment {
    Segment::Raw(s.to_string())
}

#[test]
fn parse_instance() {
    let args = strings(&["", "rmdir", "/home/test", "/home/test2", "-rfo", "/home/output", "--display=no", "--format", "%s%s"]);
    let mut cmd = Command::new("cli".to_string(), None);
    let mut rmdir = SubCommand::new("cli".to_string(), "rmdir".to_string(), None);
    rmdir.push_argument(Argument { name: "dirs".to_string(), ty: ArgumentType::RequiredMultiple });
    rmdir.push_option(Options::new(Some("r".to_string()), "recursive".to_string(), None));
    rmdir.push_option(Options::new(Some("f".to_string()), "force".to_string(), None));
    let mut output = Options::new(Some("o".to_string()), "output".to_string(), None);
    output.push_argument(Argument { name: "path".to_string(), ty: ArgumentType::RequiredSingle });
    rmdir.push_option(output);
    let mut display = Options::new(None, "display".to_string(), None);
    display.push_argument(Argument { name: "display".to_string(), ty: ArgumentType::RequiredSingle });
    rmdir.push_option(display);
    let mut format = Options::new(None, "format".to_string(), None);
    format.push_argument(Argument { name: "format".to_string(), ty: ArgumentType::RequiredSingle });
    rmdir.push_option(format);
    cmd.push_sub_command(rmdir);

    let mut w = SegmentWrapper(Segment::from_vec(args));
    let expect_sub = Segment::Command(Some("rmdir".to_string()), vec![raw("/home/test"), raw("/home/test2")]);
    let expect_opts = vec![
        Segment::Short("r".to_string(), vec![]),
        Segment::Short("f".to_string(), vec![]),
        Segment::Short("o".to_string(), vec![raw("/home/output")]),
        Segment::Long("display".to_string(), vec![raw("no")]),
        Segment::Long("format".to_string(), vec![raw("%s%s")]),
    ];
    match w.parse_test(&cmd) {
        Ok(((None, Some(sub)), locals, globals)) => {
            assert_eq!(expect_sub, sub);
            assert_eq!(expect_opts, locals);
            assert!(globals.is_empty());
        }
        other => panic!("unexpected {:?}", other),
    }
}

#[test]
fn cluster_hands_trailing_token_to_last_flag() {
    let mut w = SegmentWrapper(Segment::from_vec(strings(&["-rfo", "out"])));
    w.divide_option_arguments();
    assert_eq!(
        w.0,
        vec![
            Segment::Short("r".to_string(), vec![]),
            Segment::Short("f".to_string(), vec![]),
            Segment::Short("o".to_string(), vec![raw("out")]),
        ]
    );
}

#[test]
fn passes_are_idempotent() {
    let mut w = SegmentWrapper(Segment::from_vec(strings(&["a", "b", "-x", "c", "--y", "d", "e", "--", "f"])));
    w.divide_option_arguments();
    w.divide_cmd_arguments();
    let expected = vec![
        Segment::Command(None, vec![raw("a"), raw("b")]),
        Segment::Short("x".to_string(), vec![raw("c")]),
        Segment::Long("y".to_string(), vec![raw("d"), raw("e")]),
        Segment::DoubleSub,
        raw("f"),
    ];
    assert_eq!(w.0, expected);
    w.divide_option_arguments();
    assert_eq!(w.0, expected);
    w.divide_cmd_arguments();
    assert_eq!(w.0, expected);
}

#[test]
fn trailing_raws_alone_go_to_command() {
    let cmd = Command::new("cli".to_string(), None);
    let mut w = SegmentWrapper(Segment::from_vec(strings(&["--", "x"])));
    let (c, s, l, g) = w.restructure(&cmd);
    assert_eq!(c, Some(Segment::Command(None, vec![raw("x")])));
    assert!(s.is_none() && l.is_empty() && g.is_empty());
}

#[test]
fn sub_command_first_leaves_no_command_segment() {
    let mut cmd = Command::new("cli".to_string(), None);
    cmd.push_sub_command(SubCommand::new("cli".to_string(), "go".to_string(), None));
    let mut w = SegmentWrapper(Segment::from_vec(strings(&["go", "x", "--", "y"])));
    let (c, s, _, _) = w.restructure(&cmd);
    assert_eq!(c, None);
    assert_eq!(s, Some(Segment::Command(Some("go".to_string()), vec![raw("x"), raw("y")])));
}

#[test]
fn arity_bounds() {
    let args = vec![
        Argument { name: "a".to_string(), ty: ArgumentType::RequiredSingle },
        Argument { name: "b".to_string(), ty: ArgumentType::OptionalSingle },
    ];
    assert!(args_are_valid(&args));
    assert_eq!(arity(&args), (1, Some(2)));
    let args = vec![
        Argument { name: "a".to_string(), ty: ArgumentType::RequiredSingle },
        Argument { name: "b".to_string(), ty: ArgumentType::RequiredMultiple },
    ];
    assert!(args_are_valid(&args));
    assert_eq!(arity(&args), (2, None));
    let args = vec![
        Argument { name: "a".to_string(), ty: ArgumentType::OptionalMultiple },
        Argument { name: "b".to_string(), ty: ArgumentType::OptionalSingle },
    ];
    assert!(!args_are_valid(&args));
    assert_eq!(arity(&vec![]), (0, Some(0)));
}
