use commander_rust::parser::{Segment, SegmentWrapper, TerminatorKind, TerminatorType};
use commander_rust::traits::{PushArgument, PushOptions, PushSubCommand};
use commander_rust::{Argument, ArgumentType, ArgsOwner, Command, Options, ParseError, SubCommand};

fn strings(v: &[&str]) -> Vec<String> {
    v.iter().map(|s| s.to_string()).collect()
}

fn arg(name: &str, ty: ArgumentType) -> Argument {
    Argument { name: name.to_string(), ty }
}

/// `test <args...>, "test something"`
fn test_command(args: &[(&str, ArgumentType)]) -> Command {
    let mut cmd = Command::new("test".to_string(), Some("test something".to_string()));
    for (name, ty) in args {
        cmd.push_argument(arg(name, *ty));
    }
    cmd
}

#[test]
fn empty_input() {
    let segments = Segment::from_vec(vec![]);
    let mut segment_wrapper = SegmentWrapper(segments);
    let cmd = test_command(&[]);

    let output = segment_wrapper.parse_test(&cmd);

    assert!(output.is_ok());

    if let Ok(((cmd, sub), local_opts, global_opts)) = output {
        assert!(cmd.is_none());
        assert!(sub.is_none());
        assert!(local_opts.is_empty());
        assert!(global_opts.is_empty());
    }
}

#[test]
fn one_input() {
    let segments = Segment::from_vec(strings(&["arg"]));
    let mut segment_wrapper = SegmentWrapper(segments);
    let cmd = test_command(&[("arg", ArgumentType::RequiredSingle)]);

    let output = segment_wrapper.parse_test(&cmd);

    assert!(output.is_ok());

    if let Ok(((cmd, sub), local_opts, global_opts)) = output {
        assert_eq!(cmd, Some(Segment::Command(None, vec![Segment::Raw("arg".to_string())])));
        assert!(sub.is_none());
        assert!(local_opts.is_empty());
        assert!(global_opts.is_empty());
    }

    let segments = Segment::from_vec(strings(&["arg"]));
    let mut segment_wrapper = SegmentWrapper(segments);
    let cmd = test_command(&[("arg", ArgumentType::OptionalSingle)]);

    let output = segment_wrapper.parse_test(&cmd);

    assert!(output.is_ok());

    if let Ok(((cmd, sub), local_opts, global_opts)) = output {
        assert_eq!(cmd, Some(Segment::Command(None, vec![Segment::Raw("arg".to_string())])));
        assert!(sub.is_none());
        assert!(local_opts.is_empty());
        assert!(global_opts.is_empty());
    }

    let segments = Segment::from_vec(vec![]);
    let mut segment_wrapper = SegmentWrapper(segments);
    let cmd = test_command(&[("arg", ArgumentType::OptionalSingle)]);

    let output = segment_wrapper.parse_test(&cmd);

    assert!(output.is_ok());

    if let Ok(((cmd, sub), local_opts, global_opts)) = output {
        assert!(cmd.is_none());
        assert!(sub.is_none());
        assert!(local_opts.is_empty());
        assert!(global_opts.is_empty());
    }

    let segments = Segment::from_vec(vec![]);
    let mut segment_wrapper = SegmentWrapper(segments);
    let cmd = test_command(&[("arg", ArgumentType::RequiredSingle)]);

    let output = segment_wrapper.parse_test(&cmd);

    assert!(output.is_err());
}

#[test]
fn multiply_inputs() {
    let shape = [
        ("arg1", ArgumentType::RequiredSingle),
        ("arg2", ArgumentType::RequiredSingle),
        ("arg3", ArgumentType::OptionalSingle),
    ];
    let segments = Segment::from_vec(strings(&["a", "b", "c"]));
    let mut segment_wrapper = SegmentWrapper(segments);
    let cmd = test_command(&shape);

    let output = segment_wrapper.parse_test(&cmd);

    assert!(output.is_ok());

    if let Ok(((cmd, sub), local_opts, global_opts)) = output {
        assert_eq!(
            cmd,
            Some(Segment::Command(
                None,
                vec![
                    Segment::Raw("a".to_string()),
                    Segment::Raw("b".to_string()),
                    Segment::Raw("c".to_string())
                ])
            )
        );
        assert!(sub.is_none());
        assert!(local_opts.is_empty());
        assert!(global_opts.is_empty());
    }

    let segments = Segment::from_vec(strings(&["a", "b"]));
    let mut segment_wrapper = SegmentWrapper(segments);
    let cmd = test_command(&shape);

    let output = segment_wrapper.parse_test(&cmd);

    assert!(output.is_ok());

    if let Ok(((cmd, sub), local_opts, global_opts)) = output {
        assert_eq!(
            cmd,
            Some(Segment::Command(
                None,
                vec![
                    Segment::Raw("a".to_string()),
                    Segment::Raw("b".to_string()),
                ])
            )
        );
        assert!(sub.is_none());
        assert!(local_opts.is_empty());
        assert!(global_opts.is_empty());
    }
}

#[test]
fn missing_required_argument_is_reported() {
    let mut w = SegmentWrapper(Segment::from_vec(vec![]));
    let cmd = test_command(&[("arg", ArgumentType::RequiredSingle)]);
    match w.parse_test(&cmd) {
        Err(TerminatorKind::Other(ParseError::MissingArguments(ArgsOwner::Command, defined))) => {
            assert_eq!(defined, vec![arg("arg", ArgumentType::RequiredSingle)]);
        }
        other => panic!("unexpected {:?}", other),
    }
}

#[test]
fn required_multiple_needs_one_token() {
    let mut w = SegmentWrapper(Segment::from_vec(vec![]));
    let cmd = test_command(&[("rest", ArgumentType::RequiredMultiple)]);
    assert!(w.parse_test(&cmd).is_err());

    let mut w = SegmentWrapper(Segment::from_vec(strings(&["a", "b", "c", "d"])));
    assert!(w.parse_test(&cmd).is_ok());
}

#[test]
fn extra_tokens_are_reported() {
    let mut w = SegmentWrapper(Segment::from_vec(strings(&["a", "b"])));
    let cmd = test_command(&[]);
    match w.parse_test(&cmd) {
        Err(TerminatorKind::Other(ParseError::UnexpectedArguments(ArgsOwner::Command, input))) => {
            assert_eq!(input, strings(&["a", "b"]));
        }
        other => panic!("unexpected {:?}", other),
    }

    let mut w = SegmentWrapper(Segment::from_vec(strings(&["a", "b"])));
    let cmd = test_command(&[("x", ArgumentType::RequiredSingle)]);
    match w.parse_test(&cmd) {
        Err(TerminatorKind::Other(ParseError::MismatchedArguments(ArgsOwner::Command, defined, input))) => {
            assert_eq!(defined, vec![arg("x", ArgumentType::RequiredSingle)]);
            assert_eq!(input, strings(&["a", "b"]));
        }
        other => panic!("unexpected {:?}", other),
    }
}

#[test]
fn unknown_flags_are_reported_as_typed() {
    let mut w = SegmentWrapper(Segment::from_vec(strings(&["-x"])));
    let cmd = test_command(&[]);
    match w.parse_test(&cmd) {
        Err(TerminatorKind::Other(ParseError::UnknownOption(s))) => assert_eq!(s, "-x"),
        other => panic!("unexpected {:?}", other),
    }

    let mut cmd = test_command(&[]);
    let mut sub = SubCommand::new("test".to_string(), "run".to_string(), None);
    sub.push_option(Options::new(None, "fast".to_string(), None));
    cmd.push_sub_command(sub);
    let mut w = SegmentWrapper(Segment::from_vec(strings(&["run", "--slow"])));
    match w.parse_test(&cmd) {
        Err(TerminatorKind::Other(ParseError::UnknownOption(s))) => assert_eq!(s, "--slow"),
        other => panic!("unexpected {:?}", other),
    }
    let mut w = SegmentWrapper(Segment::from_vec(strings(&["run", "--fast"])));
    assert!(w.parse_test(&cmd).is_ok());
}

#[test]
fn ill_formed_declaration_is_internal_error() {
    let mut cmd = test_command(&[]);
    cmd.cmd_args = vec![
        arg("a", ArgumentType::OptionalSingle),
        arg("b", ArgumentType::RequiredSingle),
    ];
    let mut w = SegmentWrapper(Segment::from_vec(strings(&["x"])));
    match w.parse_test(&cmd) {
        Err(TerminatorKind::Other(ParseError::Internal)) => {}
        other => panic!("unexpected {:?}", other),
    }
}

#[test]
fn option_arity_is_checked() {
    let mut cmd = test_command(&[]);
    let mut out = Options::new(Some("o".to_string()), "output".to_string(), None);
    out.push_argument(arg("path", ArgumentType::RequiredSingle));
    cmd.push_option(out);

    let mut w = SegmentWrapper(Segment::from_vec(strings(&["-o"])));
    match w.parse_test(&cmd) {
        Err(TerminatorKind::Other(ParseError::MissingArguments(ArgsOwner::Short(n), _))) => assert_eq!(n, "o"),
        other => panic!("unexpected {:?}", other),
    }

    let mut w = SegmentWrapper(Segment::from_vec(strings(&["--output", "a", "b"])));
    match w.parse_test(&cmd) {
        Err(TerminatorKind::Other(ParseError::MismatchedArguments(ArgsOwner::Long(n), _, input))) => {
            assert_eq!(n, "output");
            assert_eq!(input, strings(&["a", "b"]));
        }
        other => panic!("unexpected {:?}", other),
    }

    let mut w = SegmentWrapper(Segment::from_vec(strings(&["--output=a"])));
    match w.parse_test(&cmd) {
        Ok(((None, None), locals, globals)) => {
            assert!(locals.is_empty());
            assert_eq!(globals, vec![Segment::Long("output".to_string(), vec![Segment::Raw("a".to_string())])]);
        }
        other => panic!("unexpected {:?}", other),
    }
}

#[test]
fn unknown_sub_command_name_is_a_plain_argument() {
    let mut cmd = test_command(&[("name", ArgumentType::RequiredSingle)]);
    cmd.push_sub_command(SubCommand::new("test".to_string(), "run".to_string(), None));
    let mut w = SegmentWrapper(Segment::from_vec(strings(&["walk"])));
    match w.parse_test(&cmd) {
        Ok(((Some(c), None), _, _)) => {
            assert_eq!(c, Segment::Command(None, vec![Segment::Raw("walk".to_string())]));
        }
        other => panic!("unexpected {:?}", other),
    }
}

#[test]
fn help_and_version_end_parsing_early() {
    let mut cmd = test_command(&[("name", ArgumentType::RequiredSingle)]);
    cmd.push_option(Options::new(Some("h".to_string()), "help".to_string(), None));
    let mut sub = SubCommand::new("test".to_string(), "run".to_string(), None);
    sub.push_option(Options::new(Some("v".to_string()), "version".to_string(), None));
    cmd.push_sub_command(sub);

    assert!(matches!(SegmentWrapper::parse_cli(&cmd, strings(&["-h"])), Err(TerminatorKind::GlobalHelp)));
    match SegmentWrapper::parse_cli(&cmd, strings(&["run", "--version"])) {
        Err(TerminatorKind::Version(n)) => assert_eq!(n, "run"),
        other => panic!("unexpected {:?}", other),
    }
    // version is not declared on the command: parsing goes on and fails
    assert!(matches!(
        SegmentWrapper::parse_cli(&cmd, strings(&["-v"])),
        Err(TerminatorKind::Other(_))
    ));
    assert!(SegmentWrapper::parse_cli(&cmd, strings(&["me"])).is_ok());
}

#[test]
fn terminator_is_the_first_help_or_version_flag() {
    let w = SegmentWrapper(Segment::from_vec(strings(&["a", "--version", "-h"])));
    assert_eq!(w.get_terminator(), TerminatorType::Version);
    let w = SegmentWrapper(Segment::from_vec(strings(&["-xh"])));
    assert_eq!(w.get_terminator(), TerminatorType::Help);
    let w = SegmentWrapper(Segment::from_vec(strings(&["--", "-h"])));
    assert_eq!(w.get_terminator(), TerminatorType::Empty);
    assert_eq!(w.len(), 2);
    assert!(!w.is_empty());
}
