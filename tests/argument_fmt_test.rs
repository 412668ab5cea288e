use commander_rust::{Argument, ArgumentType};

#[test]
fn argument_fmt_test() {
    assert_eq!(Argument::from("<num>").to_text(), String::from("<num>"));
    assert_eq!(Argument::from("[num]").to_text(), String::from("[num]"));
    assert_eq!(Argument::from("[num]").to_text(), String::from("[num]"));
    assert_eq!(Argument::from("<..num>").to_text(), String::from("<..num>"));
    assert_eq!(Argument::from("<...num>").to_text(), String::from("<..num>"));
    assert_eq!(Argument::from("[..num]").to_text(), String::from("[..num]"));
    assert_eq!(Argument::from("[...num]").to_text(), String::from("[..num]"));
}

#[test]
fn descriptors_read_name_and_kind() {
    let a = Argument::from("<..conditions>");
    assert_eq!(a.name, "conditions");
    assert_eq!(a.ty, ArgumentType::RequiredMultiple);
    let a = Argument::from(String::from("[Upsy_Daisy]"));
    assert_eq!(a.name, "Upsy_Daisy");
    assert_eq!(a.ty, ArgumentType::OptionalSingle);
    for bad in ["<>", "<....x>", "[x>", "x", "<a b>", ""] {
        let a = Argument::from(bad);
        assert_eq!(a.name, "");
        assert_eq!(a.ty, ArgumentType::OptionalSingle);
    }
}
