use commander_rust::raw::Raw;

#[test]
fn parse_raw() {
    let v = vec!["true", "false", "0", "0.1", "100", "9999999999999999", "hello world!"];
    let raw = Raw::new(v.iter().map(|&s| String::from(s)).collect());

    assert_eq!(0, raw.clone().into());
    assert_eq!(vec![0, 0, 0, 0, 100, 0, 0], {
        let v: Vec<i32> = raw.clone().into();
        v
    });
    assert_eq!(true, raw.clone().into());
    assert_eq!(vec![true, false, false ,false, false, false, false], {
        let v: Vec<bool> = raw.clone().into();
        v
    });
    assert_eq!(vec!["true", "false", "0", "0.1", "100", "9999999999999999", "hello world!"], {
        let v: Vec<String> = raw.clone().into();
        v
    });
    assert_eq!(String::from("true"), {
        let s: String = raw.clone().into();
        s
    });
}

#[test]
fn raw_list_operations() {
    let mut raw = Raw::new(vec![]);
    assert!(!raw.is_empty());
    let none: i32 = raw.clone().into();
    assert_eq!(none, 0);
    let s: String = raw.clone().into();
    assert_eq!(s, "");
    raw.push("12".to_string());
    raw.push("x".to_string());
    assert!(raw.is_empty());
    let first: i32 = raw.clone().into();
    assert_eq!(first, 12);
    assert_eq!(raw.remove(1), "x");
    assert_eq!(raw.0, vec!["12".to_string()]);
    let o: Option<String> = raw.clone().into();
    assert_eq!(o, None);
}
