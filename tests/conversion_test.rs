use commander_rust::converters::{Arg, Args, FromArg, FromArgs};
use std::num::ParseIntError;
use std::path::PathBuf;

#[test]
fn conversion_test() {
    let args = Args(vec![
        "1024".to_string(),
        "2048".to_string(),
        "9086".to_string()
    ]
        .into_iter()
        .map(|n| Arg(n))
        .collect()
    );
    let arg = Arg("123".to_string());

    let a: Result<u8, ParseIntError> = <u8>::from_arg(&arg);
    assert_eq!(a, Ok(123));
    let oa: Option<u8> = Option::from_arg(&arg).unwrap();
    assert_eq!(oa, Some(123));
    let a: Result<u16, ParseIntError> = <u16>::from_arg(&arg);
    assert_eq!(a, Ok(123));
    let oa: Option<u16> = Option::from_arg(&arg).unwrap();
    assert_eq!(oa, Some(123));
    let a: Result<u32, ParseIntError> = <u32>::from_arg(&arg);
    assert_eq!(a, Ok(123));
    let oa: Option<u32> = Option::from_arg(&arg).unwrap();
    assert_eq!(oa, Some(123));
    let a: Result<u64, ParseIntError> = <u64>::from_arg(&arg);
    assert_eq!(a, Ok(123));
    let oa: Option<u64> = Option::from_arg(&arg).unwrap();
    assert_eq!(oa, Some(123));
    let a: Result<u128, ParseIntError> = <u128>::from_arg(&arg);
    assert_eq!(a, Ok(123));
    let oa: Option<u128> = Option::from_arg(&arg).unwrap();
    assert_eq!(oa, Some(123));

    let a: Result<i8, ParseIntError> = <i8>::from_arg(&arg);
    assert_eq!(a, Ok(123));
    let oa: Option<i8> = Option::from_arg(&arg).unwrap();
    assert_eq!(oa, Some(123));
    let a: Result<i16, ParseIntError> = <i16>::from_arg(&arg);
    assert_eq!(a, Ok(123));
    let oa: Option<i16> = Option::from_arg(&arg).unwrap();
    assert_eq!(oa, Some(123));
    let a: Result<i32, ParseIntError> = <i32>::from_arg(&arg);
    assert_eq!(a, Ok(123));
    let oa: Option<i32> = Option::from_arg(&arg).unwrap();
    assert_eq!(oa, Some(123));
    let a: Result<i64, ParseIntError> = <i64>::from_arg(&arg);
    assert_eq!(a, Ok(123));
    let oa: Option<i64> = Option::from_arg(&arg).unwrap();
    assert_eq!(oa, Some(123));
    let a: Result<i128, ParseIntError> = <i128>::from_arg(&arg);
    assert_eq!(a, Ok(123));
    let oa: Option<i128> = Option::from_arg(&arg).unwrap();
    assert_eq!(oa, Some(123));

    let va: Vec<u16> = Vec::from_args(&args).unwrap();
    assert_eq!(va, vec![1024, 2048, 9086]);
    let va: Vec<u32> = Vec::from_args(&args).unwrap();
    assert_eq!(va, vec![1024, 2048, 9086]);
    let va: Vec<u64> = Vec::from_args(&args).unwrap();
    assert_eq!(va, vec![1024, 2048, 9086]);
    let va: Vec<u128> = Vec::from_args(&args).unwrap();
    assert_eq!(va, vec![1024, 2048, 9086]);

    let va: Vec<i16> = Vec::from_args(&args).unwrap();
    assert_eq!(va, vec![1024, 2048, 9086]);
    let va: Vec<i32> = Vec::from_args(&args).unwrap();
    assert_eq!(va, vec![1024, 2048, 9086]);
    let va: Vec<i64> = Vec::from_args(&args).unwrap();
    assert_eq!(va, vec![1024, 2048, 9086]);
    let va: Vec<i128> = Vec::from_args(&args).unwrap();
    assert_eq!(va, vec![1024, 2048, 9086]);

    let err_u8 = u8::from_arg(&Arg("256".to_string()));
    assert!(err_u8.is_err());

    let str = String::from_arg(&Arg("hello world!".to_string()));
    assert_eq!(Ok("hello world!".to_string()), str);

    let path_buf = PathBuf::from_arg(&Arg("+-*".to_string()));
    assert_eq!(Ok(PathBuf::from("+-*")), path_buf);
}

#[test]
fn customize_arg_conversion_test() {
    #[derive(Eq, PartialEq, Debug)]
    struct MyU8 {
        num: u8,
    }

    impl<'a> FromArg<'a> for MyU8 {
        type Error = ();

        fn from_arg(arg: &'a Arg) -> Result<Self, Self::Error> {
            match u8::from_arg(arg) {
                Ok(num) => Ok(MyU8 { num }),
                Err(_) => Err(()),
            }
        }
    }

    assert_eq!(
        Ok(MyU8 {
            num: 127,
        }),
        MyU8::from_arg(&Arg("127".to_string()))
    );
}

#[test]
fn customize_args_conversion_test() {
    #[derive(Eq, PartialEq, Debug)]
    struct Person {
        name: String,
        age: u8,
    }

    impl<'a> FromArgs<'a> for Person {
        type Error = ();

        fn from_args(args: &'a Args) -> Result<Self, Self::Error> {
            if args.0.len() != 2 {
                Err(())
            } else {
                let name = String::from_arg(&args.0[0]);
                let age = u8::from_arg(&args.0[1]);

                if name.is_ok() && age.is_ok() {
                    Ok(Person {
                        name: name.unwrap(),
                        age: age.unwrap(),
                    })
                } else {
                    Err(())
                }
            }
        }
    }

    assert_eq!(
        Ok(Person {
            name: "Jack".to_string(),
            age: 46,
        }),
        Person::from_args(&Args(vec![Arg("Jack".to_string()), Arg("46".to_string())])),
    );
}

#[test]
fn signs_and_bounds_of_integers() {
    assert_eq!(i8::from_arg(&Arg("-128".to_string())), Ok(-128));
    assert!(i8::from_arg(&Arg("-129".to_string())).is_err());
    assert_eq!(u8::from_arg(&Arg("+255".to_string())), Ok(255));
    assert!(u8::from_arg(&Arg("-0".to_string())).is_err());
    assert!(u32::from_arg(&Arg("".to_string())).is_err());
    assert!(i32::from_arg(&Arg("+".to_string())).is_err());
    assert!(i32::from_arg(&Arg(" 1".to_string())).is_err());
    let r: Result<Result<u8, ParseIntError>, ParseIntError> = Result::from_arg(&Arg("x".to_string()));
    assert!(matches!(r, Ok(Err(_))));
    let v: Result<Vec<u8>, ParseIntError> = Vec::from_args(&Args(vec![Arg("1".to_string()), Arg("x".to_string())]));
    assert!(v.is_err());
}

#[test]
fn values_join_with_spaces() {
    let args = Args(vec![Arg("a".to_string()), Arg("b c".to_string()), Arg(" ".to_string())]);
    assert_eq!(String::from_args(&args), Ok("a b c".to_string()));
    assert_eq!(args.to_text(), "a b c");
    let s: Option<String> = Option::from_args(&Args(vec![])).unwrap();
    assert_eq!(s, Some(String::new()));
}
