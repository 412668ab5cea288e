use vstd::prelude::*;

use std::collections::HashMap;
use std::num::ParseIntError;
use std::path::PathBuf;

verus! {

#[verifier::external_type_specification]
#[verifier::external_body]
pub struct ExParseIntError(ParseIntError);

/// At least one decimal digit, and nothing else.
pub open spec fn is_digits(d: Seq<char>) -> bool {
    d.len() > 0 && forall|i: int| 0 <= i < d.len() ==> '0' <= #[trigger] d[i] && d[i] <= '9'
}

/// The number that decimal digits write.
pub open spec fn digits_value(d: Seq<char>) -> int
    decreases d.len(),
{
    if d.len() == 0 {
        0
    } else {
        digits_value(d.drop_last()) * 10 + ((d.last() as u32) as int - ('0' as u32) as int)
    }
}

/// The integer that `s` writes in decimal: an optional sign (`-` only when
/// `signed`) followed by one or more digits.
pub open spec fn decimal_value(s: Seq<char>, signed: bool) -> Option<int> {
    if s.len() > 0 && s[0] == '+' {
        if is_digits(s.drop_first()) {
            Some(digits_value(s.drop_first()))
        } else {
            None
        }
    } else if s.len() > 0 && s[0] == '-' {
        if signed && is_digits(s.drop_first()) {
            Some(-digits_value(s.drop_first()))
        } else {
            None
        }
    } else if is_digits(s) {
        Some(digits_value(s))
    } else {
        None
    }
}

/// Relies on `<u8 as FromStr>::from_str`: an optional `+` and
/// decimal digits whose value fits parse; anything else is an error.
#[verifier::external_body]
fn parse_u8(s: &str) -> (r: Result<u8, ParseIntError>)
    ensures
        match decimal_value(s@, false) {
            Some(v) => if u8::MIN as int <= v && v <= u8::MAX as int {
                r == Ok::<u8, ParseIntError>(v as u8)
            } else {
                r is Err
            },
            None => r is Err,
        },
{
    s.parse::<u8>()
}

/// Relies on `<u16 as FromStr>::from_str`: an optional `+` and
/// decimal digits whose value fits parse; anything else is an error.
#[verifier::external_body]
fn parse_u16(s: &str) -> (r: Result<u16, ParseIntError>)
    ensures
        match decimal_value(s@, false) {
            Some(v) => if u16::MIN as int <= v && v <= u16::MAX as int {
                r == Ok::<u16, ParseIntError>(v as u16)
            } else {
                r is Err
            },
            None => r is Err,
        },
{
    s.parse::<u16>()
}

/// Relies on `<u32 as FromStr>::from_str`: an optional `+` and
/// decimal digits whose value fits parse; anything else is an error.
#[verifier::external_body]
fn parse_u32(s: &str) -> (r: Result<u32, ParseIntError>)
    ensures
        match decimal_value(s@, false) {
            Some(v) => if u32::MIN as int <= v && v <= u32::MAX as int {
                r == Ok::<u32, ParseIntError>(v as u32)
            } else {
                r is Err
            },
            None => r is Err,
        },
{
    s.parse::<u32>()
}

/// Relies on `<u64 as FromStr>::from_str`: an optional `+` and
/// decimal digits whose value fits parse; anything else is an error.
#[verifier::external_body]
fn parse_u64(s: &str) -> (r: Result<u64, ParseIntError>)
    ensures
        match decimal_value(s@, false) {
            Some(v) => if u64::MIN as int <= v && v <= u64::MAX as int {
                r == Ok::<u64, ParseIntError>(v as u64)
            } else {
                r is Err
            },
            None => r is Err,
        },
{
    s.parse::<u64>()
}

/// Relies on `<u128 as FromStr>::from_str`: an optional `+` and
/// decimal digits whose value fits parse; anything else is an error.
#[verifier::external_body]
fn parse_u128(s: &str) -> (r: Result<u128, ParseIntError>)
    ensures
        match decimal_value(s@, false) {
            Some(v) => if u128::MIN as int <= v && v <= u128::MAX as int {
                r == Ok::<u128, ParseIntError>(v as u128)
            } else {
                r is Err
            },
            None => r is Err,
        },
{
    s.parse::<u128>()
}

/// Relies on `<i8 as FromStr>::from_str`: an optional `+` or `-` and
/// decimal digits whose value fits parse; anything else is an error.
#[verifier::external_body]
fn parse_i8(s: &str) -> (r: Result<i8, ParseIntError>)
    ensures
        match decimal_value(s@, true) {
            Some(v) => if i8::MIN as int <= v && v <= i8::MAX as int {
                r == Ok::<i8, ParseIntError>(v as i8)
            } else {
                r is Err
            },
            None => r is Err,
        },
{
    s.parse::<i8>()
}

/// Relies on `<i16 as FromStr>::from_str`: an optional `+` or `-` and
/// decimal digits whose value fits parse; anything else is an error.
#[verifier::external_body]
fn parse_i16(s: &str) -> (r: Result<i16, ParseIntError>)
    ensures
        match decimal_value(s@, true) {
            Some(v) => if i16::MIN as int <= v && v <= i16::MAX as int {
                r == Ok::<i16, ParseIntError>(v as i16)
            } else {
                r is Err
            },
            None => r is Err,
        },
{
    s.parse::<i16>()
}

/// Relies on `<i32 as FromStr>::from_str`: an optional `+` or `-` and
/// decimal digits whose value fits parse; anything else is an error.
#[verifier::external_body]
pub(crate) fn parse_i32(s: &str) -> (r: Result<i32, ParseIntError>)
    ensures
        match decimal_value(s@, true) {
            Some(v) => if i32::MIN as int <= v && v <= i32::MAX as int {
                r == Ok::<i32, ParseIntError>(v as i32)
            } else {
                r is Err
            },
            None => r is Err,
        },
{
    s.parse::<i32>()
}

/// Relies on `<i64 as FromStr>::from_str`: an optional `+` or `-` and
/// decimal digits whose value fits parse; anything else is an error.
#[verifier::external_body]
fn parse_i64(s: &str) -> (r: Result<i64, ParseIntError>)
    ensures
        match decimal_value(s@, true) {
            Some(v) => if i64::MIN as int <= v && v <= i64::MAX as int {
                r == Ok::<i64, ParseIntError>(v as i64)
            } else {
                r is Err
            },
            None => r is Err,
        },
{
    s.parse::<i64>()
}

/// Relies on `<i128 as FromStr>::from_str`: an optional `+` or `-` and
/// decimal digits whose value fits parse; anything else is an error.
#[verifier::external_body]
fn parse_i128(s: &str) -> (r: Result<i128, ParseIntError>)
    ensures
        match decimal_value(s@, true) {
            Some(v) => if i128::MIN as int <= v && v <= i128::MAX as int {
                r == Ok::<i128, ParseIntError>(v as i128)
            } else {
                r is Err
            },
            None => r is Err,
        },
{
    s.parse::<i128>()
}

#[verifier::external_type_specification]
#[verifier::external_body]
pub struct ExPathBuf(PathBuf);

/// Relies on `PathBuf::from`, which builds a path from any text.
#[verifier::external_body]
fn path_from(s: &str) -> (r: PathBuf) {
    PathBuf::from(s)
}

/// What `str::trim` leaves of a text.
pub uninterp spec fn trimmed(s: Seq<char>) -> Seq<char>;

/// Relies on `str::trim`: the text without leading and trailing white space.
#[verifier::external_body]
fn trim_text(s: &str) -> (r: String)
    ensures
        r@ == trimmed(s@),
{
    s.trim().to_string()
}

/// Each value preceded by one space.
pub open spec fn spaced(args: Seq<Arg>) -> Seq<char>
    decreases args.len(),
{
    if args.len() == 0 {
        Seq::empty()
    } else {
        spaced(args.drop_last()) + seq![' '] + args.last().0@
    }
}

/// A single value given on the command line.
#[derive(Clone, Debug)]
pub struct Arg(pub String);

/// The values given to an argument that takes many.
#[derive(Clone, Debug)]
pub struct Args(pub Vec<Arg>);

/// The value or values of one declared argument.
#[derive(Debug, Clone)]
pub enum Mixed {
    Single(Arg),
    Multiply(Args),
}

/// Local options by name, each with its arguments by name.
#[derive(Debug)]
pub struct Opts(pub HashMap<String, HashMap<String, Mixed>>);

/// Global options by name, each with its arguments by name.
#[derive(Debug)]
pub struct GlobalOpts(pub HashMap<String, HashMap<String, Mixed>>);

/// Conversion of one value given on the command line.
pub trait FromArg<'a>: Sized {
    type Error: core::fmt::Debug;

    fn from_arg(arg: &'a Arg) -> Result<Self, Self::Error>;
}

/// Conversion of the values given to an argument that takes many.
pub trait FromArgs<'a>: Sized {
    type Error: core::fmt::Debug;

    fn from_args(args: &'a Args) -> Result<Self, Self::Error>;
}

impl<'a> FromArg<'a> for String {
    type Error = ();

    fn from_arg(arg: &'a Arg) -> (r: Result<String, ()>)
        ensures
            r == Ok::<String, ()>(arg.0),
    {
        Ok(arg.0.clone())
    }
}

impl<'a> FromArg<'a> for u8 {
    type Error = ParseIntError;

    /// The decimal number that the value writes, if it fits.
    fn from_arg(arg: &'a Arg) -> (r: Result<u8, ParseIntError>)
        ensures
            match decimal_value(arg.0@, false) {
                Some(v) => if u8::MIN as int <= v && v <= u8::MAX as int {
                    r == Ok::<u8, ParseIntError>(v as u8)
                } else {
                    r is Err
                },
                None => r is Err,
            },
    {
        parse_u8(arg.0.as_str())
    }
}

impl<'a> FromArg<'a> for u16 {
    type Error = ParseIntError;

    /// The decimal number that the value writes, if it fits.
    fn from_arg(arg: &'a Arg) -> (r: Result<u16, ParseIntError>)
        ensures
            match decimal_value(arg.0@, false) {
                Some(v) => if u16::MIN as int <= v && v <= u16::MAX as int {
                    r == Ok::<u16, ParseIntError>(v as u16)
                } else {
                    r is Err
                },
                None => r is Err,
            },
    {
        parse_u16(arg.0.as_str())
    }
}

impl<'a> FromArg<'a> for u32 {
    type Error = ParseIntError;

    /// The decimal number that the value writes, if it fits.
    fn from_arg(arg: &'a Arg) -> (r: Result<u32, ParseIntError>)
        ensures
            match decimal_value(arg.0@, false) {
                Some(v) => if u32::MIN as int <= v && v <= u32::MAX as int {
                    r == Ok::<u32, ParseIntError>(v as u32)
                } else {
                    r is Err
                },
                None => r is Err,
            },
    {
        parse_u32(arg.0.as_str())
    }
}

impl<'a> FromArg<'a> for u64 {
    type Error = ParseIntError;

    /// The decimal number that the value writes, if it fits.
    fn from_arg(arg: &'a Arg) -> (r: Result<u64, ParseIntError>)
        ensures
            match decimal_value(arg.0@, false) {
                Some(v) => if u64::MIN as int <= v && v <= u64::MAX as int {
                    r == Ok::<u64, ParseIntError>(v as u64)
                } else {
                    r is Err
                },
                None => r is Err,
            },
    {
        parse_u64(arg.0.as_str())
    }
}

impl<'a> FromArg<'a> for u128 {
    type Error = ParseIntError;

    /// The decimal number that the value writes, if it fits.
    fn from_arg(arg: &'a Arg) -> (r: Result<u128, ParseIntError>)
        ensures
            match decimal_value(arg.0@, false) {
                Some(v) => if u128::MIN as int <= v && v <= u128::MAX as int {
                    r == Ok::<u128, ParseIntError>(v as u128)
                } else {
                    r is Err
                },
                None => r is Err,
            },
    {
        parse_u128(arg.0.as_str())
    }
}

impl<'a> FromArg<'a> for i8 {
    type Error = ParseIntError;

    /// The decimal number that the value writes, if it fits.
    fn from_arg(arg: &'a Arg) -> (r: Result<i8, ParseIntError>)
        ensures
            match decimal_value(arg.0@, true) {
                Some(v) => if i8::MIN as int <= v && v <= i8::MAX as int {
                    r == Ok::<i8, ParseIntError>(v as i8)
                } else {
                    r is Err
                },
                None => r is Err,
            },
    {
        parse_i8(arg.0.as_str())
    }
}

impl<'a> FromArg<'a> for i16 {
    type Error = ParseIntError;

    /// The decimal number that the value writes, if it fits.
    fn from_arg(arg: &'a Arg) -> (r: Result<i16, ParseIntError>)
        ensures
            match decimal_value(arg.0@, true) {
                Some(v) => if i16::MIN as int <= v && v <= i16::MAX as int {
                    r == Ok::<i16, ParseIntError>(v as i16)
                } else {
                    r is Err
                },
                None => r is Err,
            },
    {
        parse_i16(arg.0.as_str())
    }
}

impl<'a> FromArg<'a> for i32 {
    type Error = ParseIntError;

    /// The decimal number that the value writes, if it fits.
    fn from_arg(arg: &'a Arg) -> (r: Result<i32, ParseIntError>)
        ensures
            match decimal_value(arg.0@, true) {
                Some(v) => if i32::MIN as int <= v && v <= i32::MAX as int {
                    r == Ok::<i32, ParseIntError>(v as i32)
                } else {
                    r is Err
                },
                None => r is Err,
            },
    {
        parse_i32(arg.0.as_str())
    }
}

impl<'a> FromArg<'a> for i64 {
    type Error = ParseIntError;

    /// The decimal number that the value writes, if it fits.
    fn from_arg(arg: &'a Arg) -> (r: Result<i64, ParseIntError>)
        ensures
            match decimal_value(arg.0@, true) {
                Some(v) => if i64::MIN as int <= v && v <= i64::MAX as int {
                    r == Ok::<i64, ParseIntError>(v as i64)
                } else {
                    r is Err
                },
                None => r is Err,
            },
    {
        parse_i64(arg.0.as_str())
    }
}

impl<'a> FromArg<'a> for i128 {
    type Error = ParseIntError;

    /// The decimal number that the value writes, if it fits.
    fn from_arg(arg: &'a Arg) -> (r: Result<i128, ParseIntError>)
        ensures
            match decimal_value(arg.0@, true) {
                Some(v) => if i128::MIN as int <= v && v <= i128::MAX as int {
                    r == Ok::<i128, ParseIntError>(v as i128)
                } else {
                    r is Err
                },
                None => r is Err,
            },
    {
        parse_i128(arg.0.as_str())
    }
}

impl<'a> FromArg<'a> for &'a Arg {
    type Error = ();

    fn from_arg(arg: &'a Arg) -> (r: Result<&'a Arg, ()>)
        ensures
            r == Ok::<&'a Arg, ()>(arg),
    {
        Ok(arg)
    }
}

impl<'a> FromArg<'a> for &'a str {
    type Error = ();

    fn from_arg(arg: &'a Arg) -> (r: Result<&'a str, ()>)
        ensures
            r matches Ok(s) && s@ == arg.0@,
    {
        Ok(arg.0.as_str())
    }
}

impl<'a> FromArg<'a> for PathBuf {
    type Error = ();

    fn from_arg(arg: &'a Arg) -> (r: Result<PathBuf, ()>)
        ensures
            r is Ok,
    {
        Ok(path_from(arg.0.as_str()))
    }
}

impl<'a, T: FromArg<'a>> FromArg<'a> for Result<T, T::Error> {
    type Error = T::Error;

    fn from_arg(arg: &'a Arg) -> (r: Result<Self, T::Error>)
        ensures
            r is Ok,
    {
        match T::from_arg(arg) {
            Ok(val) => Ok(Ok(val)),
            Err(e) => Ok(Err(e)),
        }
    }
}

impl<'a, T: FromArg<'a>> FromArg<'a> for Option<T> {
    type Error = ();

    fn from_arg(arg: &'a Arg) -> (r: Result<Self, ()>)
        ensures
            r is Ok,
    {
        match T::from_arg(arg) {
            Ok(val) => Ok(Some(val)),
            Err(_) => Ok(None),
        }
    }
}

impl<'a, T: FromArg<'a>> FromArgs<'a> for Vec<T> {
    type Error = T::Error;

    fn from_args(args: &'a Args) -> (r: Result<Self, Self::Error>)
        ensures
            r matches Ok(v) ==> v@.len() == args.0@.len(),
    {
        let mut result: Vec<T> = Vec::new();
        let n = args.0.len();
        let mut i: usize = 0;
        while i < n
            invariant
                n == args.0@.len(),
                i <= n,
                result@.len() == i,
            decreases n - i,
        {
            match T::from_arg(&args.0[i]) {
                Ok(val) => result.push(val),
                Err(e) => {
                    return Err(e);
                },
            }
            i = i + 1;
        }
        Ok(result)
    }
}

impl Args {
    /// The values joined by single spaces, then trimmed.
    pub fn to_text(&self) -> (r: String)
        ensures
            r@ == trimmed(spaced(self.0@)),
    {
        let mut s = String::new();
        let n = self.0.len();
        let mut i: usize = 0;
        proof {
            reveal_strlit(" ");
        }
        while i < n
            invariant
                n == self.0@.len(),
                i <= n,
                s@ == spaced(self.0@.take(i as int)),
                " "@ == seq![' '],
            decreases n - i,
        {
            assert(self.0@.take(i as int + 1).drop_last() =~= self.0@.take(i as int));
            s.append(" ");
            s.append(self.0[i].0.as_str());
            i = i + 1;
        }
        assert(self.0@.take(n as int) =~= self.0@);
        trim_text(s.as_str())
    }
}

impl<'a> FromArgs<'a> for String {
    type Error = ();

    /// The values joined by single spaces, then trimmed.
    fn from_args(args: &'a Args) -> (r: Result<String, ()>)
        ensures
            r matches Ok(s) && s@ == trimmed(spaced(args.0@)),
    {
        Ok(args.to_text())
    }
}

impl<'a> FromArgs<'a> for &'a Args {
    type Error = ();

    fn from_args(args: &'a Args) -> (r: Result<&'a Args, ()>)
        ensures
            r == Ok::<&'a Args, ()>(args),
    {
        Ok(args)
    }
}

impl<'a, T: FromArgs<'a>> FromArgs<'a> for Option<T> {
    type Error = T::Error;

    fn from_args(args: &'a Args) -> (r: Result<Self, T::Error>)
        ensures
            r is Ok,
    {
        match T::from_args(args) {
            Ok(val) => Ok(Some(val)),
            Err(_) => Ok(None),
        }
    }
}

impl<'a, T: FromArgs<'a>> FromArgs<'a> for Result<T, T::Error> {
    type Error = T::Error;

    fn from_args(args: &'a Args) -> (r: Result<Self, T::Error>)
        ensures
            r is Ok,
    {
        match T::from_args(args) {
            Ok(val) => Ok(Ok(val)),
            Err(e) => Ok(Err(e)),
        }
    }
}

} // verus!
