use vstd::prelude::*;

use std::str::ParseBoolError;

use crate::converters::{decimal_value, parse_i32};

verus! {

/// The values given to one declared argument, in order.
#[derive(Debug, Clone)]
pub struct Raw(pub Vec<String>);

impl Raw {
    pub fn push(&mut self, ele: String)
        ensures
            final(self).0@ == old(self).0@.push(ele),
    {
        self.0.push(ele);
    }

    pub fn remove(&mut self, idx: usize) -> (r: String)
        requires
            idx < old(self).0@.len(),
        ensures
            r == old(self).0@[idx as int],
            final(self).0@ == old(self).0@.remove(idx as int),
    {
        self.0.remove(idx)
    }

    pub fn new(v: Vec<String>) -> (r: Raw)
        ensures
            r.0 == v,
    {
        Raw(v)
    }

    /// Whether at least one value is held.
    pub fn is_empty(&self) -> (r: bool)
        ensures
            r == (self.0@.len() > 0),
    {
        self.0.len() > 0
    }
}

#[verifier::external_type_specification]
#[verifier::external_body]
pub struct ExParseBoolError(ParseBoolError);

/// Relies on `<bool as FromStr>::from_str`: exactly `true` and `false` parse.
#[verifier::external_body]
fn parse_bool(s: &str) -> (r: Result<bool, ParseBoolError>)
    ensures
        match r {
            Ok(b) => if b {
                s@ == seq!['t', 'r', 'u', 'e']
            } else {
                s@ == seq!['f', 'a', 'l', 's', 'e']
            },
            Err(_) => s@ != seq!['t', 'r', 'u', 'e'] && s@ != seq!['f', 'a', 'l', 's', 'e'],
        },
{
    s.parse::<bool>()
}

/// A value read as a decimal `i32`, or 0 when it writes no such number.
pub open spec fn int_or_zero(t: Seq<char>) -> i32 {
    match decimal_value(t, true) {
        Some(x) => if i32::MIN <= x && x <= i32::MAX {
            x as i32
        } else {
            0
        },
        None => 0,
    }
}

/// A value read as a boolean: only `true` is true.
pub open spec fn bool_or_false(t: Seq<char>) -> bool {
    t == seq!['t', 'r', 'u', 'e']
}

/// The first value, or `0` when there is none.
pub open spec fn first_or_zero(v: Seq<String>) -> Seq<char> {
    if v.len() == 0 {
        seq!['0']
    } else {
        v[0]@
    }
}

fn read_i32(s: &str) -> (r: i32)
    ensures
        r == int_or_zero(s@),
{
    match parse_i32(s) {
        Ok(v) => v,
        Err(_) => 0,
    }
}

fn read_bool(s: &str) -> (r: bool)
    ensures
        r == bool_or_false(s@),
{
    match parse_bool(s) {
        Ok(v) => v,
        Err(_) => false,
    }
}

impl Raw {
    /// The first value, or `"0"` when there is none.
    fn first_text(&self) -> (r: String)
        ensures
            r@ == first_or_zero(self.0@),
    {
        proof {
            reveal_strlit("0");
        }
        if self.0.len() == 0 {
            "0".to_owned()
        } else {
            self.0[0].clone()
        }
    }
}

impl From<Raw> for i32 {
    /// The first value as a decimal number; 0 when absent or not a number.
    fn from(raw: Raw) -> (r: i32) {
        read_i32(raw.first_text().as_str())
    }
}

impl vstd::std_specs::convert::FromSpecImpl<Raw> for i32 {
    open spec fn obeys_from_spec() -> bool {
        true
    }

    open spec fn from_spec(v: Raw) -> i32 {
        int_or_zero(first_or_zero(v.0@))
    }
}

impl From<Raw> for bool {
    /// Whether the first value is `true`.
    fn from(raw: Raw) -> (r: bool) {
        read_bool(raw.first_text().as_str())
    }
}

impl vstd::std_specs::convert::FromSpecImpl<Raw> for bool {
    open spec fn obeys_from_spec() -> bool {
        true
    }

    open spec fn from_spec(v: Raw) -> bool {
        bool_or_false(first_or_zero(v.0@))
    }
}

impl From<Raw> for Vec<i32> {
    /// Each value as a decimal number; 0 where it is not one.
    fn from(raw: Raw) -> (r: Vec<i32>)
        ensures
            r@.len() == raw.0@.len(),
            forall|i: int| 0 <= i < r@.len() ==> r@[i] == int_or_zero(raw.0@[i]@),
    {
        let mut out: Vec<i32> = Vec::new();
        let n = raw.0.len();
        let mut i: usize = 0;
        while i < n
            invariant
                n == raw.0@.len(),
                i <= n,
                out@.len() == i,
                forall|k: int| 0 <= k < i ==> out@[k] == int_or_zero(raw.0@[k]@),
            decreases n - i,
        {
            out.push(read_i32(raw.0[i].as_str()));
            i = i + 1;
        }
        out
    }
}

impl vstd::std_specs::convert::FromSpecImpl<Raw> for Vec<i32> {
    open spec fn obeys_from_spec() -> bool {
        false
    }

    open spec fn from_spec(v: Raw) -> Vec<i32> {
        arbitrary()
    }
}

impl From<Raw> for Vec<bool> {
    /// Each value as a boolean: only `true` is true.
    fn from(raw: Raw) -> (r: Vec<bool>)
        ensures
            r@.len() == raw.0@.len(),
            forall|i: int| 0 <= i < r@.len() ==> r@[i] == bool_or_false(raw.0@[i]@),
    {
        let mut out: Vec<bool> = Vec::new();
        let n = raw.0.len();
        let mut i: usize = 0;
        while i < n
            invariant
                n == raw.0@.len(),
                i <= n,
                out@.len() == i,
                forall|k: int| 0 <= k < i ==> out@[k] == bool_or_false(raw.0@[k]@),
            decreases n - i,
        {
            out.push(read_bool(raw.0[i].as_str()));
            i = i + 1;
        }
        out
    }
}

impl vstd::std_specs::convert::FromSpecImpl<Raw> for Vec<bool> {
    open spec fn obeys_from_spec() -> bool {
        false
    }

    open spec fn from_spec(v: Raw) -> Vec<bool> {
        arbitrary()
    }
}

impl From<Raw> for String {
    /// The first value, or the empty text when there is none.
    fn from(raw: Raw) -> (r: String)
        ensures
            r@ == if raw.0@.len() == 0 {
                Seq::<char>::empty()
            } else {
                raw.0@[0]@
            },
    {
        if raw.0.len() == 0 {
            String::new()
        } else {
            raw.0[0].clone()
        }
    }
}

impl vstd::std_specs::convert::FromSpecImpl<Raw> for String {
    open spec fn obeys_from_spec() -> bool {
        false
    }

    open spec fn from_spec(v: Raw) -> String {
        arbitrary()
    }
}

impl From<Raw> for Vec<String> {
    /// The values, in order.
    fn from(raw: Raw) -> (r: Vec<String>)
        ensures
            r@ == raw.0@,
    {
        raw.0
    }
}

impl vstd::std_specs::convert::FromSpecImpl<Raw> for Vec<String> {
    open spec fn obeys_from_spec() -> bool {
        true
    }

    open spec fn from_spec(v: Raw) -> Vec<String> {
        v.0
    }
}

impl From<Raw> for Option<String> {
    /// Nothing when a value is held (see `Raw::is_empty`), else the empty text.
    fn from(raw: Raw) -> (r: Option<String>)
        ensures
            raw.0@.len() > 0 ==> r is None,
            raw.0@.len() == 0 ==> (r matches Some(s) && s@.len() == 0),
    {
        if raw.is_empty() {
            None
        } else {
            Some(String::from(raw))
        }
    }
}

impl vstd::std_specs::convert::FromSpecImpl<Raw> for Option<String> {
    open spec fn obeys_from_spec() -> bool {
        false
    }

    open spec fn from_spec(v: Raw) -> Option<String> {
        arbitrary()
    }
}

impl From<Raw> for Option<Vec<String>> {
    /// Nothing when a value is held (see `Raw::is_empty`), else no values.
    fn from(raw: Raw) -> (r: Option<Vec<String>>)
        ensures
            raw.0@.len() > 0 ==> r is None,
            raw.0@.len() == 0 ==> (r matches Some(v) && v@.len() == 0),
    {
        if raw.is_empty() {
            None
        } else {
            Some(raw.0)
        }
    }
}

impl vstd::std_specs::convert::FromSpecImpl<Raw> for Option<Vec<String>> {
    open spec fn obeys_from_spec() -> bool {
        false
    }

    open spec fn from_spec(v: Raw) -> Option<Vec<String>> {
        arbitrary()
    }
}

} // verus!
