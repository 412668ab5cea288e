use vstd::prelude::*;

use crate::model::Argument;
use crate::segment::texts;

verus! {

/// Whose arguments a mismatch concerns.
#[derive(Debug, PartialEq, Eq)]
pub enum ArgsOwner {
    Command,
    SubCommand(String),
    Short(String),
    Long(String),
}

pub ghost enum OwnerView {
    Command,
    SubCommand(Seq<char>),
    Short(Seq<char>),
    Long(Seq<char>),
}

impl ArgsOwner {
    pub open spec fn view_of(&self) -> OwnerView {
        match self {
            ArgsOwner::Command => OwnerView::Command,
            ArgsOwner::SubCommand(n) => OwnerView::SubCommand(n@),
            ArgsOwner::Short(n) => OwnerView::Short(n@),
            ArgsOwner::Long(n) => OwnerView::Long(n@),
        }
    }
}

/// Why a command line was rejected.
#[derive(Debug, PartialEq, Eq)]
pub enum ParseError {
    /// A flag, spelled as typed (`-x`, `--flag`), that no option in its scope declares.
    UnknownOption(String),
    /// A sub-command name that is not declared.
    UnknownSubCommand(String),
    /// Arguments are declared (as listed) but none were given.
    MissingArguments(ArgsOwner, Vec<Argument>),
    /// No arguments are declared but these were given.
    UnexpectedArguments(ArgsOwner, Vec<String>),
    /// The count given lies outside the declared arity.
    MismatchedArguments(ArgsOwner, Vec<Argument>, Vec<String>),
    /// A declaration is ill formed.
    Internal,
}

pub ghost enum ErrorView {
    UnknownOption(Seq<char>),
    UnknownSubCommand(Seq<char>),
    MissingArguments(OwnerView, Seq<Argument>),
    UnexpectedArguments(OwnerView, Seq<Seq<char>>),
    MismatchedArguments(OwnerView, Seq<Argument>, Seq<Seq<char>>),
    Internal,
}

impl ParseError {
    pub open spec fn view_of(&self) -> ErrorView {
        match self {
            ParseError::UnknownOption(s) => ErrorView::UnknownOption(s@),
            ParseError::UnknownSubCommand(s) => ErrorView::UnknownSubCommand(s@),
            ParseError::MissingArguments(o, d) => ErrorView::MissingArguments(o.view_of(), d@),
            ParseError::UnexpectedArguments(o, i) => ErrorView::UnexpectedArguments(
                o.view_of(),
                texts(i@),
            ),
            ParseError::MismatchedArguments(o, d, i) => ErrorView::MismatchedArguments(
                o.view_of(),
                d@,
                texts(i@),
            ),
            ParseError::Internal => ErrorView::Internal,
        }
    }
}

pub open spec fn result_view(r: Result<(), ParseError>) -> Result<(), ErrorView> {
    match r {
        Ok(_) => Ok(()),
        Err(e) => Err(e.view_of()),
    }
}

} // verus!
