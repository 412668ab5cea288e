use vstd::prelude::*;

pub mod converters;
pub mod errors;
pub mod model;
pub mod parser;
pub mod pattern;
pub mod raw;
pub mod segment;
pub mod traits;

pub use errors::{ArgsOwner, ParseError};
pub use model::{Argument, ArgumentType, Command, Options, SubCommand};

verus! {

} // verus!
