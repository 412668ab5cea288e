use vstd::prelude::*;

use crate::model::{Argument, Options, SubCommand, find_long, find_short};

verus! {

/// Declared positional arguments.
pub trait GetArgs {
    spec fn arguments(&self) -> Seq<Argument>;

    fn get_args(&self) -> (r: &Vec<Argument>)
        ensures
            r@ == self.arguments(),
    ;
}

/// Declared options.
pub trait GetOpts {
    spec fn option_list(&self) -> Seq<Options>;

    fn get_opts(&self) -> (r: &Vec<Options>)
        ensures
            r@ == self.option_list(),
    ;
}

pub trait PushSubCommand {
    fn push_sub_command(&mut self, sub_command: SubCommand);
}

pub trait PushOptions {
    fn push_option(&mut self, option: Options);
}

pub trait PushArgument {
    fn push_argument(&mut self, argument: Argument);
}

/// Checks that declared arguments are well formed.
pub trait ValidateArgs {
    spec fn args_valid(&self) -> bool;

    fn validate_args(&self) -> (r: bool)
        ensures
            r == self.args_valid(),
    ;
}

pub trait ContainsOpt {
    fn contains_option(&self, opt: &str) -> bool;
}

/// Lookup of a declared option by its long or short flag.
pub trait GetOpt: GetOpts {
    fn get_long_opt(&self, opt_name: &str) -> (r: Option<&Options>)
        ensures
            match r {
                Some(o) => find_long(self.option_list(), opt_name@) == Some(*o),
                None => find_long(self.option_list(), opt_name@) is None,
            },
    ;

    fn get_short_opt(&self, opt_name: &str) -> (r: Option<&Options>)
        ensures
            match r {
                Some(o) => find_short(self.option_list(), opt_name@) == Some(*o),
                None => find_short(self.option_list(), opt_name@) is None,
            },
    ;
}

} // verus!
