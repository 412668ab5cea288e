use vstd::prelude::*;
use vstd::string::*;

use crate::traits::{GetArgs, GetOpt, GetOpts, PushArgument, PushOptions, PushSubCommand, ValidateArgs};

verus! {

/// How many positional tokens an argument consumes, and whether it must be present.
#[derive(Clone, Copy, Debug, PartialEq, Eq, Structural)]
pub enum ArgumentType {
    RequiredSingle,
    OptionalSingle,
    RequiredMultiple,
    OptionalMultiple,
}

impl ArgumentType {
    pub open spec fn spec_is_multiply(self) -> bool {
        self is RequiredMultiple || self is OptionalMultiple
    }

    pub open spec fn spec_is_required(self) -> bool {
        self is RequiredSingle || self is RequiredMultiple
    }

    /// Whether the argument takes every remaining token.
    pub fn is_multiply(&self) -> (r: bool)
        ensures
            r == self.spec_is_multiply(),
    {
        match self {
            ArgumentType::RequiredMultiple | ArgumentType::OptionalMultiple => true,
            _ => false,
        }
    }

    /// Whether the argument must be present.
    pub fn is_required(&self) -> (r: bool)
        ensures
            r == self.spec_is_required(),
    {
        match self {
            ArgumentType::RequiredSingle | ArgumentType::RequiredMultiple => true,
            _ => false,
        }
    }
}

/// A declared positional argument of a command, a sub-command or an option.
#[derive(Clone, Debug, PartialEq, Eq)]
pub struct Argument {
    pub name: String,
    pub ty: ArgumentType,
}

impl Argument {
    /// A copy of this argument, field for field.
    pub fn duplicate(&self) -> (r: Argument)
        ensures
            r == *self,
    {
        Argument { name: self.name.clone(), ty: self.ty }
    }
}

/// A name in descriptor notation: letters, digits and `_`, at least one.
pub open spec fn is_descriptor_name(s: Seq<char>) -> bool {
    s.len() > 0 && forall|i: int| 0 <= i < s.len() ==> crate::segment::is_word_char(#[trigger] s[i])
}

/// The name and many-ness that the text between the brackets of a descriptor
/// gives: `name`, `..name` or `...name`.
pub open spec fn descriptor_inner(x: Seq<char>) -> Option<(Seq<char>, bool)> {
    if x.len() >= 3 && x[0] == '.' && x[1] == '.' && x[2] == '.' && is_descriptor_name(x.skip(3)) {
        Some((x.skip(3), true))
    } else if x.len() >= 2 && x[0] == '.' && x[1] == '.' && is_descriptor_name(x.skip(2)) {
        Some((x.skip(2), true))
    } else if is_descriptor_name(x) {
        Some((x, false))
    } else {
        None
    }
}

/// The argument that a descriptor writes: `<a>` required, `[a]` optional, with
/// `..` (or `...`) before the name when it takes many tokens.
pub open spec fn descriptor(s: Seq<char>) -> Option<(Seq<char>, ArgumentType)> {
    if s.len() >= 2 && s[0] == '<' && s[s.len() - 1] == '>' {
        match descriptor_inner(s.subrange(1, s.len() - 1)) {
            Some((n, many)) => Some(
                (
                    n,
                    if many {
                        ArgumentType::RequiredMultiple
                    } else {
                        ArgumentType::RequiredSingle
                    },
                ),
            ),
            None => None,
        }
    } else if s.len() >= 2 && s[0] == '[' && s[s.len() - 1] == ']' {
        match descriptor_inner(s.subrange(1, s.len() - 1)) {
            Some((n, many)) => Some(
                (
                    n,
                    if many {
                        ArgumentType::OptionalMultiple
                    } else {
                        ArgumentType::OptionalSingle
                    },
                ),
            ),
            None => None,
        }
    } else {
        None
    }
}

/// The descriptor of an argument: `<a>`, `<..a>`, `[a]` or `[..a]`.
pub open spec fn descriptor_text(name: Seq<char>, ty: ArgumentType) -> Seq<char> {
    match ty {
        ArgumentType::RequiredSingle => seq!['<'] + name + seq!['>'],
        ArgumentType::RequiredMultiple => seq!['<', '.', '.'] + name + seq!['>'],
        ArgumentType::OptionalSingle => seq!['['] + name + seq![']'],
        ArgumentType::OptionalMultiple => seq!['[', '.', '.'] + name + seq![']'],
    }
}

/// Whether `v[from..to]` is a descriptor name.
fn name_chars(v: &Vec<char>, from: usize, to: usize) -> (r: bool)
    requires
        from <= to <= v@.len(),
    ensures
        r == is_descriptor_name(v@.subrange(from as int, to as int)),
{
    let ghost w = v@.subrange(from as int, to as int);
    if from == to {
        return false;
    }
    let mut i = from;
    while i < to
        invariant
            from <= i <= to <= v@.len(),
            w == v@.subrange(from as int, to as int),
            forall|k: int| 0 <= k < i - from ==> crate::segment::is_word_char(#[trigger] w[k]),
        decreases to - i,
    {
        let c = v[i];
        assert(w[i - from] == c);
        if !(c == '_' || ('a' <= c && c <= 'z') || ('A' <= c && c <= 'Z') || ('0' <= c && c <= '9')) {
            return false;
        }
        i = i + 1;
    }
    true
}

impl Argument {
    /// Reads a descriptor (see `descriptor`); text in no such form gives an
    /// optional argument with an empty name.
    fn read_descriptor(s: &str) -> (r: Argument)
        ensures
            match descriptor(s@) {
                Some((n, ty)) => r.name@ == n && r.ty == ty,
                None => r.name@.len() == 0 && r.ty == ArgumentType::OptionalSingle,
            },
    {
        let v = crate::segment::chars_of(s);
        let n = v.len();
        if n >= 2 && ((v[0] == '<' && v[n - 1] == '>') || (v[0] == '[' && v[n - 1] == ']')) {
            let required = v[0] == '<';
            let ghost x = s@.subrange(1, n - 1);
            let start: usize = if n >= 5 && v[1] == '.' && v[2] == '.' && v[3] == '.' && name_chars(&v, 4, n - 1) {
                4
            } else if n >= 4 && v[1] == '.' && v[2] == '.' && name_chars(&v, 3, n - 1) {
                3
            } else if name_chars(&v, 1, n - 1) {
                1
            } else {
                0
            };
            if n >= 5 {
                assert(x.skip(3) =~= v@.subrange(4, n - 1));
            }
            if n >= 4 {
                assert(x.skip(2) =~= v@.subrange(3, n - 1));
            }
            assert(x =~= v@.subrange(1, n - 1));
            if start > 0 {
                let name = s.substring_char(start, n - 1).to_owned();
                let ty = if required {
                    if start > 1 { ArgumentType::RequiredMultiple } else { ArgumentType::RequiredSingle }
                } else {
                    if start > 1 { ArgumentType::OptionalMultiple } else { ArgumentType::OptionalSingle }
                };
                return Argument { name, ty };
            }
        }
        Argument { name: String::new(), ty: ArgumentType::OptionalSingle }
    }

    /// The descriptor of this argument: `<a>`, `<..a>`, `[a]` or `[..a]`.
    pub fn to_text(&self) -> (r: String)
        ensures
            r@ == descriptor_text(self.name@, self.ty),
    {
        proof {
            reveal_strlit("<");
            reveal_strlit("<..");
            reveal_strlit(">");
            reveal_strlit("[");
            reveal_strlit("[..");
            reveal_strlit("]");
        }
        let (open, close) = match self.ty {
            ArgumentType::RequiredSingle => ("<", ">"),
            ArgumentType::RequiredMultiple => ("<..", ">"),
            ArgumentType::OptionalSingle => ("[", "]"),
            ArgumentType::OptionalMultiple => ("[..", "]"),
        };
        let mut s = open.to_owned();
        s.append(self.name.as_str());
        s.append(close);
        s
    }
}

impl<'a> From<&'a str> for Argument {
    /// Reads a descriptor (see `descriptor`); text in no such form gives an
    /// optional argument with an empty name.
    fn from(s: &'a str) -> (r: Argument)
        ensures
            match descriptor(s@) {
                Some((n, ty)) => r.name@ == n && r.ty == ty,
                None => r.name@.len() == 0 && r.ty == ArgumentType::OptionalSingle,
            },
    {
        Argument::read_descriptor(s)
    }
}

impl<'a> vstd::std_specs::convert::FromSpecImpl<&'a str> for Argument {
    open spec fn obeys_from_spec() -> bool {
        false
    }

    open spec fn from_spec(v: &'a str) -> Argument {
        arbitrary()
    }
}

impl From<String> for Argument {
    /// Reads a descriptor, as `From<&str>` does.
    fn from(s: String) -> (r: Argument)
        ensures
            match descriptor(s@) {
                Some((n, ty)) => r.name@ == n && r.ty == ty,
                None => r.name@.len() == 0 && r.ty == ArgumentType::OptionalSingle,
            },
    {
        Argument::read_descriptor(s.as_str())
    }
}

impl vstd::std_specs::convert::FromSpecImpl<String> for Argument {
    open spec fn obeys_from_spec() -> bool {
        false
    }

    open spec fn from_spec(v: String) -> Argument {
        arbitrary()
    }
}

/// An argument list is well formed when only its last argument may take many
/// tokens, no required argument follows an optional one, and names are unique.
pub open spec fn valid_args(args: Seq<Argument>) -> bool {
    &&& forall|i: int| 0 <= i < args.len() - 1 ==> !(#[trigger] args[i]).ty.spec_is_multiply()
    &&& forall|i: int, j: int|
        0 <= i < j < args.len() && !(#[trigger] args[i]).ty.spec_is_required()
            ==> !(#[trigger] args[j]).ty.spec_is_required()
    &&& forall|i: int, j: int|
        0 <= i < j < args.len() ==> (#[trigger] args[i]).name@ != (#[trigger] args[j]).name@
}

/// The least number of tokens an argument list accepts: one per required argument.
pub open spec fn arity_min(args: Seq<Argument>) -> nat
    decreases args.len(),
{
    if args.len() == 0 {
        0
    } else {
        arity_min(args.drop_last()) + if args.last().ty.spec_is_required() {
            1nat
        } else {
            0nat
        }
    }
}

/// The most tokens an argument list accepts; `None` when one argument takes any number.
pub open spec fn arity_max(args: Seq<Argument>) -> Option<nat> {
    if exists|i: int| 0 <= i < args.len() && (#[trigger] args[i]).ty.spec_is_multiply() {
        None
    } else {
        Some(args.len())
    }
}

/// Whether `count` tokens lie within the arity of `args`.
pub open spec fn accepts_count(args: Seq<Argument>, count: nat) -> bool {
    &&& arity_min(args) <= count
    &&& match arity_max(args) {
        Some(m) => count <= m,
        None => true,
    }
}

pub proof fn lemma_arity_min_bounded(args: Seq<Argument>)
    ensures
        arity_min(args) <= args.len(),
    decreases args.len(),
{
    if args.len() > 0 {
        lemma_arity_min_bounded(args.drop_last());
    }
}

/// For a well-formed argument list the least count never exceeds the most, and the
/// most is unbounded exactly when the last argument takes many tokens.
pub proof fn lemma_arity_of_valid_args(args: Seq<Argument>)
    requires
        valid_args(args),
    ensures
        match arity_max(args) {
            Some(m) => arity_min(args) <= m,
            None => true,
        },
        arity_max(args) is None <==> (args.len() > 0 && args.last().ty.spec_is_multiply()),
{
    lemma_arity_min_bounded(args);
    if args.len() > 0 && args.last().ty.spec_is_multiply() {
        assert(args[args.len() - 1].ty.spec_is_multiply());
    }
}

/// The arity of an argument list: the least number of tokens it accepts, and the
/// most (`None` when unbounded).
pub fn arity(args: &Vec<Argument>) -> (r: (usize, Option<usize>))
    ensures
        r.0 == arity_min(args@),
        match arity_max(args@) {
            Some(m) => r.1 == Some(m as usize),
            None => r.1.is_none(),
        },
{
    let mut min: usize = 0;
    let mut unbounded = false;
    let n = args.len();
    let mut i: usize = 0;
    while i < n
        invariant
            n == args@.len(),
            i <= n,
            min == arity_min(args@.take(i as int)),
            min <= i,
            unbounded == exists|k: int| 0 <= k < i && (#[trigger] args@[k]).ty.spec_is_multiply(),
        decreases n - i,
    {
        assert(args@.take(i as int + 1).drop_last() =~= args@.take(i as int));
        if args[i].ty.is_required() {
            min = min + 1;
        }
        if args[i].ty.is_multiply() {
            unbounded = true;
        }
        i = i + 1;
    }
    assert(args@.take(n as int) =~= args@);
    if unbounded {
        (min, None)
    } else {
        (min, Some(n))
    }
}

/// Whether an argument list is well formed (see `valid_args`).
pub fn args_are_valid(args: &Vec<Argument>) -> (r: bool)
    ensures
        r == valid_args(args@),
{
    let n = args.len();
    let mut opt_start = false;
    let mut idx: usize = 0;
    while idx < n
        invariant
            n == args@.len(),
            idx <= n,
            opt_start == exists|k: int| 0 <= k < idx && !(#[trigger] args@[k]).ty.spec_is_required(),
            forall|i: int| 0 <= i < idx && i < n - 1 ==> !(#[trigger] args@[i]).ty.spec_is_multiply(),
            forall|i: int, j: int|
                0 <= i < j < idx && !(#[trigger] args@[i]).ty.spec_is_required()
                    ==> !(#[trigger] args@[j]).ty.spec_is_required(),
            forall|i: int, j: int|
                0 <= i < j < idx ==> (#[trigger] args@[i]).name@ != (#[trigger] args@[j]).name@,
        decreases n - idx,
    {
        let ty = args[idx].ty;
        if !ty.is_required() {
            opt_start = true;
        }
        if idx != n - 1 && ty.is_multiply() {
            return false;
        }
        if ty.is_required() && opt_start {
            return false;
        }
        let mut j: usize = 0;
        while j < idx
            invariant
                n == args@.len(),
                idx < n,
                j <= idx,
                forall|k: int| 0 <= k < j ==> (#[trigger] args@[k]).name@ != args@[idx as int].name@,
            decreases idx - j,
        {
            if args[j].name == args[idx].name {
                return false;
            }
            j = j + 1;
        }
        idx = idx + 1;
    }
    true
}

/// Two options clash when they share a short flag or a long flag.
pub open spec fn conflicts(a: Options, b: Options) -> bool {
    (a.short is Some && b.short is Some && a.short->0@ == b.short->0@) || a.long@ == b.long@
}

/// Options whose arguments are well formed and of which no two clash.
pub open spec fn valid_options(opts: Seq<Options>) -> bool {
    &&& forall|i: int| 0 <= i < opts.len() ==> valid_args((#[trigger] opts[i]).arguments())
    &&& forall|i: int, j: int|
        0 <= i < j < opts.len() ==> !conflicts(#[trigger] opts[i], #[trigger] opts[j])
}

/// A flag (`-s` or `--long`) with the arguments that it takes.
#[derive(Clone, Debug, Eq)]
pub struct Options {
    pub short: Option<String>,
    pub long: String,
    pub opt_args: Vec<Argument>,
    pub desc: Option<String>,
}

impl Options {
    pub fn new(short: Option<String>, long: String, desc: Option<String>) -> (r: Self)
        ensures
            r.short == short,
            r.long == long,
            r.desc == desc,
            r.arguments() == Seq::<Argument>::empty(),
    {
        Options { short, long, opt_args: Vec::new(), desc }
    }
}

impl GetArgs for Options {
    open spec fn arguments(&self) -> Seq<Argument> {
        self.opt_args@
    }

    fn get_args(&self) -> (r: &Vec<Argument>) {
        &self.opt_args
    }
}

impl PushArgument for Options {
    /// Appends `argument` unless the list would then be ill formed.
    fn push_argument(&mut self, argument: Argument)
        ensures
            final(self).short == old(self).short,
            final(self).long == old(self).long,
            final(self).desc == old(self).desc,
            final(self).arguments() == if valid_args(old(self).arguments().push(argument)) {
                old(self).arguments().push(argument)
            } else {
                old(self).arguments()
            },
    {
        self.opt_args.push(argument);
        if !args_are_valid(&self.opt_args) {
            self.opt_args.pop();
        }
    }
}

impl PartialEq for Options {
    fn eq(&self, other: &Options) -> (r: bool) {
        let same_short = match (&self.short, &other.short) {
            (Some(a), Some(b)) => *a == *b,
            _ => false,
        };
        same_short || self.long == other.long
    }
}

impl vstd::std_specs::cmp::PartialEqSpecImpl for Options {
    open spec fn obeys_eq_spec() -> bool {
        true
    }

    open spec fn eq_spec(&self, other: &Options) -> bool {
        conflicts(*self, *other)
    }
}

/// Adds `option` to `options` unless its arguments are ill formed or it clashes
/// with one already there.
fn push_distinct_option(options: &mut Vec<Options>, option: Options)
    ensures
        final(options)@ == if valid_args(option.arguments()) && forall|i: int|
            0 <= i < old(options)@.len() ==> !conflicts(#[trigger] old(options)@[i], option) {
            old(options)@.push(option)
        } else {
            old(options)@
        },
{
    if !args_are_valid(option.get_args()) {
        return;
    }
    let n = options.len();
    let mut i: usize = 0;
    while i < n
        invariant
            n == options@.len(),
            options@ == old(options)@,
            i <= n,
            forall|k: int| 0 <= k < i ==> !conflicts(#[trigger] options@[k], option),
        decreases n - i,
    {
        if options[i] == option {
            return;
        }
        i = i + 1;
    }
    options.push(option);
}

/// A named sub-command of a `Command`, with its own arguments and local options.
#[derive(Clone, Debug, PartialEq, Eq)]
pub struct SubCommand {
    pub belong: String,
    pub name: String,
    pub cmd_args: Vec<Argument>,
    pub options: Vec<Options>,
    pub desc: Option<String>,
}

impl SubCommand {
    pub fn new(belong: String, name: String, desc: Option<String>) -> (r: Self)
        ensures
            r.belong == belong,
            r.name == name,
            r.desc == desc,
            r.arguments() == Seq::<Argument>::empty(),
            r.option_list() == Seq::<Options>::empty(),
            r.wf(),
    {
        SubCommand { belong, name, cmd_args: Vec::new(), options: Vec::new(), desc }
    }

    /// Arguments well formed, options well formed and free of clashes.
    pub open spec fn wf(&self) -> bool {
        valid_args(self.arguments()) && valid_options(self.option_list())
    }
}

impl GetArgs for SubCommand {
    open spec fn arguments(&self) -> Seq<Argument> {
        self.cmd_args@
    }

    fn get_args(&self) -> (r: &Vec<Argument>) {
        &self.cmd_args
    }
}

impl GetOpts for SubCommand {
    open spec fn option_list(&self) -> Seq<Options> {
        self.options@
    }

    fn get_opts(&self) -> (r: &Vec<Options>) {
        &self.options
    }
}

impl PushOptions for SubCommand {
    /// Adds `option` unless its arguments are ill formed or it clashes with a
    /// declared option.
    fn push_option(&mut self, option: Options)
        ensures
            final(self).name == old(self).name,
            final(self).belong == old(self).belong,
            final(self).desc == old(self).desc,
            final(self).arguments() == old(self).arguments(),
            final(self).option_list() == if valid_args(option.arguments()) && forall|i: int|
                0 <= i < old(self).option_list().len() ==> !conflicts(
                    #[trigger] old(self).option_list()[i],
                    option,
                ) {
                old(self).option_list().push(option)
            } else {
                old(self).option_list()
            },
            old(self).wf() ==> final(self).wf(),
    {
        push_distinct_option(&mut self.options, option);
    }
}

impl PushArgument for SubCommand {
    /// Appends `argument` unless the list would then be ill formed.
    fn push_argument(&mut self, argument: Argument)
        ensures
            final(self).name == old(self).name,
            final(self).belong == old(self).belong,
            final(self).desc == old(self).desc,
            final(self).option_list() == old(self).option_list(),
            final(self).arguments() == if valid_args(old(self).arguments().push(argument)) {
                old(self).arguments().push(argument)
            } else {
                old(self).arguments()
            },
            old(self).wf() ==> final(self).wf(),
    {
        self.cmd_args.push(argument);
        if !args_are_valid(&self.cmd_args) {
            self.cmd_args.pop();
        }
    }
}

/// The top-level command: its arguments, global options and sub-commands.
#[derive(Clone, Debug, PartialEq, Eq, Default)]
pub struct Command {
    pub name: String,
    pub sub_cmds: Vec<SubCommand>,
    pub cmd_args: Vec<Argument>,
    pub options: Vec<Options>,
    pub desc: Option<String>,
    pub version: String,
}

impl Command {
    pub open spec fn sub_list(&self) -> Seq<SubCommand> {
        self.sub_cmds@
    }

    /// Arguments and global options well formed, sub-commands well formed and
    /// named uniquely.
    pub open spec fn wf(&self) -> bool {
        &&& valid_args(self.arguments())
        &&& valid_options(self.option_list())
        &&& forall|i: int| 0 <= i < self.sub_list().len() ==> (#[trigger] self.sub_list()[i]).wf()
        &&& forall|i: int, j: int|
            0 <= i < j < self.sub_list().len() ==> (#[trigger] self.sub_list()[i]).name@ != (
            #[trigger] self.sub_list()[j]).name@
    }

    /// A command with nothing declared yet; its version is empty until set.
    pub fn new(name: String, desc: Option<String>) -> (r: Self)
        ensures
            r.name == name,
            r.desc == desc,
            r.version@ == Seq::<char>::empty(),
            r.arguments() == Seq::<Argument>::empty(),
            r.option_list() == Seq::<Options>::empty(),
            r.sub_list() == Seq::<SubCommand>::empty(),
            r.wf(),
    {
        Command {
            name,
            cmd_args: Vec::new(),
            sub_cmds: Vec::new(),
            options: Vec::new(),
            desc,
            version: String::new(),
        }
    }

    /// The declared sub-commands.
    pub fn sub_commands(&self) -> (r: &Vec<SubCommand>)
        ensures
            r@ == self.sub_list(),
    {
        &self.sub_cmds
    }

    /// The first sub-command named `sub_name`.
    pub fn get_sub_cmd(&self, sub_name: &str) -> (r: Option<&SubCommand>)
        ensures
            match r {
                Some(s) => find_sub_index(self.sub_list(), sub_name@) matches Some(i) && self.sub_list()[i] == *s,
                None => find_sub_index(self.sub_list(), sub_name@) is None,
            },
    {
        let key = sub_name.to_owned();
        let ghost names = sub_names(self.sub_cmds@);
        proof {
            names.index_of_first_ensures(sub_name@);
        }
        let n = self.sub_cmds.len();
        let mut i: usize = 0;
        while i < n
            invariant
                n == self.sub_cmds@.len(),
                names == sub_names(self.sub_cmds@),
                key@ == sub_name@,
                i <= n,
                forall|k: int| 0 <= k < i ==> names[k] != sub_name@,
                match names.index_of_first(sub_name@) {
                    Some(index) => {
                        &&& 0 <= index < names.len()
                        &&& names[index] == sub_name@
                        &&& forall|j: int| 0 <= j < index < names.len() ==> names[j] != sub_name@
                    },
                    None => !names.contains(sub_name@),
                },
            decreases n - i,
        {
            if self.sub_cmds[i].name == key {
                assert(names[i as int] == sub_name@);
                return Some(&self.sub_cmds[i]);
            }
            i = i + 1;
        }
        None
    }
}

impl GetArgs for Command {
    open spec fn arguments(&self) -> Seq<Argument> {
        self.cmd_args@
    }

    fn get_args(&self) -> (r: &Vec<Argument>) {
        &self.cmd_args
    }
}

impl GetOpts for Command {
    open spec fn option_list(&self) -> Seq<Options> {
        self.options@
    }

    fn get_opts(&self) -> (r: &Vec<Options>) {
        &self.options
    }
}

impl PushSubCommand for Command {
    /// Adds `sub_command` unless one of that name is declared already.
    fn push_sub_command(&mut self, sub_command: SubCommand)
        ensures
            final(self).name == old(self).name,
            final(self).desc == old(self).desc,
            final(self).version == old(self).version,
            final(self).arguments() == old(self).arguments(),
            final(self).option_list() == old(self).option_list(),
            final(self).sub_list() == if forall|i: int|
                0 <= i < old(self).sub_list().len() ==> (#[trigger] old(self).sub_list()[i]).name@
                    != sub_command.name@ {
                old(self).sub_list().push(sub_command)
            } else {
                old(self).sub_list()
            },
            old(self).wf() && sub_command.wf() ==> final(self).wf(),
    {
        let n = self.sub_cmds.len();
        let mut i: usize = 0;
        while i < n
            invariant
                n == self.sub_cmds@.len(),
                *self == *old(self),
                i <= n,
                forall|k: int| 0 <= k < i ==> (#[trigger] self.sub_cmds@[k]).name@ != sub_command.name@,
            decreases n - i,
        {
            if self.sub_cmds[i].name == sub_command.name {
                return;
            }
            i = i + 1;
        }
        self.sub_cmds.push(sub_command);
    }
}

impl PushOptions for Command {
    /// Adds `option` unless its arguments are ill formed or it clashes with a
    /// declared global option.
    fn push_option(&mut self, option: Options)
        ensures
            final(self).name == old(self).name,
            final(self).desc == old(self).desc,
            final(self).version == old(self).version,
            final(self).arguments() == old(self).arguments(),
            final(self).sub_list() == old(self).sub_list(),
            final(self).option_list() == if valid_args(option.arguments()) && forall|i: int|
                0 <= i < old(self).option_list().len() ==> !conflicts(
                    #[trigger] old(self).option_list()[i],
                    option,
                ) {
                old(self).option_list().push(option)
            } else {
                old(self).option_list()
            },
            old(self).wf() ==> final(self).wf(),
    {
        push_distinct_option(&mut self.options, option);
    }
}

impl PushArgument for Command {
    /// Appends `argument` unless the list would then be ill formed.
    fn push_argument(&mut self, argument: Argument)
        ensures
            final(self).name == old(self).name,
            final(self).desc == old(self).desc,
            final(self).version == old(self).version,
            final(self).option_list() == old(self).option_list(),
            final(self).sub_list() == old(self).sub_list(),
            final(self).arguments() == if valid_args(old(self).arguments().push(argument)) {
                old(self).arguments().push(argument)
            } else {
                old(self).arguments()
            },
            old(self).wf() ==> final(self).wf(),
    {
        self.cmd_args.push(argument);
        if !args_are_valid(&self.cmd_args) {
            self.cmd_args.pop();
        }
    }
}

/// The names under which a list of options answers to a long flag, in order.
pub open spec fn long_names(opts: Seq<Options>) -> Seq<Seq<char>> {
    opts.map_values(|o: Options| o.long@)
}

/// The short flags of a list of options, in order (`None` where an option has none).
pub open spec fn short_names(opts: Seq<Options>) -> Seq<Option<Seq<char>>> {
    opts.map_values(|o: Options| short_view(o.short))
}

pub open spec fn short_view(s: Option<String>) -> Option<Seq<char>> {
    match s {
        Some(x) => Some(x@),
        None => None,
    }
}

/// The first option of `opts` whose long flag is `name`.
pub open spec fn find_long(opts: Seq<Options>, name: Seq<char>) -> Option<Options> {
    match long_names(opts).index_of_first(name) {
        Some(i) => Some(opts[i]),
        None => None,
    }
}

/// The first option of `opts` whose short flag is `name`.
pub open spec fn find_short(opts: Seq<Options>, name: Seq<char>) -> Option<Options> {
    match short_names(opts).index_of_first(Some(name)) {
        Some(i) => Some(opts[i]),
        None => None,
    }
}

/// The names of a list of sub-commands, in order.
pub open spec fn sub_names(subs: Seq<SubCommand>) -> Seq<Seq<char>> {
    subs.map_values(|s: SubCommand| s.name@)
}

/// The position of the first sub-command of `subs` named `name`.
pub open spec fn find_sub_index(subs: Seq<SubCommand>, name: Seq<char>) -> Option<int> {
    sub_names(subs).index_of_first(name)
}

/// No flag is declared among no options.
pub proof fn lemma_nothing_declared(v: crate::segment::SegmentView)
    ensures
        !crate::parser::declared_in(v, Seq::empty()),
{
    short_names(Seq::<Options>::empty()).index_of_first_ensures(
        match v {
            crate::segment::SegmentView::Short(n, _) => Some(n),
            _ => None,
        },
    );
    long_names(Seq::<Options>::empty()).index_of_first_ensures(
        match v {
            crate::segment::SegmentView::Long(n, _) => n,
            _ => Seq::empty(),
        },
    );
}

impl<T: GetArgs> ValidateArgs for T {
    open spec fn args_valid(&self) -> bool {
        valid_args(self.arguments())
    }

    fn validate_args(&self) -> (r: bool) {
        args_are_valid(self.get_args())
    }
}

impl<T: GetOpts> GetOpt for T {
    fn get_long_opt(&self, opt_name: &str) -> (r: Option<&Options>) {
        let opts = self.get_opts();
        let key = opt_name.to_owned();
        let ghost names = long_names(opts@);
        proof {
            names.index_of_first_ensures(opt_name@);
        }
        let n = opts.len();
        let mut i: usize = 0;
        while i < n
            invariant
                n == opts@.len(),
                names == long_names(opts@),
                opts@ == self.option_list(),
                key@ == opt_name@,
                i <= n,
                forall|k: int| 0 <= k < i ==> names[k] != opt_name@,
                match names.index_of_first(opt_name@) {
                    Some(index) => {
                        &&& 0 <= index < names.len()
                        &&& names[index] == opt_name@
                        &&& forall|j: int| 0 <= j < index < names.len() ==> names[j] != opt_name@
                    },
                    None => !names.contains(opt_name@),
                },
            decreases n - i,
        {
            if opts[i].long == key {
                assert(names[i as int] == opt_name@);
                return Some(&opts[i]);
            }
            i = i + 1;
        }
        None
    }

    fn get_short_opt(&self, opt_name: &str) -> (r: Option<&Options>) {
        let opts = self.get_opts();
        let key = opt_name.to_owned();
        let ghost names = short_names(opts@);
        let ghost target: Option<Seq<char>> = Some(opt_name@);
        proof {
            names.index_of_first_ensures(target);
        }
        let n = opts.len();
        let mut i: usize = 0;
        while i < n
            invariant
                n == opts@.len(),
                names == short_names(opts@),
                opts@ == self.option_list(),
                key@ == opt_name@,
                target == Some(opt_name@),
                i <= n,
                forall|k: int| 0 <= k < i ==> names[k] != target,
                match names.index_of_first(target) {
                    Some(index) => {
                        &&& 0 <= index < names.len()
                        &&& names[index] == target
                        &&& forall|j: int| 0 <= j < index < names.len() ==> names[j] != target
                    },
                    None => !names.contains(target),
                },
            decreases n - i,
        {
            if let Some(short) = &opts[i].short {
                if *short == key {
                    assert(names[i as int] == target);
                    return Some(&opts[i]);
                }
            }
            assert(names[i as int] != target);
            i = i + 1;
        }
        None
    }
}

} // verus!
