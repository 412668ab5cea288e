use vstd::prelude::*;

use crate::errors::{ArgsOwner, ErrorView, OwnerView, ParseError, result_view};
use crate::model::{
    Argument, Command, Options, SubCommand, accepts_count, args_are_valid, arity, find_long,
    find_short, find_sub_index, sub_names, valid_args,
};
use crate::segment::{SegmentView, lemma_views_add, lemma_views_push, texts, view_all, views};
use crate::traits::{GetArgs, GetOpt, GetOpts};
use vstd::string::*;

pub use crate::segment::Segment;

verus! {

broadcast use vstd::std_specs::vec::group_vec_axioms;

/// A flag segment, short or long.
pub open spec fn is_opt(v: SegmentView) -> bool {
    v is Short || v is Long
}

/// How many raw segments open the sequence.
pub open spec fn lead_raws(s: Seq<SegmentView>) -> nat
    decreases s.len(),
{
    if s.len() > 0 && s[0] is Raw {
        1 + lead_raws(s.drop_first())
    } else {
        0
    }
}

pub proof fn lemma_lead_raws(s: Seq<SegmentView>)
    ensures
        lead_raws(s) <= s.len(),
        forall|i: int| 0 <= i < lead_raws(s) ==> (#[trigger] s[i]) is Raw,
        lead_raws(s) < s.len() ==> !(s[lead_raws(s) as int] is Raw),
    decreases s.len(),
{
    if s.len() > 0 && s[0] is Raw {
        lemma_lead_raws(s.drop_first());
        assert forall|i: int| 0 <= i < lead_raws(s) implies (#[trigger] s[i]) is Raw by {
            if i > 0 {
                assert(s[i] == s.drop_first()[i - 1]);
            }
        }
    }
}

/// `o` with `extra` appended to the tokens it owns.
pub open spec fn with_args(o: SegmentView, extra: Seq<SegmentView>) -> SegmentView {
    match o {
        SegmentView::Short(n, a) => SegmentView::Short(n, a + extra),
        SegmentView::Long(n, a) => SegmentView::Long(n, a + extra),
        SegmentView::Command(n, a) => SegmentView::Command(n, a + extra),
        _ => o,
    }
}

/// Every flag before the terminator takes the raw segments that directly follow it.
pub open spec fn attach(s: Seq<SegmentView>) -> Seq<SegmentView>
    decreases s.len(),
    via attach_decreases
{
    if s.len() == 0 {
        s
    } else if s[0] is DoubleSub {
        s
    } else if is_opt(s[0]) {
        let k = lead_raws(s.drop_first()) as int;
        seq![with_args(s[0], s.subrange(1, 1 + k))] + attach(s.subrange(1 + k, s.len() as int))
    } else {
        seq![s[0]] + attach(s.drop_first())
    }
}

#[via_fn]
proof fn attach_decreases(s: Seq<SegmentView>) {
    if s.len() > 0 {
        lemma_lead_raws(s.drop_first());
    }
}

/// The raw segments that open the list are gathered into a command container
/// at its front (the container that stands there already, if any).
pub open spec fn divide_cmd(s: Seq<SegmentView>) -> Seq<SegmentView> {
    if s.len() == 0 {
        s
    } else if s[0] is Command {
        let k = lead_raws(s.drop_first()) as int;
        seq![with_args(s[0], s.subrange(1, 1 + k))] + s.subrange(1 + k, s.len() as int)
    } else {
        let k = lead_raws(s);
        if k == 0 {
            s
        } else {
            seq![SegmentView::Command(None, s.take(k as int))] + s.skip(k as int)
        }
    }
}

proof fn lemma_with_no_args(w: SegmentView)
    ensures
        with_args(w, Seq::empty()) == w,
{
    match w {
        SegmentView::Short(n, a) => assert(a + Seq::empty() =~= a),
        SegmentView::Long(n, a) => assert(a + Seq::empty() =~= a),
        SegmentView::Command(n, a) => assert(a + Seq::empty() =~= a),
        _ => {},
    }
}

proof fn lemma_attach_first(u: Seq<SegmentView>)
    ensures
        attach(u).len() == 0 <==> u.len() == 0,
        u.len() > 0 && !(u[0] is Raw) ==> !(attach(u)[0] is Raw),
{
    if u.len() > 0 && !(u[0] is DoubleSub) && is_opt(u[0]) {
        lemma_lead_raws(u.drop_first());
    }
}

proof fn lemma_attach_idempotent(s: Seq<SegmentView>)
    ensures
        attach(attach(s)) == attach(s),
    decreases s.len(),
{
    if s.len() == 0 || s[0] is DoubleSub {
    } else if is_opt(s[0]) {
        let k = lead_raws(s.drop_first()) as int;
        lemma_lead_raws(s.drop_first());
        let rest = s.subrange(1 + k, s.len() as int);
        lemma_attach_idempotent(rest);
        lemma_attach_first(rest);
        if k < s.drop_first().len() {
            assert(rest[0] == s.drop_first()[k]);
        }
        let w = with_args(s[0], s.subrange(1, 1 + k));
        let t = attach(s);
        assert(t == seq![w] + attach(rest));
        assert(t.drop_first() =~= attach(rest));
        assert(lead_raws(t.drop_first()) == 0);
        assert(t.subrange(1, 1) =~= Seq::<SegmentView>::empty());
        assert(t.subrange(1, t.len() as int) =~= attach(rest));
        lemma_with_no_args(w);
        assert(attach(t) =~= t);
    } else {
        lemma_attach_idempotent(s.drop_first());
        let t = attach(s);
        assert(t.drop_first() =~= attach(s.drop_first()));
        assert(attach(t) =~= t);
    }
}

proof fn lemma_attach_fixed_skip(a: Seq<SegmentView>, j: int)
    requires
        attach(a) == a,
        0 <= j <= a.len(),
        forall|i: int| 0 <= i < j ==> !is_opt(#[trigger] a[i]) && !(a[i] is DoubleSub),
    ensures
        attach(a.skip(j)) == a.skip(j),
    decreases j,
{
    if j > 0 {
        assert(a == seq![a[0]] + attach(a.drop_first()));
        assert(attach(a.drop_first()) =~= a.drop_first());
        let b = a.drop_first();
        assert forall|i: int| 0 <= i < j - 1 implies !is_opt(#[trigger] b[i]) && !(b[i] is DoubleSub) by {
            assert(b[i] == a[i + 1]);
        }
        lemma_attach_fixed_skip(b, j - 1);
        assert(b.skip(j - 1) =~= a.skip(j));
    } else {
        assert(a.skip(0) =~= a);
    }
}

proof fn lemma_divide_cmd_idempotent(u: Seq<SegmentView>)
    ensures
        divide_cmd(divide_cmd(u)) == divide_cmd(u),
{
    let t = divide_cmd(u);
    if u.len() == 0 {
    } else if u[0] is Command {
        let k = lead_raws(u.drop_first()) as int;
        lemma_lead_raws(u.drop_first());
        let w = with_args(u[0], u.subrange(1, 1 + k));
        assert(t.drop_first() =~= u.subrange(1 + k, u.len() as int));
        if k < u.drop_first().len() {
            assert(t.drop_first()[0] == u.drop_first()[k]);
        }
        assert(lead_raws(t.drop_first()) == 0);
        assert(t.subrange(1, 1) =~= Seq::<SegmentView>::empty());
        lemma_with_no_args(w);
        assert(divide_cmd(t) =~= t);
    } else {
        let k = lead_raws(u) as int;
        lemma_lead_raws(u);
        if k > 0 {
            assert(t.drop_first() =~= u.skip(k));
            if k < u.len() {
                assert(t.drop_first()[0] == u[k]);
            }
            assert(lead_raws(t.drop_first()) == 0);
            assert(t.subrange(1, 1) =~= Seq::<SegmentView>::empty());
            lemma_with_no_args(t[0]);
            assert(divide_cmd(t) =~= t);
        }
    }
}

/// Once flags own the raw segments that follow them and the opening raw
/// segments sit in a command container, running either pass again changes nothing.
pub proof fn lemma_restructure_idempotent(s: Seq<SegmentView>)
    ensures
        attach(divide_cmd(attach(s))) == divide_cmd(attach(s)),
        divide_cmd(divide_cmd(attach(s))) == divide_cmd(attach(s)),
{
    let a = attach(s);
    lemma_attach_idempotent(s);
    lemma_divide_cmd_idempotent(a);
    let t = divide_cmd(a);
    if a.len() == 0 {
    } else if a[0] is Command {
        let k = lead_raws(a.drop_first()) as int;
        lemma_lead_raws(a.drop_first());
        assert forall|i: int| 0 <= i < 1 + k implies !is_opt(#[trigger] a[i]) && !(a[i] is DoubleSub) by {
            if i > 0 {
                assert(a[i] == a.drop_first()[i - 1]);
            }
        }
        lemma_attach_fixed_skip(a, 1 + k);
        assert(t.drop_first() =~= a.skip(1 + k));
        assert(attach(t) =~= t);
    } else {
        let k = lead_raws(a) as int;
        lemma_lead_raws(a);
        if k > 0 {
            lemma_attach_fixed_skip(a, k);
            assert(t.drop_first() =~= a.skip(k));
            assert(attach(t) =~= t);
        }
    }
}

pub proof fn lemma_views_subrange(s: Seq<Segment>, i: int, j: int)
    requires
        0 <= i <= j <= s.len(),
    ensures
        views(s.subrange(i, j)) == views(s).subrange(i, j),
{
    assert(views(s.subrange(i, j)) =~= views(s).subrange(i, j));
}

/// Moves the raw segments that open `rest` to the end of `args`.
fn take_raws(rest: &mut Vec<Segment>, args: &mut Vec<Segment>)
    ensures
        final(rest)@ == old(rest)@.subrange(
            lead_raws(views(old(rest)@)) as int,
            old(rest)@.len() as int,
        ),
        final(args)@ == old(args)@ + old(rest)@.take(lead_raws(views(old(rest)@)) as int),
{
    let ghost r0 = old(rest)@;
    let ghost k = lead_raws(views(r0));
    proof {
        lemma_lead_raws(views(r0));
    }
    let ghost mut taken: nat = 0;
    while rest.len() > 0 && rest[0].is_raw()
        invariant
            k == lead_raws(views(r0)),
            k <= r0.len(),
            taken <= k,
            rest@ == r0.subrange(taken as int, r0.len() as int),
            args@ == old(args)@ + r0.take(taken as int),
            lead_raws(views(rest@)) == k - taken,
        decreases rest@.len(),
    {
        let ghost before = rest@;
        let x = rest.remove(0);
        proof {
            let vr = views(before);
            assert(vr[0] is Raw);
            assert(vr.drop_first() =~= views(rest@));
        }
        args.push(x);
        proof {
            taken = taken + 1;
        }
        assert(rest@ =~= r0.subrange(taken as int, r0.len() as int));
        assert(args@ =~= old(args)@ + r0.take(taken as int));
    }
    proof {
        if taken < k {
            assert(views(rest@)[0] is Raw);
        }
    }
}

/// The position of the first terminator.
pub open spec fn dd_index(s: Seq<SegmentView>) -> Option<int> {
    s.index_of_first(SegmentView::DoubleSub)
}

/// What precedes the first terminator.
pub open spec fn before_dd(s: Seq<SegmentView>) -> Seq<SegmentView> {
    match dd_index(s) {
        Some(d) => s.take(d),
        None => s,
    }
}

pub open spec fn is_raw_view(v: SegmentView) -> bool {
    v is Raw
}

pub open spec fn raw_segments(s: Seq<SegmentView>) -> Seq<SegmentView> {
    s.filter(|v: SegmentView| is_raw_view(v))
}

/// The raw segments that follow the first terminator.
pub open spec fn tail_raws(s: Seq<SegmentView>) -> Seq<SegmentView> {
    match dd_index(s) {
        Some(d) => raw_segments(s.skip(d)),
        None => Seq::empty(),
    }
}

/// Within the raw segments that open `args`, the first one that names a
/// sub-command among `names`.
pub open spec fn sub_split(args: Seq<SegmentView>, names: Seq<Seq<char>>) -> Option<int>
    decreases args.len(),
{
    if args.len() == 0 {
        None
    } else {
        match args[0] {
            SegmentView::Raw(x) => if names.contains(x) {
                Some(0)
            } else {
                match sub_split(args.drop_first(), names) {
                    Some(i) => Some(i + 1),
                    None => None,
                }
            },
            _ => None,
        }
    }
}

pub proof fn lemma_sub_split(args: Seq<SegmentView>, names: Seq<Seq<char>>)
    ensures
        match sub_split(args, names) {
            Some(i) => {
                &&& 0 <= i < args.len()
                &&& args[i] matches SegmentView::Raw(x) && names.contains(x)
            },
            None => true,
        },
    decreases args.len(),
{
    if args.len() > 0 {
        lemma_sub_split(args.drop_first(), names);
    }
}

/// The tokens owned by a container segment.
pub open spec fn owned(v: SegmentView) -> Seq<SegmentView> {
    match v {
        SegmentView::Short(_, a) => a,
        SegmentView::Long(_, a) => a,
        SegmentView::Command(_, a) => a,
        _ => Seq::empty(),
    }
}

/// The text of a raw segment.
pub open spec fn raw_text(v: SegmentView) -> Seq<char> {
    match v {
        SegmentView::Raw(x) => x,
        _ => Seq::empty(),
    }
}

/// Splits the positional tokens between the command and the sub-command that the
/// first of them to name one selects; the raw tail after the terminator goes to
/// whichever comes last. Gives the command segment, the sub-command segment and
/// what remains of `body`.
pub open spec fn split_cmd(body: Seq<SegmentView>, raws: Seq<SegmentView>, names: Seq<Seq<char>>) -> (
    Option<SegmentView>,
    Option<SegmentView>,
    Seq<SegmentView>,
) {
    if body.len() > 0 && body[0] is Command {
        let args = owned(body[0]);
        match sub_split(args, names) {
            Some(i) => (
                if i == 0 {
                    None
                } else {
                    Some(SegmentView::Command(None, args.take(i)))
                },
                Some(SegmentView::Command(Some(raw_text(args[i])), args.skip(i + 1) + raws)),
                body.drop_first(),
            ),
            None => (
                if args.len() + raws.len() == 0 {
                    None
                } else {
                    Some(SegmentView::Command(None, args + raws))
                },
                None,
                body.drop_first(),
            ),
        }
    } else {
        (
            if raws.len() > 0 {
                Some(SegmentView::Command(None, raws))
            } else {
                None
            },
            None,
            body,
        )
    }
}

/// Whether a flag segment names a global option among `opts`.
pub open spec fn declared_in(v: SegmentView, opts: Seq<Options>) -> bool {
    match v {
        SegmentView::Short(n, _) => find_short(opts, n) is Some,
        SegmentView::Long(n, _) => find_long(opts, n) is Some,
        _ => false,
    }
}

pub open spec fn global_segments(s: Seq<SegmentView>, opts: Seq<Options>) -> Seq<SegmentView> {
    s.filter(|v: SegmentView| declared_in(v, opts))
}

pub open spec fn other_segments(s: Seq<SegmentView>, opts: Seq<Options>) -> Seq<SegmentView> {
    s.filter(|v: SegmentView| !declared_in(v, opts))
}

pub open spec fn option_segments(s: Seq<SegmentView>) -> Seq<SegmentView> {
    s.filter(|v: SegmentView| is_opt(v))
}

pub open spec fn plain_segments(s: Seq<SegmentView>) -> Seq<SegmentView> {
    s.filter(|v: SegmentView| !is_opt(v))
}

pub open spec fn opt_view(o: Option<Segment>) -> Option<SegmentView> {
    match o {
        Some(x) => Some(x.view_of()),
        None => None,
    }
}

/// The parser's structured reading of a command line.
pub ghost struct Restructured {
    pub cmd_seg: Option<SegmentView>,
    pub sub_seg: Option<SegmentView>,
    pub locals: Seq<SegmentView>,
    pub globals: Seq<SegmentView>,
    pub rest: Seq<SegmentView>,
}

/// All restructuring passes in order: flags take their arguments, positional
/// tokens are gathered and split between command and sub-command, the tail after
/// the terminator is appended to the last of them, and flags are sorted into
/// global options (declared on the command) and local ones (all others).
pub open spec fn restructure(s: Seq<SegmentView>, cmd: Command) -> Restructured {
    let a = divide_cmd(attach(s));
    let sp = split_cmd(before_dd(a), tail_raws(a), sub_names(cmd.sub_cmds@));
    let others = other_segments(sp.2, cmd.options@);
    Restructured {
        cmd_seg: sp.0,
        sub_seg: sp.1,
        locals: option_segments(others),
        globals: global_segments(sp.2, cmd.options@),
        rest: plain_segments(others),
    }
}

/// The position, within the raw segments that open `args`, of the first one that
/// names a sub-command of `cmd`.
fn find_sub_split(args: &Vec<Segment>, cmd: &Command) -> (r: Option<usize>)
    ensures
        match sub_split(views(args@), sub_names(cmd.sub_cmds@)) {
            Some(i) => r == Some(i as usize),
            None => r is None,
        },
{
    let ghost v = views(args@);
    let ghost names = sub_names(cmd.sub_cmds@);
    let n = args.len();
    let mut i: usize = 0;
    assert(v.skip(0) =~= v);
    while i < n
        invariant
            n == args@.len(),
            v == views(args@),
            names == sub_names(cmd.sub_cmds@),
            i <= n,
            sub_split(v, names) == match sub_split(v.skip(i as int), names) {
                Some(j) => Some(j + i),
                None => None,
            },
        decreases n - i,
    {
        let ghost vi = v.skip(i as int);
        assert(vi.drop_first() =~= v.skip(i as int + 1));
        match &args[i] {
            Segment::Raw(x) => {
                assert(vi[0] == SegmentView::Raw(x@));
                let found = cmd.get_sub_cmd(x.as_str());
                proof {
                    names.index_of_first_ensures(x@);
                }
                if found.is_some() {
                    return Some(i);
                }
            },
            _ => {
                assert(!(vi[0] is Raw));
                return None;
            },
        }
        i = i + 1;
    }
    None
}

/// Whose arguments a container segment carries.
pub open spec fn owner_of(v: SegmentView) -> OwnerView {
    match v {
        SegmentView::Short(n, _) => OwnerView::Short(n),
        SegmentView::Long(n, _) => OwnerView::Long(n),
        SegmentView::Command(Some(n), _) => OwnerView::SubCommand(n),
        _ => OwnerView::Command,
    }
}

/// The texts of owned tokens; a token that is not raw reads as empty.
pub open spec fn raw_texts(a: Seq<SegmentView>) -> Seq<Seq<char>> {
    a.map_values(|v: SegmentView| raw_text(v))
}

/// Checks the tokens a segment owns against the arguments declared for it.
pub open spec fn arity_check(target: SegmentView, defined: Seq<Argument>) -> Result<(), ErrorView> {
    if !valid_args(defined) {
        Err(ErrorView::Internal)
    } else if !(target is Short || target is Long || target is Command) {
        Ok(())
    } else if accepts_count(defined, owned(target).len()) {
        Ok(())
    } else if owned(target).len() == 0 {
        Err(ErrorView::MissingArguments(owner_of(target), defined))
    } else if defined.len() == 0 {
        Err(ErrorView::UnexpectedArguments(owner_of(target), raw_texts(owned(target))))
    } else {
        Err(ErrorView::MismatchedArguments(owner_of(target), defined, raw_texts(owned(target))))
    }
}

/// A flag as typed: `-x` or `--name`.
pub open spec fn spelling(v: SegmentView) -> Seq<char> {
    match v {
        SegmentView::Short(n, _) => seq!['-'] + n,
        SegmentView::Long(n, _) => seq!['-', '-'] + n,
        _ => Seq::empty(),
    }
}

/// The first flag among `segs` that `opts` does not declare, as an error.
pub open spec fn first_unknown(segs: Seq<SegmentView>, opts: Seq<Options>) -> Option<ErrorView>
    decreases segs.len(),
{
    if segs.len() == 0 {
        None
    } else if is_opt(segs[0]) && !declared_in(segs[0], opts) {
        Some(ErrorView::UnknownOption(spelling(segs[0])))
    } else {
        first_unknown(segs.drop_first(), opts)
    }
}

/// The declaration among `opts` of a flag segment.
pub open spec fn option_def(v: SegmentView, opts: Seq<Options>) -> Option<Options> {
    match v {
        SegmentView::Short(n, _) => find_short(opts, n),
        SegmentView::Long(n, _) => find_long(opts, n),
        _ => None,
    }
}

/// The first arity failure among declared flags in `segs`.
pub open spec fn first_arity_error(segs: Seq<SegmentView>, opts: Seq<Options>) -> Option<ErrorView>
    decreases segs.len(),
{
    if segs.len() == 0 {
        None
    } else {
        match option_def(segs[0], opts) {
            Some(o) => match arity_check(segs[0], o.arguments()) {
                Err(e) => Some(e),
                Ok(_) => first_arity_error(segs.drop_first(), opts),
            },
            None => first_arity_error(segs.drop_first(), opts),
        }
    }
}

pub open spec fn as_result(e: Option<ErrorView>) -> Result<(), ErrorView> {
    match e {
        Some(x) => Err(x),
        None => Ok(()),
    }
}

/// The sub-command that a sub-command segment names, if declared.
pub open spec fn sub_of(sub_seg: Option<SegmentView>, cmd: Command) -> Option<SubCommand> {
    match sub_seg {
        Some(SegmentView::Command(Some(n), _)) => match find_sub_index(cmd.sub_cmds@, n) {
            Some(i) => Some(cmd.sub_cmds@[i]),
            None => None,
        },
        _ => None,
    }
}

/// Validation of a restructured command line; the first failure wins, in this
/// order: local flags are declared on the sub-command (with none, any local flag
/// is unknown), global flags are declared on the command, then the arity of the
/// command segment, of the sub-command segment, of each global flag and of each
/// local flag.
pub open spec fn validation(
    cmd_seg: Option<SegmentView>,
    sub_seg: Option<SegmentView>,
    locals: Seq<SegmentView>,
    globals: Seq<SegmentView>,
    cmd: Command,
) -> Result<(), ErrorView> {
    let sc = sub_of(sub_seg, cmd);
    let membership = match sub_seg {
        Some(SegmentView::Command(Some(n), _)) => match sc {
            Some(d) => first_unknown(locals, d.options@),
            None => Some(ErrorView::UnknownSubCommand(n)),
        },
        Some(_) => None,
        None => first_unknown(locals, Seq::empty()),
    };
    if membership is Some {
        as_result(membership)
    } else if first_unknown(globals, cmd.options@) is Some {
        as_result(first_unknown(globals, cmd.options@))
    } else if cmd_seg matches Some(SegmentView::Command(None, _)) && arity_check(
        cmd_seg->0,
        cmd.cmd_args@,
    ) is Err {
        arity_check(cmd_seg->0, cmd.cmd_args@)
    } else if sc is Some && arity_check(sub_seg->0, sc->0.cmd_args@) is Err {
        arity_check(sub_seg->0, sc->0.cmd_args@)
    } else if first_arity_error(globals, cmd.options@) is Some {
        as_result(first_arity_error(globals, cmd.options@))
    } else if sc is Some {
        as_result(first_arity_error(locals, sc->0.options@))
    } else {
        Ok(())
    }
}

/// What parsing a segment list gives: its restructured reading when that
/// validates, else the first failure. An empty list yields nothing, provided the
/// command accepts no arguments.
#[verifier::opaque]
pub open spec fn parse_outcome(s: Seq<SegmentView>, cmd: Command) -> Result<Restructured, ErrorView> {
    if s.len() == 0 {
        match arity_check(SegmentView::Command(None, Seq::empty()), cmd.cmd_args@) {
            Err(e) => Err(e),
            Ok(_) => Ok(
                Restructured {
                    cmd_seg: None,
                    sub_seg: None,
                    locals: Seq::empty(),
                    globals: Seq::empty(),
                    rest: Seq::empty(),
                },
            ),
        }
    } else {
        let p = restructure(s, cmd);
        match validation(p.cmd_seg, p.sub_seg, p.locals, p.globals, cmd) {
            Err(e) => Err(e),
            Ok(_) => Ok(p),
        }
    }
}

/// Copies of the arguments, in order.
fn copy_arguments(v: &Vec<Argument>) -> (r: Vec<Argument>)
    ensures
        r@ == v@,
{
    let mut out: Vec<Argument> = Vec::new();
    let n = v.len();
    let mut i: usize = 0;
    while i < n
        invariant
            n == v@.len(),
            i <= n,
            out@ == v@.take(i as int),
        decreases n - i,
    {
        out.push(v[i].duplicate());
        i = i + 1;
        assert(out@ =~= v@.take(i as int));
    }
    assert(v@.take(n as int) =~= v@);
    out
}

/// The texts of owned tokens.
fn raw_strings(a: &Vec<Segment>) -> (r: Vec<String>)
    ensures
        texts(r@) == raw_texts(views(a@)),
{
    let mut out: Vec<String> = Vec::new();
    let n = a.len();
    let mut i: usize = 0;
    while i < n
        invariant
            n == a@.len(),
            i <= n,
            texts(out@) == raw_texts(views(a@)).take(i as int),
        decreases n - i,
    {
        let t = match &a[i] {
            Segment::Raw(x) => x.clone(),
            _ => String::new(),
        };
        proof {
            assert(t@ == raw_text(a@[i as int].view_of()));
        }
        let ghost before = out@;
        out.push(t);
        assert(texts(out@) =~= texts(before).push(t@));
        i = i + 1;
        assert(texts(out@) =~= raw_texts(views(a@)).take(i as int));
    }
    assert(raw_texts(views(a@)).take(n as int) =~= raw_texts(views(a@)));
    out
}

fn owner_of_segment(target: &Segment) -> (r: ArgsOwner)
    ensures
        r.view_of() == owner_of(target.view_of()),
{
    match target {
        Segment::Short(n, _) => ArgsOwner::Short(n.clone()),
        Segment::Long(n, _) => ArgsOwner::Long(n.clone()),
        Segment::Command(Some(n), _) => ArgsOwner::SubCommand(n.clone()),
        _ => ArgsOwner::Command,
    }
}

/// A flag as typed.
fn spell(seg: &Segment) -> (r: String)
    ensures
        r@ == spelling(seg.view_of()),
{
    proof {
        reveal_strlit("-");
        reveal_strlit("--");
    }
    match seg {
        Segment::Short(n, _) => {
            let mut s = "-".to_owned();
            s.append(n.as_str());
            s
        },
        Segment::Long(n, _) => {
            let mut s = "--".to_owned();
            s.append(n.as_str());
            s
        },
        _ => String::new(),
    }
}

/// Checks the tokens `target` owns against the arguments `source` declares.
fn check_arguments<T: GetArgs>(target: &Segment, source: &T) -> (r: Result<(), ParseError>)
    ensures
        result_view(r) == arity_check(target.view_of(), source.arguments()),
{
    let defined = source.get_args();
    if !args_are_valid(defined) {
        return Err(ParseError::Internal);
    }
    let (min, max) = arity(defined);
    let args = match target {
        Segment::Short(_, a) => a,
        Segment::Long(_, a) => a,
        Segment::Command(_, a) => a,
        _ => {
            return Ok(());
        },
    };
    assert(view_all(args) =~= views(args@));
    let count = args.len();
    let within = count >= min && match max {
        Some(m) => count <= m,
        None => true,
    };
    if within {
        return Ok(());
    }
    let owner = owner_of_segment(target);
    if count == 0 {
        Err(ParseError::MissingArguments(owner, copy_arguments(defined)))
    } else if defined.len() == 0 {
        Err(ParseError::UnexpectedArguments(owner, raw_strings(args)))
    } else {
        Err(ParseError::MismatchedArguments(owner, copy_arguments(defined), raw_strings(args)))
    }
}

/// The first flag among `options` that `cmd` does not declare.
fn check_options<T: GetOpt>(options: &Vec<Segment>, cmd: &T) -> (r: Result<(), ParseError>)
    ensures
        result_view(r) == as_result(first_unknown(views(options@), cmd.option_list())),
{
    let ghost v = views(options@);
    let ghost opts = cmd.option_list();
    let n = options.len();
    let mut i: usize = 0;
    assert(v.skip(0) =~= v);
    while i < n
        invariant
            n == options@.len(),
            v == views(options@),
            opts == cmd.option_list(),
            i <= n,
            first_unknown(v, opts) == first_unknown(v.skip(i as int), opts),
        decreases n - i,
    {
        let ghost vi = v.skip(i as int);
        assert(vi.drop_first() =~= v.skip(i as int + 1));
        assert(vi[0] == options@[i as int].view_of());
        let opt = &options[i];
        match opt {
            Segment::Short(name, _) => {
                if cmd.get_short_opt(name.as_str()).is_none() {
                    return Err(ParseError::UnknownOption(spell(opt)));
                }
            },
            Segment::Long(name, _) => {
                if cmd.get_long_opt(name.as_str()).is_none() {
                    return Err(ParseError::UnknownOption(spell(opt)));
                }
            },
            _ => {},
        }
        i = i + 1;
    }
    Ok(())
}

/// The first arity failure among the flags in `options` that `ins` declares.
fn check_gol_option_arguments<T: GetOpt>(ins: &T, options: &Vec<Segment>) -> (r: Result<(), ParseError>)
    ensures
        result_view(r) == as_result(first_arity_error(views(options@), ins.option_list())),
{
    let ghost v = views(options@);
    let ghost opts = ins.option_list();
    let n = options.len();
    let mut i: usize = 0;
    assert(v.skip(0) =~= v);
    while i < n
        invariant
            n == options@.len(),
            v == views(options@),
            opts == ins.option_list(),
            i <= n,
            first_arity_error(v, opts) == first_arity_error(v.skip(i as int), opts),
        decreases n - i,
    {
        let ghost vi = v.skip(i as int);
        assert(vi.drop_first() =~= v.skip(i as int + 1));
        assert(vi[0] == options@[i as int].view_of());
        let opt = &options[i];
        let def = match opt {
            Segment::Short(name, _) => ins.get_short_opt(name.as_str()),
            Segment::Long(name, _) => ins.get_long_opt(name.as_str()),
            _ => None,
        };
        if let Some(def_opt) = def {
            let c = check_arguments(opt, def_opt);
            if c.is_err() {
                return c;
            }
        }
        i = i + 1;
    }
    Ok(())
}

/// The first flag among `options`, reported as unknown: none is declared.
fn first_option_unknown(options: &Vec<Segment>) -> (r: Result<(), ParseError>)
    ensures
        result_view(r) == as_result(first_unknown(views(options@), Seq::empty())),
{
    let ghost v = views(options@);
    let ghost none = Seq::<Options>::empty();
    let n = options.len();
    let mut i: usize = 0;
    assert(v.skip(0) =~= v);
    while i < n
        invariant
            n == options@.len(),
            v == views(options@),
            none == Seq::<Options>::empty(),
            i <= n,
            first_unknown(v, none) == first_unknown(v.skip(i as int), none),
        decreases n - i,
    {
        let ghost vi = v.skip(i as int);
        assert(vi.drop_first() =~= v.skip(i as int + 1));
        assert(vi[0] == options@[i as int].view_of());
        proof {
            crate::model::lemma_nothing_declared(vi[0]);
        }
        if options[i].is_option() {
            return Err(ParseError::UnknownOption(spell(&options[i])));
        }
        i = i + 1;
    }
    Ok(())
}

/// Checks a restructured command line against `cmd` (see `validation`).
fn validate(
    cmd_segs: &Option<Segment>,
    sub_segs: &Option<Segment>,
    local_options: &Vec<Segment>,
    global_options: &Vec<Segment>,
    cmd: &Command,
) -> (r: Result<(), ParseError>)
    ensures
        result_view(r) == validation(
            opt_view(*cmd_segs),
            opt_view(*sub_segs),
            views(local_options@),
            views(global_options@),
            *cmd,
        ),
{
    let mut sub_cmd: Option<&SubCommand> = None;
    match sub_segs {
        Some(Segment::Command(Some(sub_cmd_name), _)) => {
            match cmd.get_sub_cmd(sub_cmd_name.as_str()) {
                Some(sc) => {
                    let c = check_options(local_options, sc);
                    if c.is_err() {
                        return c;
                    }
                    sub_cmd = Some(sc);
                },
                None => {
                    return Err(ParseError::UnknownSubCommand(sub_cmd_name.clone()));
                },
            }
        },
        Some(_) => {},
        None => {
            let c = first_option_unknown(local_options);
            if c.is_err() {
                return c;
            }
        },
    }
    let c = check_options(global_options, cmd);
    if c.is_err() {
        return c;
    }
    if let Some(cmd_seg) = cmd_segs {
        if let Segment::Command(None, _) = cmd_seg {
            let c = check_arguments(cmd_seg, cmd);
            if c.is_err() {
                return c;
            }
        }
    }
    if let Some(sc) = sub_cmd {
        if let Some(sub_seg) = sub_segs {
            let c = check_arguments(sub_seg, sc);
            if c.is_err() {
                return c;
            }
        }
    }
    let c = check_gol_option_arguments(cmd, global_options);
    if c.is_err() {
        return c;
    }
    if let Some(sc) = sub_cmd {
        return check_gol_option_arguments(sc, local_options);
    }
    Ok(())
}

/// Why parsing stopped short of a structured result.
#[derive(Debug)]
pub enum TerminatorKind {
    /// Help for the command was asked for.
    GlobalHelp,
    /// The version of the command was asked for.
    GlobalVersion,
    /// Help for the named sub-command was asked for.
    Help(String),
    /// The version of the named sub-command was asked for.
    Version(String),
    /// The command line was rejected.
    Other(ParseError),
}

/// Which terminating flag a command line holds first.
#[derive(Debug, PartialEq, Eq)]
pub enum TerminatorType {
    Version,
    Help,
    Empty,
}

/// The command segment and sub-command segment, the local flags and the global flags.
pub type ParserResult = Result<((Option<Segment>, Option<Segment>), Vec<Segment>, Vec<Segment>), TerminatorKind>;

/// The terminating flag, if any, that one segment is: `-v`/`--version` or `-h`/`--help`.
pub open spec fn terminator_of(v: SegmentView) -> TerminatorType {
    match v {
        SegmentView::Short(n, _) => if n == seq!['v'] {
            TerminatorType::Version
        } else if n == seq!['h'] {
            TerminatorType::Help
        } else {
            TerminatorType::Empty
        },
        SegmentView::Long(n, _) => if n == seq!['v', 'e', 'r', 's', 'i', 'o', 'n'] {
            TerminatorType::Version
        } else if n == seq!['h', 'e', 'l', 'p'] {
            TerminatorType::Help
        } else {
            TerminatorType::Empty
        },
        _ => TerminatorType::Empty,
    }
}

/// The first terminating flag in the list.
pub open spec fn first_terminator(s: Seq<SegmentView>) -> TerminatorType
    decreases s.len(),
{
    if s.len() == 0 {
        TerminatorType::Empty
    } else if !(terminator_of(s[0]) is Empty) {
        terminator_of(s[0])
    } else {
        first_terminator(s.drop_first())
    }
}

/// A `Restructured` reading matches a parser result.
pub open spec fn result_matches(r: ParserResult, o: Result<Restructured, ErrorView>) -> bool {
    match (r, o) {
        (Ok(((c, sc), l, g)), Ok(p)) => {
            &&& opt_view(c) == p.cmd_seg
            &&& opt_view(sc) == p.sub_seg
            &&& views(l@) == p.locals
            &&& views(g@) == p.globals
        },
        (Err(TerminatorKind::Other(e)), Err(ev)) => e.view_of() == ev,
        _ => false,
    }
}

/// The sub-command that the first segment names, when it is raw.
pub open spec fn first_sub(s: Seq<SegmentView>, cmd: Command) -> Option<SubCommand> {
    if s.len() > 0 && s[0] is Raw {
        match find_sub_index(cmd.sub_cmds@, raw_text(s[0])) {
            Some(i) => Some(cmd.sub_cmds@[i]),
            None => None,
        }
    } else {
        None
    }
}

/// How a command line ends: help or version for the sub-command that its first
/// token names (when that declares `--help` / `--version`), else for the command
/// (when it declares them), else the parse of the whole line.
pub ghost enum CliOutcome {
    GlobalHelp,
    GlobalVersion,
    Help(Seq<char>),
    Version(Seq<char>),
    Parsed(Result<Restructured, ErrorView>),
}

pub open spec fn cli_outcome(s: Seq<SegmentView>, cmd: Command) -> CliOutcome {
    let help = seq!['h', 'e', 'l', 'p'];
    let version = seq!['v', 'e', 'r', 's', 'i', 'o', 'n'];
    let fs = first_sub(s, cmd);
    match first_terminator(s) {
        TerminatorType::Help => if fs is Some && find_long(fs->0.options@, help) is Some {
            CliOutcome::Help(raw_text(s[0]))
        } else if find_long(cmd.options@, help) is Some {
            CliOutcome::GlobalHelp
        } else {
            CliOutcome::Parsed(parse_outcome(s, cmd))
        },
        TerminatorType::Version => if fs is Some && find_long(fs->0.options@, version) is Some {
            CliOutcome::Version(raw_text(s[0]))
        } else if find_long(cmd.options@, version) is Some {
            CliOutcome::GlobalVersion
        } else {
            CliOutcome::Parsed(parse_outcome(s, cmd))
        },
        TerminatorType::Empty => CliOutcome::Parsed(parse_outcome(s, cmd)),
    }
}

pub open spec fn cli_matches(r: ParserResult, o: CliOutcome) -> bool {
    match o {
        CliOutcome::GlobalHelp => r matches Err(TerminatorKind::GlobalHelp),
        CliOutcome::GlobalVersion => r matches Err(TerminatorKind::GlobalVersion),
        CliOutcome::Help(n) => r matches Err(TerminatorKind::Help(x)) && x@ == n,
        CliOutcome::Version(n) => r matches Err(TerminatorKind::Version(x)) && x@ == n,
        CliOutcome::Parsed(p) => result_matches(r, p),
    }
}

/// The segment list of one command line (the process path excluded).
#[derive(Debug, PartialEq, Eq)]
pub struct SegmentWrapper(pub Vec<Segment>);

impl SegmentWrapper {
    pub open spec fn view(&self) -> Seq<SegmentView> {
        views(self.0@)
    }

    /// Gives every flag before the terminator the raw segments that directly
    /// follow it, however many its declaration accepts.
    pub fn divide_option_arguments(&mut self)
        ensures
            final(self).view() == attach(old(self).view()),
    {
        let mut rest: Vec<Segment> = Vec::new();
        std::mem::swap(&mut rest, &mut self.0);
        assert(views(self.0@) =~= Seq::<SegmentView>::empty());
        while rest.len() > 0
            invariant
                attach(old(self).view()) == views(self.0@) + attach(views(rest@)),
            decreases rest@.len(),
        {
            let ghost r0 = rest@;
            let ghost v0 = views(r0);
            let ghost out0 = views(self.0@);
            let seg = rest.remove(0);
            assert(v0.drop_first() =~= views(rest@));
            match seg {
                Segment::DoubleSub => {
                    proof {
                        lemma_views_push(self.0@, Segment::DoubleSub);
                        lemma_views_add(self.0@.push(Segment::DoubleSub), rest@);
                        assert(v0 =~= seq![SegmentView::DoubleSub] + views(rest@));
                    }
                    self.0.push(Segment::DoubleSub);
                    self.0.append(&mut rest);
                    assert(views(rest@) =~= Seq::<SegmentView>::empty());
                    assert(attach(views(rest@)) =~= Seq::<SegmentView>::empty());
                    assert(views(self.0@) + attach(views(rest@)) =~= out0 + attach(v0));
                },
                Segment::Short(name, args) => {
                    let ghost a0 = args@;
                    let ghost rest1 = rest@;
                    assert(view_all(&args) =~= views(a0));
                    assert(v0[0] == SegmentView::Short(name@, views(a0)));
                    let mut args = args;
                    take_raws(&mut rest, &mut args);
                    proof {
                        let k = lead_raws(views(rest1)) as int;
                        lemma_lead_raws(views(rest1));
                        lemma_views_subrange(rest1, 0, k as int);
                        lemma_views_subrange(rest1, k as int, rest1.len() as int);
                        lemma_views_add(a0, rest1.take(k as int));
                        assert(views(rest1.take(k as int)) =~= v0.subrange(1, 1 + k));
                        assert(views(rest@) =~= v0.subrange(1 + k, v0.len() as int));
                        assert(view_all(&args) =~= views(args@));
                    }
                    let seg = Segment::Short(name, args);
                    proof {
                        lemma_views_push(self.0@, seg);
                        let k = lead_raws(views(rest1)) as int;
                        assert(attach(v0) == seq![seg.view_of()] + attach(views(rest@)));
                    }
                    self.0.push(seg);
                    assert(views(self.0@) + attach(views(rest@)) =~= out0 + attach(v0));
                },
                Segment::Long(name, args) => {
                    let ghost a0 = args@;
                    let ghost rest1 = rest@;
                    assert(view_all(&args) =~= views(a0));
                    assert(v0[0] == SegmentView::Long(name@, views(a0)));
                    let mut args = args;
                    take_raws(&mut rest, &mut args);
                    proof {
                        let k = lead_raws(views(rest1)) as int;
                        lemma_lead_raws(views(rest1));
                        lemma_views_subrange(rest1, 0, k as int);
                        lemma_views_subrange(rest1, k as int, rest1.len() as int);
                        lemma_views_add(a0, rest1.take(k as int));
                        assert(views(rest1.take(k as int)) =~= v0.subrange(1, 1 + k));
                        assert(views(rest@) =~= v0.subrange(1 + k, v0.len() as int));
                        assert(view_all(&args) =~= views(args@));
                    }
                    let seg = Segment::Long(name, args);
                    proof {
                        lemma_views_push(self.0@, seg);
                        let k = lead_raws(views(rest1)) as int;
                        assert(attach(v0) == seq![seg.view_of()] + attach(views(rest@)));
                    }
                    self.0.push(seg);
                    assert(views(self.0@) + attach(views(rest@)) =~= out0 + attach(v0));
                },
                other => {
                    proof {
                        lemma_views_push(self.0@, other);
                        assert(attach(v0) == seq![v0[0]] + attach(views(rest@)));
                    }
                    self.0.push(other);
                    assert(views(self.0@) + attach(views(rest@)) =~= out0 + attach(v0));
                },
            }
        }
        assert(views(self.0@) + attach(views(rest@)) =~= views(self.0@));
    }

    /// Takes out everything from the first terminator on, and gives back the raw
    /// segments among it.
    fn remove_raws(&mut self) -> (r: Vec<Segment>)
        ensures
            final(self).view() == before_dd(old(self).view()),
            views(r@) == tail_raws(old(self).view()),
    {
        let ghost v0 = self.view();
        proof {
            v0.index_of_first_ensures(SegmentView::DoubleSub);
        }
        let n = self.0.len();
        let mut i: usize = 0;
        while i < n && !self.0[i].is_terminator()
            invariant
                n == self.0@.len(),
                v0 == views(self.0@),
                self.0@ == old(self).0@,
                i <= n,
                forall|k: int| 0 <= k < i ==> v0[k] != SegmentView::DoubleSub,
            decreases n - i,
        {
            i = i + 1;
        }
        proof {
            if i < n {
                assert(v0[i as int] == SegmentView::DoubleSub);
            }
        }
        let mut tail = self.0.split_off(i);
        let ghost t0 = tail@;
        proof {
            lemma_views_subrange(old(self).0@, 0, i as int);
            lemma_views_subrange(old(self).0@, i as int, n as int);
            if i == n {
                assert(views(self.0@) =~= v0);
            }
        }
        let mut raws: Vec<Segment> = Vec::new();
        let ghost mut consumed: int = 0;
        while tail.len() > 0
            invariant
                0 <= consumed <= t0.len(),
                tail@ == t0.skip(consumed),
                views(raws@) == raw_segments(views(t0).take(consumed)),
            decreases tail@.len(),
        {
            let x = tail.remove(0);
            proof {
                reveal(Seq::filter);
                let pre = views(t0).take(consumed + 1);
                assert(pre.drop_last() =~= views(t0).take(consumed));
                assert(pre.last() == x.view_of());
                assert(is_raw_view(x.view_of()) == (x is Raw));
                assert(raw_segments(pre) == if is_raw_view(pre.last()) {
                    raw_segments(pre.drop_last()).push(pre.last())
                } else {
                    raw_segments(pre.drop_last())
                });
            }
            if x.is_raw() {
                proof {
                    lemma_views_push(raws@, x);
                }
                raws.push(x);
            }
            proof {
                consumed = consumed + 1;
                assert(tail@ =~= t0.skip(consumed));
            }
        }
        proof {
            assert(views(t0).take(consumed) =~= views(t0));
            if i < n {
                assert(views(t0) =~= v0.skip(i as int));
            } else {
                assert(views(t0) =~= Seq::<SegmentView>::empty());
            }
        }
        raws
    }

    /// Takes out the leading command container together with the raw tail after
    /// the terminator, and splits them between the command and the sub-command
    /// that the first positional token to name one selects.
    fn remove_cmd(&mut self, cmd: &Command) -> (r: (Option<Segment>, Option<Segment>))
        ensures
            ({
                let a = old(self).view();
                let sp = split_cmd(before_dd(a), tail_raws(a), sub_names(cmd.sub_cmds@));
                &&& opt_view(r.0) == sp.0
                &&& opt_view(r.1) == sp.1
                &&& final(self).view() == sp.2
            }),
    {
        let mut raws = self.remove_raws();
        let ghost body = self.view();
        let ghost rv = views(raws@);
        let ghost names = sub_names(cmd.sub_cmds@);
        if self.0.len() > 0 && self.0[0].is_command() {
            let first = self.0.remove(0);
            assert(views(self.0@) =~= body.drop_first());
            match first {
                Segment::Command(_, args) => {
                    let ghost av = views(args@);
                    assert(view_all(&args) =~= av);
                    assert(owned(body[0]) == av);
                    proof {
                        lemma_sub_split(av, names);
                    }
                    match find_sub_split(&args, cmd) {
                        Some(i) => {
                            let mut args = args;
                            let mut after = args.split_off(i);
                            let ghost after0 = after@;
                            let name_seg = after.remove(0);
                            proof {
                                lemma_views_subrange(args@.add(after0), 0, i as int);
                                assert(av[i as int] == name_seg.view_of());
                            }
                            let name = match name_seg {
                                Segment::Raw(x) => x,
                                _ => String::new(),
                            };
                            proof {
                                lemma_views_add(after@, raws@);
                            }
                            after.append(&mut raws);
                            proof {
                                assert(views(args@) =~= av.take(i as int));
                                assert(views(after@) =~= av.skip(i + 1) + rv);
                                assert(view_all(&args) =~= views(args@));
                                assert(view_all(&after) =~= views(after@));
                            }
                            let sub = Segment::Command(Some(name), after);
                            if args.len() == 0 {
                                (None, Some(sub))
                            } else {
                                (Some(Segment::Command(None, args)), Some(sub))
                            }
                        },
                        None => {
                            let mut args = args;
                            proof {
                                lemma_views_add(args@, raws@);
                            }
                            args.append(&mut raws);
                            assert(view_all(&args) =~= av + rv);
                            if args.len() == 0 {
                                (None, None)
                            } else {
                                (Some(Segment::Command(None, args)), None)
                            }
                        },
                    }
                },
                _ => (None, None),
            }
        } else if raws.len() > 0 {
            assert(view_all(&raws) =~= rv);
            (Some(Segment::Command(None, raws)), None)
        } else {
            (None, None)
        }
    }

    /// Takes out the flags that name a global option of `cmd`, in order.
    fn remove_global_options(&mut self, cmd: &Command) -> (r: Vec<Segment>)
        ensures
            views(r@) == global_segments(old(self).view(), cmd.options@),
            final(self).view() == other_segments(old(self).view(), cmd.options@),
    {
        let mut rest: Vec<Segment> = Vec::new();
        std::mem::swap(&mut rest, &mut self.0);
        let ghost t0 = rest@;
        let ghost opts = cmd.options@;
        let mut globals: Vec<Segment> = Vec::new();
        let ghost mut consumed: int = 0;
        proof {
            reveal(Seq::filter);
            assert(views(t0).take(0) =~= Seq::<SegmentView>::empty());
            assert(views(self.0@) =~= Seq::<SegmentView>::empty());
        }
        while rest.len() > 0
            invariant
                opts == cmd.options@,
                0 <= consumed <= t0.len(),
                t0 == old(self).0@,
                rest@ == t0.skip(consumed),
                views(globals@) == global_segments(views(t0).take(consumed), opts),
                views(self.0@) == other_segments(views(t0).take(consumed), opts),
            decreases rest@.len(),
        {
            let x = rest.remove(0);
            let global = match &x {
                Segment::Short(name, _) => cmd.get_short_opt(name.as_str()).is_some(),
                Segment::Long(name, _) => cmd.get_long_opt(name.as_str()).is_some(),
                _ => false,
            };
            proof {
                reveal(Seq::filter);
                let pre = views(t0).take(consumed + 1);
                assert(pre.drop_last() =~= views(t0).take(consumed));
                assert(pre.last() == x.view_of());
                assert(global == declared_in(x.view_of(), opts));
            }
            if global {
                proof {
                    lemma_views_push(globals@, x);
                }
                globals.push(x);
            } else {
                proof {
                    lemma_views_push(self.0@, x);
                }
                self.0.push(x);
            }
            proof {
                consumed = consumed + 1;
                assert(rest@ =~= t0.skip(consumed));
            }
        }
        assert(views(t0).take(consumed) =~= views(t0));
        globals
    }

    /// Takes out every remaining flag, in order.
    fn remove_options(&mut self) -> (r: Vec<Segment>)
        ensures
            views(r@) == option_segments(old(self).view()),
            final(self).view() == plain_segments(old(self).view()),
    {
        let mut rest: Vec<Segment> = Vec::new();
        std::mem::swap(&mut rest, &mut self.0);
        let ghost t0 = rest@;
        let mut options: Vec<Segment> = Vec::new();
        let ghost mut consumed: int = 0;
        proof {
            reveal(Seq::filter);
            assert(views(t0).take(0) =~= Seq::<SegmentView>::empty());
            assert(views(self.0@) =~= Seq::<SegmentView>::empty());
        }
        while rest.len() > 0
            invariant
                0 <= consumed <= t0.len(),
                t0 == old(self).0@,
                rest@ == t0.skip(consumed),
                views(options@) == option_segments(views(t0).take(consumed)),
                views(self.0@) == plain_segments(views(t0).take(consumed)),
            decreases rest@.len(),
        {
            let x = rest.remove(0);
            proof {
                reveal(Seq::filter);
                let pre = views(t0).take(consumed + 1);
                assert(pre.drop_last() =~= views(t0).take(consumed));
                assert(pre.last() == x.view_of());
            }
            if x.is_option() {
                proof {
                    lemma_views_push(options@, x);
                }
                options.push(x);
            } else {
                proof {
                    lemma_views_push(self.0@, x);
                }
                self.0.push(x);
            }
            proof {
                consumed = consumed + 1;
                assert(rest@ =~= t0.skip(consumed));
            }
        }
        assert(views(t0).take(consumed) =~= views(t0));
        options
    }

    pub fn len(&self) -> (r: usize)
        ensures
            r == self.0@.len(),
    {
        self.0.len()
    }

    pub fn is_empty(&self) -> (r: bool)
        ensures
            r == (self.0@.len() == 0),
    {
        self.len() == 0
    }

    /// Restructures and validates the list against `cmd`.
    fn parse(&mut self, cmd: &Command) -> (r: ParserResult)
        ensures
            result_matches(r, parse_outcome(old(self).view(), *cmd)),
            final(self).view() == if old(self).view().len() == 0 {
                old(self).view()
            } else {
                restructure(old(self).view(), *cmd).rest
            },
    {
        reveal(parse_outcome);
        if !self.0.is_empty() {
            let (cmd_segs, sub_segs, local_options, global_options) = self.restructure(cmd);
            match validate(&cmd_segs, &sub_segs, &local_options, &global_options, cmd) {
                Ok(_) => Ok(((cmd_segs, sub_segs), local_options, global_options)),
                Err(e) => Err(TerminatorKind::Other(e)),
            }
        } else {
            let nothing: Vec<Segment> = Vec::new();
            assert(view_all(&nothing) =~= Seq::<SegmentView>::empty());
            let empty = Segment::Command(None, nothing);
            match check_arguments(&empty, cmd) {
                Ok(_) => {
                    let none: Vec<Segment> = Vec::new();
                    let no_globals: Vec<Segment> = Vec::new();
                    assert(views(none@) =~= Seq::<SegmentView>::empty());
                    assert(views(no_globals@) =~= Seq::<SegmentView>::empty());
                    Ok(((None, None), none, no_globals))
                },
                Err(e) => Err(TerminatorKind::Other(e)),
            }
        }
    }

    /// Restructures and validates the list against `cmd`, returning the first
    /// failure as a value.
    pub fn parse_test(&mut self, cmd: &Command) -> (r: ParserResult)
        ensures
            result_matches(r, parse_outcome(old(self).view(), *cmd)),
            final(self).view() == if old(self).view().len() == 0 {
                old(self).view()
            } else {
                restructure(old(self).view(), *cmd).rest
            },
    {
        self.parse(cmd)
    }

    /// The first `-v`/`--version` or `-h`/`--help` in the list.
    pub fn get_terminator(&self) -> (r: TerminatorType)
        ensures
            r == first_terminator(self.view()),
    {
        proof {
            reveal_strlit("v");
            reveal_strlit("h");
            reveal_strlit("version");
            reveal_strlit("help");
        }
        let v = "v".to_owned();
        let h = "h".to_owned();
        let version = "version".to_owned();
        let help = "help".to_owned();
        let ghost sv = self.view();
        let n = self.0.len();
        let mut i: usize = 0;
        assert(sv.skip(0) =~= sv);
        while i < n
            invariant
                n == self.0@.len(),
                sv == self.view(),
                v@ == seq!['v'],
                h@ == seq!['h'],
                version@ == seq!['v', 'e', 'r', 's', 'i', 'o', 'n'],
                help@ == seq!['h', 'e', 'l', 'p'],
                i <= n,
                first_terminator(sv) == first_terminator(sv.skip(i as int)),
            decreases n - i,
        {
            let ghost si = sv.skip(i as int);
            assert(si.drop_first() =~= sv.skip(i as int + 1));
            assert(si[0] == self.0@[i as int].view_of());
            match &self.0[i] {
                Segment::Short(name, _) => {
                    if *name == v {
                        return TerminatorType::Version;
                    } else if *name == h {
                        return TerminatorType::Help;
                    }
                },
                Segment::Long(name, _) => {
                    if *name == version {
                        return TerminatorType::Version;
                    } else if *name == help {
                        return TerminatorType::Help;
                    }
                },
                _ => {},
            }
            i = i + 1;
        }
        TerminatorType::Empty
    }

    /// Parses process arguments (the process path excluded) against `cmd`: a
    /// declared help or version flag ends parsing early, otherwise the line is
    /// restructured and validated.
    pub fn parse_cli(cmd: &Command, args: Vec<String>) -> (r: ParserResult)
        ensures
            cli_matches(r, cli_outcome(crate::segment::tokenize(texts(args@)), *cmd)),
    {
        let segments = Segment::from_vec(args);
        let mut segment_wrapper = SegmentWrapper(segments);
        let terminator = segment_wrapper.get_terminator();
        let ghost sv = segment_wrapper.view();
        let found_sub = if segment_wrapper.is_empty() {
            None
        } else if let Segment::Raw(may_sub_name) = &segment_wrapper.0[0] {
            assert(sv[0] == SegmentView::Raw(may_sub_name@));
            cmd.get_sub_cmd(may_sub_name.as_str())
        } else {
            None
        };
        assert(match found_sub {
            Some(x) => first_sub(sv, *cmd) == Some(*x),
            None => first_sub(sv, *cmd) is None,
        });
        proof {
            reveal_strlit("help");
            reveal_strlit("version");
        }
        assert("help"@ =~= seq!['h', 'e', 'l', 'p']);
        assert("version"@ =~= seq!['v', 'e', 'r', 's', 'i', 'o', 'n']);
        match terminator {
            TerminatorType::Help => {
                if let Some(sub) = found_sub {
                    if sub.get_long_opt("help").is_some() {
                        let name = match &segment_wrapper.0[0] {
                            Segment::Raw(x) => x.clone(),
                            _ => String::new(),
                        };
                        return Err(TerminatorKind::Help(name));
                    }
                }
                if cmd.get_long_opt("help").is_some() {
                    return Err(TerminatorKind::GlobalHelp);
                }
            },
            TerminatorType::Version => {
                if let Some(sub) = found_sub {
                    if sub.get_long_opt("version").is_some() {
                        let name = match &segment_wrapper.0[0] {
                            Segment::Raw(x) => x.clone(),
                            _ => String::new(),
                        };
                        return Err(TerminatorKind::Version(name));
                    }
                }
                if cmd.get_long_opt("version").is_some() {
                    return Err(TerminatorKind::GlobalVersion);
                }
            },
            TerminatorType::Empty => {},
        }
        segment_wrapper.parse(cmd)
    }

    /// Runs every restructuring pass and gives the command segment, the
    /// sub-command segment, the local flags and the global flags; what is left
    /// over stays in the list.
    pub fn restructure(&mut self, cmd: &Command) -> (r: (Option<Segment>, Option<Segment>, Vec<Segment>, Vec<Segment>))
        ensures
            ({
                let p = restructure(old(self).view(), *cmd);
                &&& opt_view(r.0) == p.cmd_seg
                &&& opt_view(r.1) == p.sub_seg
                &&& views(r.2@) == p.locals
                &&& views(r.3@) == p.globals
                &&& final(self).view() == p.rest
            }),
    {
        self.divide_option_arguments();
        self.divide_cmd_arguments();
        let (cmd_segs, sub_segs) = self.remove_cmd(cmd);
        let global_options = self.remove_global_options(cmd);
        let local_options = self.remove_options();
        (cmd_segs, sub_segs, local_options, global_options)
    }

    /// Gathers the raw segments that open the list into a command container at
    /// its front, or into the container that stands there already.
    pub fn divide_cmd_arguments(&mut self)
        ensures
            final(self).view() == divide_cmd(old(self).view()),
    {
        if self.0.len() == 0 {
            return;
        }
        let ghost v0 = views(self.0@);
        if self.0[0].is_command() {
            let mut rest = self.0.split_off(1);
            let ghost rest1 = rest@;
            assert(views(rest1) =~= v0.drop_first());
            match self.0.pop() {
                Some(Segment::Command(n, args)) => {
                    let ghost a0 = args@;
                    assert(view_all(&args) =~= views(a0));
                    let mut args = args;
                    take_raws(&mut rest, &mut args);
                    proof {
                        let k = lead_raws(views(rest1)) as int;
                        lemma_lead_raws(views(rest1));
                        lemma_views_subrange(rest1, 0, k);
                        lemma_views_subrange(rest1, k, rest1.len() as int);
                        lemma_views_add(a0, rest1.take(k));
                        assert(views(rest1.take(k)) =~= v0.subrange(1, 1 + k));
                        assert(views(rest@) =~= v0.subrange(1 + k, v0.len() as int));
                        assert(view_all(&args) =~= views(args@));
                    }
                    let seg = Segment::Command(n, args);
                    proof {
                        lemma_views_push(self.0@, seg);
                        lemma_views_add(self.0@.push(seg), rest@);
                    }
                    self.0.push(seg);
                    self.0.append(&mut rest);
                    assert(views(self.0@) =~= divide_cmd(v0));
                },
                _ => {},
            }
        } else {
            let mut rest: Vec<Segment> = Vec::new();
            std::mem::swap(&mut rest, &mut self.0);
            let ghost rest1 = rest@;
            let mut run: Vec<Segment> = Vec::new();
            take_raws(&mut rest, &mut run);
            proof {
                let k = lead_raws(views(rest1)) as int;
                lemma_lead_raws(views(rest1));
                lemma_views_subrange(rest1, 0, k);
                lemma_views_subrange(rest1, k, rest1.len() as int);
                assert(run@ =~= rest1.take(k));
                assert(view_all(&run) =~= views(run@));
            }
            if run.len() > 0 {
                let seg = Segment::Command(None, run);
                proof {
                    lemma_views_push(self.0@, seg);
                    lemma_views_add(self.0@.push(seg), rest@);
                }
                self.0.push(seg);
                self.0.append(&mut rest);
                assert(views(self.0@) =~= divide_cmd(v0));
            } else {
                proof {
                    lemma_views_add(self.0@, rest@);
                }
                self.0.append(&mut rest);
                assert(views(self.0@) =~= divide_cmd(v0));
            }
        }
    }
}

} // verus!
