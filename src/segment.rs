use vstd::prelude::*;
use vstd::string::*;

verus! {

broadcast use vstd::std_specs::vec::group_vec_axioms;

/// A classified unit of a command line.
#[derive(Debug, PartialEq, Eq)]
pub enum Segment {
    /// A one-letter flag and the tokens it owns.
    Short(String, Vec<Segment>),
    /// A long flag and the tokens it owns.
    Long(String, Vec<Segment>),
    /// The `--` terminator.
    DoubleSub,
    /// An unclassified literal token.
    Raw(String),
    /// Positional tokens of the command (`None`) or of the named sub-command.
    Command(Option<String>, Vec<Segment>),
    /// A placeholder that carries nothing.
    Empty,
}

/// The mathematical form of a `Segment`: strings become character sequences.
pub ghost enum SegmentView {
    Short(Seq<char>, Seq<SegmentView>),
    Long(Seq<char>, Seq<SegmentView>),
    DoubleSub,
    Raw(Seq<char>),
    Command(Option<Seq<char>>, Seq<SegmentView>),
    Empty,
}

pub open spec fn view_all(v: &Vec<Segment>) -> Seq<SegmentView>
    decreases v, 0nat,
{
    Seq::new(
        v.len() as nat,
        |i: int|
            if 0 <= i < v.len() {
                v[i].view_of()
            } else {
                SegmentView::Empty
            },
    )
}

/// The views of a sequence of segments.
pub open spec fn views(s: Seq<Segment>) -> Seq<SegmentView> {
    s.map_values(|x: Segment| x.view_of())
}

pub open spec fn opt_text(n: Option<String>) -> Option<Seq<char>> {
    match n {
        Some(x) => Some(x@),
        None => None,
    }
}

impl Segment {
    pub open spec fn view_of(&self) -> SegmentView
        decreases self, 1nat,
    {
        match self {
            Segment::Short(n, a) => SegmentView::Short(n@, view_all(a)),
            Segment::Long(n, a) => SegmentView::Long(n@, view_all(a)),
            Segment::DoubleSub => SegmentView::DoubleSub,
            Segment::Raw(s) => SegmentView::Raw(s@),
            Segment::Command(n, a) => SegmentView::Command(opt_text(*n), view_all(a)),
            Segment::Empty => SegmentView::Empty,
        }
    }
}

pub proof fn lemma_views_push(s: Seq<Segment>, x: Segment)
    ensures
        views(s.push(x)) == views(s).push(x.view_of()),
{
    assert(views(s.push(x)) =~= views(s).push(x.view_of()));
}

pub proof fn lemma_views_add(s: Seq<Segment>, t: Seq<Segment>)
    ensures
        views(s + t) == views(s) + views(t),
{
    assert(views(s + t) =~= views(s) + views(t));
}

/// ASCII letters, digits and `_`.
pub open spec fn is_word_char(c: char) -> bool {
    c == '_' || ('a' <= c && c <= 'z') || ('A' <= c && c <= 'Z') || ('0' <= c && c <= '9')
}

/// A nonempty run of word characters.
pub open spec fn spec_is_lit_word(s: Seq<char>) -> bool {
    s.len() > 0 && forall|i: int| 0 <= i < s.len() ==> is_word_char(#[trigger] s[i])
}

/// `-` followed by one or more word characters.
pub open spec fn spec_is_short(s: Seq<char>) -> bool {
    s.len() >= 2 && s[0] == '-' && spec_is_lit_word(s.drop_first())
}

/// One or more words joined by single hyphens.
pub open spec fn is_option_key(k: Seq<char>) -> bool {
    &&& k.len() > 0
    &&& k[0] != '-'
    &&& k[k.len() - 1] != '-'
    &&& forall|i: int| 0 <= i < k.len() ==> is_word_char(#[trigger] k[i]) || k[i] == '-'
    &&& forall|i: int| 0 <= i < k.len() - 1 && #[trigger] k[i] == '-' ==> k[i + 1] != '-'
}

/// What follows the leading `--`.
pub open spec fn long_body(s: Seq<char>) -> Seq<char> {
    s.subrange(2, s.len() as int)
}

/// The key of a long flag: the body up to its first `=`.
pub open spec fn long_key(s: Seq<char>) -> Seq<char> {
    match long_body(s).index_of_first('=') {
        Some(k) => long_body(s).take(k),
        None => long_body(s),
    }
}

/// The inline value of a long flag: the body after its first `=`.
pub open spec fn long_value(s: Seq<char>) -> Option<Seq<char>> {
    match long_body(s).index_of_first('=') {
        Some(k) => Some(long_body(s).skip(k + 1)),
        None => None,
    }
}

/// `--key` or `--key=value` with a well-formed key and a nonempty value.
pub open spec fn spec_is_long(s: Seq<char>) -> bool {
    &&& s.len() >= 3
    &&& s[0] == '-'
    &&& s[1] == '-'
    &&& is_option_key(long_key(s))
    &&& match long_value(s) {
        Some(v) => v.len() > 0,
        None => true,
    }
}

pub open spec fn spec_is_double_sub(s: Seq<char>) -> bool {
    s == seq!['-', '-']
}

/// One short-flag segment per letter after the leading `-`.
pub open spec fn short_segments(s: Seq<char>) -> Seq<SegmentView> {
    Seq::new(
        (s.len() - 1) as nat,
        |i: int| SegmentView::Short(seq![s[i + 1]], Seq::empty()),
    )
}

/// The segments that one token yields before the terminator.
pub open spec fn classify(t: Seq<char>) -> Seq<SegmentView> {
    if spec_is_double_sub(t) {
        seq![SegmentView::DoubleSub]
    } else if spec_is_long(t) {
        seq![
            SegmentView::Long(
                long_key(t),
                match long_value(t) {
                    Some(v) => seq![SegmentView::Raw(v)],
                    None => Seq::empty(),
                },
            ),
        ]
    } else if spec_is_short(t) {
        short_segments(t)
    } else if t.len() == 0 {
        Seq::empty()
    } else {
        seq![SegmentView::Raw(t)]
    }
}

/// Whether a `--` occurs among the tokens.
pub open spec fn terminated(toks: Seq<Seq<char>>) -> bool
    decreases toks.len(),
{
    toks.len() > 0 && (terminated(toks.drop_last()) || spec_is_double_sub(toks.last()))
}

/// The segments of a whole token list: after the first `--` every token is raw.
pub open spec fn tokenize(toks: Seq<Seq<char>>) -> Seq<SegmentView>
    decreases toks.len(),
{
    if toks.len() == 0 {
        Seq::empty()
    } else {
        tokenize(toks.drop_last()) + if terminated(toks.drop_last()) {
            seq![SegmentView::Raw(toks.last())]
        } else {
            classify(toks.last())
        }
    }
}

pub open spec fn texts(v: Seq<String>) -> Seq<Seq<char>> {
    v.map_values(|s: String| s@)
}

/// The characters of `s`, in order.
pub(crate) fn chars_of(s: &str) -> (r: Vec<char>)
    ensures
        r@ == s@,
{
    let n = s.unicode_len();
    let mut v: Vec<char> = Vec::new();
    let mut i: usize = 0;
    while i < n
        invariant
            n == s@.len(),
            i <= n,
            v@ == s@.take(i as int),
        decreases n - i,
    {
        v.push(s.get_char(i));
        i = i + 1;
        assert(v@ =~= s@.take(i as int));
    }
    assert(s@.take(n as int) =~= s@);
    v
}

/// Whether every character of `v[from..to]` is a word character.
fn all_word_chars(v: &Vec<char>, from: usize, to: usize) -> (r: bool)
    requires
        from <= to <= v@.len(),
    ensures
        r == forall|i: int| from <= i < to ==> is_word_char(#[trigger] v@[i]),
{
    let mut i = from;
    while i < to
        invariant
            from <= i <= to <= v@.len(),
            forall|k: int| from <= k < i ==> is_word_char(#[trigger] v@[k]),
        decreases to - i,
    {
        let c = v[i];
        if !(c == '_' || ('a' <= c && c <= 'z') || ('A' <= c && c <= 'Z') || ('0' <= c && c <= '9')) {
            return false;
        }
        i = i + 1;
    }
    true
}

/// Whether `v[from..to]` is one or more words joined by single hyphens.
fn key_is_well_formed(v: &Vec<char>, from: usize, to: usize) -> (r: bool)
    requires
        from <= to <= v@.len(),
    ensures
        r == is_option_key(v@.subrange(from as int, to as int)),
{
    let ghost k = v@.subrange(from as int, to as int);
    if from == to {
        return false;
    }
    if v[from] == '-' || v[to - 1] == '-' {
        return false;
    }
    let mut i = from;
    while i < to
        invariant
            from <= i <= to <= v@.len(),
            k == v@.subrange(from as int, to as int),
            k.len() > 0,
            forall|j: int| 0 <= j < i - from ==> is_word_char(#[trigger] k[j]) || k[j] == '-',
            forall|j: int| 0 <= j < i - from && j < k.len() - 1 && #[trigger] k[j] == '-' ==> k[j + 1] != '-',
        decreases to - i,
    {
        let c = v[i];
        assert(k[i - from] == c);
        if !(c == '-' || c == '_' || ('a' <= c && c <= 'z') || ('A' <= c && c <= 'Z') || ('0' <= c
            && c <= '9')) {
            return false;
        }
        if c == '-' && i + 1 < to && v[i + 1] == '-' {
            assert(k[i - from + 1] == v@[i + 1]);
            return false;
        }
        i = i + 1;
    }
    true
}

/// The position of the first `=` at or after `from`, counted from `from`.
fn find_eq(v: &Vec<char>, from: usize) -> (r: Option<usize>)
    requires
        from <= v@.len(),
    ensures
        match v@.subrange(from as int, v@.len() as int).index_of_first('=') {
            Some(k) => r == Some(k as usize),
            None => r is None,
        },
{
    let ghost b = v@.subrange(from as int, v@.len() as int);
    proof {
        b.index_of_first_ensures('=');
    }
    let n = v.len();
    let mut i = from;
    while i < n
        invariant
            n == v@.len(),
            from <= i <= n,
            b == v@.subrange(from as int, n as int),
            forall|j: int| 0 <= j < i - from ==> b[j] != '=',
            match b.index_of_first('=') {
                Some(index) => {
                    &&& 0 <= index < b.len()
                    &&& b[index] == '='
                    &&& forall|j: int| 0 <= j < index < b.len() ==> b[j] != '='
                },
                None => !b.contains('='),
            },
        decreases n - i,
    {
        if v[i] == '=' {
            assert(b[i - from] == '=');
            return Some(i - from);
        }
        i = i + 1;
    }
    None
}

/// Long-flag test on characters.
fn chars_are_long(v: &Vec<char>) -> (r: bool)
    ensures
        r == spec_is_long(v@),
{
    if v.len() < 3 || v[0] != '-' || v[1] != '-' {
        return false;
    }
    let n = v.len();
    let ghost body = long_body(v@);
    assert(body =~= v@.subrange(2, n as int));
    proof {
        body.index_of_first_ensures('=');
    }
    match find_eq(v, 2) {
        Some(k) => {
            assert(body.take(k as int) =~= v@.subrange(2, 2 + k as int));
            assert(long_body(v@).skip(k + 1).len() == n - 3 - k);
            key_is_well_formed(v, 2, 2 + k) && 2 + k + 1 < n
        },
        None => key_is_well_formed(v, 2, n),
    }
}

/// Appends to `out` the segments of one token read before the terminator.
fn push_token(out: &mut Vec<Segment>, s: &str)
    ensures
        views(final(out)@) == views(old(out)@) + classify(s@),
{
    if Segment::is_double_sub(s) {
        proof {
            lemma_views_push(out@, Segment::DoubleSub);
        }
        out.push(Segment::DoubleSub);
        assert(views(out@) =~= views(old(out)@) + classify(s@));
    } else if Segment::is_long(s) {
        let v = chars_of(s);
        let n = s.unicode_len();
        let ghost body = long_body(s@);
        proof {
            body.index_of_first_ensures('=');
        }
        match find_eq(&v, 2) {
            Some(k) => {
                let key = s.substring_char(2, 2 + k).to_owned();
                let value = s.substring_char(2 + k + 1, n).to_owned();
                assert(key@ =~= long_key(s@));
                assert(value@ =~= long_body(s@).skip(k + 1));
                let args = vec![Segment::Raw(value)];
                assert(view_all(&args) =~= seq![SegmentView::Raw(value@)]);
                let seg = Segment::Long(key, args);
                proof {
                    lemma_views_push(out@, seg);
                }
                out.push(seg);
            },
            None => {
                let key = s.substring_char(2, n).to_owned();
                assert(key@ =~= long_key(s@));
                let args: Vec<Segment> = Vec::new();
                assert(view_all(&args) =~= Seq::<SegmentView>::empty());
                let seg = Segment::Long(key, args);
                proof {
                    lemma_views_push(out@, seg);
                }
                out.push(seg);
            },
        }
        assert(views(out@) =~= views(old(out)@) + classify(s@));
    } else if Segment::is_short(s) {
        let n = s.unicode_len();
        let mut j: usize = 1;
        while j < n
            invariant
                n == s@.len(),
                n >= 2,
                1 <= j <= n,
                views(out@) == views(old(out)@) + short_segments(s@).take(j - 1),
            decreases n - j,
        {
            let key = s.substring_char(j, j + 1).to_owned();
            assert(key@ =~= seq![s@[j as int]]);
            let args: Vec<Segment> = Vec::new();
            assert(view_all(&args) =~= Seq::<SegmentView>::empty());
            let seg = Segment::Short(key, args);
            proof {
                lemma_views_push(out@, seg);
            }
            out.push(seg);
            j = j + 1;
            assert(short_segments(s@).take(j - 1) =~= short_segments(s@).take(j - 2).push(
                seg.view_of(),
            ));
        }
        assert(short_segments(s@).take(n - 1) =~= short_segments(s@));
    } else if s.unicode_len() == 0 {
        assert(views(out@) =~= views(old(out)@) + classify(s@));
    } else {
        let seg = Segment::Raw(s.to_owned());
        proof {
            lemma_views_push(out@, seg);
        }
        out.push(seg);
        assert(views(out@) =~= views(old(out)@) + classify(s@));
    }
}

impl Segment {
    /// Splits process arguments into segments: `--` becomes the terminator and
    /// every later token is raw; before it, `--key[=value]` becomes a long flag
    /// (owning the value), `-abc` one short flag per letter, an empty token
    /// nothing, and any other token a raw one.
    pub fn from_vec(args: Vec<String>) -> (r: Vec<Segment>)
        ensures
            views(r@) == tokenize(texts(args@)),
    {
        let mut segments: Vec<Segment> = Vec::new();
        let mut opts_end = false;
        let n = args.len();
        let ghost toks = texts(args@);
        let mut i: usize = 0;
        assert(views(segments@) =~= tokenize(toks.take(0)));
        while i < n
            invariant
                n == args@.len(),
                toks == texts(args@),
                i <= n,
                views(segments@) == tokenize(toks.take(i as int)),
                opts_end == terminated(toks.take(i as int)),
            decreases n - i,
        {
            let arg = &args[i];
            let ghost t = toks.take(i as int + 1);
            assert(t.drop_last() =~= toks.take(i as int));
            assert(t.last() == arg@);
            if opts_end {
                let seg = Segment::Raw(arg.clone());
                proof {
                    lemma_views_push(segments@, seg);
                }
                segments.push(seg);
                assert(views(segments@) =~= tokenize(t));
            } else {
                let s = arg.as_str();
                push_token(&mut segments, s);
                if Segment::is_double_sub(s) {
                    opts_end = true;
                }
            }
            i = i + 1;
        }
        assert(toks.take(n as int) =~= toks);
        segments
    }

    pub(crate) fn is_raw(&self) -> (r: bool)
        ensures
            r == (self is Raw),
    {
        match self {
            Segment::Raw(_) => true,
            _ => false,
        }
    }

    pub(crate) fn is_command(&self) -> (r: bool)
        ensures
            r == (self is Command),
    {
        match self {
            Segment::Command(_, _) => true,
            _ => false,
        }
    }

    pub(crate) fn is_terminator(&self) -> (r: bool)
        ensures
            r == (self is DoubleSub),
    {
        match self {
            Segment::DoubleSub => true,
            _ => false,
        }
    }

    pub(crate) fn is_option(&self) -> (r: bool)
        ensures
            r == (self is Short || self is Long),
    {
        match self {
            Segment::Short(_, _) | Segment::Long(_, _) => true,
            _ => false,
        }
    }

    /// A nonempty run of ASCII letters, digits and `_`.
    pub fn is_lit_word(s: &str) -> (r: bool)
        ensures
            r == spec_is_lit_word(s@),
    {
        let v = chars_of(s);
        v.len() > 0 && all_word_chars(&v, 0, v.len())
    }

    /// `-` followed by one or more word characters.
    pub fn is_short(s: &str) -> (r: bool)
        ensures
            r == spec_is_short(s@),
    {
        let v = chars_of(s);
        if v.len() < 2 || v[0] != '-' {
            return false;
        }
        let r = all_word_chars(&v, 1, v.len());
        assert(r == forall|i: int| 0 <= i < s@.drop_first().len() ==> is_word_char(
            #[trigger] s@.drop_first()[i],
        )) by {
            if r {
                assert forall|i: int| 0 <= i < s@.drop_first().len() implies is_word_char(
                    #[trigger] s@.drop_first()[i],
                ) by {
                    assert(v@[i + 1] == s@.drop_first()[i]);
                }
            } else {
                let j = choose|j: int| 1 <= j < v@.len() && !is_word_char(#[trigger] v@[j]);
                assert(s@.drop_first()[j - 1] == v@[j]);
            }
        }
        r
    }

    /// `--key` or `--key=value`: words joined by single hyphens, and a nonempty
    /// value after the first `=` when there is one.
    pub fn is_long(s: &str) -> (r: bool)
        ensures
            r == spec_is_long(s@),
    {
        let v = chars_of(s);
        chars_are_long(&v)
    }

    /// Exactly `--`.
    pub fn is_double_sub(s: &str) -> (r: bool)
        ensures
            r == spec_is_double_sub(s@),
    {
        let v = chars_of(s);
        let r = v.len() == 2 && v[0] == '-' && v[1] == '-';
        assert(r == (s@ =~= seq!['-', '-']));
        r
    }
}

} // verus!
