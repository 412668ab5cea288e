use vstd::prelude::*;
use vstd::string::*;

use crate::segment::chars_of;

verus! {

/// The shape of one command-line token.
#[derive(Debug, PartialEq, Eq)]
pub enum PatternType {
    /// Letters only, such as `yes`.
    Word,
    /// `-` and letters, such as `-abc`.
    Short,
    /// `--` and letters, such as `--recursive`.
    Long,
    /// `--key=value`.
    Stmt,
    /// Anything else.
    Others,
    /// Not classified yet.
    Init,
}

/// A token, its shape and the parts of it that the shape picks out.
#[derive(Debug, PartialEq, Eq)]
pub struct Pattern<'a> {
    pub full: &'a str,
    pub groups: Vec<&'a str>,
    pub ty: PatternType,
}

pub open spec fn is_ascii_letter(c: char) -> bool {
    ('a' <= c && c <= 'z') || ('A' <= c && c <= 'Z')
}

/// Letters only (the empty text included).
pub open spec fn spec_is_word(s: Seq<char>) -> bool {
    forall|i: int| 0 <= i < s.len() ==> is_ascii_letter(#[trigger] s[i])
}

pub open spec fn spec_pattern_short(s: Seq<char>) -> bool {
    s.len() >= 2 && s[0] == '-' && spec_is_word(s.drop_first())
}

pub open spec fn spec_pattern_long(s: Seq<char>) -> bool {
    s.len() >= 3 && s[0] == '-' && s[1] == '-' && spec_is_word(s.skip(2))
}

/// More than four bytes, `--` first, an `=` somewhere and not last.
pub open spec fn spec_pattern_stmt(s: &str) -> bool {
    &&& s.len() > 4
    &&& s@.len() >= 2
    &&& s@[0] == '-'
    &&& s@[1] == '-'
    &&& s@.contains('=')
    &&& s@.last() != '='
}

pub open spec fn group_texts(g: Seq<&str>) -> Seq<Seq<char>> {
    g.map_values(|x: &str| x@)
}

/// The shape of `s`, tried in this order: word, short, long, statement.
pub open spec fn shape_of(s: &str) -> PatternType {
    if spec_is_word(s@) {
        PatternType::Word
    } else if spec_pattern_short(s@) {
        PatternType::Short
    } else if spec_pattern_long(s@) {
        PatternType::Long
    } else if spec_pattern_stmt(s) {
        PatternType::Stmt
    } else {
        PatternType::Others
    }
}

/// The parts that the shape of `s` picks out.
pub open spec fn groups_of(s: &str) -> Seq<Seq<char>> {
    match shape_of(s) {
        PatternType::Word => seq![s@],
        PatternType::Short => seq![s@.drop_first()],
        PatternType::Long => seq![s@.skip(2)],
        PatternType::Stmt => {
            let k = s@.index_of_first('=')->0;
            seq![s@.subrange(2, k), s@.skip(k + 1)]
        },
        _ => Seq::empty(),
    }
}

fn letters_only(v: &Vec<char>, from: usize) -> (r: bool)
    requires
        from <= v@.len(),
    ensures
        r == spec_is_word(v@.skip(from as int)),
{
    let ghost w = v@.skip(from as int);
    let mut i = from;
    while i < v.len()
        invariant
            from <= i <= v@.len(),
            w == v@.skip(from as int),
            forall|k: int| 0 <= k < i - from ==> is_ascii_letter(#[trigger] w[k]),
        decreases v@.len() - i,
    {
        let c = v[i];
        assert(w[i - from] == c);
        if !(('a' <= c && c <= 'z') || ('A' <= c && c <= 'Z')) {
            return false;
        }
        i = i + 1;
    }
    true
}

impl<'a> Pattern<'a> {
    /// Classifies `full` and picks out its parts: the word itself, the letters
    /// after `-` or `--`, or the key and the value of `--key=value`.
    pub fn match_str(full: &'a str) -> (r: Pattern<'a>)
        ensures
            r.full == full,
            r.ty == shape_of(full),
            group_texts(r.groups@) == groups_of(full),
    {
        let mut reg = Pattern::new(full);
        let n = full.unicode_len();
        if Pattern::is_word(full) {
            reg.ty = PatternType::Word;
            reg.groups = vec![full];
            assert(group_texts(reg.groups@) =~= groups_of(full));
        } else if Pattern::is_short(full) {
            reg.ty = PatternType::Short;
            let g = full.substring_char(1, n);
            reg.groups = vec![g];
            assert(g@ =~= full@.drop_first());
            assert(group_texts(reg.groups@) =~= groups_of(full));
        } else if Pattern::is_long(full) {
            reg.ty = PatternType::Long;
            let g = full.substring_char(2, n);
            reg.groups = vec![g];
            assert(g@ =~= full@.skip(2));
            assert(group_texts(reg.groups@) =~= groups_of(full));
        } else if Pattern::is_stmt(full) {
            let v = chars_of(full);
            let ghost k = full@.index_of_first('=')->0;
            proof {
                full@.index_of_first_ensures('=');
            }
            let mut idx: usize = 2;
            while idx < n && v[idx] != '='
                invariant
                    v@ == full@,
                    n == full@.len(),
                    2 <= idx <= n,
                    idx <= k,
                    0 <= k < n,
                    full@[k] == '=',
                    forall|j: int| 0 <= j < k ==> full@[j] != '=',
                decreases n - idx,
            {
                idx = idx + 1;
            }
            let key = full.substring_char(2, idx);
            let value = full.substring_char(idx + 1, n);
            reg.ty = PatternType::Stmt;
            reg.groups = vec![key, value];
            assert(group_texts(reg.groups@) =~= groups_of(full));
        } else {
            reg.ty = PatternType::Others;
            assert(group_texts(reg.groups@) =~= groups_of(full));
        }
        reg
    }

    /// Letters only; the empty text counts as a word.
    pub fn is_word(s: &str) -> (r: bool)
        ensures
            r == spec_is_word(s@),
    {
        let v = chars_of(s);
        let r = letters_only(&v, 0);
        assert(v@.skip(0) =~= s@);
        r
    }

    /// `-` followed by one or more letters.
    pub fn is_short(s: &str) -> (r: bool)
        ensures
            r == spec_pattern_short(s@),
    {
        let v = chars_of(s);
        if v.len() < 2 || v[0] != '-' {
            return false;
        }
        assert(v@.skip(1) =~= s@.drop_first());
        letters_only(&v, 1)
    }

    /// `--` followed by one or more letters.
    pub fn is_long(s: &str) -> (r: bool)
        ensures
            r == spec_pattern_long(s@),
    {
        let v = chars_of(s);
        if v.len() < 3 || v[0] != '-' || v[1] != '-' {
            return false;
        }
        letters_only(&v, 2)
    }

    /// More than four bytes long, starting with `--`, holding an `=` that is not
    /// the last character.
    pub fn is_stmt(s: &str) -> (r: bool)
        ensures
            r == spec_pattern_stmt(s),
    {
        let v = chars_of(s);
        let n = v.len();
        if s.len() <= 4 || n < 2 || v[0] != '-' || v[1] != '-' || v[n - 1] == '=' {
            return false;
        }
        let mut i: usize = 0;
        while i < n
            invariant
                v@ == s@,
                n == s@.len(),
                n >= 2,
                s.len() > 4,
                s@[0] == '-',
                s@[1] == '-',
                s@[n - 1] != '=',
                i <= n,
                forall|j: int| 0 <= j < i ==> s@[j] != '=',
            decreases n - i,
        {
            if v[i] == '=' {
                assert(s@[i as int] == '=');
                assert(s@.contains('='));
                assert(s@.last() == v@[n - 1]);
                return true;
            }
            i = i + 1;
        }
        false
    }

    /// An unclassified pattern of `full`.
    pub fn new(full: &'a str) -> (r: Pattern<'a>)
        ensures
            r.full == full,
            r.groups@.len() == 0,
            r.ty == PatternType::Init,
    {
        Pattern { full, groups: Vec::new(), ty: PatternType::Init }
    }
}

} // verus!
