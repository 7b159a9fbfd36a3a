//! The placeholder grammar: lexical rules, a specification-level parser, and
//! the executable parser that is proved to match it.
//!
//! A text unit is a free mix of literal text and `{{ dotted.path }}`
//! placeholders.  A placeholder holds one or more identifier components
//! separated by single dots; whitespace around the components and dots is
//! allowed and ignored.  An identifier component starts with a letter or an
//! underscore and continues with letters, digits or underscores.  Text that
//! holds no `{{` opener is literal; once an opener appears, a well-formed
//! placeholder body must follow, else the whole parse fails with the 1-based
//! line and column of the opener.

use vstd::prelude::*;
use vstd::string::StrSliceExecFns;

verus! {

/// Whitespace accepted inside a placeholder: space, tab, carriage return,
/// line feed.
pub open spec fn is_space_char(c: char) -> bool {
    c == ' ' || c == '\t' || c == '\r' || c == '\n'
}

/// First character of an identifier component: a letter or an underscore.
pub open spec fn is_ident_start_char(c: char) -> bool {
    ('a' <= c && c <= 'z') || ('A' <= c && c <= 'Z') || c == '_'
}

/// Later character of an identifier component: a letter, a digit or an
/// underscore.
pub open spec fn is_ident_continue_char(c: char) -> bool {
    is_ident_start_char(c) || ('0' <= c && c <= '9')
}

fn space_char(c: char) -> (r: bool)
    ensures
        r == is_space_char(c),
{
    c == ' ' || c == '\t' || c == '\r' || c == '\n'
}

fn ident_start_char(c: char) -> (r: bool)
    ensures
        r == is_ident_start_char(c),
{
    ('a' <= c && c <= 'z') || ('A' <= c && c <= 'Z') || c == '_'
}

fn ident_continue_char(c: char) -> (r: bool)
    ensures
        r == is_ident_continue_char(c),
{
    ident_start_char(c) || ('0' <= c && c <= '9')
}

/// True when a placeholder opener `{{` stands at position `i`.
pub open spec fn opener_at(s: Seq<char>, i: int) -> bool {
    0 <= i && i + 1 < s.len() && s[i] == '{' && s[i + 1] == '{'
}

/// True when a placeholder closer `}}` stands at position `i`.
pub open spec fn closer_at(s: Seq<char>, i: int) -> bool {
    0 <= i && i + 1 < s.len() && s[i] == '}' && s[i + 1] == '}'
}

/// Position of the first `{{` opener at or after `i`, if any.
pub open spec fn next_opener(s: Seq<char>, i: int) -> Option<int>
    decreases s.len() - i,
{
    if i + 1 >= s.len() {
        None
    } else if opener_at(s, i) {
        Some(i)
    } else {
        next_opener(s, i + 1)
    }
}

/// Inside a placeholder body, right after `{{` or after a dot: optional
/// whitespace, then an identifier component must begin.  On success, the
/// remaining components of the path and the position right after the closer.
pub open spec fn parse_comp_start(s: Seq<char>, i: int) -> Option<(Seq<Seq<char>>, int)>
    decreases s.len() - i, 0int,
{
    if i < 0 || i >= s.len() {
        None
    } else if is_space_char(s[i]) {
        parse_comp_start(s, i + 1)
    } else if is_ident_start_char(s[i]) {
        parse_comp_rest(s, i + 1, i)
    } else {
        None
    }
}

/// Inside an identifier component that began at `start`.
pub open spec fn parse_comp_rest(s: Seq<char>, i: int, start: int) -> Option<(Seq<Seq<char>>, int)>
    decreases s.len() - i, 1int,
{
    if 0 <= i && i < s.len() && is_ident_continue_char(s[i]) {
        parse_comp_rest(s, i + 1, start)
    } else {
        match parse_after_comp(s, i) {
            Some(r) => Some((seq![s.subrange(start, i)] + r.0, r.1)),
            None => None,
        }
    }
}

/// After a complete identifier component: optional whitespace, then either a
/// dot and a further component, or the `}}` closer.
pub open spec fn parse_after_comp(s: Seq<char>, i: int) -> Option<(Seq<Seq<char>>, int)>
    decreases s.len() - i, 0int,
{
    if i < 0 || i >= s.len() {
        None
    } else if is_space_char(s[i]) {
        parse_after_comp(s, i + 1)
    } else if s[i] == '.' {
        parse_comp_start(s, i + 1)
    } else if closer_at(s, i) {
        Some((Seq::empty(), i + 2))
    } else {
        None
    }
}

/// One parsed span of a text unit, as the specification sees it.
pub enum SegmentView {
    Literal(Seq<char>),
    Placeholder { raw: Seq<char>, path: Seq<Seq<char>> },
}

/// One parsed span of a text unit: literal text, or a placeholder carrying
/// its original `{{ ... }}` spelling and its identifier components in order.
#[derive(Debug, Clone, PartialEq)]
pub enum Segment {
    Literal(String),
    Placeholder { raw: String, path: Vec<String> },
}

impl DeepView for Segment {
    type V = SegmentView;

    open spec fn deep_view(&self) -> SegmentView {
        match self {
            Segment::Literal(t) => SegmentView::Literal(t@),
            Segment::Placeholder { raw, path } => SegmentView::Placeholder {
                raw: raw@,
                path: path.deep_view(),
            },
        }
    }
}

/// The grammar as one total function over the characters of a text unit:
/// the ordered segments, or the position of the opener of the malformed
/// placeholder.
pub open spec fn parse_from(s: Seq<char>, i: int) -> Result<Seq<SegmentView>, int>
    decreases s.len() - i,
        via parse_from_decreases
{
    if i >= s.len() {
        Ok(Seq::empty())
    } else {
        match next_opener(s, i) {
            None => Ok(seq![SegmentView::Literal(s.subrange(i, s.len() as int))]),
            Some(j) => match parse_comp_start(s, j + 2) {
                None => Err(j),
                Some(body) => match parse_from(s, body.1) {
                    Err(e) => Err(e),
                    Ok(rest) => {
                        let ph = SegmentView::Placeholder {
                            raw: s.subrange(j, body.1),
                            path: body.0,
                        };
                        if j > i {
                            Ok(seq![SegmentView::Literal(s.subrange(i, j)), ph] + rest)
                        } else {
                            Ok(seq![ph] + rest)
                        }
                    },
                },
            },
        }
    }
}

#[via_fn]
proof fn parse_from_decreases(s: Seq<char>, i: int) {
    if i < s.len() {
        match next_opener(s, i) {
            Some(j) => {
                lemma_next_opener_bounds(s, i);
                match parse_comp_start(s, j + 2) {
                    Some(_) => {
                        lemma_parse_comp_start_bounds(s, j + 2);
                    },
                    None => {},
                }
            },
            None => {},
        }
    }
}

/// The segments of one text unit, or the position of the offending opener.
pub open spec fn spec_parse(s: Seq<char>) -> Result<Seq<SegmentView>, int> {
    parse_from(s, 0)
}

proof fn lemma_next_opener_bounds(s: Seq<char>, i: int)
    ensures
        next_opener(s, i) matches Some(j) ==> i <= j && opener_at(s, j),
    decreases s.len() - i,
{
    if i + 1 >= s.len() {
    } else if opener_at(s, i) {
    } else {
        lemma_next_opener_bounds(s, i + 1);
    }
}

proof fn lemma_parse_comp_start_bounds(s: Seq<char>, i: int)
    ensures
        parse_comp_start(s, i) matches Some(r) ==> i < r.1 <= s.len() && r.0.len() >= 1,
    decreases s.len() - i, 0int,
{
    if 0 <= i && i < s.len() {
        if is_space_char(s[i]) {
            lemma_parse_comp_start_bounds(s, i + 1);
        } else if is_ident_start_char(s[i]) {
            lemma_parse_comp_rest_bounds(s, i + 1, i);
        }
    }
}

proof fn lemma_parse_comp_rest_bounds(s: Seq<char>, i: int, start: int)
    ensures
        parse_comp_rest(s, i, start) matches Some(r) ==> i < r.1 <= s.len() && r.0.len() >= 1,
    decreases s.len() - i, 1int,
{
    if 0 <= i && i < s.len() && is_ident_continue_char(s[i]) {
        lemma_parse_comp_rest_bounds(s, i + 1, start);
    } else {
        lemma_parse_after_comp_bounds(s, i);
    }
}

proof fn lemma_parse_after_comp_bounds(s: Seq<char>, i: int)
    ensures
        parse_after_comp(s, i) matches Some(r) ==> i < r.1 <= s.len(),
    decreases s.len() - i, 0int,
{
    if 0 <= i && i < s.len() {
        if is_space_char(s[i]) {
            lemma_parse_after_comp_bounds(s, i + 1);
        } else if s[i] == '.' {
            lemma_parse_comp_start_bounds(s, i + 1);
        }
    }
}

/// The text one segment stands for in the original unit: a literal's text,
/// or a placeholder's original spelling.
pub open spec fn seg_text(seg: SegmentView) -> Seq<char> {
    match seg {
        SegmentView::Literal(t) => t,
        SegmentView::Placeholder { raw, .. } => raw,
    }
}

/// The concatenation of what every segment stands for, in order.
pub open spec fn concat_text(segs: Seq<SegmentView>) -> Seq<char>
    decreases segs.len(),
{
    if segs.len() == 0 {
        Seq::empty()
    } else {
        seg_text(segs[0]) + concat_text(segs.drop_first())
    }
}

proof fn lemma_concat_text_app(a: Seq<SegmentView>, b: Seq<SegmentView>)
    ensures
        concat_text(a + b) == concat_text(a) + concat_text(b),
    decreases a.len(),
{
    if a.len() == 0 {
        assert(a + b =~= b);
        assert(concat_text(a) + concat_text(b) =~= concat_text(b));
    } else {
        assert((a + b).drop_first() =~= a.drop_first() + b);
        lemma_concat_text_app(a.drop_first(), b);
        assert((a + b)[0] == a[0]);
        assert(concat_text(a + b) =~= concat_text(a) + concat_text(b));
    }
}

proof fn lemma_parse_from_reconstructs(s: Seq<char>, i: int)
    requires
        0 <= i <= s.len(),
        parse_from(s, i) is Ok,
    ensures
        concat_text(parse_from(s, i)->Ok_0) == s.subrange(i, s.len() as int),
    decreases s.len() - i,
{
    let len = s.len() as int;
    if i >= len {
        assert(s.subrange(i, len) =~= Seq::<char>::empty());
        assert(concat_text(parse_from(s, i)->Ok_0) =~= s.subrange(i, len));
    } else {
        match next_opener(s, i) {
            None => {
                let segs = parse_from(s, i)->Ok_0;
                assert(segs.drop_first() =~= Seq::<SegmentView>::empty());
                assert(concat_text(Seq::<SegmentView>::empty()) == Seq::<char>::empty());
                assert(segs[0] == SegmentView::Literal(s.subrange(i, len)));
                assert(concat_text(segs) =~= s.subrange(i, len));
            },
            Some(j) => {
                lemma_next_opener_bounds(s, i);
                match parse_comp_start(s, j + 2) {
                    None => {},
                    Some(body) => {
                        lemma_parse_comp_start_bounds(s, j + 2);
                        match parse_from(s, body.1) {
                            Err(_) => {},
                            Ok(rest) => {
                                lemma_parse_from_reconstructs(s, body.1);
                                let ph = SegmentView::Placeholder {
                                    raw: s.subrange(j, body.1),
                                    path: body.0,
                                };
                                let pre: Seq<SegmentView> = if j > i {
                                    seq![SegmentView::Literal(s.subrange(i, j)), ph]
                                } else {
                                    seq![ph]
                                };
                                lemma_concat_text_app(pre, rest);
                                let phseq: Seq<SegmentView> = seq![ph];
                                assert(phseq.drop_first() =~= Seq::<SegmentView>::empty());
                                assert(concat_text(Seq::<SegmentView>::empty()) == Seq::<
                                    char,
                                >::empty());
                                assert(concat_text(phseq) =~= s.subrange(j, body.1));
                                if j > i {
                                    assert(pre.drop_first() =~= phseq);
                                    assert(pre[0] == SegmentView::Literal(s.subrange(i, j)));
                                    assert(concat_text(pre) =~= s.subrange(i, j) + s.subrange(
                                        j,
                                        body.1,
                                    ));
                                } else {
                                    assert(pre =~= phseq);
                                    assert(concat_text(pre) =~= s.subrange(j, body.1));
                                }
                                assert(s.subrange(i, j) + s.subrange(j, body.1) =~= s.subrange(
                                    i,
                                    body.1,
                                ));
                                assert(s.subrange(i, body.1) + s.subrange(body.1, len)
                                    =~= s.subrange(i, len));
                                assert(concat_text(parse_from(s, i)->Ok_0) =~= s.subrange(i, len));
                            },
                        }
                    },
                }
            },
        }
    }
}

/// Concatenating the parser's segments — literals verbatim, placeholders by
/// their original spelling — reconstructs the parsed text exactly.
pub proof fn lemma_segments_reconstruct_input(s: Seq<char>)
    requires
        spec_parse(s) is Ok,
    ensures
        concat_text(spec_parse(s)->Ok_0) == s,
{
    lemma_parse_from_reconstructs(s, 0);
    assert(s.subrange(0, s.len() as int) =~= s);
}

/// True when every placeholder among the segments references at least one
/// identifier component.
pub open spec fn segs_paths_nonempty(segs: Seq<SegmentView>) -> bool {
    forall|k: int|
        0 <= k < segs.len() ==> ((#[trigger] segs[k]) matches SegmentView::Placeholder {
            path,
            ..
        } ==> path.len() >= 1)
}

proof fn lemma_parse_from_paths_nonempty(s: Seq<char>, i: int)
    requires
        parse_from(s, i) is Ok,
    ensures
        segs_paths_nonempty(parse_from(s, i)->Ok_0),
    decreases s.len() - i,
{
    let len = s.len() as int;
    if i >= len {
    } else {
        match next_opener(s, i) {
            None => {},
            Some(j) => {
                lemma_next_opener_bounds(s, i);
                match parse_comp_start(s, j + 2) {
                    None => {},
                    Some(body) => {
                        lemma_parse_comp_start_bounds(s, j + 2);
                        match parse_from(s, body.1) {
                            Err(_) => {},
                            Ok(rest) => {
                                lemma_parse_from_paths_nonempty(s, body.1);
                                let segs = parse_from(s, i)->Ok_0;
                                let ph = SegmentView::Placeholder {
                                    raw: s.subrange(j, body.1),
                                    path: body.0,
                                };
                                let pre: Seq<SegmentView> = if j > i {
                                    seq![SegmentView::Literal(s.subrange(i, j)), ph]
                                } else {
                                    seq![ph]
                                };
                                assert(segs == pre + rest);
                                assert forall|k: int| 0 <= k < segs.len() implies ((
                                #[trigger] segs[k]) matches SegmentView::Placeholder { path, .. }
                                    ==> path.len() >= 1) by {
                                    if k < pre.len() {
                                        assert(segs[k] == pre[k]);
                                    } else {
                                        assert(segs[k] == rest[k - pre.len()]);
                                    }
                                }
                            },
                        }
                    },
                }
            },
        }
    }
}

/// Every placeholder in well-formed parse output references at least one
/// identifier component.
pub proof fn lemma_parse_paths_nonempty(s: Seq<char>)
    requires
        spec_parse(s) is Ok,
    ensures
        segs_paths_nonempty(spec_parse(s)->Ok_0),
{
    lemma_parse_from_paths_nonempty(s, 0);
}

/// 1-based line number of position `j` within `s`.
pub open spec fn line_of(s: Seq<char>, j: int) -> int
    decreases j,
{
    if j <= 0 {
        1
    } else {
        line_of(s, j - 1) + if s[j - 1] == '\n' {
            1int
        } else {
            0int
        }
    }
}

/// 1-based column number of position `j` within `s`.
pub open spec fn col_of(s: Seq<char>, j: int) -> int
    decreases j,
{
    if j <= 0 {
        1
    } else if s[j - 1] == '\n' {
        1
    } else {
        col_of(s, j - 1) + 1
    }
}

/// A syntax error in a text unit: the 1-based line and column of the opener
/// of the malformed placeholder, and a message naming the expected construct.
#[derive(Debug, Clone, PartialEq)]
pub enum Error {
    ParsingError(usize, usize, String),
}

/// The message carried by every syntax error of the grammar.
pub open spec fn expected_message() -> Seq<char> {
    "expected a dotted identifier path between '{{' and '}}'"@
}

fn line_col(source: &str, pos: usize, len: usize) -> (r: (usize, usize))
    requires
        len == source@.len(),
        pos < len,
    ensures
        r.0 == line_of(source@, pos as int),
        r.1 == col_of(source@, pos as int),
{
    let mut line: usize = 1;
    let mut col: usize = 1;
    let mut p: usize = 0;
    while p < pos
        invariant
            p <= pos,
            pos < len,
            len == source@.len(),
            line == line_of(source@, p as int),
            col == col_of(source@, p as int),
            line <= p + 1,
            col <= p + 1,
        decreases pos - p,
    {
        let c = source.get_char(p);
        if c == '\n' {
            line = line + 1;
            col = 1;
        } else {
            col = col + 1;
        }
        p = p + 1;
    }
    (line, col)
}

fn find_opener(source: &str, from: usize, len: usize) -> (r: Option<usize>)
    requires
        len == source@.len(),
        from <= len,
    ensures
        next_opener(source@, from as int) matches Some(j) ==> r matches Some(u) && u == j,
        next_opener(source@, from as int) is None ==> r is None,
{
    let mut k = from;
    while k < len
        invariant
            from <= k <= len,
            len == source@.len(),
            next_opener(source@, from as int) == next_opener(source@, k as int),
        decreases len - k,
    {
        if k + 1 >= len {
            return None;
        }
        let c0 = source.get_char(k);
        let c1 = source.get_char(k + 1);
        if c0 == '{' && c1 == '{' {
            return Some(k);
        }
        k = k + 1;
    }
    None
}

enum BodyState {
    ExpectStart,
    InIdent(usize),
    AfterComp,
}

/// Joins already-collected path components with the outcome of the rest of a
/// placeholder body.
spec fn with_prefix(pre: Seq<Seq<char>>, r: Option<(Seq<Seq<char>>, int)>) -> Option<
    (Seq<Seq<char>>, int),
> {
    match r {
        Some(p) => Some((pre + p.0, p.1)),
        None => None,
    }
}

proof fn lemma_vec_string_push_deep_view(v1: Vec<String>, v2: Vec<String>, x: String)
    requires
        v2@ == v1@.push(x),
    ensures
        v2.deep_view() == v1.deep_view().push(x@),
{
    assert(v2.deep_view() =~= v1.deep_view().push(x@));
}

fn parse_placeholder(source: &str, opener: usize, len: usize) -> (r: Option<(Vec<String>, usize)>)
    requires
        len == source@.len(),
        opener + 2 <= len,
    ensures
        parse_comp_start(source@, opener + 2) matches Some(b) ==> (r matches Some(o)
            && o.0.deep_view() == b.0 && o.1 == b.1),
        parse_comp_start(source@, opener + 2) is None ==> r is None,
{
    let ghost target = parse_comp_start(source@, opener + 2);
    let mut k: usize = opener + 2;
    let mut comps: Vec<String> = Vec::new();
    let mut state = BodyState::ExpectStart;
    loop
        invariant
            k <= len,
            len == source@.len(),
            target == parse_comp_start(source@, opener + 2),
            state matches BodyState::InIdent(st) ==> st < k && target == with_prefix(
                comps.deep_view(),
                parse_comp_rest(source@, k as int, st as int),
            ),
            state is ExpectStart ==> target == with_prefix(
                comps.deep_view(),
                parse_comp_start(source@, k as int),
            ),
            state is AfterComp ==> target == with_prefix(
                comps.deep_view(),
                parse_after_comp(source@, k as int),
            ),
        decreases len - k, (match state {
            BodyState::InIdent(_) => 1int,
            _ => 0int,
        }),
    {
        match state {
            BodyState::ExpectStart => {
                if k >= len {
                    return None;
                }
                let c = source.get_char(k);
                if space_char(c) {
                    k = k + 1;
                } else if ident_start_char(c) {
                    state = BodyState::InIdent(k);
                    k = k + 1;
                } else {
                    return None;
                }
            },
            BodyState::InIdent(st) => {
                if k < len && ident_continue_char(source.get_char(k)) {
                    k = k + 1;
                } else {
                    let comp = source.substring_char(st, k).to_owned();
                    let ghost old_comps = comps;
                    comps.push(comp);
                    proof {
                        lemma_vec_string_push_deep_view(old_comps, comps, comp);
                        match parse_after_comp(source@, k as int) {
                            Some(p) => {
                                assert((old_comps.deep_view() + (seq![
                                    source@.subrange(st as int, k as int),
                                ] + p.0)) =~= (comps.deep_view() + p.0));
                            },
                            None => {},
                        }
                    }
                    state = BodyState::AfterComp;
                }
            },
            BodyState::AfterComp => {
                if k >= len {
                    return None;
                }
                let c = source.get_char(k);
                if space_char(c) {
                    k = k + 1;
                } else if c == '.' {
                    state = BodyState::ExpectStart;
                    k = k + 1;
                } else if c == '}' && k + 1 < len && source.get_char(k + 1) == '}' {
                    proof {
                        assert(closer_at(source@, k as int));
                        assert((comps.deep_view() + Seq::<Seq<char>>::empty()) =~= (
                        comps.deep_view()));
                    }
                    return Some((comps, k + 2));
                } else {
                    return None;
                }
            },
        }
    }
}

proof fn lemma_vec_segment_push_deep_view(v1: Vec<Segment>, v2: Vec<Segment>, x: Segment)
    requires
        v2@ == v1@.push(x),
    ensures
        v2.deep_view() == v1.deep_view().push(x.deep_view()),
{
    assert(v2.deep_view() =~= v1.deep_view().push(x.deep_view()));
}

/// The grammar's entry point, offered as one parsing routine over whole text
/// units.
pub struct MakinilyaText;

impl MakinilyaText {
    /// Parses one text unit into its ordered segments, or reports the
    /// 1-based line and column of the opener of the first malformed
    /// placeholder.
    pub fn parse(source: &str) -> (r: Result<Vec<Segment>, Error>)
        ensures
            spec_parse(source@) matches Ok(segs) ==> (r matches Ok(v) && v.deep_view() == segs),
            spec_parse(source@) matches Err(j) ==> (r matches Err(e)
                && e->0 == line_of(source@, j) && e->1 == col_of(source@, j) && e->2@
                == expected_message()),
    {
        let len = source.unicode_len();
        let mut segs: Vec<Segment> = Vec::new();
        let mut i: usize = 0;
        loop
            invariant
                i <= len,
                len == source@.len(),
                parse_from(source@, i as int) matches Ok(rest) ==> spec_parse(source@) == Ok::<
                    Seq<SegmentView>,
                    int,
                >(segs.deep_view() + rest),
                parse_from(source@, i as int) matches Err(j) ==> spec_parse(source@) == Err::<
                    Seq<SegmentView>,
                    int,
                >(j),
            decreases len - i,
        {
            if i >= len {
                proof {
                    assert(parse_from(source@, i as int) == Ok::<Seq<SegmentView>, int>(
                        Seq::empty(),
                    ));
                    assert((segs.deep_view() + Seq::<SegmentView>::empty()) =~= segs.deep_view());
                }
                return Ok(segs);
            }
            let opener = find_opener(source, i, len);
            match opener {
                None => {
                    let lit = source.substring_char(i, len).to_owned();
                    let ghost old_segs = segs;
                    let seg = Segment::Literal(lit);
                    segs.push(seg);
                    proof {
                        lemma_vec_segment_push_deep_view(old_segs, segs, seg);
                        let rest = seq![
                            SegmentView::Literal(source@.subrange(i as int, len as int)),
                        ];
                        assert((old_segs.deep_view() + rest) =~= segs.deep_view());
                    }
                    return Ok(segs);
                },
                Some(j) => {
                    proof {
                        lemma_next_opener_bounds(source@, i as int);
                    }
                    match parse_placeholder(source, j, len) {
                        None => {
                            let (line, col) = line_col(source, j, len);
                            return Err(
                                Error::ParsingError(
                                    line,
                                    col,
                                    "expected a dotted identifier path between '{{' and '}}'".to_owned(),
                                ),
                            );
                        },
                        Some((path, end)) => {
                            proof {
                                lemma_parse_comp_start_bounds(source@, j + 2);
                            }
                            let ghost s = source@;
                            let ghost old_i = i as int;
                            let ghost old_segs = segs;
                            let ghost body = parse_comp_start(s, j + 2)->Some_0;
                            let ghost ph = SegmentView::Placeholder {
                                raw: s.subrange(j as int, body.1),
                                path: body.0,
                            };
                            if j > i {
                                let lit = source.substring_char(i, j).to_owned();
                                let seg = Segment::Literal(lit);
                                let ghost before = segs;
                                segs.push(seg);
                                proof {
                                    lemma_vec_segment_push_deep_view(before, segs, seg);
                                }
                            }
                            let raw = source.substring_char(j, end).to_owned();
                            let seg = Segment::Placeholder { raw, path };
                            let ghost mid = segs;
                            segs.push(seg);
                            proof {
                                lemma_vec_segment_push_deep_view(mid, segs, seg);
                                assert(seg.deep_view() == ph);
                                let pre: Seq<SegmentView> = if j > old_i {
                                    seq![SegmentView::Literal(s.subrange(old_i, j as int)), ph]
                                } else {
                                    seq![ph]
                                };
                                assert(segs.deep_view() =~= old_segs.deep_view() + pre);
                                match parse_from(s, body.1) {
                                    Ok(rest) => {
                                        assert(parse_from(s, old_i) == Ok::<
                                            Seq<SegmentView>,
                                            int,
                                        >(pre + rest));
                                        assert((old_segs.deep_view() + (pre + rest)) =~= (
                                        segs.deep_view() + rest));
                                    },
                                    Err(jj) => {
                                        assert(parse_from(s, old_i) == Err::<
                                            Seq<SegmentView>,
                                            int,
                                        >(jj));
                                    },
                                }
                            }
                            i = end;
                        },
                    }
                },
            }
        }
    }
}

} // verus!
