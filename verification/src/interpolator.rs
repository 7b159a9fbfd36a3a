//! The interpolator: walks a story tree, parses every content, and either
//! resolves each placeholder against the context (build mode) or collects
//! every referenced dotted path (check mode).
//!
//! Both walks visit a node's own contents first, left to right, then its
//! parts in order; the first malformed content aborts the whole walk, and no
//! partial output is returned.  In build mode a placeholder whose path does
//! not resolve contributes the empty string: a missing variable degrades the
//! output rather than failing the build, and check mode is the tool that
//! surfaces it.

use vstd::prelude::*;
use vstd::string::StringExecFns;

use crate::context::context_lookup;
use crate::context::data_text;
use crate::context::Context;
use crate::story::Story;
use crate::story::StoryView;
use crate::text::col_of;
use crate::text::expected_message;
use crate::text::line_of;
use crate::text::spec_parse;
use crate::text::Error;
use crate::text::MakinilyaText;
use crate::text::Segment;
use crate::text::SegmentView;

verus! {

/// The text one segment contributes in build mode: literal text verbatim; a
/// placeholder's resolved value, or nothing when the lookup misses.
pub open spec fn resolve_seg(seg: SegmentView, ctx: Context) -> Seq<char> {
    match seg {
        SegmentView::Literal(t) => t,
        SegmentView::Placeholder { path, .. } => match context_lookup(ctx, path) {
            Some(d) => data_text(d),
            None => Seq::empty(),
        },
    }
}

/// Build-mode resolution of the segments from position `i` on, in order.
pub open spec fn resolve_segs_from(segs: Seq<SegmentView>, ctx: Context, i: int) -> Seq<char>
    decreases segs.len() - i,
{
    if i < 0 || i >= segs.len() {
        Seq::empty()
    } else {
        resolve_seg(segs[i], ctx) + resolve_segs_from(segs, ctx, i + 1)
    }
}

/// Build-mode resolution of one text unit: parse, resolve every segment,
/// concatenate in order; a parse failure carries the position of the
/// offending opener.
pub open spec fn resolve_text(s: Seq<char>, ctx: Context) -> Result<Seq<char>, int> {
    match spec_parse(s) {
        Ok(segs) => Ok(resolve_segs_from(segs, ctx, 0)),
        Err(j) => Err(j),
    }
}

/// The first `i` components of a path joined with single dots.
pub open spec fn path_join(path: Seq<Seq<char>>, i: int) -> Seq<char>
    decreases i,
{
    if i <= 0 {
        Seq::empty()
    } else if i == 1 {
        path[0]
    } else {
        path_join(path, i - 1) + seq!['.'] + path[i - 1]
    }
}

/// A dotted path as check mode writes it back: components joined with
/// single dots.
pub open spec fn path_text(path: Seq<Seq<char>>) -> Seq<char> {
    path_join(path, path.len() as int)
}

/// The dotted paths referenced by the segments from position `i` on, in
/// order, duplicates kept.
pub open spec fn segs_idents_from(segs: Seq<SegmentView>, i: int) -> Seq<Seq<char>>
    decreases segs.len() - i,
{
    if i < 0 || i >= segs.len() {
        Seq::empty()
    } else {
        let rest = segs_idents_from(segs, i + 1);
        match segs[i] {
            SegmentView::Placeholder { path, .. } => seq![path_text(path)] + rest,
            SegmentView::Literal(_) => rest,
        }
    }
}

/// Check-mode reading of one text unit: the referenced dotted paths in
/// textual order, or the position of the offending opener.
pub open spec fn check_text(s: Seq<char>) -> Result<Seq<Seq<char>>, int> {
    match spec_parse(s) {
        Ok(segs) => Ok(segs_idents_from(segs, 0)),
        Err(j) => Err(j),
    }
}

/// Check mode over a run of contents from position `i` on: the referenced
/// paths of each well-formed content, in order; the first malformed content
/// stops the run with its text and the offending position.
pub open spec fn contents_check_from(contents: Seq<Seq<char>>, i: int) -> Result<
    Seq<Seq<char>>,
    (Seq<char>, int),
>
    decreases contents.len() - i,
{
    if i < 0 || i >= contents.len() {
        Ok(Seq::empty())
    } else {
        match check_text(contents[i]) {
            Err(j) => Err((contents[i], j)),
            Ok(ids) => match contents_check_from(contents, i + 1) {
                Err(e) => Err(e),
                Ok(rest) => Ok(ids + rest),
            },
        }
    }
}

/// Check mode over one node: its own contents first, then its parts.
pub open spec fn story_check(sv: StoryView) -> Result<Seq<Seq<char>>, (Seq<char>, int)>
    decreases sv, 0int,
{
    match contents_check_from(sv.contents, 0) {
        Err(e) => Err(e),
        Ok(own) => match parts_check_from(sv.parts, 0) {
            Err(e) => Err(e),
            Ok(nested) => Ok(own + nested),
        },
    }
}

/// Check mode over a run of parts from position `i` on.
pub open spec fn parts_check_from(parts: Seq<StoryView>, i: int) -> Result<
    Seq<Seq<char>>,
    (Seq<char>, int),
>
    decreases parts, parts.len() - i,
{
    if i < 0 || i >= parts.len() {
        Ok(Seq::empty())
    } else {
        match story_check(parts[i]) {
            Err(e) => Err(e),
            Ok(ids) => match parts_check_from(parts, i + 1) {
                Err(e) => Err(e),
                Ok(rest) => Ok(ids + rest),
            },
        }
    }
}

/// Build mode over a run of contents from position `i` on: each content
/// resolved, in order; the first malformed content stops the run.
pub open spec fn contents_interp_from(contents: Seq<Seq<char>>, ctx: Context, i: int) -> Result<
    Seq<Seq<char>>,
    (Seq<char>, int),
>
    decreases contents.len() - i,
{
    if i < 0 || i >= contents.len() {
        Ok(Seq::empty())
    } else {
        match resolve_text(contents[i], ctx) {
            Err(j) => Err((contents[i], j)),
            Ok(t) => match contents_interp_from(contents, ctx, i + 1) {
                Err(e) => Err(e),
                Ok(rest) => Ok(seq![t] + rest),
            },
        }
    }
}

/// Build mode over one node: a new node with the same title, the contents
/// resolved in order, and the parts interpolated in order.
pub open spec fn story_interp(sv: StoryView, ctx: Context) -> Result<StoryView, (Seq<char>, int)>
    decreases sv, 0int,
{
    match contents_interp_from(sv.contents, ctx, 0) {
        Err(e) => Err(e),
        Ok(resolved) => match parts_interp_from(sv.parts, ctx, 0) {
            Err(e) => Err(e),
            Ok(nested) => Ok(StoryView { title: sv.title, parts: nested, contents: resolved }),
        },
    }
}

/// Build mode over a run of parts from position `i` on.
pub open spec fn parts_interp_from(parts: Seq<StoryView>, ctx: Context, i: int) -> Result<
    Seq<StoryView>,
    (Seq<char>, int),
>
    decreases parts, parts.len() - i,
{
    if i < 0 || i >= parts.len() {
        Ok(Seq::empty())
    } else {
        match story_interp(parts[i], ctx) {
            Err(e) => Err(e),
            Ok(v) => match parts_interp_from(parts, ctx, i + 1) {
                Err(e) => Err(e),
                Ok(rest) => Ok(seq![v] + rest),
            },
        }
    }
}

proof fn lemma_vec_string_push_deep_view(v1: Vec<String>, v2: Vec<String>, x: String)
    requires
        v2@ == v1@.push(x),
    ensures
        v2.deep_view() == v1.deep_view().push(x@),
{
    assert(v2.deep_view() =~= v1.deep_view().push(x@));
}

fn join_path(path: &Vec<String>) -> (r: String)
    ensures
        r@ == path_text(path.deep_view()),
{
    let ghost dv = path.deep_view();
    proof {
        reveal_strlit(".");
        assert("."@ =~= seq!['.']);
    }
    let mut out = String::new();
    let mut i: usize = 0;
    while i < path.len()
        invariant
            i <= path@.len(),
            dv == path.deep_view(),
            dv.len() == path@.len(),
            out@ == path_join(dv, i as int),
            "."@ == seq!['.'],
        decreases path@.len() - i,
    {
        if i > 0 {
            out.append(".");
        }
        out.append(path[i].as_str());
        i = i + 1;
    }
    out
}

fn collect_idents(segs: &Vec<Segment>, out: &mut Vec<String>)
    ensures
        final(out).deep_view() == old(out).deep_view() + segs_idents_from(segs.deep_view(), 0),
{
    let ghost sdv = segs.deep_view();
    let mut i: usize = 0;
    while i < segs.len()
        invariant
            i <= segs@.len(),
            sdv == segs.deep_view(),
            sdv.len() == segs@.len(),
            out.deep_view() + segs_idents_from(sdv, i as int) == old(out).deep_view()
                + segs_idents_from(sdv, 0),
        decreases segs@.len() - i,
    {
        match &segs[i] {
            Segment::Literal(_) => {},
            Segment::Placeholder { path, .. } => {
                let joined = join_path(path);
                let ghost before = *out;
                out.push(joined);
                proof {
                    lemma_vec_string_push_deep_view(before, *out, joined);
                    let ptext = path_text(path.deep_view());
                    assert(before.deep_view().push(ptext) + segs_idents_from(sdv, i + 1)
                        =~= before.deep_view() + (seq![ptext] + segs_idents_from(sdv, i + 1)));
                }
            },
        }
        i = i + 1;
    }
    proof {
        assert(out.deep_view() + Seq::<Seq<char>>::empty() =~= out.deep_view());
    }
}

fn resolve_content(source: &String, context: &Context) -> (r: Result<String, Error>)
    ensures
        resolve_text(source@, *context) matches Ok(t) ==> (r matches Ok(out) && out@ == t),
        resolve_text(source@, *context) matches Err(j) ==> (r matches Err(e) && e->0 == line_of(
            source@,
            j,
        ) && e->1 == col_of(source@, j) && e->2@ == expected_message()),
{
    match MakinilyaText::parse(source.as_str()) {
        Err(e) => Err(e),
        Ok(segs) => {
            let ghost sdv = segs.deep_view();
            let mut out = String::new();
            let mut i: usize = 0;
            while i < segs.len()
                invariant
                    i <= segs@.len(),
                    sdv == segs.deep_view(),
                    sdv.len() == segs@.len(),
                    out@ + resolve_segs_from(sdv, *context, i as int) == resolve_segs_from(
                        sdv,
                        *context,
                        0,
                    ),
                decreases segs@.len() - i,
            {
                let ghost before = out@;
                match &segs[i] {
                    Segment::Literal(t) => {
                        out.append(t.as_str());
                    },
                    Segment::Placeholder { path, .. } => {
                        match context.get(path) {
                            Some(d) => {
                                let txt = d.render();
                                out.append(txt.as_str());
                            },
                            None => {},
                        }
                    },
                }
                i = i + 1;
                proof {
                    assert((before + resolve_seg(sdv[i - 1], *context)) + resolve_segs_from(
                        sdv,
                        *context,
                        i as int,
                    ) =~= before + (resolve_seg(sdv[i - 1], *context) + resolve_segs_from(
                        sdv,
                        *context,
                        i as int,
                    )));
                    assert(before + Seq::<char>::empty() =~= before);
                }
            }
            proof {
                assert(out@ + Seq::<char>::empty() =~= out@);
            }
            Ok(out)
        },
    }
}

/// The interpolation passes over a story tree.
pub struct StoryInterpolator;

impl StoryInterpolator {
    /// Check mode: every dotted path referenced anywhere in the tree, in
    /// depth-first, left-to-right, in-document order, duplicates kept; or
    /// the syntax error of the first malformed content.
    pub fn check(story: &Story) -> (r: Result<Vec<String>, Error>)
        ensures
            story_check(story.spec_view()) matches Ok(ids) ==> (r matches Ok(v) && v.deep_view()
                == ids),
            story_check(story.spec_view()) matches Err(e) ==> (r matches Err(err) && err->0
                == line_of(e.0, e.1) && err->1 == col_of(e.0, e.1) && err->2@
                == expected_message()),
        decreases story.spec_view(),
    {
        let ghost sv = story.spec_view();
        let mut checked: Vec<String> = Vec::new();
        let contents = story.contents();
        let mut ci: usize = 0;
        while ci < contents.len()
            invariant
                ci <= contents@.len(),
                contents.deep_view() == sv.contents,
                sv.contents.len() == contents@.len(),
                sv == story.spec_view(),
                contents_check_from(sv.contents, ci as int) matches Ok(rest) ==> (
                contents_check_from(sv.contents, 0) matches Ok(all) && all == checked.deep_view()
                    + rest),
                contents_check_from(sv.contents, ci as int) matches Err(e) ==> contents_check_from(
                    sv.contents,
                    0,
                ) == Err::<Seq<Seq<char>>, (Seq<char>, int)>(e),
            decreases contents@.len() - ci,
        {
            match MakinilyaText::parse(contents[ci].as_str()) {
                Err(e) => {
                    return Err(e);
                },
                Ok(segs) => {
                    let ghost before = checked.deep_view();
                    collect_idents(&segs, &mut checked);
                    proof {
                        let ids = segs_idents_from(segs.deep_view(), 0);
                        match contents_check_from(sv.contents, ci + 1) {
                            Ok(rest) => {
                                assert((before + ids) + rest =~= before + (ids + rest));
                            },
                            Err(_) => {},
                        }
                    }
                },
            }
            ci = ci + 1;
        }
        proof {
            assert(checked.deep_view() + Seq::<Seq<char>>::empty() =~= checked.deep_view());
        }
        let parts = story.parts();
        proof {
            crate::story::lemma_parts_views_index(parts@);
        }
        let mut pi: usize = 0;
        while pi < parts.len()
            invariant
                pi <= parts@.len(),
                Story::parts_views(parts@) == sv.parts,
                sv.parts.len() == parts@.len(),
                sv == story.spec_view(),
                contents_check_from(sv.contents, 0) is Ok,
                parts_check_from(sv.parts, pi as int) matches Ok(rest) ==> story_check(sv) == Ok::<
                    Seq<Seq<char>>,
                    (Seq<char>, int),
                >(checked.deep_view() + rest),
                parts_check_from(sv.parts, pi as int) matches Err(e) ==> story_check(sv) == Err::<
                    Seq<Seq<char>>,
                    (Seq<char>, int),
                >(e),
            decreases parts@.len() - pi,
        {
            proof {
                crate::story::lemma_parts_views_index(parts@);
                assert(sv.parts[pi as int] == parts@[pi as int].spec_view());
                assert(decreases_to!(sv => sv.parts));
                assert(decreases_to!(sv.parts => sv.parts[pi as int]));
            }
            let part = &parts[pi];
            match Self::check(&**part) {
                Err(e) => {
                    return Err(e);
                },
                Ok(mut nested) => {
                    let ghost before = checked.deep_view();
                    let ghost nested_dv = nested.deep_view();
                    checked.append(&mut nested);
                    proof {
                        assert(checked.deep_view() =~= before + nested_dv);
                        match parts_check_from(sv.parts, pi + 1) {
                            Ok(rest) => {
                                assert((before + nested_dv) + rest =~= before + (nested_dv
                                    + rest));
                            },
                            Err(_) => {},
                        }
                    }
                },
            }
            pi = pi + 1;
        }
        proof {
            assert(checked.deep_view() + Seq::<Seq<char>>::empty() =~= checked.deep_view());
        }
        Ok(checked)
    }

    /// Build mode: a new story of identical shape and titles, with every
    /// content's placeholders resolved against the context; or the syntax
    /// error of the first malformed content.
    pub fn interpolate(story: &Story, context: &Context) -> (r: Result<Story, Error>)
        ensures
            story_interp(story.spec_view(), *context) matches Ok(out) ==> (r matches Ok(v)
                && v.spec_view() == out),
            story_interp(story.spec_view(), *context) matches Err(e) ==> (r matches Err(err)
                && err->0 == line_of(e.0, e.1) && err->1 == col_of(e.0, e.1) && err->2@
                == expected_message()),
        decreases story.spec_view(),
    {
        let ghost sv = story.spec_view();
        let ghost ctx = *context;
        let mut interpolated = Story::new(story.title().as_str());
        let contents = story.contents();
        let mut ci: usize = 0;
        while ci < contents.len()
            invariant
                ci <= contents@.len(),
                contents.deep_view() == sv.contents,
                sv.contents.len() == contents@.len(),
                sv == story.spec_view(),
                ctx == *context,
                interpolated.spec_view().title == sv.title,
                interpolated.spec_view().parts == Seq::<StoryView>::empty(),
                contents_interp_from(sv.contents, ctx, ci as int) matches Ok(rest) ==> (
                contents_interp_from(sv.contents, ctx, 0) matches Ok(all) && all
                    == interpolated.spec_view().contents + rest),
                contents_interp_from(sv.contents, ctx, ci as int) matches Err(e)
                    ==> contents_interp_from(sv.contents, ctx, 0) == Err::<
                    Seq<Seq<char>>,
                    (Seq<char>, int),
                >(e),
            decreases contents@.len() - ci,
        {
            match resolve_content(&contents[ci], context) {
                Err(e) => {
                    return Err(e);
                },
                Ok(resolved) => {
                    let ghost before = interpolated.spec_view().contents;
                    let ghost t = resolve_text(sv.contents[ci as int], ctx)->Ok_0;
                    interpolated.push_content(resolved.as_str());
                    proof {
                        match contents_interp_from(sv.contents, ctx, ci + 1) {
                            Ok(rest) => {
                                assert(before.push(t) + rest =~= before + (seq![t] + rest));
                            },
                            Err(_) => {},
                        }
                    }
                },
            }
            ci = ci + 1;
        }
        proof {
            assert(interpolated.spec_view().contents + Seq::<Seq<char>>::empty()
                =~= interpolated.spec_view().contents);
        }
        let parts = story.parts();
        proof {
            crate::story::lemma_parts_views_index(parts@);
        }
        let mut pi: usize = 0;
        while pi < parts.len()
            invariant
                pi <= parts@.len(),
                Story::parts_views(parts@) == sv.parts,
                sv.parts.len() == parts@.len(),
                sv == story.spec_view(),
                ctx == *context,
                interpolated.spec_view().title == sv.title,
                contents_interp_from(sv.contents, ctx, 0) matches Ok(resolved) && resolved
                    == interpolated.spec_view().contents,
                parts_interp_from(sv.parts, ctx, pi as int) matches Ok(rest) ==> (parts_interp_from(
                    sv.parts,
                    ctx,
                    0,
                ) matches Ok(allp) && allp == interpolated.spec_view().parts + rest),
                parts_interp_from(sv.parts, ctx, pi as int) matches Err(e) ==> parts_interp_from(
                    sv.parts,
                    ctx,
                    0,
                ) == Err::<Seq<StoryView>, (Seq<char>, int)>(e),
            decreases parts@.len() - pi,
        {
            proof {
                crate::story::lemma_parts_views_index(parts@);
                assert(sv.parts[pi as int] == parts@[pi as int].spec_view());
                assert(decreases_to!(sv => sv.parts));
                assert(decreases_to!(sv.parts => sv.parts[pi as int]));
            }
            let part = &parts[pi];
            match Self::interpolate(&**part, context) {
                Err(e) => {
                    proof {
                        match parts_interp_from(sv.parts, ctx, pi as int) {
                            Ok(_) => {},
                            Err(_) => {},
                        }
                    }
                    return Err(e);
                },
                Ok(nested) => {
                    let ghost before = interpolated.spec_view().parts;
                    let ghost nv = story_interp(sv.parts[pi as int], ctx)->Ok_0;
                    interpolated.push_part(nested);
                    proof {
                        match parts_interp_from(sv.parts, ctx, pi + 1) {
                            Ok(rest) => {
                                assert(before.push(nv) + rest =~= before + (seq![nv] + rest));
                            },
                            Err(_) => {},
                        }
                    }
                },
            }
            pi = pi + 1;
        }
        proof {
            assert(interpolated.spec_view().parts + Seq::<StoryView>::empty()
                =~= interpolated.spec_view().parts);
            match story_interp(sv, ctx) {
                Ok(out) => {
                    assert(out =~= interpolated.spec_view());
                },
                Err(_) => {},
            }
        }
        Ok(interpolated)
    }
}


// ---------------------------------------------------------------------------
// Laws of the interpolator.
// ---------------------------------------------------------------------------

proof fn lemma_resolve_literal_only(segs: Seq<SegmentView>, ctx: Context, i: int)
    requires
        0 <= i <= segs.len(),
        forall|k: int| 0 <= k < segs.len() ==> segs[k] is Literal,
    ensures
        resolve_segs_from(segs, ctx, i) == crate::text::concat_text(segs.skip(i)),
    decreases segs.len() - i,
{
    if i >= segs.len() {
        assert(segs.skip(i) =~= Seq::<SegmentView>::empty());
    } else {
        lemma_resolve_literal_only(segs, ctx, i + 1);
        assert(segs.skip(i).drop_first() =~= segs.skip(i + 1));
        assert(segs.skip(i)[0] == segs[i]);
    }
}

/// Round-trip law: a well-formed text unit with no placeholders resolves to
/// itself, under any context.
pub proof fn lemma_literal_unit_resolves_unchanged(s: Seq<char>, ctx: Context)
    requires
        spec_parse(s) is Ok,
        forall|k: int| 0 <= k < spec_parse(s)->Ok_0.len() ==> spec_parse(s)->Ok_0[k] is Literal,
    ensures
        resolve_text(s, ctx) == Ok::<Seq<char>, int>(s),
{
    let segs = spec_parse(s)->Ok_0;
    crate::text::lemma_segments_reconstruct_input(s);
    lemma_resolve_literal_only(segs, ctx, 0);
    assert(segs.skip(0) =~= segs);
}

/// What build mode leaves of the segments from position `i` on when every
/// placeholder misses: the literal spans alone, in order.
pub open spec fn strip_from(segs: Seq<SegmentView>, i: int) -> Seq<char>
    decreases segs.len() - i,
{
    if i < 0 || i >= segs.len() {
        Seq::empty()
    } else {
        (match segs[i] {
            SegmentView::Literal(t) => t,
            SegmentView::Placeholder { .. } => Seq::empty(),
        }) + strip_from(segs, i + 1)
    }
}

proof fn lemma_resolve_under_empty_context(segs: Seq<SegmentView>, ctx: Context, i: int)
    requires
        crate::text::segs_paths_nonempty(segs),
        ctx.variables@.len() == 0,
    ensures
        resolve_segs_from(segs, ctx, i) == strip_from(segs, i),
    decreases segs.len() - i,
{
    if 0 <= i && i < segs.len() {
        lemma_resolve_under_empty_context(segs, ctx, i + 1);
        match segs[i] {
            SegmentView::Literal(_) => {},
            SegmentView::Placeholder { path, .. } => {
                assert(segs[i] matches SegmentView::Placeholder { path: p, .. } ==> p.len() >= 1);
                assert(context_lookup(ctx, path) is None);
            },
        }
    }
}

/// Idempotence under an empty context: a well-formed unit resolves to its
/// literal spans in order, every placeholder span replaced by nothing.
pub proof fn lemma_empty_context_strips_placeholders(s: Seq<char>, ctx: Context)
    requires
        spec_parse(s) is Ok,
        ctx.variables@.len() == 0,
    ensures
        resolve_text(s, ctx) == Ok::<Seq<char>, int>(strip_from(spec_parse(s)->Ok_0, 0)),
{
    crate::text::lemma_parse_paths_nonempty(s);
    lemma_resolve_under_empty_context(spec_parse(s)->Ok_0, ctx, 0);
}

/// The number of placeholders among the segments from position `i` on.
pub open spec fn segs_placeholder_count(segs: Seq<SegmentView>, i: int) -> int
    decreases segs.len() - i,
{
    if i < 0 || i >= segs.len() {
        0
    } else {
        (match segs[i] {
            SegmentView::Placeholder { .. } => 1int,
            SegmentView::Literal(_) => 0int,
        }) + segs_placeholder_count(segs, i + 1)
    }
}

/// The number of placeholders in one text unit; zero where it is malformed.
pub open spec fn text_placeholder_count(s: Seq<char>) -> int {
    match spec_parse(s) {
        Ok(segs) => segs_placeholder_count(segs, 0),
        Err(_) => 0,
    }
}

/// The number of placeholders among a run of contents from position `i` on.
pub open spec fn contents_placeholder_count(contents: Seq<Seq<char>>, i: int) -> int
    decreases contents.len() - i,
{
    if i < 0 || i >= contents.len() {
        0
    } else {
        text_placeholder_count(contents[i]) + contents_placeholder_count(contents, i + 1)
    }
}

/// The number of placeholders in a whole tree, depth first.
pub open spec fn story_placeholder_count(sv: StoryView) -> int
    decreases sv, 0int,
{
    contents_placeholder_count(sv.contents, 0) + parts_placeholder_count(sv.parts, 0)
}

/// The number of placeholders among a run of parts from position `i` on.
pub open spec fn parts_placeholder_count(parts: Seq<StoryView>, i: int) -> int
    decreases parts, parts.len() - i,
{
    if i < 0 || i >= parts.len() {
        0
    } else {
        story_placeholder_count(parts[i]) + parts_placeholder_count(parts, i + 1)
    }
}

proof fn lemma_segs_idents_len(segs: Seq<SegmentView>, i: int)
    ensures
        segs_idents_from(segs, i).len() == segs_placeholder_count(segs, i),
    decreases segs.len() - i,
{
    if 0 <= i && i < segs.len() {
        lemma_segs_idents_len(segs, i + 1);
    }
}

proof fn lemma_contents_check_len(contents: Seq<Seq<char>>, i: int)
    requires
        contents_check_from(contents, i) is Ok,
    ensures
        contents_check_from(contents, i)->Ok_0.len() == contents_placeholder_count(contents, i),
    decreases contents.len() - i,
{
    if 0 <= i && i < contents.len() {
        match check_text(contents[i]) {
            Err(_) => {},
            Ok(ids) => {
                lemma_segs_idents_len(spec_parse(contents[i])->Ok_0, 0);
                lemma_contents_check_len(contents, i + 1);
            },
        }
    }
}

proof fn lemma_parts_check_len(parts: Seq<StoryView>, i: int)
    requires
        parts_check_from(parts, i) is Ok,
    ensures
        parts_check_from(parts, i)->Ok_0.len() == parts_placeholder_count(parts, i),
    decreases parts, parts.len() - i,
{
    if 0 <= i && i < parts.len() {
        match story_check(parts[i]) {
            Err(_) => {},
            Ok(_) => {
                lemma_check_counts_placeholders(parts[i]);
                lemma_parts_check_len(parts, i + 1);
            },
        }
    }
}

/// Check-mode completeness: the identifier list is exactly one entry per
/// placeholder across the whole tree, duplicates kept.
pub proof fn lemma_check_counts_placeholders(sv: StoryView)
    requires
        story_check(sv) is Ok,
    ensures
        story_check(sv)->Ok_0.len() == story_placeholder_count(sv),
    decreases sv, 1int,
{
    lemma_contents_check_len(sv.contents, 0);
    lemma_parts_check_len(sv.parts, 0);
}

/// True when two trees have the same part/content structure and the same
/// titles, position for position.
pub open spec fn same_shape(a: StoryView, b: StoryView) -> bool
    decreases a, 0int,
{
    &&& a.title == b.title
    &&& a.contents.len() == b.contents.len()
    &&& parts_same_shape(a.parts, b.parts)
}

/// True when two runs of parts line up and match in shape, pair for pair.
pub open spec fn parts_same_shape(ps: Seq<StoryView>, qs: Seq<StoryView>) -> bool
    decreases ps, 1int,
{
    if ps.len() == 0 {
        qs.len() == 0
    } else {
        &&& qs.len() == ps.len()
        &&& same_shape(ps[0], qs[0])
        &&& parts_same_shape(ps.drop_first(), qs.drop_first())
    }
}

proof fn lemma_contents_interp_len(contents: Seq<Seq<char>>, ctx: Context, i: int)
    requires
        contents_interp_from(contents, ctx, i) is Ok,
        0 <= i <= contents.len(),
    ensures
        contents_interp_from(contents, ctx, i)->Ok_0.len() == contents.len() - i,
    decreases contents.len() - i,
{
    if i < contents.len() {
        match resolve_text(contents[i], ctx) {
            Err(_) => {},
            Ok(_) => {
                lemma_contents_interp_len(contents, ctx, i + 1);
            },
        }
    }
}

proof fn lemma_parts_interp_shape(parts: Seq<StoryView>, ctx: Context, i: int)
    requires
        parts_interp_from(parts, ctx, i) is Ok,
        0 <= i <= parts.len(),
    ensures
        parts_same_shape(parts.skip(i), parts_interp_from(parts, ctx, i)->Ok_0),
    decreases parts, parts.len() - i,
{
    if i >= parts.len() {
        assert(parts.skip(i) =~= Seq::<StoryView>::empty());
    } else {
        match story_interp(parts[i], ctx) {
            Err(_) => {},
            Ok(v) => {
                lemma_interpolate_preserves_shape(parts[i], ctx);
                lemma_parts_interp_shape(parts, ctx, i + 1);
                assert(parts.skip(i)[0] == parts[i]);
                let out = parts_interp_from(parts, ctx, i)->Ok_0;
                let rest = parts_interp_from(parts, ctx, i + 1)->Ok_0;
                assert(out == seq![v] + rest);
                assert(out.drop_first() =~= rest);
                assert(parts.skip(i).drop_first() =~= parts.skip(i + 1));
            },
        }
    }
}

/// Tree-shape preservation: build mode returns a tree of identical
/// part/content structure and titles; only the contents' text differs.
pub proof fn lemma_interpolate_preserves_shape(sv: StoryView, ctx: Context)
    requires
        story_interp(sv, ctx) is Ok,
    ensures
        same_shape(sv, story_interp(sv, ctx)->Ok_0),
    decreases sv, 1int,
{
    lemma_contents_interp_len(sv.contents, ctx, 0);
    lemma_parts_interp_shape(sv.parts, ctx, 0);
    assert(sv.parts.skip(0) =~= sv.parts);
}

/// True when every content of the tree parses.
pub open spec fn story_wf(sv: StoryView) -> bool
    decreases sv, 0int,
{
    contents_wf_from(sv.contents, 0) && parts_wf_from(sv.parts, 0)
}

/// True when every content from position `i` on parses.
pub open spec fn contents_wf_from(contents: Seq<Seq<char>>, i: int) -> bool
    decreases contents.len() - i,
{
    i < 0 || i >= contents.len() || (spec_parse(contents[i]) is Ok && contents_wf_from(
        contents,
        i + 1,
    ))
}

/// True when every part from position `i` on is well formed throughout.
pub open spec fn parts_wf_from(parts: Seq<StoryView>, i: int) -> bool
    decreases parts, parts.len() - i,
{
    i < 0 || i >= parts.len() || (story_wf(parts[i]) && parts_wf_from(parts, i + 1))
}

proof fn lemma_contents_interp_ok_iff_wf(contents: Seq<Seq<char>>, ctx: Context, i: int)
    ensures
        contents_interp_from(contents, ctx, i) is Ok <==> contents_wf_from(contents, i),
        contents_check_from(contents, i) is Ok <==> contents_wf_from(contents, i),
    decreases contents.len() - i,
{
    if 0 <= i && i < contents.len() {
        lemma_contents_interp_ok_iff_wf(contents, ctx, i + 1);
    }
}

proof fn lemma_parts_ok_iff_wf(parts: Seq<StoryView>, ctx: Context, i: int)
    ensures
        parts_interp_from(parts, ctx, i) is Ok <==> parts_wf_from(parts, i),
        parts_check_from(parts, i) is Ok <==> parts_wf_from(parts, i),
    decreases parts, parts.len() - i,
{
    if 0 <= i && i < parts.len() {
        lemma_walks_succeed_iff_well_formed(parts[i], ctx);
        lemma_parts_ok_iff_wf(parts, ctx, i + 1);
    }
}

/// Abort-on-error, both ways: build mode and check mode succeed exactly on
/// trees whose every content parses, however deep a malformed one sits.
pub proof fn lemma_walks_succeed_iff_well_formed(sv: StoryView, ctx: Context)
    ensures
        story_interp(sv, ctx) is Ok <==> story_wf(sv),
        story_check(sv) is Ok <==> story_wf(sv),
    decreases sv, 1int,
{
    lemma_contents_interp_ok_iff_wf(sv.contents, ctx, 0);
    lemma_parts_ok_iff_wf(sv.parts, ctx, 0);
}

} // verus!
