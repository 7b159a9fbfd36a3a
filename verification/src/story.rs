//! The document tree of the written narrative.
//!
//! A `Story` node is both a part (a chapter or an act) and a container: it
//! holds an ordered run of contents (the scenes, each one raw text unit) and
//! an ordered run of nested parts.  The whole story is itself a part,
//! conventionally entitled "root".

use vstd::prelude::*;

use crate::files::lossy_text;
use crate::files::utf8_lossy;
use crate::files::Directory;
use crate::files::DirectoryView;
use crate::files::PathItem;
use crate::files::PathItemView;

verus! {

/// The file extension that marks a narrative text file.
pub const MAKINILYA_TEXT_EXTENSION: &'static str = "mt";

/// The shape of a story node as the specification sees it: the title, the
/// nested parts in order, and the contents in order.
#[verifier::ext_equal]
pub struct StoryView {
    pub title: Seq<char>,
    pub parts: Seq<StoryView>,
    pub contents: Seq<Seq<char>>,
}

/// A node of the document tree.
///
/// # Examples
/// ```
/// use makinilya::story::Story;
///
/// let mut story = Story::new("root");
///
/// let mut part = Story::new("Chapter 1");
/// part.push_content("I'm the first scene.");
/// part.push_content("I'm the second scene.");
///
/// story.push_part(part);
/// ```
#[derive(Debug)]
pub struct Story {
    title: String,
    parts: Vec<Box<Story>>,
    contents: Vec<String>,
}

impl Story {
    /// The node as the specification sees it.
    pub closed spec fn spec_view(self) -> StoryView
        decreases self,
    {
        StoryView {
            title: self.title@,
            parts: Story::parts_views(self.parts@),
            contents: self.contents.deep_view(),
        }
    }

    /// The views of a run of nested parts, in order.
    pub open spec fn parts_views(parts: Seq<Box<Story>>) -> Seq<StoryView>
        decreases parts,
    {
        if parts.len() == 0 {
            Seq::empty()
        } else {
            seq![parts[0].spec_view()] + Story::parts_views(parts.drop_first())
        }
    }

    /// A node with the given title and no parts or contents yet.
    pub fn new(title: &str) -> (r: Self)
        ensures
            r.spec_view() == (StoryView {
                title: title@,
                parts: Seq::empty(),
                contents: Seq::empty(),
            }),
    {
        let r = Self { title: title.to_owned(), parts: Vec::new(), contents: Vec::new() };
        proof {
            assert(r.spec_view() =~= StoryView {
                title: title@,
                parts: Seq::empty(),
                contents: Seq::empty(),
            });
        }
        r
    }

    /// Appends a nested part after the existing ones.
    pub fn push_part(&mut self, part: Story)
        ensures
            final(self).spec_view() == (StoryView {
                title: old(self).spec_view().title,
                parts: old(self).spec_view().parts.push(part.spec_view()),
                contents: old(self).spec_view().contents,
            }),
    {
        let ghost old_parts = self.parts@;
        self.parts.push(Box::new(part));
        proof {
            lemma_parts_views_push(old_parts, self.parts@[self.parts@.len() - 1]);
            assert(self.parts@.drop_last() =~= old_parts);
            assert(self.spec_view() =~= StoryView {
                title: old(self).spec_view().title,
                parts: old(self).spec_view().parts.push(part.spec_view()),
                contents: old(self).spec_view().contents,
            });
        }
    }

    /// Appends a scene's raw text after the existing contents.
    pub fn push_content(&mut self, source: &str)
        ensures
            final(self).spec_view() == (StoryView {
                title: old(self).spec_view().title,
                parts: old(self).spec_view().parts,
                contents: old(self).spec_view().contents.push(source@),
            }),
    {
        self.contents.push(source.to_owned());
        proof {
            assert(self.contents.deep_view() =~= old(self).contents.deep_view().push(source@));
            assert(self.spec_view() =~= StoryView {
                title: old(self).spec_view().title,
                parts: old(self).spec_view().parts,
                contents: old(self).spec_view().contents.push(source@),
            });
        }
    }

    /// The node's title.
    pub fn title(&self) -> (r: &String)
        ensures
            r@ == self.spec_view().title,
    {
        &self.title
    }

    /// The nested parts, in order.
    pub fn parts(&self) -> (r: &Vec<Box<Story>>)
        ensures
            Story::parts_views(r@) == self.spec_view().parts,
    {
        &self.parts
    }

    /// The contents, in order.
    pub fn contents(&self) -> (r: &Vec<String>)
        ensures
            r.deep_view() == self.spec_view().contents,
    {
        &self.contents
    }

    /// Mutable access to the nested parts; the rest of the node stays as it
    /// was, and its parts become whatever the borrow leaves behind.
    pub fn mut_parts(&mut self) -> (r: &mut Vec<Box<Story>>)
        ensures
            Story::parts_views((*r)@) == old(self).spec_view().parts,
            final(self).spec_view() == (StoryView {
                title: old(self).spec_view().title,
                parts: Story::parts_views(final(r)@),
                contents: old(self).spec_view().contents,
            }),
    {
        &mut self.parts
    }

    /// Mutable access to the contents; the rest of the node stays as it was,
    /// and its contents become whatever the borrow leaves behind.
    pub fn mut_contents(&mut self) -> (r: &mut Vec<String>)
        ensures
            (*r).deep_view() == old(self).spec_view().contents,
            final(self).spec_view() == (StoryView {
                title: old(self).spec_view().title,
                parts: old(self).spec_view().parts,
                contents: final(r).deep_view(),
            }),
    {
        &mut self.contents
    }
}

/// The story read from a directory tree: nested directories become parts,
/// and files bearing the [`MAKINILYA_TEXT_EXTENSION`] extension become
/// contents, both in directory order.
pub open spec fn story_of(d: DirectoryView) -> StoryView
    decreases d,
{
    StoryView {
        title: d.name,
        parts: story_parts_of(d.contents),
        contents: story_contents_of(d.contents),
    }
}

/// The parts contributed by a run of path items: one per nested directory.
pub open spec fn story_parts_of(items: Seq<PathItemView>) -> Seq<StoryView>
    decreases items,
{
    if items.len() == 0 {
        Seq::empty()
    } else {
        let rest = story_parts_of(items.drop_first());
        match items[0] {
            PathItemView::Directory(d) => seq![story_of(d)] + rest,
            PathItemView::File(_) => rest,
        }
    }
}

/// The contents contributed by a run of path items: the decoded text of each
/// file whose extension marks it as narrative text.
pub open spec fn story_contents_of(items: Seq<PathItemView>) -> Seq<Seq<char>>
    decreases items,
{
    if items.len() == 0 {
        Seq::empty()
    } else {
        let rest = story_contents_of(items.drop_first());
        match items[0] {
            PathItemView::File(f) => if f.extension == Some("mt"@) {
                seq![lossy_text(f.content)] + rest
            } else {
                rest
            },
            PathItemView::Directory(_) => rest,
        }
    }
}

proof fn lemma_story_parts_of_push(items: Seq<PathItemView>, x: PathItemView)
    ensures
        story_parts_of(items.push(x)) == (match x {
            PathItemView::Directory(d) => story_parts_of(items).push(story_of(d)),
            PathItemView::File(_) => story_parts_of(items),
        }),
    decreases items.len(),
{
    if items.len() == 0 {
        assert(items.push(x).drop_first() =~= items);
        match x {
            PathItemView::Directory(d) => {
                assert(story_parts_of(items.push(x)) =~= story_parts_of(items).push(story_of(d)));
            },
            PathItemView::File(_) => {
                assert(story_parts_of(items.push(x)) =~= story_parts_of(items));
            },
        }
    } else {
        assert(items.push(x).drop_first() =~= items.drop_first().push(x));
        lemma_story_parts_of_push(items.drop_first(), x);
        match x {
            PathItemView::Directory(d) => {
                assert(story_parts_of(items.push(x)) =~= story_parts_of(items).push(story_of(d)));
            },
            PathItemView::File(_) => {
                assert(story_parts_of(items.push(x)) =~= story_parts_of(items));
            },
        }
    }
}

proof fn lemma_story_contents_of_push(items: Seq<PathItemView>, x: PathItemView)
    ensures
        story_contents_of(items.push(x)) == (match x {
            PathItemView::File(f) => if f.extension == Some("mt"@) {
                story_contents_of(items).push(lossy_text(f.content))
            } else {
                story_contents_of(items)
            },
            PathItemView::Directory(_) => story_contents_of(items),
        }),
    decreases items.len(),
{
    if items.len() == 0 {
        assert(items.push(x).drop_first() =~= items);
    } else {
        assert(items.push(x).drop_first() =~= items.drop_first().push(x));
        lemma_story_contents_of_push(items.drop_first(), x);
    }
    match x {
        PathItemView::File(f) => {
            if f.extension == Some("mt"@) {
                assert(story_contents_of(items.push(x)) =~= story_contents_of(items).push(
                    lossy_text(f.content),
                ));
            } else {
                assert(story_contents_of(items.push(x)) =~= story_contents_of(items));
            }
        },
        PathItemView::Directory(_) => {
            assert(story_contents_of(items.push(x)) =~= story_contents_of(items));
        },
    }
}

proof fn lemma_items_views_index(items: Seq<PathItem>)
    ensures
        Directory::items_views(items).len() == items.len(),
        forall|i: int|
            0 <= i < items.len() ==> Directory::items_views(items)[i] == items[i].spec_view(),
    decreases items.len(),
{
    if items.len() > 0 {
        lemma_items_views_index(items.drop_first());
    }
}

fn extension_marks_text(extension: &String) -> (r: bool)
    ensures
        r == (extension@ == "mt"@),
{
    *extension == MAKINILYA_TEXT_EXTENSION.to_owned()
}

impl Story {
    /// Reads a story out of a directory tree.
    pub fn parse(directory: &Directory) -> (r: Story)
        ensures
            r.spec_view() == story_of(directory.spec_view()),
        decreases directory.spec_view(),
    {
        let ghost dv = directory.spec_view();
        let items = directory.contents();
        let mut story = Story::new(directory.name().as_str());
        let mut idx: usize = 0;
        proof {
            lemma_items_views_index(items@);
            assert(dv.contents.take(0) =~= Seq::empty());
        }
        while idx < items.len()
            invariant
                idx <= items@.len(),
                Directory::items_views(items@) == dv.contents,
                items@.len() == dv.contents.len(),
                forall|i: int| 0 <= i < items@.len() ==> dv.contents[i] == items@[i].spec_view(),
                dv == directory.spec_view(),
                story.spec_view() == (StoryView {
                    title: dv.name,
                    parts: story_parts_of(dv.contents.take(idx as int)),
                    contents: story_contents_of(dv.contents.take(idx as int)),
                }),
            decreases items@.len() - idx,
        {
            let ghost taken = dv.contents.take(idx as int);
            match &items[idx] {
                PathItem::Directory(d) => {
                    proof {
                        assert(dv.contents[idx as int] == PathItemView::Directory(d.spec_view()));
                        assert(decreases_to!(dv => dv.contents));
                        assert(decreases_to!(dv.contents => dv.contents[idx as int]));
                        assert(decreases_to!(dv.contents[idx as int] => dv.contents[
                            idx as int
                        ]->Directory_0));
                    }
                    let nested = Story::parse(&**d);
                    story.push_part(nested);
                    proof {
                        lemma_story_parts_of_push(taken, dv.contents[idx as int]);
                        lemma_story_contents_of_push(taken, dv.contents[idx as int]);
                    }
                },
                PathItem::File(f) => {
                    proof {
                        assert(dv.contents[idx as int] == PathItemView::File(f.spec_view()));
                        lemma_story_parts_of_push(taken, dv.contents[idx as int]);
                        lemma_story_contents_of_push(taken, dv.contents[idx as int]);
                    }
                    if let Some(extension) = &f.extension {
                        if extension_marks_text(extension) {
                            let text = utf8_lossy(&f.content);
                            story.push_content(text.as_str());
                        }
                    }
                },
            }
            idx = idx + 1;
            proof {
                assert(dv.contents.take(idx as int) =~= taken.push(dv.contents[idx - 1]));
            }
        }
        proof {
            assert(dv.contents.take(items@.len() as int) =~= dv.contents);
        }
        story
    }
}

/// Part views line up with the parts they come from, index for index.
pub proof fn lemma_parts_views_index(parts: Seq<Box<Story>>)
    ensures
        Story::parts_views(parts).len() == parts.len(),
        forall|i: int|
            0 <= i < parts.len() ==> Story::parts_views(parts)[i] == parts[i].spec_view(),
    decreases parts.len(),
{
    if parts.len() > 0 {
        lemma_parts_views_index(parts.drop_first());
    }
}

proof fn lemma_parts_views_push(parts: Seq<Box<Story>>, part: Box<Story>)
    ensures
        Story::parts_views(parts.push(part)) == Story::parts_views(parts).push(part.spec_view()),
    decreases parts.len(),
{
    if parts.len() == 0 {
        assert(parts.push(part).drop_first() =~= parts);
        assert(Story::parts_views(parts.push(part)) =~= Story::parts_views(parts).push(
            part.spec_view(),
        ));
    } else {
        assert(parts.push(part).drop_first() =~= parts.drop_first().push(part));
        lemma_parts_views_push(parts.drop_first(), part);
        assert(Story::parts_views(parts.push(part)) =~= Story::parts_views(parts).push(
            part.spec_view(),
        ));
    }
}

} // verus!
