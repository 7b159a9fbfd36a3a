//! The project's file tree, as handed over by whatever reads the disk: a
//! directory is a named, ordered run of files and nested directories, and a
//! file carries its raw bytes and its extension.

use vstd::prelude::*;

verus! {

/// What went wrong while a directory tree was read from disk.  The reading
/// itself happens outside this library; the paths and names are carried as
/// plain text.
#[derive(Debug, Clone, PartialEq)]
pub enum ReaderError {
    FileName { file_path: String },
    Entry { dir_path: String },
    Directory { dir_path: String },
    OpenFile { file_name: String },
    ReadFile { file_name: String },
}

/// One file: its name, its raw bytes, and its extension if it has one.
#[derive(Debug)]
pub struct File {
    pub name: String,
    pub content: Vec<u8>,
    pub extension: Option<String>,
}

/// One entry of a directory: a file or a nested directory.
#[derive(Debug)]
pub enum PathItem {
    File(File),
    Directory(Box<Directory>),
}

/// A named, ordered run of path items.
#[derive(Debug)]
pub struct Directory {
    name: String,
    contents: Vec<PathItem>,
}

/// A file as the specification sees it.
#[verifier::ext_equal]
pub struct FileView {
    pub name: Seq<char>,
    pub content: Seq<u8>,
    pub extension: Option<Seq<char>>,
}

/// A path item as the specification sees it.
#[verifier::ext_equal]
pub enum PathItemView {
    File(FileView),
    Directory(DirectoryView),
}

/// A directory as the specification sees it.
#[verifier::ext_equal]
pub struct DirectoryView {
    pub name: Seq<char>,
    pub contents: Seq<PathItemView>,
}

impl File {
    /// The file as the specification sees it.
    pub open spec fn spec_view(self) -> FileView {
        FileView {
            name: self.name@,
            content: self.content@,
            extension: match self.extension {
                Some(e) => Some(e@),
                None => None,
            },
        }
    }
}

impl PathItem {
    /// The item as the specification sees it.
    pub open spec fn spec_view(self) -> PathItemView
        decreases self,
    {
        match self {
            PathItem::File(f) => PathItemView::File(f.spec_view()),
            PathItem::Directory(d) => PathItemView::Directory(d.spec_view()),
        }
    }

    /// Wraps a file.
    pub fn new_file(file_content: File) -> (r: Self)
        ensures
            r.spec_view() == PathItemView::File(file_content.spec_view()),
    {
        Self::File(file_content)
    }

    /// Wraps a directory.
    pub fn new_directory(directory: Directory) -> (r: Self)
        ensures
            r.spec_view() == PathItemView::Directory(directory.spec_view()),
    {
        Self::Directory(Box::new(directory))
    }
}

impl Directory {
    /// The directory as the specification sees it.
    pub closed spec fn spec_view(self) -> DirectoryView
        decreases self,
    {
        DirectoryView { name: self.name@, contents: Directory::items_views(self.contents@) }
    }

    /// The views of a run of path items, in order.
    pub open spec fn items_views(items: Seq<PathItem>) -> Seq<PathItemView>
        decreases items,
    {
        if items.len() == 0 {
            Seq::empty()
        } else {
            seq![items[0].spec_view()] + Directory::items_views(items.drop_first())
        }
    }

    /// An empty directory with the given name.
    pub fn new(title: &str) -> (r: Self)
        ensures
            r.spec_view() == (DirectoryView { name: title@, contents: Seq::empty() }),
    {
        let r = Self { name: title.to_owned(), contents: Vec::new() };
        proof {
            assert(r.spec_view() =~= DirectoryView { name: title@, contents: Seq::empty() });
        }
        r
    }

    /// The directory's name.
    pub fn name(&self) -> (r: &String)
        ensures
            r@ == self.spec_view().name,
    {
        &self.name
    }

    /// The items, in order.
    pub fn contents(&self) -> (r: &Vec<PathItem>)
        ensures
            Directory::items_views(r@) == self.spec_view().contents,
    {
        &self.contents
    }

    /// Appends an item after the existing ones.
    pub fn push_item(&mut self, path_item: PathItem)
        ensures
            final(self).spec_view() == (DirectoryView {
                name: old(self).spec_view().name,
                contents: old(self).spec_view().contents.push(path_item.spec_view()),
            }),
    {
        let ghost old_items = self.contents@;
        let ghost item_view = path_item.spec_view();
        self.contents.push(path_item);
        proof {
            lemma_items_views_push(old_items, self.contents@[self.contents@.len() - 1]);
            assert(self.contents@.drop_last() =~= old_items);
            assert(self.spec_view() =~= DirectoryView {
                name: old(self).spec_view().name,
                contents: old(self).spec_view().contents.push(item_view),
            });
        }
    }
}

proof fn lemma_items_views_push(items: Seq<PathItem>, item: PathItem)
    ensures
        Directory::items_views(items.push(item)) == Directory::items_views(items).push(
            item.spec_view(),
        ),
    decreases items.len(),
{
    if items.len() == 0 {
        assert(items.push(item).drop_first() =~= items);
        assert(Directory::items_views(items.push(item)) =~= Directory::items_views(items).push(
            item.spec_view(),
        ));
    } else {
        assert(items.push(item).drop_first() =~= items.drop_first().push(item));
        lemma_items_views_push(items.drop_first(), item);
        assert(Directory::items_views(items.push(item)) =~= Directory::items_views(items).push(
            item.spec_view(),
        ));
    }
}

/// The characters that a run of bytes decodes to as UTF-8 with invalid
/// sequences replaced.  The library states nothing of this function's
/// values; it only names what [`utf8_lossy`] returns.
pub uninterp spec fn lossy_text(bytes: Seq<u8>) -> Seq<char>;

/// Relies on `String::from_utf8_lossy`: the result depends on the bytes
/// alone, decoding them as UTF-8 with replacement characters for invalid
/// sequences.
#[verifier::external_body]
pub(crate) fn utf8_lossy(bytes: &Vec<u8>) -> (r: String)
    ensures
        r@ == lossy_text(bytes@),
{
    String::from_utf8_lossy(bytes).into_owned()
}

} // verus!
