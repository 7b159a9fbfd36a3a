//! Laying out the manuscript: the title-page information the document
//! builder works from, and the word count printed on it.  The page layout
//! itself — fonts, margins, tables, the binary document — is written by a
//! collaborator outside this library.

use vstd::prelude::*;
use vstd::string::StrSliceExecFns;

use crate::config::contact_like;
use crate::config::Config;
use crate::config::ContactInformation;
use crate::story::Story;
use crate::story::StoryView;

verus! {

/// What can go wrong while the manuscript is laid out: nothing, at
/// present; no part of the library constructs a value of this type.
#[derive(Debug)]
pub struct BuilderError;

/// The title-page information of the manuscript.
#[derive(Debug)]
pub struct ManuscriptBuilderLayout {
    pub title: String,
    pub pen_name: String,
    pub author_information: Option<ContactInformation>,
    pub agent_information: Option<ContactInformation>,
}

/// The manuscript's title as the configuration decides it, with its
/// fallback applied.
pub open spec fn config_title(config: Config) -> Seq<char> {
    match config.story {
        Some(story_config) => match story_config.title {
            Some(t) => t@,
            None => "Untitled"@,
        },
        None => "Untitled"@,
    }
}

/// The pen name as the configuration decides it; its fallback is the
/// default title.
pub open spec fn config_pen_name(config: Config) -> Seq<char> {
    match config.story {
        Some(story_config) => match story_config.pen_name {
            Some(p) => p@,
            None => "Untitled"@,
        },
        None => "Untitled"@,
    }
}

/// True when two optional contact records carry the same text.
pub open spec fn opt_contact_like(
    a: Option<ContactInformation>,
    b: Option<ContactInformation>,
) -> bool {
    match a {
        None => b is None,
        Some(x) => b matches Some(y) && contact_like(x, y),
    }
}

impl Default for ManuscriptBuilderLayout {
    fn default() -> (r: Self)
        ensures
            r.title@ == "Untitled"@,
            r.pen_name@ == "Unknown Author"@,
            r.author_information is None,
            r.agent_information is None,
    {
        Self {
            title: "Untitled".to_owned(),
            pen_name: "Unknown Author".to_owned(),
            author_information: None,
            agent_information: None,
        }
    }
}

impl ManuscriptBuilderLayout {
    /// The layout a configuration asks for, fallbacks applied.
    pub fn from_config(config: &Config) -> (r: Self)
        ensures
            r.title@ == config_title(*config),
            r.pen_name@ == config_pen_name(*config),
            opt_contact_like(config.author, r.author_information),
            opt_contact_like(config.agent, r.agent_information),
    {
        let title = match &config.story {
            Some(story_config) => match &story_config.title {
                Some(t) => t.clone(),
                None => "Untitled".to_owned(),
            },
            None => "Untitled".to_owned(),
        };
        let pen_name = match &config.story {
            Some(story_config) => match &story_config.pen_name {
                Some(p) => p.clone(),
                None => "Untitled".to_owned(),
            },
            None => "Untitled".to_owned(),
        };
        let author_information = match &config.author {
            Some(a) => Some(a.duplicate()),
            None => None,
        };
        let agent_information = match &config.agent {
            Some(a) => Some(a.duplicate()),
            None => None,
        };
        Self { title, pen_name, author_information, agent_information }
    }
}

/// True of the characters that separate words: the Unicode white-space set.
pub open spec fn is_word_separator(c: char) -> bool {
    let u = c as u32;
    ||| (0x9 <= u && u <= 0xD)
    ||| u == 0x20
    ||| u == 0x85
    ||| u == 0xA0
    ||| u == 0x1680
    ||| (0x2000 <= u && u <= 0x200A)
    ||| u == 0x2028
    ||| u == 0x2029
    ||| u == 0x202F
    ||| u == 0x205F
    ||| u == 0x3000
}

fn word_separator(c: char) -> (r: bool)
    ensures
        r == is_word_separator(c),
{
    let u = c as u32;
    (0x9 <= u && u <= 0xD) || u == 0x20 || u == 0x85 || u == 0xA0 || u == 0x1680 || (0x2000 <= u
        && u <= 0x200A) || u == 0x2028 || u == 0x2029 || u == 0x202F || u == 0x205F || u == 0x3000
}

/// The number of words in `s` from position `i` on, given whether position
/// `i` stands inside a word already begun.
pub open spec fn words_from(s: Seq<char>, i: int, in_word: bool) -> nat
    decreases s.len() - i,
{
    if i < 0 || i >= s.len() {
        0
    } else if is_word_separator(s[i]) {
        words_from(s, i + 1, false)
    } else {
        (if in_word {
            0nat
        } else {
            1nat
        }) + words_from(s, i + 1, true)
    }
}

/// The number of whitespace-separated words in one text.
pub open spec fn text_words(s: Seq<char>) -> nat {
    words_from(s, 0, false)
}

/// The words among a run of contents from position `i` on.
pub open spec fn contents_words_from(contents: Seq<Seq<char>>, i: int) -> nat
    decreases contents.len() - i,
{
    if i < 0 || i >= contents.len() {
        0
    } else {
        text_words(contents[i]) + contents_words_from(contents, i + 1)
    }
}

/// The words of a whole tree: its own contents, then its parts.
pub open spec fn story_words(sv: StoryView) -> nat
    decreases sv, 0int,
{
    contents_words_from(sv.contents, 0) + parts_words_from(sv.parts, 0)
}

/// The words among a run of parts from position `i` on.
pub open spec fn parts_words_from(parts: Seq<StoryView>, i: int) -> nat
    decreases parts, parts.len() - i,
{
    if i < 0 || i >= parts.len() {
        0
    } else {
        story_words(parts[i]) + parts_words_from(parts, i + 1)
    }
}

/// `n` clamped into a 32-bit count.
pub open spec fn sat32(n: nat) -> u32 {
    if n > u32::MAX {
        u32::MAX
    } else {
        n as u32
    }
}

fn text_word_count(source: &String) -> (r: u32)
    ensures
        r == sat32(text_words(source@)),
{
    let s = source.as_str();
    let len = s.unicode_len();
    let mut count: u32 = 0;
    let mut in_word = false;
    let ghost mut done: nat = 0nat;
    let mut i: usize = 0;
    while i < len
        invariant
            i <= len,
            len == source@.len(),
            s@ == source@,
            count == sat32(done),
            text_words(source@) == done + words_from(source@, i as int, in_word),
        decreases len - i,
    {
        let c = s.get_char(i);
        if word_separator(c) {
            in_word = false;
        } else {
            if !in_word {
                count = count.saturating_add(1);
                proof {
                    done = done + 1;
                }
            }
            in_word = true;
        }
        i = i + 1;
    }
    count
}

/// Builds the manuscript: stores the title-page layout, counts the words,
/// and hands both to the document-writing collaborator.
#[derive(Debug)]
pub struct ManuscriptBuilder {
    pub layout: ManuscriptBuilderLayout,
}

impl ManuscriptBuilder {
    /// A builder over the given layout.
    pub fn new(layout: ManuscriptBuilderLayout) -> (r: Self)
        ensures
            r.layout == layout,
    {
        Self { layout }
    }

    /// The number of whitespace-separated words across the whole story, its
    /// own contents first, then its parts; clamped at the 32-bit ceiling.
    pub fn word_count(story: &Story) -> (r: u32)
        ensures
            r == sat32(story_words(story.spec_view())),
        decreases story.spec_view(),
    {
        let ghost sv = story.spec_view();
        let mut count: u32 = 0;
        let ghost mut done: nat = 0nat;
        let contents = story.contents();
        let mut ci: usize = 0;
        while ci < contents.len()
            invariant
                ci <= contents@.len(),
                contents.deep_view() == sv.contents,
                sv.contents.len() == contents@.len(),
                sv == story.spec_view(),
                count == sat32(done),
                story_words(sv) == done + contents_words_from(sv.contents, ci as int)
                    + parts_words_from(sv.parts, 0),
            decreases contents@.len() - ci,
        {
            let w = text_word_count(&contents[ci]);
            count = count.saturating_add(w);
            proof {
                done = done + text_words(sv.contents[ci as int]);
            }
            ci = ci + 1;
        }
        let parts = story.parts();
        proof {
            crate::story::lemma_parts_views_index(parts@);
        }
        let mut pi: usize = 0;
        while pi < parts.len()
            invariant
                pi <= parts@.len(),
                Story::parts_views(parts@) == sv.parts,
                sv.parts.len() == parts@.len(),
                sv == story.spec_view(),
                count == sat32(done),
                story_words(sv) == done + parts_words_from(sv.parts, pi as int),
            decreases parts@.len() - pi,
        {
            proof {
                crate::story::lemma_parts_views_index(parts@);
                assert(sv.parts[pi as int] == parts@[pi as int].spec_view());
                assert(decreases_to!(sv => sv.parts));
                assert(decreases_to!(sv.parts => sv.parts[pi as int]));
            }
            let part = &parts[pi];
            let w = Self::word_count(&**part);
            count = count.saturating_add(w);
            proof {
                done = done + story_words(sv.parts[pi as int]);
            }
            pi = pi + 1;
        }
        count
    }
}

} // verus!
