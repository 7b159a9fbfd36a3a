//! The project's configuration, as plain data: manuscript details, project
//! paths, and the contact information printed on the title page.
//!
//! Reading the configuration file and checking its syntax happens outside
//! this library; here the values are already parsed, every one of them
//! optional, with the defaults applied by whoever consumes them.

use vstd::prelude::*;

verus! {

/// The view of an optional string: its characters, when there is one.
pub open spec fn opt_text(o: Option<String>) -> Option<Seq<char>> {
    match o {
        Some(s) => Some(s@),
        None => None,
    }
}

/// General details of the manuscript.
///
/// # Examples
/// ```
/// use makinilya::config::StoryConfig;
///
/// let story_config = StoryConfig {
///     title: Some("Untitled".to_owned()),
///     pen_name: Some("Brutus Ellis".to_owned()),
/// };
/// ```
#[derive(Debug, Clone)]
pub struct StoryConfig {
    /// The title of the manuscript.
    pub title: Option<String>,
    /// The pseudonym of the author that is presented on the cover.
    pub pen_name: Option<String>,
}

impl Default for StoryConfig {
    fn default() -> (r: Self)
        ensures
            r.title is None,
            r.pen_name is None,
    {
        Self { title: None, pen_name: None }
    }
}

/// Project structure of the manuscript: the paths are relative to the
/// project's root and carried as plain text.
#[derive(Debug, Clone)]
pub struct ProjectConfig {
    /// The directory that is prefixed to all other project paths.
    pub base_directory: Option<String>,
    /// The directory where the narrative scenes and chapters are contained.
    pub draft_directory: Option<String>,
    /// The path of the file where the final manuscript is built.
    pub output_path: Option<String>,
    /// The path to the file where the context of the narrative is stored.
    pub context_path: Option<String>,
}

impl Default for ProjectConfig {
    fn default() -> (r: Self)
        ensures
            r.base_directory is None,
            r.draft_directory is None,
            r.output_path is None,
            r.context_path is None,
    {
        Self { base_directory: None, draft_directory: None, output_path: None, context_path: None }
    }
}

/// A person's contact information, as presented on the title page.
#[derive(Debug, Clone)]
pub struct ContactInformation {
    pub name: Option<String>,
    pub address_1: Option<String>,
    pub address_2: Option<String>,
    pub mobile_number: Option<String>,
    pub email_address: Option<String>,
}

/// True when two contact records carry the same text, field for field.
pub open spec fn contact_like(a: ContactInformation, b: ContactInformation) -> bool {
    &&& opt_text(a.name) == opt_text(b.name)
    &&& opt_text(a.address_1) == opt_text(b.address_1)
    &&& opt_text(a.address_2) == opt_text(b.address_2)
    &&& opt_text(a.mobile_number) == opt_text(b.mobile_number)
    &&& opt_text(a.email_address) == opt_text(b.email_address)
}

fn clone_opt_string(o: &Option<String>) -> (r: Option<String>)
    ensures
        opt_text(r) == opt_text(*o),
{
    match o {
        Some(s) => Some(s.clone()),
        None => None,
    }
}

impl ContactInformation {
    /// A field-for-field copy that provably carries the same text.
    pub fn duplicate(&self) -> (r: Self)
        ensures
            contact_like(*self, r),
    {
        Self {
            name: clone_opt_string(&self.name),
            address_1: clone_opt_string(&self.address_1),
            address_2: clone_opt_string(&self.address_2),
            mobile_number: clone_opt_string(&self.mobile_number),
            email_address: clone_opt_string(&self.email_address),
        }
    }
}

impl Default for ContactInformation {
    fn default() -> (r: Self)
        ensures
            r.name is None,
            r.address_1 is None,
            r.address_2 is None,
            r.mobile_number is None,
            r.email_address is None,
    {
        Self {
            name: None,
            address_1: None,
            address_2: None,
            mobile_number: None,
            email_address: None,
        }
    }
}

/// The collected configuration of a project.
#[derive(Debug, Clone)]
pub struct Config {
    pub story: Option<StoryConfig>,
    pub project: Option<ProjectConfig>,
    pub author: Option<ContactInformation>,
    pub agent: Option<ContactInformation>,
}

impl Default for Config {
    fn default() -> (r: Self)
        ensures
            r.story is None,
            r.project is None,
            r.author is None,
            r.agent is None,
    {
        Self { story: None, project: None, author: None, agent: None }
    }
}

} // verus!
