//! The content tree: site configuration, profile, sections, subsections and items.
use vstd::prelude::*;

verus! {

/// The field an item list is ordered by.
#[derive(Clone, Copy, Debug, PartialEq, Eq, Structural)]
pub enum SortKey {
    /// `date`, then `start_date`, then `end_date`.
    Date,
    /// `start_date`, then `date`, then `end_date`.
    StartDate,
    /// `end_date`, then `date`, then `start_date`.
    EndDate,
    /// The title, in lexicographic order.
    Title,
}

/// One listed entry: a publication, a position, a credential.
#[derive(Clone, Debug)]
pub struct ItemToml {
    pub date: Option<String>,
    pub start_date: Option<String>,
    pub end_date: Option<String>,
    pub authors: Vec<String>,
    pub venue: Option<String>,
    pub location: Option<String>,
    pub title: String,
    pub detail: Option<String>,
}

/// A grouping nested in a section.
#[derive(Clone, Debug)]
pub struct SubsectionToml {
    pub name: String,
    pub order: Option<i32>,
    pub sort: Option<SortKey>,
    pub rev: Option<bool>,
    pub numbering: bool,
    pub items: Vec<ItemToml>,
}

/// A top-level grouping, with its own heading and page anchor `key`.
#[derive(Clone, Debug)]
pub struct SectionToml {
    pub name: String,
    pub key: String,
    pub order: Option<i32>,
    pub sort: Option<SortKey>,
    pub rev: Option<bool>,
    pub numbering: bool,
    pub items: Vec<ItemToml>,
    pub subsections: Vec<SubsectionToml>,
}

#[derive(Clone, Debug)]
pub struct Build {
    pub output_dir: Option<String>,
    pub output_file: Option<String>,
}

#[derive(Clone, Debug)]
pub struct Assets {
    pub dir: Option<String>,
    pub mount_path: Option<String>,
}

/// The site configuration document.
#[derive(Clone, Debug)]
pub struct ConfigToml {
    pub title: String,
    pub language: Option<String>,
    pub google_site_verification: Option<String>,
    pub build: Option<Build>,
    pub assets: Option<Assets>,
}

#[derive(Clone, Debug)]
pub struct Name {
    pub ja: String,
    pub en: String,
}

#[derive(Clone, Debug)]
pub struct Affiliation {
    pub affiliation: String,
}

#[derive(Clone, Debug)]
pub struct Contact {
    pub email: String,
}

/// The profile document.
#[derive(Clone, Debug)]
pub struct ProfileToml {
    pub name: Name,
    pub affiliation: Affiliation,
    pub contact: Contact,
    pub lead: Option<String>,
}

/// Everything read from one content root, ready for rendering.
#[derive(Clone, Debug)]
pub struct IndexData {
    pub config: ConfigToml,
    pub profile: ProfileToml,
    pub sections: Vec<SectionToml>,
}

} // verus!
