use vstd::prelude::*;

verus! {

/// Where a search result or a download comes from.
#[derive(Debug, PartialEq, Eq, Clone, Copy)]
pub enum SearchProvider {
    GameBanana,
    DivaModArchive,
}

/// A file that can be downloaded, as the downloads list shows it.
#[derive(Debug, PartialEq)]
pub struct Download {
    pub failed: bool,
    pub id: String,
    pub inprogress: bool,
    pub name: String,
    pub progress: i32,
    pub size: i32,
    pub url: String,
    pub provider: SearchProvider,
}

/// The author shown with a search result.
#[derive(Debug, PartialEq)]
pub struct SearchModAuthor {
    pub name: String,
    pub avatar_url: String,
}

/// A search result as the search page shows it (its picture is loaded separately).
#[derive(Debug, PartialEq)]
pub struct SearchPreviewData {
    pub author: SearchModAuthor,
    pub files: Vec<Download>,
    pub id: i32,
    pub image_loaded: bool,
    pub image_url: String,
    pub item_type: String,
    pub name: String,
    pub submitted: String,
    pub updated: String,
    pub description: String,
    pub preloaded: bool,
    pub provider: SearchProvider,
}

} // verus!
