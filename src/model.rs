//! The site's metadata and its issues.
use vstd::prelude::*;

verus! {

/// Site-wide values shown on every page.
pub struct SiteMeta {
    pub site_name: String,
    pub default_description: String,
    pub base_url: String,
    /// The logo's address; empty when the site has none.
    pub logo: String,
}

/// One published issue.
pub struct Issue {
    pub title: String,
    /// The file to download; its name normally holds the issue's date.
    pub pdf: String,
    pub cover: String,
    pub description: Option<String>,
}

/// The whole input document.
pub struct Metadata {
    pub site_meta: SiteMeta,
    pub issues: Vec<Issue>,
}

} // verus!
