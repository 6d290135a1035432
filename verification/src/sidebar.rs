//! Sidebar links, fetched as JSON by the application so that they can be
//! changed without a new launcher release.

use vstd::prelude::*;

verus! {

#[derive(Debug, Clone)]
pub struct SidebarLink {
    pub label: String,
    /// `None` shows the link as not yet available.
    pub url: Option<String>,
    /// Whether the button pulses.
    pub highlight: Option<bool>,
    /// Red badge text next to the button.
    pub badge: Option<String>,
}

#[derive(Debug, Clone)]
pub struct SidebarGroup {
    pub label: String,
    pub buttons: Vec<SidebarLink>,
}

#[derive(Debug, Clone)]
pub struct Sidebar {
    pub groups: Vec<SidebarGroup>,
    /// HTTPS URL of a replacement background; `None` keeps the bundled one.
    pub background_url: Option<String>,
}

} // verus!
