//! Notices shown in the launcher, fetched as one JSON document with two
//! sections by the application.

use vstd::prelude::*;

verus! {

/// The notice board: one list per section.
#[derive(Debug, Clone)]
pub struct NoticeBoard {
    pub margo: Vec<Notice>,
    pub ggouo: Vec<Notice>,
}

impl Default for NoticeBoard {
    fn default() -> (b: Self)
        ensures
            b.margo@.len() == 0,
            b.ggouo@.len() == 0,
    {
        NoticeBoard { margo: Vec::new(), ggouo: Vec::new() }
    }
}

#[derive(Debug, Clone)]
pub struct Notice {
    pub id: String,
    pub title: String,
    pub date: String,
    pub severity: Severity,
    pub body_md: String,
    /// Optional link to the full text; shown as a button after the body.
    pub url: Option<String>,
    /// Optional short label of that button.
    pub url_label: Option<String>,
}

#[derive(Debug, Clone, Copy, PartialEq, Eq, Structural)]
pub enum Severity {
    Normal,
    Urgent,
    Event,
}

impl Default for Severity {
    fn default() -> (s: Self)
        ensures
            s == Severity::Normal,
    {
        Severity::Normal
    }
}

} // verus!
