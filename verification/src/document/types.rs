//! What the document commands report.
use vstd::prelude::*;

verus! {

#[derive(Debug)]
pub struct DocumentSummary {
    pub namespace: String,
    pub document: String,
    pub path: String,
    pub title: String,
    pub description: String,
}

#[derive(Debug)]
pub struct DocumentCreated {
    pub path: String,
    pub document: String,
    pub namespace: String,
}

#[derive(Debug)]
pub struct DocumentRenamed {
    pub old_path: String,
    pub new_path: String,
    pub namespace: String,
}

#[derive(Debug)]
pub struct DocumentDeleted {
    pub path: String,
    pub namespace: String,
    pub document: String,
    pub deleted: bool,
}

#[derive(Debug)]
pub struct DocumentPatched {
    pub path: String,
    pub namespace: String,
    pub document: String,
    pub patched: bool,
}

#[derive(Debug)]
pub struct FixMigration {
    pub old_path: String,
    pub new_path: String,
}

} // verus!
