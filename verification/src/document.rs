//! Documents: the commands on documents, the managed index block, the tree
//! and check, patches, and the naming migration.
pub mod fix;
pub mod inspection;
pub mod patch;
pub mod service;
pub mod sync;
pub mod types;
