//! Namespaces: subdirectories of the documents directory.
pub mod config;
pub mod service;
pub mod types;
