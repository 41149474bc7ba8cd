pub mod cli;
pub mod document;
pub mod namespace;
pub mod utils;
