pub mod error;
pub mod index;
pub mod markdown;
pub mod naming;
pub mod output;
pub mod paths;
pub mod pattern;
pub mod text;
pub mod workspace;
