//! Addressing and versioned history for a file-backed wiki.
pub mod category;
pub mod config;
pub mod content;
pub mod history;
pub mod payload;
pub mod text;
pub mod utils;
pub mod wiki;
pub mod wikilink;
