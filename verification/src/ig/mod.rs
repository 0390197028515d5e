//! What the search needs to know, and what it hands to the interface.

pub mod search_config;
pub mod searcher;
pub mod sink;
