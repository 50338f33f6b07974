//! Typo-tolerant string similarity and ranked search.

pub mod distance;
pub mod normalization;
pub mod search;
pub mod similarity;
pub mod text;

pub use distance::levenshtein_distance;
pub use normalization::normalize_string;
pub use search::{search, SearchOptions, SearchResult};
pub use similarity::fuzzy;
