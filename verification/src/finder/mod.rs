//! The fuzzy picker.
pub mod fuzzy;
pub mod laws;
pub mod listing;
pub mod score;

pub use fuzzy::{Finder, FuzzyKind, IgnoreOpts, MatchItem};
pub use score::fuzzy_match;
