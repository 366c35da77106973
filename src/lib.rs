//! Scalar-safe approximate string matching: common boundaries, edit
//! distance, a divide-and-conquer locator, character-level diffs and the
//! character analysis built on them.
//!
//! Every offset and length is counted in Unicode scalar values, so no
//! operation here can split a character.

pub mod char_analysis;
pub mod char_diff;
pub mod edit_log;
pub mod fuzzy_search;
pub mod line_endings;
pub mod suggestions;
pub mod text;

pub use char_analysis::{
    CharCodeClassification, CharCodeData, CharDistribution, EncodingIssue, UnicodeAnalysis,
    WhitespaceIssue,
};
pub use edit_log::EditBlockResult;
