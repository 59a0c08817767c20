//! Feature extraction for telling posts of one forum community from those of
//! another: raw post records go in, a rectangular matrix of whole-number
//! features and a vector of class labels come out.
//!
//! Every feature is a count or a flag, so the whole pipeline works on `u64`;
//! a caller that feeds a learner on floats widens the cells at the edge.

pub mod dedup;
pub mod digest;
pub mod feature_extraction;
pub mod freqs;
pub mod labels;
pub mod matrix;
pub mod patterns;
pub mod pipeline;
pub mod reddit;
pub mod sorting;
pub mod strings;
pub mod symbols;
pub mod tally;
pub mod text;
pub mod util;
