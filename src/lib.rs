//! Synthesis of labelled training data for a classifier that decides whether
//! a sequence of transpositions composes to the identity permutation.

pub mod config;
mod random;
pub mod permutation;
pub mod encoding;
pub mod scaling;
pub mod partition;
pub mod pipeline;
