use vstd::prelude::*;

verus! {

/// Builds the hidden-Markov-model map matching algorithm from its configuration.
#[derive(Clone, Copy, Debug)]
pub struct HmmMapMatchingBuilder;

/// Builds the longest-common-subsequence map matching algorithm from its configuration.
#[derive(Clone, Copy, Debug)]
pub struct LcssMapMatchingBuilder;

/// Builds the simple nearest-edge map matching algorithm.
#[derive(Clone, Copy, Debug)]
pub struct SimpleMapMatchingBuilder;

} // verus!
