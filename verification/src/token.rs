//! The parts of CoNLL-X and CoNLL-U tokens that the tools read and write.

use vstd::prelude::*;

use crate::features::FeatureMap;

verus! {

/// The view of optional features.
pub open spec fn opt_features_view(f: Option<FeatureMap>) -> Option<
    Map<Seq<char>, Option<Seq<char>>>,
> {
    match f {
        Some(m) => Some(m@),
        None => None,
    }
}

/// A CoNLL-X token: its form, its coarse and fine part-of-speech tags and
/// its features.
#[derive(Debug)]
pub struct ConllxToken {
    pub form: String,
    pub cpos: Option<String>,
    pub pos: Option<String>,
    pub features: Option<FeatureMap>,
}

/// A CoNLL-U token: its form and its miscellaneous features.
#[derive(Debug)]
pub struct ConlluToken {
    pub form: String,
    pub misc: FeatureMap,
}

/// A node of a CoNLL-U dependency graph: the root or a token.
#[derive(Debug)]
pub enum Node {
    Root,
    Token(ConlluToken),
}

} // verus!
