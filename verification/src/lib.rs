//! Verified building blocks of a set of CoNLL corpus tools.

pub mod advmod;
pub mod block_filter;
pub mod de_iob;
pub mod dedup;
pub mod europarl;
pub mod features;
pub mod merge_ner;
pub mod ne_iob;
pub mod patterns;
pub mod shard;
pub mod sip;
pub mod tag_split;
pub mod text;
pub mod token;
pub mod topo;
