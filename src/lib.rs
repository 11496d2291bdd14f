//! Similarity engine for source code: code units, their hashes and
//! embedding blobs, pair bookkeeping, the identifier space of the vector
//! index, the editor hook's decisions, and static call-graph analysis.
use vstd::prelude::*;

pub mod text;
pub mod normalize;
pub mod code_unit;
pub mod records;
pub mod blob;
pub mod hook;
pub mod analyzer;
pub mod mermaid;
pub mod id_map;
pub mod scan;
pub mod vector_config;
pub mod extract;
pub mod lsp_frame;
pub mod report;

verus! {

} // verus!
