//! Chunking: the trait and the cAST implementation that produce AST chunks.

pub mod cast;

pub use cast::{CastChunker, CastChunkerOptions};

use vstd::prelude::*;

use crate::error::AstchunkError;
use crate::types::{AstChunk, Document};

verus! {

/// Splits a [`Document`] into structural [`AstChunk`]s.
pub trait Chunker {
    /// Chunks a document into AST-level structural chunks; fails when the
    /// document cannot be parsed.
    fn chunk(&self, document: &Document) -> Result<Vec<AstChunk>, AstchunkError>;
}

} // verus!
