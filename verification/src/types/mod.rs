//! Core data types shared across the chunking, formatting, and output pipeline.

pub mod chunk;
pub mod document;

pub use chunk::{
    AstChunk, ByteRange, ChunkId, ChunkMetrics, LineIndexRange, LineNumberRange, ScopeFrame,
    ScopeFrameModel, ScopeKind, TextChunk, TextMetrics, TextMode,
};
pub use document::{Document, DocumentId, Origin};
