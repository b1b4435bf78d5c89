//! Chunks: the structural output of chunking and the text output of
//! formatting.

use vstd::prelude::*;
use vstd::utf8::encode_utf8;

use super::document::DocumentId;

pub use crate::byte_range::ByteRange;

verus! {

/// Unique identifier for a chunk within a document.
#[derive(Debug, Clone, Copy, PartialEq, Eq, Hash, Structural)]
pub struct ChunkId(
    /// Sequential numeric identifier.
    pub u32,
);

/// 0-based line range, half-open: `[start, end)`.
#[derive(Debug, Clone, Copy, PartialEq, Eq, Structural)]
pub struct LineIndexRange {
    /// Inclusive start line (0-based).
    pub start: u32,
    /// Exclusive end line (0-based).
    pub end: u32,
}

/// 1-based line range, closed: `[start, end]`.
#[derive(Debug, Clone, Copy, PartialEq, Eq, Structural)]
pub struct LineNumberRange {
    /// Inclusive start line (1-based).
    pub start: u32,
    /// Inclusive end line (1-based).
    pub end: u32,
}

impl LineIndexRange {
    /// Converts to the 1-based closed line number range covering the same
    /// lines.
    pub fn to_line_number_range(self) -> (r: LineNumberRange)
        requires
            self.start < u32::MAX,
        ensures
            r.start == self.start + 1,
            r.end == self.end,
    {
        LineNumberRange { start: self.start + 1, end: self.end }
    }
}

/// Kind of scope.
#[derive(Debug, Clone, Copy, PartialEq, Eq, Structural)]
pub enum ScopeKind {
    /// Module-level scope.
    Module,
    /// Namespace scope (C++).
    Namespace,
    /// Class definition.
    Class,
    /// Interface definition.
    Interface,
    /// Trait definition (Rust).
    Trait,
    /// Impl block (Rust).
    Impl,
    /// Free function.
    Function,
    /// Method inside a class or impl.
    Method,
    /// Constructor method.
    Constructor,
}

/// Structural scope information for a chunk.
#[derive(Debug, Clone)]
pub struct ScopeFrame {
    /// The kind of scope (class, function, etc.).
    pub kind: ScopeKind,
    /// Display text for the scope (the first line of its definition).
    pub display: String,
}

/// The value of a [`ScopeFrame`], its display given as UTF-8 bytes.
pub struct ScopeFrameModel {
    /// The kind of scope.
    pub kind: ScopeKind,
    /// UTF-8 bytes of the display text.
    pub display: Seq<u8>,
}

impl DeepView for ScopeFrame {
    type V = ScopeFrameModel;

    open spec fn deep_view(&self) -> ScopeFrameModel {
        ScopeFrameModel { kind: self.kind, display: encode_utf8(self.display@) }
    }
}

/// Structural metrics for an AST chunk.
#[derive(Debug, Clone, Copy, PartialEq, Eq, Structural)]
pub struct ChunkMetrics {
    /// Non-whitespace character count.
    pub nws_size: u32,
    /// Number of AST nodes.
    pub node_count: u32,
    /// Number of byte-range segments.
    pub segment_count: u32,
}

/// A structural AST chunk: the output of the chunking stage.
#[derive(Debug, Clone)]
pub struct AstChunk {
    /// Chunk identifier (sequential within a document).
    pub chunk_id: ChunkId,
    /// Parent document identifier.
    pub document_id: DocumentId,
    /// Byte ranges of source segments comprising this chunk.
    pub segments: Vec<ByteRange>,
    /// Minimum bounding byte range covering all segments.
    pub envelope: ByteRange,
    /// 0-based line range in the source.
    pub line_index_range: LineIndexRange,
    /// Scope ancestry chain (outermost first).
    pub scopes: Vec<ScopeFrame>,
    /// Structural metrics.
    pub metrics: ChunkMetrics,
}

/// Text formatting mode.
#[derive(Debug, Clone, Copy, PartialEq, Eq, Structural)]
pub enum TextMode {
    /// Plain rebuilt text without context header.
    Canonical,
    /// Text with scope/path context header prepended.
    Contextual,
}

/// Text metrics for a formatted text chunk.
#[derive(Debug, Clone, Copy, PartialEq, Eq, Structural)]
pub struct TextMetrics {
    /// Number of lines in the final content.
    pub content_line_count: u32,
    /// Non-whitespace character count of the final content.
    pub content_nws_size: u32,
}

/// A formatted text chunk: the output of the formatting stage.
#[derive(Debug, Clone)]
pub struct TextChunk {
    /// Identifier of the upstream AST chunk.
    pub ast_chunk_id: ChunkId,
    /// Final text content (may include context header).
    pub content: String,
    /// Text formatting mode used.
    pub text_mode: TextMode,
    /// 0-based line range in the source (excludes context header lines).
    pub source_line_index_range: LineIndexRange,
    /// Text metrics of the final content.
    pub metrics: TextMetrics,
}

} // verus!
