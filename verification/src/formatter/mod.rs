//! Formatting of AST chunks into text chunks.

pub mod canonical;
pub mod contextual;

pub use canonical::CanonicalFormatter;
pub use contextual::ContextualFormatter;

use vstd::prelude::*;
use vstd::utf8::encode_utf8;

use crate::error::AstchunkError;
use crate::internal::materialize::{layout, segment_pieces, segments_in_source};
use crate::byte_range::ByteRange;
use crate::nws::{nws_count, nws_count_bytes_checked};
use crate::text::{count_lines_checked, line_count};
use crate::types::{AstChunk, Document, TextChunk, TextMetrics, TextMode};

verus! {

/// Converts [`AstChunk`]s into human-readable [`TextChunk`]s.
pub trait Formatter {
    /// What the formatter needs of its input (segments inside the source,
    /// metrics that fit `u32`).
    spec fn format_requires(&self, document: Document, chunks: Seq<AstChunk>) -> bool;

    /// Formats AST chunks into text chunks, one per chunk, in order.
    fn format(&self, document: &Document, chunks: &[AstChunk]) -> Result<Vec<TextChunk>, AstchunkError>
        requires
            self.format_requires(*document, chunks@),
    ;
}

/// The text rebuilt from a chunk's segments (UTF-8 bytes).
pub open spec fn canonical_text(document: Document, chunk: AstChunk) -> Seq<u8> {
    layout(segment_pieces(document.source_bytes(), chunk.segments@))
}

/// The segments of every chunk lie inside the document's source.
pub open spec fn chunks_in_source(document: Document, chunks: Seq<AstChunk>) -> bool {
    forall|i: int|
        0 <= i < chunks.len() ==> segments_in_source(
            (#[trigger] chunks[i]).segments@,
            document.source_bytes().len(),
        )
}

/// Line and non-whitespace counts of `content` fit in `u32`.
pub open spec fn text_fits(content: Seq<u8>) -> bool {
    &&& line_count(content) <= u32::MAX
    &&& nws_count(content) <= u32::MAX
}

/// Whether the line and non-whitespace counts of `bytes` fit `u32`.
pub fn text_fits_check(bytes: &[u8]) -> (r: bool)
    ensures
        r == text_fits(bytes@),
{
    count_lines_checked(bytes).is_some() && nws_count_bytes_checked(bytes).is_some()
}

/// Whether every segment is forward and lies inside a source of `len`
/// bytes.
pub fn segments_fit(segments: &[ByteRange], len: usize) -> (r: bool)
    ensures
        r == segments_in_source(segments@, len as nat),
{
    let mut i: usize = 0;
    while i < segments.len()
        invariant
            i <= segments@.len(),
            forall|j: int| 0 <= j < i ==> (#[trigger] segments@[j]).start <= segments@[j].end <= len,
        decreases segments@.len() - i,
    {
        if segments[i].start > segments[i].end || segments[i].end as usize > len {
            return false;
        }
        i = i + 1;
    }
    true
}

/// `tc` is the text chunk of `chunk` with content `content` in `mode`.
pub open spec fn text_chunk_describes(tc: TextChunk, chunk: AstChunk, content: Seq<u8>, mode: TextMode) -> bool {
    &&& tc.ast_chunk_id == chunk.chunk_id
    &&& encode_utf8(tc.content@) == content
    &&& tc.text_mode == mode
    &&& tc.source_line_index_range == chunk.line_index_range
    &&& tc.metrics == TextMetrics {
        content_line_count: line_count(content) as u32,
        content_nws_size: nws_count(content) as u32,
    }
}

} // verus!
