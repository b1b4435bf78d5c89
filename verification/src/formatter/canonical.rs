//! The canonical formatter: plain rebuilt text without a context header.

use vstd::prelude::*;
use vstd::string::StringSliceAdditionalSpecFns;

use super::{
    canonical_text, chunks_in_source, segments_fit, text_chunk_describes, text_fits,
    text_fits_check, Formatter,
};
use crate::error::AstchunkError;
use crate::internal::materialize::rebuild_segments_bytes;
use crate::nws::nws_count_bytes;
use crate::text::{count_lines, string_from_valid_utf8};
use crate::types::{AstChunk, Document, TextChunk, TextMetrics, TextMode};

verus! {

/// Canonical formatter: produces plain rebuilt text without context header.
#[derive(Debug, Clone, Copy)]
pub struct CanonicalFormatter {
    _priv: (),
}

impl Default for CanonicalFormatter {
    fn default() -> Self {
        CanonicalFormatter { _priv: () }
    }
}

/// The input of canonical formatting: segments in the source and metrics
/// of each rebuilt text that fit `u32`.
pub open spec fn canonical_requires(document: Document, chunks: Seq<AstChunk>) -> bool {
    &&& chunks_in_source(document, chunks)
    &&& forall|i: int| 0 <= i < chunks.len() ==> text_fits(canonical_text(document, #[trigger] chunks[i]))
}

impl CanonicalFormatter {
    /// Whether [`Formatter::format`] can take these chunks of the document:
    /// exactly when [`canonical_requires`] holds.
    pub fn can_format(&self, document: &Document, chunks: &[AstChunk]) -> (r: bool)
        ensures
            r == canonical_requires(*document, chunks@),
    {
        let source = document.source.as_str().as_bytes();
        let mut i: usize = 0;
        while i < chunks.len()
            invariant
                source@ == document.source_bytes(),
                i <= chunks@.len(),
                forall|j: int|
                    0 <= j < i ==> crate::internal::materialize::segments_in_source(
                        (#[trigger] chunks@[j]).segments@,
                        source@.len(),
                    ) && text_fits(canonical_text(*document, chunks@[j])),
            decreases chunks@.len() - i,
        {
            if !segments_fit(chunks[i].segments.as_slice(), source.len()) {
                return false;
            }
            let bytes = rebuild_segments_bytes(chunks[i].segments.as_slice(), source);
            if !text_fits_check(bytes.as_slice()) {
                return false;
            }
            i = i + 1;
        }
        true
    }
}

/// Formats one chunk as its rebuilt text.
fn format_one(chunk: &AstChunk, document: &Document, source: &[u8]) -> (r: TextChunk)
    requires
        source@ == document.source_bytes(),
        crate::internal::materialize::segments_in_source(chunk.segments@, source@.len()),
        text_fits(canonical_text(*document, *chunk)),
    ensures
        text_chunk_describes(r, *chunk, canonical_text(*document, *chunk), TextMode::Canonical),
{
    let bytes = rebuild_segments_bytes(chunk.segments.as_slice(), source);
    let content_nws_size = nws_count_bytes(bytes.as_slice());
    let content_line_count = count_lines(bytes.as_slice());
    let content = string_from_valid_utf8(bytes);
    TextChunk {
        ast_chunk_id: chunk.chunk_id,
        content,
        text_mode: TextMode::Canonical,
        source_line_index_range: chunk.line_index_range,
        metrics: TextMetrics { content_line_count, content_nws_size },
    }
}

impl Formatter for CanonicalFormatter {
    open spec fn format_requires(&self, document: Document, chunks: Seq<AstChunk>) -> bool {
        canonical_requires(document, chunks)
    }

    /// One text chunk per chunk: its segments rebuilt, with line and
    /// non-whitespace counts.
    fn format(&self, document: &Document, chunks: &[AstChunk]) -> (r: Result<Vec<TextChunk>, AstchunkError>)
        ensures
            r matches Ok(tcs) && tcs@.len() == chunks@.len() && forall|i: int|
                0 <= i < chunks@.len() ==> text_chunk_describes(
                    #[trigger] tcs@[i],
                    chunks@[i],
                    canonical_text(*document, chunks@[i]),
                    TextMode::Canonical,
                ),
    {
        let source = document.source.as_str().as_bytes();
        let mut out: Vec<TextChunk> = Vec::new();
        let mut i: usize = 0;
        while i < chunks.len()
            invariant
                source@ == document.source_bytes(),
                canonical_requires(*document, chunks@),
                i <= chunks@.len(),
                out@.len() == i,
                forall|x: int|
                    0 <= x < i ==> text_chunk_describes(
                        #[trigger] out@[x],
                        chunks@[x],
                        canonical_text(*document, chunks@[x]),
                        TextMode::Canonical,
                    ),
            decreases chunks@.len() - i,
        {
            let tc = format_one(&chunks[i], document, source);
            out.push(tc);
            i = i + 1;
        }
        Ok(out)
    }
}

} // verus!
