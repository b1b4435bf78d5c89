//! The contextual formatter: rebuilt text preceded by a header that names
//! the file and the enclosing scopes.

use vstd::prelude::*;
use vstd::string::StringSliceAdditionalSpecFns;
use vstd::utf8::{encode_utf8, valid_utf8};

use super::{
    canonical_text, chunks_in_source, segments_fit, text_chunk_describes, text_fits,
    text_fits_check, Formatter,
};
use crate::error::AstchunkError;
use crate::internal::materialize::{rebuild_segments_bytes, repeat};
use crate::nws::nws_count_bytes;
use crate::text::{
    count_lines, lemma_ascii_valid, push_ascii_valid, push_str_valid, string_from_valid_utf8,
};
use crate::types::{
    AstChunk, Document, ScopeFrame, ScopeFrameModel, TextChunk, TextMetrics, TextMode,
};

verus! {

/// Contextual formatter: produces text with a scope/path context header.
#[derive(Debug, Clone, Copy)]
pub struct ContextualFormatter {
    _priv: (),
}

impl Default for ContextualFormatter {
    fn default() -> Self {
        ContextualFormatter { _priv: () }
    }
}

/// The header line of the path: the path and a newline, or nothing when the
/// path is absent or empty.
pub open spec fn path_line(path: Option<Seq<u8>>) -> Seq<u8> {
    match path {
        Some(p) => if p.len() > 0 {
            p + seq![0x0au8]
        } else {
            seq![]
        },
        None => seq![],
    }
}

/// One header line per scope, scope `i` indented by `4 * i` spaces.
pub open spec fn scope_lines(scopes: Seq<ScopeFrameModel>) -> Seq<u8>
    decreases scopes.len(),
{
    if scopes.len() == 0 {
        seq![]
    } else {
        scope_lines(scopes.drop_last()) + repeat(0x20, 4 * (scopes.len() - 1)) + scopes.last().display
            + seq![0x0au8]
    }
}

/// The text with its context header:
/// `'''` newline, the path line, the scope lines, `'''`, newline, the text.
pub open spec fn contextual_bytes(canonical: Seq<u8>, path: Option<Seq<u8>>, scopes: Seq<ScopeFrameModel>) -> Seq<u8> {
    seq![0x27u8, 0x27, 0x27, 0x0a] + path_line(path) + scope_lines(scopes) + seq![0x27u8, 0x27, 0x27]
        + seq![0x0au8] + canonical
}

/// The UTF-8 bytes of an optional string.
pub open spec fn opt_str_bytes(path: Option<&str>) -> Option<Seq<u8>> {
    match path {
        Some(p) => Some(p.spec_bytes()),
        None => None,
    }
}

/// The UTF-8 bytes of the document's path, if any.
pub open spec fn document_path_bytes(document: Document) -> Option<Seq<u8>> {
    match document.origin.path {
        Some(p) => Some(encode_utf8(p@)),
        None => None,
    }
}

/// The content of the contextual text chunk of `chunk`.
pub open spec fn contextual_text(document: Document, chunk: AstChunk) -> Seq<u8> {
    contextual_bytes(
        canonical_text(document, chunk),
        document_path_bytes(document),
        chunk.scopes.deep_view(),
    )
}

/// Builds the text with its context header (see [`contextual_bytes`]); scope
/// lines are indented by four spaces per level.
pub fn build_contextual_text(canonical_text: &str, path: Option<&str>, scopes: &[ScopeFrame]) -> (r: String)
    ensures
        encode_utf8(r@) == contextual_bytes(
            canonical_text.spec_bytes(),
            opt_str_bytes(path),
            scopes.deep_view(),
        ),
{
    let mut out: Vec<u8> = Vec::new();
    proof {
        lemma_ascii_valid(out@);
    }
    push_ascii_valid(&mut out, 0x27);
    push_ascii_valid(&mut out, 0x27);
    push_ascii_valid(&mut out, 0x27);
    push_ascii_valid(&mut out, 0x0a);
    let ghost head = out@;
    assert(head =~= seq![0x27u8, 0x27, 0x27, 0x0a]);
    match path {
        Some(p) => {
            if p.as_bytes().len() > 0 {
                push_str_valid(&mut out, p);
                push_ascii_valid(&mut out, 0x0a);
            }
        },
        None => {},
    }
    assert(out@ =~= head + path_line(opt_str_bytes(path)));
    let ghost with_path = out@;
    let ghost sv = scopes.deep_view();
    let mut i: usize = 0;
    assert(sv.take(0) =~= Seq::<ScopeFrameModel>::empty());
    assert(out@ =~= with_path + scope_lines(sv.take(0)));
    while i < scopes.len()
        invariant
            sv == scopes.deep_view(),
            i <= sv.len(),
            valid_utf8(out@),
            out@ == with_path + scope_lines(sv.take(i as int)),
        decreases sv.len() - i,
    {
        let ghost before = out@;
        let mut j: usize = 0;
        while j < i
            invariant
                j <= i,
                valid_utf8(out@),
                out@ == before + repeat(0x20, 4 * j),
            decreases i - j,
        {
            push_ascii_valid(&mut out, 0x20);
            push_ascii_valid(&mut out, 0x20);
            push_ascii_valid(&mut out, 0x20);
            push_ascii_valid(&mut out, 0x20);
            j = j + 1;
            assert(out@ =~= before + repeat(0x20, 4 * j));
        }
        assert(sv[i as int] == scopes@[i as int].deep_view());
        push_str_valid(&mut out, scopes[i].display.as_str());
        push_ascii_valid(&mut out, 0x0a);
        i = i + 1;
        assert(sv.take(i as int).drop_last() =~= sv.take(i - 1));
        assert(out@ =~= with_path + scope_lines(sv.take(i as int)));
    }
    assert(sv.take(sv.len() as int) =~= sv);
    push_ascii_valid(&mut out, 0x27);
    push_ascii_valid(&mut out, 0x27);
    push_ascii_valid(&mut out, 0x27);
    push_ascii_valid(&mut out, 0x0a);
    push_str_valid(&mut out, canonical_text);
    assert(out@ =~= contextual_bytes(canonical_text.spec_bytes(), opt_str_bytes(path), sv));
    string_from_valid_utf8(out)
}

/// The input of contextual formatting: segments in the source and metrics
/// of each contextual text that fit `u32`.
pub open spec fn contextual_requires(document: Document, chunks: Seq<AstChunk>) -> bool {
    &&& chunks_in_source(document, chunks)
    &&& forall|i: int| 0 <= i < chunks.len() ==> text_fits(contextual_text(document, #[trigger] chunks[i]))
}

/// The document's path as a `str`, if any.
fn path_of(document: &Document) -> (r: Option<&str>)
    ensures
        opt_str_bytes(r) == document_path_bytes(*document),
{
    match &document.origin.path {
        Some(p) => Some(p.as_str()),
        None => None,
    }
}

/// The contextual text of a chunk: its segments rebuilt under the header.
fn contextual_content(document: &Document, chunk: &AstChunk, source: &[u8]) -> (r: String)
    requires
        source@ == document.source_bytes(),
        crate::internal::materialize::segments_in_source(chunk.segments@, source@.len()),
    ensures
        encode_utf8(r@) == contextual_text(*document, *chunk),
{
    let canonical_bytes = rebuild_segments_bytes(chunk.segments.as_slice(), source);
    let canonical = string_from_valid_utf8(canonical_bytes);
    build_contextual_text(canonical.as_str(), path_of(document), chunk.scopes.as_slice())
}

/// Formats one chunk as its rebuilt text with the context header.
fn format_one(document: &Document, chunk: &AstChunk, source: &[u8]) -> (r: TextChunk)
    requires
        source@ == document.source_bytes(),
        crate::internal::materialize::segments_in_source(chunk.segments@, source@.len()),
        text_fits(contextual_text(*document, *chunk)),
    ensures
        text_chunk_describes(r, *chunk, contextual_text(*document, *chunk), TextMode::Contextual),
{
    let content = contextual_content(document, chunk, source);
    let bytes = content.as_str().as_bytes();
    let content_nws_size = nws_count_bytes(bytes);
    let content_line_count = count_lines(bytes);
    TextChunk {
        ast_chunk_id: chunk.chunk_id,
        content,
        text_mode: TextMode::Contextual,
        source_line_index_range: chunk.line_index_range,
        metrics: TextMetrics { content_line_count, content_nws_size },
    }
}

impl ContextualFormatter {
    /// Whether [`Formatter::format`] can take these chunks of the document:
    /// exactly when [`contextual_requires`] holds.
    pub fn can_format(&self, document: &Document, chunks: &[AstChunk]) -> (r: bool)
        ensures
            r == contextual_requires(*document, chunks@),
    {
        let source = document.source.as_str().as_bytes();
        let mut i: usize = 0;
        while i < chunks.len()
            invariant
                source@ == document.source_bytes(),
                i <= chunks@.len(),
                forall|j: int|
                    0 <= j < i ==> crate::internal::materialize::segments_in_source(
                        (#[trigger] chunks@[j]).segments@,
                        source@.len(),
                    ) && text_fits(contextual_text(*document, chunks@[j])),
            decreases chunks@.len() - i,
        {
            if !segments_fit(chunks[i].segments.as_slice(), source.len()) {
                return false;
            }
            let content = contextual_content(document, &chunks[i], source);
            if !text_fits_check(content.as_str().as_bytes()) {
                return false;
            }
            i = i + 1;
        }
        true
    }
}

impl Formatter for ContextualFormatter {
    open spec fn format_requires(&self, document: Document, chunks: Seq<AstChunk>) -> bool {
        contextual_requires(document, chunks)
    }

    /// One text chunk per chunk: its segments rebuilt under a header that
    /// names the document's path and the chunk's scopes.
    fn format(&self, document: &Document, chunks: &[AstChunk]) -> (r: Result<Vec<TextChunk>, AstchunkError>)
        ensures
            r matches Ok(tcs) && tcs@.len() == chunks@.len() && forall|i: int|
                0 <= i < chunks@.len() ==> text_chunk_describes(
                    #[trigger] tcs@[i],
                    chunks@[i],
                    contextual_text(*document, chunks@[i]),
                    TextMode::Contextual,
                ),
    {
        let source = document.source.as_str().as_bytes();
        let mut out: Vec<TextChunk> = Vec::new();
        let mut i: usize = 0;
        while i < chunks.len()
            invariant
                source@ == document.source_bytes(),
                contextual_requires(*document, chunks@),
                i <= chunks@.len(),
                out@.len() == i,
                forall|x: int|
                    0 <= x < i ==> text_chunk_describes(
                        #[trigger] out@[x],
                        chunks@[x],
                        contextual_text(*document, chunks@[x]),
                        TextMode::Contextual,
                    ),
            decreases chunks@.len() - i,
        {
            let tc = format_one(document, &chunks[i], source);
            out.push(tc);
            i = i + 1;
        }
        Ok(out)
    }
}

} // verus!
