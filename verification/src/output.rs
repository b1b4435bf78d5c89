//! Output records built from chunks, for downstream formats.

use vstd::prelude::*;
use vstd::string::StringSliceAdditionalSpecFns;
use vstd::utf8::{encode_utf8, encode_utf8_valid_utf8};

use crate::error::AstchunkError;
use crate::text::{
    clone_opt_string, decimal, last_piece, lemma_ascii_valid, lemma_decimal_ascii,
    lemma_valid_utf8_concat, push_decimal, same_opt_string, split_bytes, split_on,
    string_from_valid_utf8,
};
use crate::formatter::text_chunk_describes;
use crate::nws::nws_count;
use crate::text::line_count;
use crate::types::{AstChunk, Document, TextChunk, TextMode};

verus! {

/// JSON export record.
#[derive(Debug, Clone)]
pub struct JsonRecord {
    /// The chunk text content.
    pub content: String,
    /// Associated metadata.
    pub metadata: JsonMetadata,
}

/// Metadata for JSON export.
#[derive(Debug, Clone)]
pub struct JsonMetadata {
    /// Repository-relative file path.
    pub path: Option<String>,
    /// Repository name or identifier.
    pub repo: Option<String>,
    /// 1-based start line number in the source.
    pub source_start_line_number: u32,
    /// 1-based end line number in the source.
    pub source_end_line_number: u32,
    /// Number of lines in the final content.
    pub content_line_count: u32,
    /// Non-whitespace character count of the final content.
    pub content_nws_size: u32,
    /// Number of AST nodes in this chunk.
    pub node_count: u32,
}

/// `RepoEval` export record.
#[derive(Debug, Clone)]
pub struct RepoEvalRecord {
    /// The chunk text content.
    pub content: String,
    /// Associated metadata.
    pub metadata: RepoEvalMetadata,
}

/// Metadata for `RepoEval` export.
#[derive(Debug, Clone)]
pub struct RepoEvalMetadata {
    /// Forward-slash-split path components.
    pub fpath_tuple: Vec<String>,
    /// Repository name or identifier.
    pub repo: String,
    /// 1-based start line number in the source.
    pub source_start_line_number: u32,
    /// 1-based end line number in the source.
    pub source_end_line_number: u32,
    /// Number of lines in the final content.
    pub content_line_count: u32,
    /// Non-whitespace character count of the final content.
    pub content_nws_size: u32,
    /// Number of AST nodes in this chunk.
    pub node_count: u32,
}

/// SWE-bench Lite export record.
#[derive(Debug, Clone)]
pub struct SwebenchLiteRecord {
    /// Unique identifier.
    pub id: String,
    /// Title (the file name).
    pub title: String,
    /// Chunk text content.
    pub text: String,
}

/// The text chunks' line ranges convert to 1-based line numbers.
pub open spec fn line_ranges_convertible(text_chunks: Seq<TextChunk>) -> bool {
    forall|i: int| 0 <= i < text_chunks.len() ==> (#[trigger] text_chunks[i]).source_line_index_range.start < u32::MAX
}

/// `r` is the JSON record of `chunk` and `tc` in `document`.
pub open spec fn json_record_describes(r: JsonRecord, document: Document, chunk: AstChunk, tc: TextChunk) -> bool {
    &&& r.content@ == tc.content@
    &&& same_opt_string(r.metadata.path, document.origin.path)
    &&& same_opt_string(r.metadata.repo, document.origin.repo)
    &&& r.metadata.source_start_line_number == tc.source_line_index_range.start + 1
    &&& r.metadata.source_end_line_number == tc.source_line_index_range.end
    &&& r.metadata.content_line_count == tc.metrics.content_line_count
    &&& r.metadata.content_nws_size == tc.metrics.content_nws_size
    &&& r.metadata.node_count == chunk.metrics.node_count
}

/// `r` is the `RepoEval` record of `chunk` and `tc`, with path `path` and
/// repository `repo`.
pub open spec fn repo_eval_record_describes(
    r: RepoEvalRecord,
    path: Seq<char>,
    repo: Seq<char>,
    chunk: AstChunk,
    tc: TextChunk,
) -> bool {
    let pieces = split_bytes(encode_utf8(path), 0x2f);
    &&& r.content@ == tc.content@
    &&& r.metadata.fpath_tuple@.len() == pieces.len()
    &&& forall|j: int| 0 <= j < pieces.len() ==> encode_utf8(#[trigger] r.metadata.fpath_tuple@[j]@) == pieces[j]
    &&& r.metadata.repo@ == repo
    &&& r.metadata.source_start_line_number == tc.source_line_index_range.start + 1
    &&& r.metadata.source_end_line_number == tc.source_line_index_range.end
    &&& r.metadata.content_line_count == tc.metrics.content_line_count
    &&& r.metadata.content_nws_size == tc.metrics.content_nws_size
    &&& r.metadata.node_count == chunk.metrics.node_count
}

/// A record's counts are those of its own content: for a text chunk made by
/// a formatter (canonical or contextual, header included), the JSON and the
/// `RepoEval` record report the non-whitespace size and the line count of
/// the record's content.
pub proof fn lemma_records_count_content(
    j: JsonRecord,
    r: RepoEvalRecord,
    document: Document,
    path: Seq<char>,
    repo: Seq<char>,
    chunk: AstChunk,
    tc: TextChunk,
    content: Seq<u8>,
    mode: TextMode,
)
    requires
        text_chunk_describes(tc, chunk, content, mode),
        nws_count(content) <= u32::MAX,
        line_count(content) <= u32::MAX,
    ensures
        json_record_describes(j, document, chunk, tc) ==> {
            &&& j.metadata.content_nws_size == nws_count(encode_utf8(j.content@))
            &&& j.metadata.content_line_count == line_count(encode_utf8(j.content@))
        },
        repo_eval_record_describes(r, path, repo, chunk, tc) ==> {
            &&& r.metadata.content_nws_size == nws_count(encode_utf8(r.content@))
            &&& r.metadata.content_line_count == line_count(encode_utf8(r.content@))
        },
{
}

/// A record's 1-based line numbers are the lines of its chunk: the first is
/// the chunk's 0-based first line plus one, and the record spans as many
/// lines as the chunk's line range holds.
pub proof fn lemma_records_span_chunk_lines(
    j: JsonRecord,
    r: RepoEvalRecord,
    document: Document,
    path: Seq<char>,
    repo: Seq<char>,
    chunk: AstChunk,
    tc: TextChunk,
    content: Seq<u8>,
    mode: TextMode,
)
    requires
        text_chunk_describes(tc, chunk, content, mode),
    ensures
        json_record_describes(j, document, chunk, tc) ==> {
            &&& j.metadata.source_start_line_number == chunk.line_index_range.start + 1
            &&& j.metadata.source_end_line_number - j.metadata.source_start_line_number + 1
                == chunk.line_index_range.end - chunk.line_index_range.start
        },
        repo_eval_record_describes(r, path, repo, chunk, tc) ==> {
            &&& r.metadata.source_start_line_number == chunk.line_index_range.start + 1
            &&& r.metadata.source_end_line_number - r.metadata.source_start_line_number + 1
                == chunk.line_index_range.end - chunk.line_index_range.start
        },
{
}

/// The identifier of a SWE-bench Lite record:
/// `<instance_id>_<start line number>-<end line number>`.
pub open spec fn swebench_id(instance_id: Seq<u8>, tc: TextChunk) -> Seq<u8> {
    instance_id + seq![0x5fu8] + decimal((tc.source_line_index_range.start + 1) as nat) + seq![0x2du8]
        + decimal(tc.source_line_index_range.end as nat)
}

impl JsonRecord {
    /// Builds JSON records from a document's AST chunks and text chunks,
    /// pairing them by position.
    pub fn build(document: &Document, chunks: &[AstChunk], text_chunks: &[TextChunk]) -> (r: Vec<Self>)
        requires
            chunks@.len() == text_chunks@.len(),
            line_ranges_convertible(text_chunks@),
        ensures
            r@.len() == chunks@.len(),
            forall|i: int|
                0 <= i < r@.len() ==> json_record_describes(
                    #[trigger] r@[i],
                    *document,
                    chunks@[i],
                    text_chunks@[i],
                ),
    {
        let mut out: Vec<JsonRecord> = Vec::new();
        let mut i: usize = 0;
        while i < chunks.len()
            invariant
                chunks@.len() == text_chunks@.len(),
                line_ranges_convertible(text_chunks@),
                i <= chunks@.len(),
                out@.len() == i,
                forall|x: int|
                    0 <= x < i ==> json_record_describes(
                        #[trigger] out@[x],
                        *document,
                        chunks@[x],
                        text_chunks@[x],
                    ),
            decreases chunks@.len() - i,
        {
            let ast_chunk = &chunks[i];
            let text_chunk = &text_chunks[i];
            let line_numbers = text_chunk.source_line_index_range.to_line_number_range();
            out.push(
                JsonRecord {
                    content: text_chunk.content.clone(),
                    metadata: JsonMetadata {
                        path: clone_opt_string(&document.origin.path),
                        repo: clone_opt_string(&document.origin.repo),
                        source_start_line_number: line_numbers.start,
                        source_end_line_number: line_numbers.end,
                        content_line_count: text_chunk.metrics.content_line_count,
                        content_nws_size: text_chunk.metrics.content_nws_size,
                        node_count: ast_chunk.metrics.node_count,
                    },
                },
            );
            i = i + 1;
        }
        out
    }
}

/// Copies a vector of strings.
fn clone_strings(v: &Vec<String>) -> (r: Vec<String>)
    ensures
        r@.len() == v@.len(),
        forall|i: int| 0 <= i < v@.len() ==> #[trigger] r@[i]@ == v@[i]@,
{
    let mut r: Vec<String> = Vec::new();
    let mut i: usize = 0;
    while i < v.len()
        invariant
            i <= v@.len(),
            r@.len() == i,
            forall|x: int| 0 <= x < i ==> #[trigger] r@[x]@ == v@[x]@,
        decreases v@.len() - i,
    {
        r.push(v[i].clone());
        i = i + 1;
    }
    r
}

impl RepoEvalRecord {
    /// Builds `RepoEval` records from a document's AST chunks and text
    /// chunks; the document must have a path and a repository.
    pub fn build(document: &Document, chunks: &[AstChunk], text_chunks: &[TextChunk]) -> (r: Result<
        Vec<Self>,
        AstchunkError,
    >)
        requires
            chunks@.len() == text_chunks@.len(),
            line_ranges_convertible(text_chunks@),
        ensures
            document.origin.path is None ==> r == Err::<Vec<Self>, AstchunkError>(
                AstchunkError::ExportRequirementMissing {
                    exporter: "RepoEvalRecord",
                    field: "origin.path",
                },
            ),
            document.origin.path is Some && document.origin.repo is None ==> r == Err::<
                Vec<Self>,
                AstchunkError,
            >(AstchunkError::ExportRequirementMissing { exporter: "RepoEvalRecord", field: "origin.repo" }),
            document.origin.path is Some && document.origin.repo is Some ==> r is Ok,
            r matches Ok(recs) ==> {
                &&& recs@.len() == chunks@.len()
                &&& forall|i: int|
                    0 <= i < recs@.len() ==> repo_eval_record_describes(
                        #[trigger] recs@[i],
                        document.origin.path->0@,
                        document.origin.repo->0@,
                        chunks@[i],
                        text_chunks@[i],
                    )
            },
    {
        let path = match &document.origin.path {
            Some(p) => p,
            None => {
                return Err(
                    AstchunkError::ExportRequirementMissing {
                        exporter: "RepoEvalRecord",
                        field: "origin.path",
                    },
                )
            },
        };
        let repo = match &document.origin.repo {
            Some(r) => r,
            None => {
                return Err(
                    AstchunkError::ExportRequirementMissing {
                        exporter: "RepoEvalRecord",
                        field: "origin.repo",
                    },
                )
            },
        };
        let fpath_tuple = split_on(path.as_str(), 0x2f);
        let mut out: Vec<RepoEvalRecord> = Vec::new();
        let mut i: usize = 0;
        while i < chunks.len()
            invariant
                chunks@.len() == text_chunks@.len(),
                line_ranges_convertible(text_chunks@),
                document.origin.path == Some(*path),
                document.origin.repo == Some(*repo),
                fpath_tuple@.len() == split_bytes(encode_utf8(path@), 0x2f).len(),
                forall|j: int| 0 <= j < fpath_tuple@.len() ==> encode_utf8(#[trigger] fpath_tuple@[j]@)
                    == split_bytes(encode_utf8(path@), 0x2f)[j],
                i <= chunks@.len(),
                out@.len() == i,
                forall|x: int|
                    0 <= x < i ==> repo_eval_record_describes(
                        #[trigger] out@[x],
                        path@,
                        repo@,
                        chunks@[x],
                        text_chunks@[x],
                    ),
            decreases chunks@.len() - i,
        {
            let ast_chunk = &chunks[i];
            let text_chunk = &text_chunks[i];
            let line_numbers = text_chunk.source_line_index_range.to_line_number_range();
            let tuple = clone_strings(&fpath_tuple);
            let rec = RepoEvalRecord {
                content: text_chunk.content.clone(),
                metadata: RepoEvalMetadata {
                    fpath_tuple: tuple,
                    repo: repo.clone(),
                    source_start_line_number: line_numbers.start,
                    source_end_line_number: line_numbers.end,
                    content_line_count: text_chunk.metrics.content_line_count,
                    content_nws_size: text_chunk.metrics.content_nws_size,
                    node_count: ast_chunk.metrics.node_count,
                },
            };
            assert forall|j: int| 0 <= j < rec.metadata.fpath_tuple@.len() implies encode_utf8(
                #[trigger] rec.metadata.fpath_tuple@[j]@,
            ) == split_bytes(encode_utf8(path@), 0x2f)[j] by {
                assert(rec.metadata.fpath_tuple@[j]@ == fpath_tuple@[j]@);
            }
            out.push(rec);
            i = i + 1;
        }
        Ok(out)
    }
}

/// Builds the identifier `<instance_id>_<start>-<end>`.
pub(crate) fn build_swebench_id(instance_id: &str, start: u32, end: u32) -> (r: String)
    ensures
        encode_utf8(r@) == instance_id.spec_bytes() + seq![0x5fu8] + decimal(start as nat) + seq![0x2du8]
            + decimal(end as nat),
{
    let bytes = instance_id.as_bytes();
    let mut out: Vec<u8> = Vec::new();
    crate::text::extend_from_range(&mut out, bytes, 0, bytes.len());
    assert(bytes@.subrange(0, bytes@.len() as int) =~= bytes@);
    out.push(0x5f);
    push_decimal(&mut out, start as u64);
    out.push(0x2d);
    push_decimal(&mut out, end as u64);
    let ghost tail = seq![0x5fu8] + decimal(start as nat) + seq![0x2du8] + decimal(end as nat);
    assert(out@ =~= bytes@ + tail);
    proof {
        encode_utf8_valid_utf8(instance_id@);
        lemma_decimal_ascii(start as nat);
        lemma_decimal_ascii(end as nat);
        assert forall|i: int| 0 <= i < tail.len() implies #[trigger] tail[i] < 0x80 by {
            let d1 = decimal(start as nat);
            if 1 <= i < 1 + d1.len() {
                assert(tail[i] == d1[i - 1]);
            } else if i >= 2 + d1.len() {
                assert(tail[i] == decimal(end as nat)[i - 2 - d1.len()]);
            }
        }
        lemma_ascii_valid(tail);
        lemma_valid_utf8_concat(bytes@, tail);
    }
    string_from_valid_utf8(out)
}

impl SwebenchLiteRecord {
    /// Builds SWE-bench Lite records from a document's text chunks; the
    /// document must have a path, whose last component is the title.
    pub fn build(document: &Document, text_chunks: &[TextChunk], instance_id: &str) -> (r: Result<
        Vec<Self>,
        AstchunkError,
    >)
        requires
            line_ranges_convertible(text_chunks@),
        ensures
            document.origin.path is None ==> r == Err::<Vec<Self>, AstchunkError>(
                AstchunkError::ExportRequirementMissing {
                    exporter: "SwebenchLiteRecord",
                    field: "origin.path",
                },
            ),
            document.origin.path is Some ==> r is Ok,
            r matches Ok(recs) ==> {
                &&& recs@.len() == text_chunks@.len()
                &&& forall|i: int|
                    0 <= i < recs@.len() ==> {
                        &&& encode_utf8((#[trigger] recs@[i]).id@) == swebench_id(
                            instance_id.spec_bytes(),
                            text_chunks@[i],
                        )
                        &&& encode_utf8(recs@[i].title@) == split_bytes(
                            encode_utf8(document.origin.path->0@),
                            0x2f,
                        ).last()
                        &&& recs@[i].text@ == text_chunks@[i].content@
                    }
            },
    {
        let path = match &document.origin.path {
            Some(p) => p,
            None => {
                return Err(
                    AstchunkError::ExportRequirementMissing {
                        exporter: "SwebenchLiteRecord",
                        field: "origin.path",
                    },
                )
            },
        };
        let title = last_piece(path.as_str(), 0x2f);
        let mut out: Vec<SwebenchLiteRecord> = Vec::new();
        let mut i: usize = 0;
        while i < text_chunks.len()
            invariant
                line_ranges_convertible(text_chunks@),
                document.origin.path == Some(*path),
                encode_utf8(title@) == split_bytes(encode_utf8(path@), 0x2f).last(),
                i <= text_chunks@.len(),
                out@.len() == i,
                forall|x: int|
                    0 <= x < i ==> {
                        &&& encode_utf8((#[trigger] out@[x]).id@) == swebench_id(
                            instance_id.spec_bytes(),
                            text_chunks@[x],
                        )
                        &&& encode_utf8(out@[x].title@) == split_bytes(encode_utf8(path@), 0x2f).last()
                        &&& out@[x].text@ == text_chunks@[x].content@
                    },
            decreases text_chunks@.len() - i,
        {
            let text_chunk = &text_chunks[i];
            let line_numbers = text_chunk.source_line_index_range.to_line_number_range();
            let id = build_swebench_id(instance_id, line_numbers.start, line_numbers.end);
            out.push(SwebenchLiteRecord { id, title: title.clone(), text: text_chunk.content.clone() });
            i = i + 1;
        }
        Ok(out)
    }
}

} // verus!
