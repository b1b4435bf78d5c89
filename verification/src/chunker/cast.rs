//! The cAST chunker: parse, partition into windows under a non-whitespace
//! budget, optionally overlap windows, and describe each window as a chunk.

use vstd::prelude::*;
use vstd::string::StringSliceAdditionalSpecFns;
use vstd::utf8::{encode_utf8, valid_utf8};

use super::Chunker;
use crate::byte_range::ByteRange;
use crate::error::AstchunkError;
use crate::internal::materialize::{
    layout, lemma_layout_nws, node_pieces, rebuild_code_bytes, segment_pieces, texts_nws,
    window_segments, window_texts_valid, Piece,
};
use crate::internal::node::{node_size, AstNode, AstNodeModel};
use crate::internal::partition::{
    add_window_overlapping, assign_tree, assign_tree_to_windows, leaves_fit, lemma_assign_tree_bounded,
    lemma_assign_tree_ok, lemma_assign_tree_oversize_leaves, lemma_overlap_keeps_windows,
    lemma_overlap_ok, node_in_tree, node_ok, overlap_window, overlap_windows, spec_min_int, window_size,
    windows_bounded,
    windows_in_tree, WindowModel,
};
use crate::internal::order::{
    in_source_order, lemma_assign_tree_in_order, lemma_partition_in_order, lemma_window_forward,
    node_before,
};
use crate::internal::tree::SyntaxTree;
use crate::internal::ts::{parse, parse_result};
use crate::lang::{is_ancestor_node_type, is_ancestor_type, Language};
use crate::nws::{lemma_nws_le_len, nws_count};
use crate::text::{
    bytes_to_vec, find_first_line_end, first_line_end, lemma_valid_utf8_prefix, str_eq,
    str_from_utf8, string_from_valid_utf8,
};
use crate::types::{
    AstChunk, ChunkId, ChunkMetrics, Document, DocumentId, LineIndexRange, ScopeFrame,
    ScopeFrameModel, ScopeKind,
};

verus! {

/// Options for the cAST chunking algorithm.
#[derive(Debug, Clone)]
#[non_exhaustive]
pub struct CastChunkerOptions {
    /// Maximum non-whitespace character count per chunk.
    pub max_nws_size: u32,
    /// Number of AST nodes to overlap between adjacent windows.
    pub overlap_nodes: usize,
}

impl Default for CastChunkerOptions {
    fn default() -> (r: Self)
        ensures
            r.max_nws_size == 1500,
            r.overlap_nodes == 0,
    {
        CastChunkerOptions { max_nws_size: 1500, overlap_nodes: 0 }
    }
}

/// Structural chunker implementing the cAST algorithm: it splits a
/// [`Document`] into [`AstChunk`]s by partitioning syntax nodes into windows
/// under a non-whitespace character budget.
#[derive(Debug, Clone)]
pub struct CastChunker {
    /// Chunking options.
    pub options: CastChunkerOptions,
}

/// The scope kind that a definition node type stands for.
pub open spec fn spec_scope_kind(node_type: Seq<char>, language: Language) -> ScopeKind {
    if node_type == "function_definition"@ && language == Language::Python {
        ScopeKind::Function
    } else if node_type == "class_definition"@ || node_type == "class_specifier"@ || node_type
        == "struct_specifier"@ || node_type == "struct_item"@ || node_type == "enum_item"@
        || node_type == "class_declaration"@ {
        ScopeKind::Class
    } else if node_type == "namespace_definition"@ {
        ScopeKind::Namespace
    } else if node_type == "impl_item"@ {
        ScopeKind::Impl
    } else if node_type == "trait_item"@ {
        ScopeKind::Trait
    } else if node_type == "mod_item"@ {
        ScopeKind::Module
    } else if node_type == "method_declaration"@ || node_type == "method_definition"@ {
        ScopeKind::Method
    } else if node_type == "constructor_declaration"@ {
        ScopeKind::Constructor
    } else if node_type == "interface_declaration"@ {
        ScopeKind::Interface
    } else {
        ScopeKind::Function
    }
}

/// The display of a scope node: the first line of its text, or nothing when
/// its bytes are not valid UTF-8.
pub open spec fn scope_display(tree: SyntaxTree, source: Seq<u8>, i: int) -> Seq<u8> {
    let t = source.subrange(tree.range(i).start as int, tree.range(i).end as int);
    if valid_utf8(t) {
        t.take(first_line_end(t))
    } else {
        seq![]
    }
}

/// The scope frames of the ancestors `anc` that are definitions of `language`.
pub open spec fn scopes_of(tree: SyntaxTree, source: Seq<u8>, anc: Seq<usize>, language: Language) -> Seq<
    ScopeFrameModel,
>
    decreases anc.len(),
{
    if anc.len() == 0 {
        seq![]
    } else {
        let rest = scopes_of(tree, source, anc.drop_last(), language);
        let i = anc.last() as int;
        let kind = tree.node(i).info.kind@;
        if is_ancestor_type(language, kind) {
            rest.push(
                ScopeFrameModel {
                    kind: spec_scope_kind(kind, language),
                    display: scope_display(tree, source, i),
                },
            )
        } else {
            rest
        }
    }
}

/// Smallest start among the segments.
pub open spec fn min_start(segs: Seq<ByteRange>) -> u32
    decreases segs.len(),
{
    if segs.len() <= 1 {
        segs[0].start
    } else {
        let m = min_start(segs.drop_last());
        if segs.last().start < m {
            segs.last().start
        } else {
            m
        }
    }
}

/// Largest end among the segments.
pub open spec fn max_end(segs: Seq<ByteRange>) -> u32
    decreases segs.len(),
{
    if segs.len() <= 1 {
        segs[0].end
    } else {
        let m = max_end(segs.drop_last());
        if segs.last().end > m {
            segs.last().end
        } else {
            m
        }
    }
}

/// Non-whitespace size of the text rebuilt from a window.
pub open spec fn window_text_nws(tree: SyntaxTree, source: Seq<u8>, w: WindowModel) -> nat {
    nws_count(layout(node_pieces(tree, source, w)))
}

/// A window can be described by a chunk: its node count and the
/// non-whitespace size of its rebuilt text fit in `u32`.
pub open spec fn window_fits(tree: SyntaxTree, source: Seq<u8>, w: WindowModel) -> bool {
    &&& w.len() <= u32::MAX
    &&& window_text_nws(tree, source, w) <= u32::MAX
}

/// `c` is the chunk that describes window `w`.
pub open spec fn chunk_describes(
    c: AstChunk,
    tree: SyntaxTree,
    source: Seq<u8>,
    language: Language,
    document_id: DocumentId,
    chunk_id: u32,
    w: WindowModel,
) -> bool {
    let segs = window_segments(tree, w);
    &&& c.chunk_id == ChunkId(chunk_id)
    &&& c.document_id == document_id
    &&& c.segments@ == segs
    &&& c.envelope == ByteRange { start: min_start(segs), end: max_end(segs) }
    &&& c.line_index_range == LineIndexRange {
        start: tree.node(w[0].node as int).info.start_position.row,
        end: (tree.node(w.last().node as int).info.end_position.row + 1) as u32,
    }
    &&& c.scopes.deep_view() == scopes_of(tree, source, w[0].ancestors, language)
    &&& c.metrics == ChunkMetrics {
        nws_size: window_text_nws(tree, source, w) as u32,
        node_count: w.len() as u32,
        segment_count: w.len() as u32,
    }
}

/// The windows that the chunker describes: the partition of the tree,
/// overlapped when `overlap_nodes` is positive.
pub open spec fn chunk_windows(options: CastChunkerOptions, tree: SyntaxTree, source: Seq<u8>) -> Seq<
    WindowModel,
> {
    let ws = assign_tree(options.max_nws_size, tree, source);
    if options.overlap_nodes > 0 {
        overlap_windows(ws, options.overlap_nodes as int)
    } else {
        ws
    }
}

/// Chunking of a parsed tree succeeds when chunk indices fit `u32` and every
/// window can be described.
pub open spec fn chunking_fits(options: CastChunkerOptions, tree: SyntaxTree, source: Seq<u8>) -> bool {
    let ws = chunk_windows(options, tree, source);
    &&& ws.len() <= u32::MAX as int + 1
    &&& forall|i: int| 0 <= i < ws.len() ==> window_fits(tree, source, #[trigger] ws[i])
}

/// `cs` describe, in order, the windows of the tree.
pub open spec fn chunks_describe_tree(
    cs: Seq<AstChunk>,
    options: CastChunkerOptions,
    tree: SyntaxTree,
    source: Seq<u8>,
    language: Language,
    document_id: DocumentId,
) -> bool {
    let ws = chunk_windows(options, tree, source);
    &&& cs.len() == ws.len()
    &&& forall|i: int|
        0 <= i < cs.len() ==> chunk_describes(
            #[trigger] cs[i],
            tree,
            source,
            language,
            document_id,
            i as u32,
            ws[i],
        )
}

/// `cs` is what chunking `document` with `options` gives when it succeeds:
/// the chunks that describe the windows of the document's parse.
pub open spec fn chunked(options: CastChunkerOptions, document: Document, cs: Seq<AstChunk>) -> bool {
    &&& parse_result(document.language, document.source_bytes()) matches Some(t)
    &&& chunking_fits(options, t, document.source_bytes())
    &&& chunks_describe_tree(cs, options, t, document.source_bytes(), document.language, document.document_id)
}

/// Classifies a tree-sitter node type string into a [`ScopeKind`].
pub fn classify_scope_kind(node_type: &str, language: Language) -> (r: ScopeKind)
    ensures
        r == spec_scope_kind(node_type@, language),
{
    if str_eq(node_type, "function_definition") && language == Language::Python {
        ScopeKind::Function
    } else if str_eq(node_type, "class_definition") || str_eq(node_type, "class_specifier")
        || str_eq(node_type, "struct_specifier") || str_eq(node_type, "struct_item") || str_eq(
        node_type,
        "enum_item",
    ) || str_eq(node_type, "class_declaration") {
        ScopeKind::Class
    } else if str_eq(node_type, "namespace_definition") {
        ScopeKind::Namespace
    } else if str_eq(node_type, "impl_item") {
        ScopeKind::Impl
    } else if str_eq(node_type, "trait_item") {
        ScopeKind::Trait
    } else if str_eq(node_type, "mod_item") {
        ScopeKind::Module
    } else if str_eq(node_type, "method_declaration") || str_eq(node_type, "method_definition") {
        ScopeKind::Method
    } else if str_eq(node_type, "constructor_declaration") {
        ScopeKind::Constructor
    } else if str_eq(node_type, "interface_declaration") {
        ScopeKind::Interface
    } else {
        ScopeKind::Function
    }
}

/// The first line of the text of node `i`, as [`scope_display`] defines it.
fn scope_display_of(tree: &SyntaxTree, source: &[u8], i: usize) -> (r: String)
    requires
        tree.wf(source@.len()),
        i < tree.nodes@.len(),
    ensures
        encode_utf8(r@) == scope_display(*tree, source@, i as int),
{
    let range = tree.nodes[i].info.range;
    let text = vstd::slice::slice_subrange(source, range.start as usize, range.end as usize);
    if str_from_utf8(text).is_some() {
        let end = find_first_line_end(text);
        let prefix = vstd::slice::slice_subrange(text, 0, end);
        let bytes = bytes_to_vec(prefix);
        proof {
            lemma_valid_utf8_prefix(text@, end as int);
            assert(prefix@ =~= text@.take(end as int));
        }
        string_from_valid_utf8(bytes)
    } else {
        let r = String::new();
        assert(encode_utf8(r@) =~= Seq::<u8>::empty());
        r
    }
}

/// Builds scope frames from ancestor nodes: one per ancestor whose type is a
/// class or function definition of `language`, outermost first.
pub fn build_scopes(ancestors: &[usize], tree: &SyntaxTree, source: &[u8], language: Language) -> (r: Vec<
    ScopeFrame,
>)
    requires
        tree.wf(source@.len()),
        forall|a: int| 0 <= a < ancestors@.len() ==> #[trigger] ancestors@[a] < tree.nodes@.len(),
    ensures
        r.deep_view() == scopes_of(*tree, source@, ancestors@, language),
{
    let mut result: Vec<ScopeFrame> = Vec::new();
    let mut k: usize = 0;
    assert(ancestors@.take(0) =~= Seq::<usize>::empty());
    while k < ancestors.len()
        invariant
            tree.wf(source@.len()),
            forall|a: int| 0 <= a < ancestors@.len() ==> #[trigger] ancestors@[a] < tree.nodes@.len(),
            k <= ancestors@.len(),
            result.deep_view() == scopes_of(*tree, source@, ancestors@.take(k as int), language),
        decreases ancestors@.len() - k,
    {
        let a = ancestors[k];
        assert(ancestors@.take(k + 1).drop_last() =~= ancestors@.take(k as int));
        let kind_str = tree.nodes[a].info.kind.as_str();
        if is_ancestor_node_type(language, kind_str) {
            let display = scope_display_of(tree, source, a);
            let kind = classify_scope_kind(kind_str, language);
            let ghost before = result.deep_view();
            let frame = ScopeFrame { kind, display };
            result.push(frame);
            assert(result.deep_view() =~= before.push(frame.deep_view()));
        }
        k = k + 1;
    }
    assert(ancestors@.take(ancestors@.len() as int) =~= ancestors@);
    result
}

/// Converts a window of nodes into an [`AstChunk`]; `None` when the node
/// count or the non-whitespace size of the rebuilt text exceeds `u32`.
fn build_ast_chunk(
    window: &[AstNode],
    tree: &SyntaxTree,
    source: &[u8],
    language: Language,
    document_id: DocumentId,
    chunk_id: ChunkId,
) -> (r: Option<AstChunk>)
    requires
        tree.wf(source@.len()),
        window@.len() > 0,
        forall|j: int| 0 <= j < window@.len() ==> node_in_tree(#[trigger] window.deep_view()[j], tree.nodes@.len()),
    ensures
        r is Some <==> window_fits(*tree, source@, window.deep_view()),
        r matches Some(c) ==> chunk_describes(
            c,
            *tree,
            source@,
            language,
            document_id,
            chunk_id.0,
            window.deep_view(),
        ),
{
    let ghost w = window.deep_view();
    let ghost segs = window_segments(*tree, w);
    assert forall|j: int| 0 <= j < window@.len() implies (#[trigger] window@[j]).node < tree.nodes@.len() by {
        assert(w[j] == window@[j].deep_view());
    }
    // Segments: one byte range per node.
    let mut segments: Vec<ByteRange> = Vec::new();
    let mut j: usize = 0;
    while j < window.len()
        invariant
            w == window.deep_view(),
            segs == window_segments(*tree, w),
            forall|x: int| 0 <= x < window@.len() ==> (#[trigger] window@[x]).node < tree.nodes@.len(),
            j <= window@.len(),
            segments@ == segs.take(j as int),
        decreases window@.len() - j,
    {
        assert(w[j as int] == window@[j as int].deep_view());
        segments.push(tree.nodes[window[j].node].info.range);
        j = j + 1;
        assert(segments@ =~= segs.take(j as int));
    }
    assert(segs.take(segs.len() as int) =~= segs);
    // Envelope: minimum start and maximum end over all segments.
    let mut envelope_start = segments[0].start;
    let mut envelope_end = segments[0].end;
    let mut j: usize = 1;
    assert(segs.take(1).len() == 1);
    while j < segments.len()
        invariant
            segments@ == segs,
            segs.len() > 0,
            1 <= j <= segs.len(),
            envelope_start == min_start(segs.take(j as int)),
            envelope_end == max_end(segs.take(j as int)),
        decreases segs.len() - j,
    {
        assert(segs.take(j + 1).drop_last() =~= segs.take(j as int));
        if segments[j].start < envelope_start {
            envelope_start = segments[j].start;
        }
        if segments[j].end > envelope_end {
            envelope_end = segments[j].end;
        }
        j = j + 1;
    }
    assert(segs.take(segs.len() as int) =~= segs);
    let envelope = ByteRange { start: envelope_start, end: envelope_end };
    // Line range, half-open.
    let first = &window[0];
    let last = &window[window.len() - 1];
    assert(w[0] == first.deep_view());
    assert(w.last() == last.deep_view());
    let start_line = first.start_line(tree);
    let end_line = last.end_line(tree);
    let line_index_range = LineIndexRange { start: start_line, end: end_line + 1 };
    // Scopes from the first node's ancestors.
    assert(node_in_tree(w[0], tree.nodes@.len()));
    assert forall|a: int| 0 <= a < first.ancestors@.len() implies #[trigger] first.ancestors@[a]
        < tree.nodes@.len() by {
        assert(w[0].ancestors[a] == first.ancestors@[a]);
    }
    let scopes = build_scopes(first.ancestors.as_slice(), tree, source, language);
    // Size of the rebuilt text.
    let text = rebuild_code_bytes(window, tree, source);
    if window.len() > 0xffff_ffff {
        return None;
    }
    let count = crate::nws::nws_count_bytes_checked(text.as_slice());
    let nws_size = match count {
        Some(n) => n,
        None => return None,
    };
    let metrics = ChunkMetrics {
        nws_size,
        node_count: window.len() as u32,
        segment_count: segments.len() as u32,
    };
    Some(
        AstChunk {
            chunk_id,
            document_id,
            segments,
            envelope,
            line_index_range,
            scopes,
            metrics,
        },
    )
}

/// The name of a language in error messages.
pub open spec fn language_display(language: Language) -> Seq<char> {
    match language {
        Language::Python => "Python"@,
        Language::Java => "Java"@,
        Language::Cpp => "Cpp"@,
        Language::Rust => "Rust"@,
        Language::CSharp => "CSharp"@,
        Language::TypeScript => "TypeScript"@,
    }
}

/// The name of a language, as used in error messages.
fn language_name(language: Language) -> (r: String)
    ensures
        r@ == language_display(language),
{
    match language {
        Language::Python => String::from_str("Python"),
        Language::Java => String::from_str("Java"),
        Language::Cpp => String::from_str("Cpp"),
        Language::Rust => String::from_str("Rust"),
        Language::CSharp => String::from_str("CSharp"),
        Language::TypeScript => String::from_str("TypeScript"),
    }
}

/// The message of a parse failure; nothing for other errors.
pub open spec fn failure_message(e: AstchunkError) -> Seq<char> {
    match e {
        AstchunkError::ParseFailed { message, .. } => message@,
        _ => seq![],
    }
}

/// The error reported when a document cannot be turned into chunks.
fn parse_failure(language: Language, message: &str) -> (r: AstchunkError)
    ensures
        r matches AstchunkError::ParseFailed { language: l, message: m } && l@ == language_display(language)
            && m@ == message@,
{
    AstchunkError::ParseFailed { language: language_name(language), message: String::from_str(message) }
}

impl CastChunker {
    /// Creates a new chunker with the given options.
    pub fn new(options: CastChunkerOptions) -> (r: Self)
        ensures
            r.options == options,
    {
        CastChunker { options }
    }

    /// Chunks a document whose syntax tree is `tree`: partitions the tree
    /// into windows, overlaps them when `overlap_nodes` is positive, and
    /// describes each window as a chunk with sequential identifiers.
    pub fn chunk_tree(&self, document: &Document, tree: &SyntaxTree) -> (r: Result<
        Vec<AstChunk>,
        AstchunkError,
    >)
        requires
            tree.wf(document.source_bytes().len()),
            nws_count(document.source_bytes()) <= u32::MAX,
        ensures
            r is Ok <==> chunking_fits(self.options, *tree, document.source_bytes()),
            r matches Ok(cs) ==> chunks_describe_tree(
                cs@,
                self.options,
                *tree,
                document.source_bytes(),
                document.language,
                document.document_id,
            ),
            r matches Err(e) ==> e is ParseFailed && (failure_message(e) == "too many chunks"@
                || failure_message(e) == "chunk metrics exceed u32"@),
            r matches Err(AstchunkError::ParseFailed { language: l, .. }) ==> l@ == language_display(
                document.language,
            ),
    {
        let source = document.source.as_str().as_bytes();
        let language = document.language;
        let ghost src = source@;
        let windows = assign_tree_to_windows(self.options.max_nws_size, source, tree);
        proof {
            lemma_assign_tree_ok(self.options.max_nws_size, *tree, src);
        }
        let windows = if self.options.overlap_nodes > 0 {
            proof {
                lemma_overlap_ok(windows.deep_view(), self.options.overlap_nodes as int, *tree, src);
            }
            add_window_overlapping(windows.as_slice(), self.options.overlap_nodes)
        } else {
            windows
        };
        let ghost ws = windows.deep_view();
        assert(ws == chunk_windows(self.options, *tree, src));
        assert(windows_in_tree(ws, tree.nodes@.len()));
        assert forall|i: int| 0 <= i < ws.len() implies #[trigger] ws[i].len() > 0 by {
            let base = assign_tree(self.options.max_nws_size, *tree, src);
            assert(windows_bounded(base, self.options.max_nws_size as int));
            if self.options.overlap_nodes > 0 {
                lemma_overlap_keeps_windows(base, self.options.overlap_nodes as int, i);
                assert(base[i].len() > 0);
            }
        }
        if windows.len() as u64 > 0x1_0000_0000u64 {
            return Err(parse_failure(language, "too many chunks"));
        }
        let mut chunks: Vec<AstChunk> = Vec::new();
        let mut i: usize = 0;
        while i < windows.len()
            invariant
                tree.wf(src.len()),
                source@ == src,
                src == document.source_bytes(),
                language == document.language,
                ws == windows.deep_view(),
                ws == chunk_windows(self.options, *tree, src),
                ws.len() <= u32::MAX as int + 1,
                windows_in_tree(ws, tree.nodes@.len()),
                forall|x: int| 0 <= x < ws.len() ==> #[trigger] ws[x].len() > 0,
                i <= ws.len(),
                chunks@.len() == i,
                forall|x: int| 0 <= x < i ==> window_fits(*tree, src, #[trigger] ws[x]),
                forall|x: int|
                    0 <= x < i ==> chunk_describes(
                        #[trigger] chunks@[x],
                        *tree,
                        src,
                        language,
                        document.document_id,
                        x as u32,
                        ws[x],
                    ),
            decreases ws.len() - i,
        {
            let window = &windows[i];
            assert(ws[i as int] == window.deep_view());
            assert forall|j: int| 0 <= j < window@.len() implies node_in_tree(
                #[trigger] window.deep_view()[j],
                tree.nodes@.len(),
            ) by {
                assert(ws[i as int][j] == window.deep_view()[j]);
            }
            match build_ast_chunk(
                window.as_slice(),
                tree,
                source,
                language,
                document.document_id,
                ChunkId(i as u32),
            ) {
                Some(c) => {
                    chunks.push(c);
                },
                None => {
                    assert(!window_fits(*tree, src, ws[i as int]));
                    assert(!chunking_fits(self.options, *tree, src));
                    return Err(parse_failure(language, "chunk metrics exceed u32"));
                },
            }
            i = i + 1;
        }
        Ok(chunks)
    }
}

impl Chunker for CastChunker {
    /// Parses the document with tree-sitter and chunks its tree (see
    /// [`CastChunker::chunk_tree`]). Fails with `ParseFailed` when the
    /// source exceeds `u32::MAX` bytes, when tree-sitter yields no usable
    /// tree, or when a chunk cannot be described.
    fn chunk(&self, document: &Document) -> (r: Result<Vec<AstChunk>, AstchunkError>)
        ensures
            document.source_bytes().len() > u32::MAX <==> (r matches Err(e) && failure_message(e)
                == "source exceeds u32::MAX bytes"@),
            r matches Err(e) ==> e is ParseFailed,
            r matches Err(AstchunkError::ParseFailed { language: l, .. }) ==> l@ == language_display(
                document.language,
            ),
            document.source_bytes().len() <= u32::MAX && parse_result(
                document.language,
                document.source_bytes(),
            ) is None ==> (r matches Err(e) && failure_message(e)
                == "tree-sitter produced no usable syntax tree"@),
            parse_result(document.language, document.source_bytes()) matches Some(t) ==> {
                &&& r is Ok <==> chunking_fits(self.options, t, document.source_bytes())
                &&& r matches Ok(cs) ==> chunks_describe_tree(
                    cs@,
                    self.options,
                    t,
                    document.source_bytes(),
                    document.language,
                    document.document_id,
                )
                &&& r matches Err(e) ==> (failure_message(e) == "too many chunks"@ || failure_message(e)
                    == "chunk metrics exceed u32"@)
            },
            r matches Ok(cs) ==> chunked(self.options, *document, cs@),
    {
        let source = document.source.as_str().as_bytes();
        if source.len() > 0xffff_ffff {
            return Err(parse_failure(document.language, "source exceeds u32::MAX bytes"));
        }
        proof {
            lemma_nws_le_len(source@);
            reveal_strlit("source exceeds u32::MAX bytes");
            reveal_strlit("too many chunks");
            reveal_strlit("chunk metrics exceed u32");
            reveal_strlit("tree-sitter produced no usable syntax tree");
            assert("source exceeds u32::MAX bytes"@.len() == 29);
            assert("too many chunks"@.len() == 15);
            assert("chunk metrics exceed u32"@.len() == 24);
            assert("tree-sitter produced no usable syntax tree"@.len() == 42);
        }
        match parse(document.language, source) {
            Some(tree) => {
                let r = self.chunk_tree(document, &tree);
                proof {
                    if r is Err {
                        assert(!chunking_fits(self.options, tree, document.source_bytes()));
                    }
                    if let Ok(cs) = &r {
                        assert(chunks_describe_tree(
                            cs@,
                            self.options,
                            tree,
                            document.source_bytes(),
                            document.language,
                            document.document_id,
                        ));
                    }
                }
                r
            },
            None => Err(parse_failure(document.language, "tree-sitter produced no usable syntax tree")),
        }
    }
}

/// The texts of a window's node pieces hold as many non-whitespace
/// characters as the window's recorded size, when every node carries its own
/// size.
pub proof fn lemma_window_text_nws(tree: SyntaxTree, source: Seq<u8>, w: WindowModel)
    requires
        forall|j: int| 0 <= j < w.len() ==> node_ok(#[trigger] w[j], tree, source),
    ensures
        texts_nws(node_pieces(tree, source, w)) == window_size(w),
    decreases w.len(),
{
    if w.len() > 0 {
        let wd = w.drop_last();
        assert forall|j: int| 0 <= j < wd.len() implies node_ok(#[trigger] wd[j], tree, source) by {
            assert(wd[j] == w[j]);
        }
        lemma_window_text_nws(tree, source, wd);
        assert(node_pieces(tree, source, w).drop_last() =~= node_pieces(tree, source, wd));
        assert(node_ok(w[w.len() - 1], tree, source));
    }
}

/// Without overlap, every chunk of a document holds at most `max_nws_size`
/// non-whitespace characters, except a chunk of a single leaf that is larger
/// on its own; when no leaf is larger than the budget, every chunk fits.
pub proof fn lemma_chunks_within_budget(
    options: CastChunkerOptions,
    tree: SyntaxTree,
    source: Seq<u8>,
    language: Language,
    document_id: DocumentId,
    cs: Seq<AstChunk>,
)
    requires
        tree.wf(source.len()),
        nws_count(source) <= u32::MAX,
        options.overlap_nodes == 0,
        chunks_describe_tree(cs, options, tree, source, language, document_id),
    ensures
        forall|i: int|
            0 <= i < cs.len() ==> (#[trigger] cs[i]).metrics.nws_size <= options.max_nws_size
                || cs[i].metrics.node_count == 1,
        leaves_fit(tree, source, options.max_nws_size as int) ==> forall|i: int|
            0 <= i < cs.len() ==> (#[trigger] cs[i]).metrics.nws_size <= options.max_nws_size,
{
    let ws = assign_tree(options.max_nws_size, tree, source);
    lemma_assign_tree_bounded(options.max_nws_size, tree, source);
    lemma_assign_tree_ok(options.max_nws_size, tree, source);
    lemma_assign_tree_oversize_leaves(options.max_nws_size, tree, source);
    assert forall|i: int| 0 <= i < cs.len() implies ((#[trigger] cs[i]).metrics.nws_size <= options.max_nws_size
        || cs[i].metrics.node_count == 1) && (leaves_fit(tree, source, options.max_nws_size as int)
        ==> cs[i].metrics.nws_size <= options.max_nws_size) by {
        let w = ws[i];
        assert(chunk_describes(cs[i], tree, source, language, document_id, i as u32, w));
        assert forall|j: int| 0 <= j < w.len() implies node_ok(#[trigger] w[j], tree, source) by {
            assert(node_ok(ws[i][j], tree, source));
        }
        lemma_window_text_nws(tree, source, w);
        lemma_layout_nws(node_pieces(tree, source, w));
        if window_size(w) > options.max_nws_size {
            assert(w.len() == 1);
            let n = w[0].node as int;
            assert(node_ok(w[0], tree, source));
            assert(w.drop_last() =~= Seq::<AstNodeModel>::empty());
            assert(window_size(w) == window_size(w.drop_last()) + w.last().nws_size);
            assert(tree.children(n).len() == 0);
            if leaves_fit(tree, source, options.max_nws_size as int) {
                assert(node_size(tree, source, n) <= options.max_nws_size);
            }
        }
    }
}

/// The segments of chunk `i` of `base` with its neighbours' overlapping
/// segments: the last `k` of the previous chunk before them and the first `k`
/// of the next chunk after them.
pub open spec fn overlapped_segments(base: Seq<AstChunk>, k: int, i: int) -> Seq<ByteRange> {
    let prev = if i > 0 {
        let p = base[i - 1].segments@;
        p.subrange(p.len() - spec_min_int(k, p.len() as int), p.len() as int)
    } else {
        seq![]
    };
    let next = if i + 1 < base.len() {
        let n = base[i + 1].segments@;
        n.subrange(0, spec_min_int(k, n.len() as int))
    } else {
        seq![]
    };
    prev + base[i].segments@ + next
}

/// The segments of a concatenation of windows are the concatenation of
/// their segments, and those of a part of a window are that part of its
/// segments.
proof fn lemma_window_segments_parts(tree: SyntaxTree, a: WindowModel, b: WindowModel, lo: int, hi: int)
    requires
        0 <= lo <= hi <= a.len(),
    ensures
        window_segments(tree, a + b) == window_segments(tree, a) + window_segments(tree, b),
        window_segments(tree, a.subrange(lo, hi)) == window_segments(tree, a).subrange(lo, hi),
{
    assert(window_segments(tree, a + b) =~= window_segments(tree, a) + window_segments(tree, b));
    assert(window_segments(tree, a.subrange(lo, hi)) =~= window_segments(tree, a).subrange(lo, hi));
}

/// Overlap keeps the chunks: over one tree, chunks made with
/// `overlap_nodes` set and chunks made with no overlap are as many, each
/// overlapped chunk holds the segments of its base chunk with the last
/// `overlap_nodes` of the previous one before them and the first
/// `overlap_nodes` of the next one after them, so it counts at least as many
/// nodes.
pub proof fn lemma_chunk_overlap_keeps_chunks(
    options: CastChunkerOptions,
    tree: SyntaxTree,
    source: Seq<u8>,
    language: Language,
    document_id: DocumentId,
    v: Seq<AstChunk>,
    base: Seq<AstChunk>,
)
    requires
        chunking_fits(options, tree, source),
        chunks_describe_tree(v, options, tree, source, language, document_id),
        chunks_describe_tree(
            base,
            CastChunkerOptions { max_nws_size: options.max_nws_size, overlap_nodes: 0 },
            tree,
            source,
            language,
            document_id,
        ),
    ensures
        v.len() == base.len(),
        forall|i: int|
            0 <= i < v.len() ==> (#[trigger] v[i]).segments@ == overlapped_segments(
                base,
                options.overlap_nodes as int,
                i,
            ),
        forall|i: int| 0 <= i < v.len() ==> (#[trigger] v[i]).metrics.node_count >= base[i].metrics.node_count,
{
    let k = options.overlap_nodes as int;
    let ws = assign_tree(options.max_nws_size, tree, source);
    let ovs = chunk_windows(options, tree, source);
    if ws.len() > 0 {
        lemma_overlap_keeps_windows(ws, k, 0);
    }
    assert(ovs.len() == ws.len());
    assert forall|i: int| 0 <= i < v.len() implies (#[trigger] v[i]).segments@ == overlapped_segments(
        base,
        k,
        i,
    ) && v[i].metrics.node_count >= base[i].metrics.node_count by {
        lemma_overlap_keeps_windows(ws, k, i);
        assert(ovs[i] == overlap_window(ws, k, i));
        assert(chunk_describes(v[i], tree, source, language, document_id, i as u32, ovs[i]));
        assert(chunk_describes(base[i], tree, source, language, document_id, i as u32, ws[i]));
        let prev = if i > 0 {
            let pw = ws[i - 1];
            pw.subrange(pw.len() - spec_min_int(k, pw.len() as int), pw.len() as int)
        } else {
            seq![]
        };
        let next = if i + 1 < ws.len() {
            let nw = ws[i + 1];
            nw.subrange(0, spec_min_int(k, nw.len() as int))
        } else {
            seq![]
        };
        if i > 0 {
            assert(chunk_describes(base[i - 1], tree, source, language, document_id, (i - 1) as u32, ws[i - 1]));
            let pw = ws[i - 1];
            lemma_window_segments_parts(tree, pw, pw, pw.len() - spec_min_int(k, pw.len() as int), pw.len() as int);
        }
        if i + 1 < ws.len() {
            assert(chunk_describes(base[i + 1], tree, source, language, document_id, (i + 1) as u32, ws[i + 1]));
            let nw = ws[i + 1];
            lemma_window_segments_parts(tree, nw, nw, 0, spec_min_int(k, nw.len() as int));
        }
        lemma_window_segments_parts(tree, prev, ws[i], 0, 0);
        lemma_window_segments_parts(tree, prev + ws[i], next, 0, 0);
        assert(window_fits(tree, source, ovs[i]));
    }
}

/// Two calls of the chunker on one document, one with `overlap_nodes` set
/// and one without, both chunk the same parse: when both succeed they give
/// as many chunks, and each overlapped chunk holds its base chunk's segments
/// with the neighbours' overlapping segments around them (see
/// [`lemma_chunk_overlap_keeps_chunks`]).
pub proof fn lemma_chunk_calls_overlap(
    options: CastChunkerOptions,
    document: Document,
    v: Seq<AstChunk>,
    base: Seq<AstChunk>,
)
    requires
        chunked(options, document, v),
        chunked(CastChunkerOptions { max_nws_size: options.max_nws_size, overlap_nodes: 0 }, document, base),
    ensures
        v.len() == base.len(),
        forall|i: int|
            0 <= i < v.len() ==> (#[trigger] v[i]).segments@ == overlapped_segments(
                base,
                options.overlap_nodes as int,
                i,
            ),
        forall|i: int| 0 <= i < v.len() ==> (#[trigger] v[i]).metrics.node_count >= base[i].metrics.node_count,
{
    let t = parse_result(document.language, document.source_bytes())->0;
    lemma_chunk_overlap_keeps_chunks(
        options,
        t,
        document.source_bytes(),
        document.language,
        document.document_id,
        v,
        base,
    );
}

/// Two successful calls of the chunker on one document with the same options
/// agree in every part of every chunk.
pub proof fn lemma_chunk_calls_agree(
    options: CastChunkerOptions,
    document: Document,
    a: Seq<AstChunk>,
    b: Seq<AstChunk>,
)
    requires
        chunked(options, document, a),
        chunked(options, document, b),
    ensures
        a.len() == b.len(),
        forall|i: int|
            0 <= i < a.len() ==> {
                &&& (#[trigger] a[i]).chunk_id == b[i].chunk_id
                &&& a[i].document_id == b[i].document_id
                &&& a[i].segments@ == b[i].segments@
                &&& a[i].envelope == b[i].envelope
                &&& a[i].line_index_range == b[i].line_index_range
                &&& a[i].scopes.deep_view() == b[i].scopes.deep_view()
                &&& a[i].metrics == b[i].metrics
            },
{
    let t = parse_result(document.language, document.source_bytes())->0;
    let src = document.source_bytes();
    let ws = chunk_windows(options, t, src);
    assert forall|i: int| 0 <= i < a.len() implies {
        &&& (#[trigger] a[i]).chunk_id == b[i].chunk_id
        &&& a[i].document_id == b[i].document_id
        &&& a[i].segments@ == b[i].segments@
        &&& a[i].envelope == b[i].envelope
        &&& a[i].line_index_range == b[i].line_index_range
        &&& a[i].scopes.deep_view() == b[i].scopes.deep_view()
        &&& a[i].metrics == b[i].metrics
    } by {
        assert(chunk_describes(a[i], t, src, document.language, document.document_id, i as u32, ws[i]));
        assert(chunk_describes(b[i], t, src, document.language, document.document_id, i as u32, ws[i]));
    }
}

/// Every chunk of a parsed document covers a non-empty range of lines and a
/// forward envelope; without overlap, chunks keep source order: every
/// segment of a chunk ends before any segment of a later chunk starts.
pub proof fn lemma_chunks_in_source_order(
    options: CastChunkerOptions,
    tree: SyntaxTree,
    source: Seq<u8>,
    language: Language,
    document_id: DocumentId,
    cs: Seq<AstChunk>,
)
    requires
        tree.wf(source.len()),
        nws_count(source) <= u32::MAX,
        chunks_describe_tree(cs, options, tree, source, language, document_id),
    ensures
        forall|i: int|
            0 <= i < cs.len() ==> (#[trigger] cs[i]).line_index_range.start < cs[i].line_index_range.end,
        options.overlap_nodes == 0 ==> forall|i: int, j: int, a: int, b: int|
            0 <= i < j < cs.len() && 0 <= a < cs[i].segments@.len() && 0 <= b < cs[j].segments@.len()
                ==> #[trigger] cs[i].segments@[a].end <= #[trigger] cs[j].segments@[b].start,
{
    let base = assign_tree(options.max_nws_size, tree, source);
    let ws = chunk_windows(options, tree, source);
    lemma_assign_tree_ok(options.max_nws_size, tree, source);
    lemma_assign_tree_bounded(options.max_nws_size, tree, source);
    if options.overlap_nodes > 0 {
        lemma_overlap_ok(base, options.overlap_nodes as int, tree, source);
    }
    lemma_partition_in_order(options.max_nws_size, options.overlap_nodes as int, tree, source);
    assert forall|i: int| 0 <= i < cs.len() implies (#[trigger] cs[i]).line_index_range.start
        < cs[i].line_index_range.end by {
        let w = ws[i];
        if options.overlap_nodes > 0 {
            lemma_overlap_keeps_windows(base, options.overlap_nodes as int, i);
            assert(base[i].len() > 0);
        }
        assert forall|j: int| 0 <= j < w.len() implies (#[trigger] w[j]).node < tree.nodes@.len() by {
            assert(node_in_tree(ws[i][j], tree.nodes@.len()));
        }
        if options.overlap_nodes > 0 {
            assert(in_source_order(tree, overlap_windows(base, options.overlap_nodes as int)[i]));
        } else {
            assert(in_source_order(tree, base[i]));
        }
        lemma_window_forward(tree, source.len(), w);
        assert(chunk_describes(cs[i], tree, source, language, document_id, i as u32, w));
    }
    if options.overlap_nodes == 0 {
        lemma_assign_tree_in_order(options.max_nws_size, tree, source);
        assert forall|i: int, j: int, a: int, b: int|
            0 <= i < j < cs.len() && 0 <= a < cs[i].segments@.len() && 0 <= b < cs[j].segments@.len() implies
            #[trigger] cs[i].segments@[a].end <= #[trigger] cs[j].segments@[b].start by {
            assert(chunk_describes(cs[i], tree, source, language, document_id, i as u32, ws[i]));
            assert(chunk_describes(cs[j], tree, source, language, document_id, j as u32, ws[j]));
            assert(cs[i].segments@[a] == tree.range(ws[i][a].node as int));
            assert(cs[j].segments@[b] == tree.range(ws[j][b].node as int));
            assert(node_before(tree, ws[i][a], ws[j][b]));
        }
    }
}

/// Rebuilding a chunk from its segments yields as many non-whitespace
/// characters as the chunk's recorded size, when the chunk describes a
/// window whose node texts are valid UTF-8.
pub proof fn lemma_segments_text_nws(
    c: AstChunk,
    tree: SyntaxTree,
    source: Seq<u8>,
    language: Language,
    document_id: DocumentId,
    chunk_id: u32,
    w: WindowModel,
)
    requires
        chunk_describes(c, tree, source, language, document_id, chunk_id, w),
        window_texts_valid(tree, source, w),
        window_fits(tree, source, w),
    ensures
        nws_count(layout(segment_pieces(source, c.segments@))) == c.metrics.nws_size,
{
    let a = node_pieces(tree, source, w);
    let b = segment_pieces(source, window_segments(tree, w));
    lemma_layout_nws(a);
    lemma_layout_nws(b);
    lemma_same_texts_nws(a, b);
}

proof fn lemma_same_texts_nws(a: Seq<Piece>, b: Seq<Piece>)
    requires
        a.len() == b.len(),
        forall|i: int| 0 <= i < a.len() ==> (#[trigger] a[i]).text == b[i].text,
    ensures
        texts_nws(a) == texts_nws(b),
    decreases a.len(),
{
    if a.len() > 0 {
        lemma_same_texts_nws(a.drop_last(), b.drop_last());
        assert(a[a.len() - 1].text == b[b.len() - 1].text);
    }
}

} // verus!
