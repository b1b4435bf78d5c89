//! The chunk builder: parses source code, partitions its syntax tree into
//! windows of sibling nodes within a non-whitespace budget, optionally
//! overlaps and expands them, and lays each out as an output window.

use vstd::prelude::*;
use vstd::string::StringSliceAdditionalSpecFns;
use vstd::utf8::encode_utf8;

use crate::chunk::{chunk_of_window, displays, try_build_chunk, window_buildable};
use crate::chunker::cast::{
    chunk_describes, chunk_windows, chunks_describe_tree, lemma_window_text_nws, scopes_of,
    CastChunkerOptions,
};
use crate::internal::materialize::{layout, lemma_layout_nws, node_pieces};
use crate::internal::node::{node_size, AstNode};
use crate::internal::partition::{
    add_window_overlapping, assign_tree, leaves_fit, lemma_assign_tree_bounded, lemma_assign_tree_ok,
    lemma_assign_tree_oversize_leaves,
    lemma_overlap_keeps_windows, lemma_overlap_ok, node_in_tree, node_ok, overlap_windows,
    window_size, windows_bounded, windows_in_tree, WindowModel,
};
use crate::internal::order::{in_source_order, lemma_partition_in_order, lemma_window_forward};
use crate::internal::tree::SyntaxTree;
use crate::internal::ts::{self, parse_result};
use crate::lang::Language;
use crate::metadata::{
    apply_chunk_expansion, build_metadata, expansion_header, expansion_path, lines_fit,
    strings_bytes, tab_join, window_model, ChunkOptions, CodeWindow, CodeWindowModel,
    MetadataTemplate, WindowMetadataModel,
};
use crate::nws::{lemma_nws_le_len, nws_count};

verus! {

/// The windows that the builder lays out: the partition of the tree under
/// the budget, overlapped by `overlap` nodes when `overlap` is positive.
pub open spec fn builder_windows(max_chunk_size: u32, overlap: usize, tree: SyntaxTree, source: Seq<u8>) -> Seq<
    WindowModel,
> {
    let ws = assign_tree(max_chunk_size, tree, source);
    if overlap > 0 {
        overlap_windows(ws, overlap as int)
    } else {
        ws
    }
}

/// 0-based line of the start of a window.
pub open spec fn window_start_line(tree: SyntaxTree, w: WindowModel) -> u32 {
    tree.node(w[0].node as int).info.start_position.row
}

/// 0-based line of the end of a window.
pub open spec fn window_end_line(tree: SyntaxTree, w: WindowModel) -> u32 {
    tree.node(w.last().node as int).info.end_position.row
}

/// The output window of `w`: its rebuilt text, preceded by the expansion
/// header and a newline when `expansion` holds, with the metadata of the
/// template. The size is that of the rebuilt text without the header.
pub open spec fn window_output(
    tree: SyntaxTree,
    source: Seq<u8>,
    language: Language,
    template: MetadataTemplate,
    expansion: bool,
    meta: Map<Seq<char>, Seq<char>>,
    w: WindowModel,
) -> CodeWindowModel {
    let text = layout(node_pieces(tree, source, w));
    let header = expansion_header(
        expansion_path(template, meta),
        tab_join(displays(scopes_of(tree, source, w[0].ancestors, language))),
    );
    let shown = if expansion {
        header + seq![0x0au8] + text
    } else {
        text
    };
    window_model(
        shown,
        nws_count(text) as u32,
        window_start_line(tree, w),
        window_end_line(tree, w),
        w.len() as usize,
        template,
        meta,
    )
}

/// Chunking succeeds when every window can be built into a chunk.
pub open spec fn chunkify_fits(max_chunk_size: u32, overlap: usize, tree: SyntaxTree, source: Seq<u8>) -> bool {
    let ws = builder_windows(max_chunk_size, overlap, tree, source);
    forall|i: int| 0 <= i < ws.len() ==> window_buildable(tree, source, #[trigger] ws[i])
}

/// The output windows of a tree, one per window, in order.
pub open spec fn chunkify_outputs(
    max_chunk_size: u32,
    overlap: usize,
    tree: SyntaxTree,
    source: Seq<u8>,
    language: Language,
    template: MetadataTemplate,
    expansion: bool,
    meta: Map<Seq<char>, Seq<char>>,
) -> Seq<CodeWindowModel> {
    builder_windows(max_chunk_size, overlap, tree, source).map_values(
        |w: WindowModel| window_output(tree, source, language, template, expansion, meta, w),
    )
}

/// The non-whitespace size that an output window reports, if any.
pub open spec fn reported_size(w: CodeWindowModel) -> Option<u32> {
    match w {
        CodeWindowModel::Standard { metadata: WindowMetadataModel::Default { chunk_size, .. }, .. } => Some(
            chunk_size,
        ),
        CodeWindowModel::Standard { metadata: WindowMetadataModel::RepoEval { chunk_size, .. }, .. } => Some(
            chunk_size,
        ),
        _ => None,
    }
}

/// The text that an output window shows.
pub open spec fn shown_text(w: CodeWindowModel) -> Seq<u8> {
    match w {
        CodeWindowModel::Standard { content, .. } => content,
        CodeWindowModel::SwebenchLite { text, .. } => text,
    }
}

/// Without overlap, every output window reports a size within the budget,
/// except the window of a single leaf that is larger on its own; when no
/// leaf is larger than the budget, every reported size fits. The size is
/// that of the window's text without the expansion header.
pub proof fn lemma_chunkify_within_budget(
    max_chunk_size: u32,
    tree: SyntaxTree,
    source: Seq<u8>,
    language: Language,
    template: MetadataTemplate,
    expansion: bool,
    meta: Map<Seq<char>, Seq<char>>,
)
    requires
        tree.wf(source.len()),
        nws_count(source) <= u32::MAX,
    ensures
        ({
            let outs = chunkify_outputs(max_chunk_size, 0, tree, source, language, template, expansion, meta);
            let ws = builder_windows(max_chunk_size, 0, tree, source);
            &&& forall|i: int|
                0 <= i < outs.len() && (#[trigger] reported_size(outs[i])) is Some ==> reported_size(
                    outs[i],
                )->0 <= max_chunk_size || ws[i].len() == 1
            &&& leaves_fit(tree, source, max_chunk_size as int) ==> forall|i: int|
                0 <= i < outs.len() && (#[trigger] reported_size(outs[i])) is Some ==> reported_size(
                    outs[i],
                )->0 <= max_chunk_size
        }),
{
    let ws = assign_tree(max_chunk_size, tree, source);
    let outs = chunkify_outputs(max_chunk_size, 0, tree, source, language, template, expansion, meta);
    lemma_assign_tree_bounded(max_chunk_size, tree, source);
    lemma_assign_tree_ok(max_chunk_size, tree, source);
    lemma_assign_tree_oversize_leaves(max_chunk_size, tree, source);
    assert forall|i: int| 0 <= i < outs.len() && (#[trigger] reported_size(outs[i])) is Some implies (reported_size(
        outs[i],
    )->0 <= max_chunk_size || ws[i].len() == 1) && (leaves_fit(tree, source, max_chunk_size as int)
        ==> reported_size(outs[i])->0 <= max_chunk_size) by {
        let w = ws[i];
        assert forall|j: int| 0 <= j < w.len() implies node_ok(#[trigger] w[j], tree, source) by {
            assert(node_ok(ws[i][j], tree, source));
        }
        lemma_window_text_nws(tree, source, w);
        lemma_layout_nws(node_pieces(tree, source, w));
        if window_size(w) > max_chunk_size {
            let n = w[0].node as int;
            assert(node_ok(w[0], tree, source));
            assert(w.drop_last() =~= Seq::<crate::internal::node::AstNodeModel>::empty());
            assert(window_size(w) == window_size(w.drop_last()) + w.last().nws_size);
            assert(tree.children(n).len() == 0);
            if leaves_fit(tree, source, max_chunk_size as int) {
                assert(node_size(tree, source, n) <= max_chunk_size);
            }
        } else {
            crate::internal::partition::lemma_window_size_nonneg(w);
        }
    }
}

/// Overlapping windows never changes how many output windows there are.
pub proof fn lemma_chunkify_overlap_keeps_count(
    max_chunk_size: u32,
    overlap: usize,
    tree: SyntaxTree,
    source: Seq<u8>,
    language: Language,
    template: MetadataTemplate,
    expansion: bool,
    meta: Map<Seq<char>, Seq<char>>,
)
    ensures
        chunkify_outputs(max_chunk_size, overlap, tree, source, language, template, expansion, meta).len()
            == chunkify_outputs(max_chunk_size, 0, tree, source, language, template, expansion, meta).len(),
{
}

/// With expansion, the text of every output window starts with the three
/// quotes (`'''`) that open its header.
pub proof fn lemma_chunkify_expansion_header(
    max_chunk_size: u32,
    overlap: usize,
    tree: SyntaxTree,
    source: Seq<u8>,
    language: Language,
    template: MetadataTemplate,
    meta: Map<Seq<char>, Seq<char>>,
)
    ensures
        ({
            let outs = chunkify_outputs(max_chunk_size, overlap, tree, source, language, template, true, meta);
            forall|i: int|
                0 <= i < outs.len() ==> (#[trigger] shown_text(outs[i])).take(3) == seq![0x27u8, 0x27, 0x27]
        }),
{
    let outs = chunkify_outputs(max_chunk_size, overlap, tree, source, language, template, true, meta);
    assert forall|i: int| 0 <= i < outs.len() implies (#[trigger] shown_text(outs[i])).take(3) == seq![
        0x27u8,
        0x27,
        0x27,
    ] by {
        let w = builder_windows(max_chunk_size, overlap, tree, source)[i];
        let text = layout(node_pieces(tree, source, w));
        let header = expansion_header(
            expansion_path(template, meta),
            tab_join(displays(scopes_of(tree, source, w[0].ancestors, language))),
        );
        assert(shown_text(outs[i]) == header + seq![0x0au8] + text);
        assert((header + seq![0x0au8] + text).take(3) =~= seq![0x27u8, 0x27, 0x27]);
    }
}

/// With expansion, the text of every output window opens with the path of
/// its file, read from the repository metadata under the key of the
/// template: `filepath` for the default template, `fpath_tuple` for
/// `RepoEval` and `filename` for SWE-bench Lite.
pub proof fn lemma_chunkify_expansion_names_file(
    max_chunk_size: u32,
    overlap: usize,
    tree: SyntaxTree,
    source: Seq<u8>,
    language: Language,
    template: MetadataTemplate,
    meta: Map<Seq<char>, Seq<char>>,
    key: Seq<char>,
)
    requires
        (template == MetadataTemplate::Default && key == "filepath"@) || (template
            == MetadataTemplate::CodeRagBenchRepoEval && key == "fpath_tuple"@) || (template
            == MetadataTemplate::CodeRagBenchSwebenchLite && key == "filename"@),
        meta.contains_key(key),
        encode_utf8(meta[key]).len() > 0,
    ensures
        ({
            let outs = chunkify_outputs(max_chunk_size, overlap, tree, source, language, template, true, meta);
            let path = encode_utf8(meta[key]);
            forall|i: int|
                0 <= i < outs.len() ==> (#[trigger] shown_text(outs[i])).take(path.len() + 5int) == seq![
                    0x27u8,
                    0x27,
                    0x27,
                    0x0a,
                ] + path + seq![0x0au8]
        }),
{
    let outs = chunkify_outputs(max_chunk_size, overlap, tree, source, language, template, true, meta);
    let path = encode_utf8(meta[key]);
    assert(expansion_path(template, meta) == path);
    assert forall|i: int| 0 <= i < outs.len() implies (#[trigger] shown_text(outs[i])).take(path.len() + 5int)
        == seq![0x27u8, 0x27, 0x27, 0x0a] + path + seq![0x0au8] by {
        let w = builder_windows(max_chunk_size, overlap, tree, source)[i];
        let text = layout(node_pieces(tree, source, w));
        let joined = tab_join(displays(scopes_of(tree, source, w[0].ancestors, language)));
        let header = expansion_header(path, joined);
        let rest = (if joined.len() > 0 {
            joined + seq![0x0au8]
        } else {
            seq![]
        }) + seq![0x27u8, 0x27, 0x27] + seq![0x0au8] + text;
        assert(shown_text(outs[i]) == header + seq![0x0au8] + text);
        assert(shown_text(outs[i]) =~= seq![0x27u8, 0x27, 0x27, 0x0a] + path + seq![0x0au8] + rest);
        assert(shown_text(outs[i]).take(path.len() + 5int) =~= seq![0x27u8, 0x27, 0x27, 0x0a] + path + seq![
            0x0au8,
        ]);
    }
}

/// Two calls of the builder on the same code, one with overlap and one
/// without, lay out windows of the same parse: when both succeed they give
/// as many windows, and with expansion every text of the overlapped call
/// starts with its header's quotes.
pub proof fn lemma_chunkify_calls_overlap(
    max_chunk_size: u32,
    overlap: usize,
    language: Language,
    code: Seq<u8>,
    template: MetadataTemplate,
    expansion: bool,
    meta: Map<Seq<char>, Seq<char>>,
    a: Seq<CodeWindowModel>,
    b: Seq<CodeWindowModel>,
)
    requires
        parse_result(language, code) is Some,
        a == chunkify_outputs(
            max_chunk_size,
            overlap,
            parse_result(language, code)->0,
            code,
            language,
            template,
            expansion,
            meta,
        ),
        b == chunkify_outputs(
            max_chunk_size,
            0,
            parse_result(language, code)->0,
            code,
            language,
            template,
            expansion,
            meta,
        ),
    ensures
        a.len() == b.len(),
        expansion ==> forall|i: int|
            0 <= i < a.len() ==> (#[trigger] shown_text(a[i])).take(3) == seq![0x27u8, 0x27, 0x27],
{
    let t = parse_result(language, code)->0;
    lemma_chunkify_overlap_keeps_count(max_chunk_size, overlap, t, code, language, template, expansion, meta);
    if expansion {
        lemma_chunkify_expansion_header(max_chunk_size, overlap, t, code, language, template, meta);
    }
}

/// Every window that the builder lays out starts on a line no later than it
/// ends, so its line count, which the default and `RepoEval` templates
/// report, fits `u32`.
pub proof fn lemma_chunkify_lines_fit(
    max_chunk_size: u32,
    overlap: usize,
    tree: SyntaxTree,
    source: Seq<u8>,
    template: MetadataTemplate,
)
    requires
        tree.wf(source.len()),
        nws_count(source) <= u32::MAX,
    ensures
        ({
            let ws = builder_windows(max_chunk_size, overlap, tree, source);
            forall|i: int|
                0 <= i < ws.len() ==> window_start_line(tree, #[trigger] ws[i]) <= window_end_line(tree, ws[i])
                    && lines_fit(template, window_start_line(tree, ws[i]), window_end_line(tree, ws[i]))
        }),
{
    let base = assign_tree(max_chunk_size, tree, source);
    let ws = builder_windows(max_chunk_size, overlap, tree, source);
    lemma_assign_tree_ok(max_chunk_size, tree, source);
    lemma_assign_tree_bounded(max_chunk_size, tree, source);
    if overlap > 0 {
        lemma_overlap_ok(base, overlap as int, tree, source);
    }
    lemma_partition_in_order(max_chunk_size, overlap as int, tree, source);
    assert forall|i: int| 0 <= i < ws.len() implies window_start_line(tree, #[trigger] ws[i]) <= window_end_line(
        tree,
        ws[i],
    ) && lines_fit(template, window_start_line(tree, ws[i]), window_end_line(tree, ws[i])) by {
        let w = ws[i];
        if overlap > 0 {
            lemma_overlap_keeps_windows(base, overlap as int, i);
            assert(base[i].len() > 0);
            assert(in_source_order(tree, overlap_windows(base, overlap as int)[i]));
        } else {
            assert(in_source_order(tree, base[i]));
        }
        assert forall|j: int| 0 <= j < w.len() implies (#[trigger] w[j]).node < tree.nodes@.len() by {
            assert(node_in_tree(ws[i][j], tree.nodes@.len()));
        }
        lemma_window_forward(tree, source.len(), w);
        let b = w.last().node as int;
        assert(tree.nodes@[b] == tree.node(b));
    }
}

/// The line numbers that an output window reports, if any.
pub open spec fn reported_lines(w: CodeWindowModel) -> Option<(u32, u32)> {
    match w {
        CodeWindowModel::Standard {
            metadata: WindowMetadataModel::Default { start_line_no, end_line_no, .. },
            ..
        } => Some((start_line_no, end_line_no)),
        CodeWindowModel::Standard {
            metadata: WindowMetadataModel::RepoEval { start_line_no, end_line_no, .. },
            ..
        } => Some((start_line_no, end_line_no)),
        _ => None,
    }
}

/// The builder and the chunker agree: with the same budget and overlap, the
/// builder's output windows under the default template match the chunks of
/// the same tree one for one, with the chunk's non-whitespace size and line
/// range.
pub proof fn lemma_builder_agrees_with_chunker(
    options: CastChunkerOptions,
    tree: SyntaxTree,
    source: Seq<u8>,
    language: Language,
    document_id: crate::types::DocumentId,
    cs: Seq<crate::types::AstChunk>,
    expansion: bool,
    meta: Map<Seq<char>, Seq<char>>,
)
    requires
        tree.wf(source.len()),
        nws_count(source) <= u32::MAX,
        chunks_describe_tree(cs, options, tree, source, language, document_id),
    ensures
        ({
            let outs = chunkify_outputs(
                options.max_nws_size,
                options.overlap_nodes,
                tree,
                source,
                language,
                MetadataTemplate::Default,
                expansion,
                meta,
            );
            &&& outs.len() == cs.len()
            &&& forall|i: int|
                0 <= i < cs.len() ==> reported_size(#[trigger] outs[i]) == Some(cs[i].metrics.nws_size)
                    && reported_lines(outs[i]) == Some(
                    (cs[i].line_index_range.start, (cs[i].line_index_range.end - 1) as u32),
                )
        }),
{
    let ws = chunk_windows(options, tree, source);
    let base = assign_tree(options.max_nws_size, tree, source);
    let outs = chunkify_outputs(
        options.max_nws_size,
        options.overlap_nodes,
        tree,
        source,
        language,
        MetadataTemplate::Default,
        expansion,
        meta,
    );
    assert(ws == builder_windows(options.max_nws_size, options.overlap_nodes, tree, source));
    lemma_assign_tree_ok(options.max_nws_size, tree, source);
    lemma_assign_tree_bounded(options.max_nws_size, tree, source);
    if options.overlap_nodes > 0 {
        lemma_overlap_ok(base, options.overlap_nodes as int, tree, source);
    }
    assert forall|i: int| 0 <= i < cs.len() implies reported_size(#[trigger] outs[i]) == Some(cs[i].metrics.nws_size)
        && reported_lines(outs[i]) == Some(
        (cs[i].line_index_range.start, (cs[i].line_index_range.end - 1) as u32),
    ) by {
        let w = ws[i];
        assert(chunk_describes(cs[i], tree, source, language, document_id, i as u32, w));
        if options.overlap_nodes > 0 {
            lemma_overlap_keeps_windows(base, options.overlap_nodes as int, i);
            assert(base[i].len() > 0);
        }
        let b = w.last().node as int;
        assert(node_in_tree(ws[i][w.len() - 1], tree.nodes@.len()));
        assert(tree.nodes@[b] == tree.node(b));
        assert(outs[i] == window_output(tree, source, language, MetadataTemplate::Default, expansion, meta, w));
    }
}

/// AST-based chunk builder.
pub struct AstChunkBuilder {
    /// Maximum non-whitespace character count per chunk.
    max_chunk_size: u32,
    /// Programming language.
    language: Language,
}

impl AstChunkBuilder {
    /// The non-whitespace budget of a chunk.
    pub closed spec fn spec_max_chunk_size(&self) -> u32 {
        self.max_chunk_size
    }

    /// The language of the parsed code.
    pub closed spec fn spec_language(&self) -> Language {
        self.language
    }

    /// Creates a builder.
    pub fn new(max_chunk_size: u32, language: Language) -> (r: Self)
        ensures
            r.spec_max_chunk_size() == max_chunk_size,
            r.spec_language() == language,
    {
        AstChunkBuilder { max_chunk_size, language }
    }

    /// Parses source code with the builder's language (see
    /// [`parse_result`]); `None` when the source exceeds `u32::MAX` bytes or
    /// no usable tree comes back.
    pub fn parse(&self, source: &[u8]) -> (r: Option<SyntaxTree>)
        ensures
            r == parse_result(self.spec_language(), source@),
            r matches Some(t) ==> t.wf(source@.len()) && t.language == self.spec_language() && t.positioned(
                source@,
            ),
    {
        ts::parse(self.language, source)
    }

    /// Assigns the syntax tree to windows (tentative chunks of [`AstNode`]s):
    /// the whole tree as one window when it fits the budget, otherwise the
    /// greedy partition of the root's children.
    pub fn assign_tree_to_windows(&self, source: &[u8], tree: &SyntaxTree) -> (r: Vec<Vec<AstNode>>)
        requires
            tree.wf(source@.len()),
            nws_count(source@) <= u32::MAX,
        ensures
            r.deep_view() == assign_tree(self.spec_max_chunk_size(), *tree, source@),
            windows_bounded(r.deep_view(), self.spec_max_chunk_size() as int),
    {
        crate::internal::partition::assign_tree_to_windows(self.max_chunk_size, source, tree)
    }

    /// Chunks code whose syntax tree is `tree`: partitions the tree, overlaps
    /// the windows when `options.chunk_overlap` is positive, builds a chunk
    /// of each window, expands it when `options.chunk_expansion` holds, and
    /// lays it out with the template's metadata. `None` exactly when some
    /// window cannot be laid out.
    pub fn chunkify_tree(
        &self,
        code: &str,
        tree: &SyntaxTree,
        template: MetadataTemplate,
        options: &ChunkOptions,
    ) -> (r: Option<Vec<CodeWindow>>)
        requires
            tree.wf(code.spec_bytes().len()),
            nws_count(code.spec_bytes()) <= u32::MAX,
        ensures
            r is Some <==> chunkify_fits(
                self.spec_max_chunk_size(),
                options.chunk_overlap,
                *tree,
                code.spec_bytes(),
            ),
            r matches Some(ws) ==> ws.deep_view() == chunkify_outputs(
                self.spec_max_chunk_size(),
                options.chunk_overlap,
                *tree,
                code.spec_bytes(),
                self.spec_language(),
                template,
                options.chunk_expansion,
                options.repo_metadata@,
            ),
    {
        let source = code.as_bytes();
        let ghost src = source@;
        let ghost meta = options.repo_metadata@;
        let language = self.language;
        let windows = self.assign_tree_to_windows(source, tree);
        proof {
            lemma_assign_tree_ok(self.max_chunk_size, *tree, src);
        }
        let windows = if options.chunk_overlap > 0 {
            proof {
                lemma_overlap_ok(windows.deep_view(), options.chunk_overlap as int, *tree, src);
            }
            add_window_overlapping(windows.as_slice(), options.chunk_overlap)
        } else {
            windows
        };
        let ghost ws = windows.deep_view();
        let ghost outs = chunkify_outputs(
            self.max_chunk_size,
            options.chunk_overlap,
            *tree,
            src,
            language,
            template,
            options.chunk_expansion,
            meta,
        );
        assert(ws == builder_windows(self.max_chunk_size, options.chunk_overlap, *tree, src));
        assert(windows_in_tree(ws, tree.nodes@.len()));
        assert forall|i: int| 0 <= i < ws.len() implies #[trigger] ws[i].len() > 0 by {
            let base = assign_tree(self.max_chunk_size, *tree, src);
            assert(windows_bounded(base, self.max_chunk_size as int));
            if options.chunk_overlap > 0 {
                lemma_overlap_keeps_windows(base, options.chunk_overlap as int, i);
                assert(base[i].len() > 0);
            }
        }
        proof {
            lemma_chunkify_lines_fit(self.max_chunk_size, options.chunk_overlap, *tree, src, template);
        }
        let mut out: Vec<CodeWindow> = Vec::new();
        let mut i: usize = 0;
        while i < windows.len()
            invariant
                tree.wf(src.len()),
                source@ == src,
                src == code.spec_bytes(),
                language == self.spec_language(),
                meta == options.repo_metadata@,
                ws == windows.deep_view(),
                ws == builder_windows(self.spec_max_chunk_size(), options.chunk_overlap, *tree, src),
                outs == chunkify_outputs(
                    self.spec_max_chunk_size(),
                    options.chunk_overlap,
                    *tree,
                    src,
                    language,
                    template,
                    options.chunk_expansion,
                    meta,
                ),
                windows_in_tree(ws, tree.nodes@.len()),
                forall|x: int| 0 <= x < ws.len() ==> #[trigger] ws[x].len() > 0,
                forall|x: int|
                    0 <= x < ws.len() ==> lines_fit(
                        template,
                        window_start_line(*tree, #[trigger] ws[x]),
                        window_end_line(*tree, ws[x]),
                    ),
                i <= ws.len(),
                forall|x: int| 0 <= x < i ==> window_buildable(*tree, src, #[trigger] ws[x]),
                out.deep_view() == outs.take(i as int),
            decreases ws.len() - i,
        {
            let window = &windows[i];
            assert(ws[i as int] == window.deep_view());
            assert forall|j: int| 0 <= j < window@.len() implies node_in_tree(
                #[trigger] window.deep_view()[j],
                tree.nodes@.len(),
            ) by {
                assert(ws[i as int][j] == window.deep_view()[j]);
            }
            let mut chunk = match try_build_chunk(window.as_slice(), tree, source, language) {
                Some(c) => c,
                None => {
                    assert(!window_buildable(*tree, src, ws[i as int]));
                    return None;
                },
            };
            let ghost c0 = chunk;
            assert(chunk_of_window(c0, *tree, src, language, ws[i as int]));
            if options.chunk_expansion {
                apply_chunk_expansion(&mut chunk, template, &options.repo_metadata);
                assert(strings_bytes(c0.ancestors@) =~= displays(
                    scopes_of(*tree, src, ws[i as int][0].ancestors, language),
                ));
            }
            let w = build_metadata(&chunk, template, &options.repo_metadata);
            let ghost before = out.deep_view();
            out.push(w);
            assert(outs[i as int] == window_output(
                *tree,
                src,
                language,
                template,
                options.chunk_expansion,
                meta,
                ws[i as int],
            ));
            assert(out.deep_view() =~= before.push(outs[i as int]));
            i = i + 1;
            assert(outs.take(i as int) =~= before.push(outs[i - 1]));
        }
        assert(outs.take(ws.len() as int) =~= outs);
        Some(out)
    }

    /// Parses code into structurally-aware chunks: parses it with
    /// tree-sitter, then chunks its tree (see
    /// [`AstChunkBuilder::chunkify_tree`]). `None` when the code exceeds
    /// `u32::MAX` bytes, when tree-sitter yields no usable tree, or when a
    /// window cannot be laid out.
    pub fn chunkify(&self, code: &str, template: MetadataTemplate, options: &ChunkOptions) -> (r: Option<
        Vec<CodeWindow>,
    >)
        ensures
            parse_result(self.spec_language(), code.spec_bytes()) is None ==> r is None,
            parse_result(self.spec_language(), code.spec_bytes()) matches Some(t) ==> {
                &&& r is Some <==> chunkify_fits(
                    self.spec_max_chunk_size(),
                    options.chunk_overlap,
                    t,
                    code.spec_bytes(),
                )
                &&& r matches Some(ws) ==> ws.deep_view() == chunkify_outputs(
                    self.spec_max_chunk_size(),
                    options.chunk_overlap,
                    t,
                    code.spec_bytes(),
                    self.spec_language(),
                    template,
                    options.chunk_expansion,
                    options.repo_metadata@,
                )
            },
    {
        let source = code.as_bytes();
        if source.len() > 0xffff_ffff {
            return None;
        }
        proof {
            lemma_nws_le_len(source@);
        }
        match self.parse(source) {
            Some(tree) => self.chunkify_tree(code, &tree, template, options),
            None => None,
        }
    }
}

} // verus!
