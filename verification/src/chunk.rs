//! Self-contained code chunks: the rebuilt text of a window with its
//! location and the first lines of its enclosing definitions.

use vstd::prelude::*;
use vstd::utf8::{encode_utf8, valid_utf8};

use crate::byte_range::ByteRange;
use crate::chunker::cast::{build_scopes, scopes_of};
use crate::internal::materialize::{layout, node_pieces, rebuild_code_bytes, window_texts_valid};
use crate::internal::node::{AstNode, AstNodeModel};
use crate::internal::partition::node_in_tree;
use crate::internal::tree::SyntaxTree;
use crate::lang::Language;
use crate::nws::{nws_count, nws_count_bytes, nws_count_bytes_checked};
use crate::text::{str_from_utf8, string_from_valid_utf8};
use crate::types::ScopeFrameModel;

pub use crate::internal::materialize::rebuild_code;

verus! {

/// A code chunk: rebuilt source text, location and ancestor path.
#[derive(Debug, Clone)]
pub struct AstChunk {
    /// Rebuilt source code text for this chunk.
    pub text: String,
    /// Byte range in the source `[start, end)`.
    pub byte_range: ByteRange,
    /// 0-indexed start line.
    pub start_line: u32,
    /// 0-indexed end line.
    pub end_line: u32,
    /// Non-whitespace character count of the rebuilt text.
    pub size: u32,
    /// Number of AST nodes in this chunk.
    pub node_count: usize,
    /// Ancestor path strings (first line of each class/function definition).
    pub ancestors: Vec<String>,
}

impl AstChunk {
    /// Number of lines covered by this chunk.
    pub fn line_count(&self) -> (r: u32)
        requires
            self.start_line <= self.end_line,
            self.end_line - self.start_line + 1 <= u32::MAX,
        ensures
            r == self.end_line - self.start_line + 1,
    {
        self.end_line - self.start_line + 1
    }
}

/// The displays of scope frames.
pub open spec fn displays(scopes: Seq<ScopeFrameModel>) -> Seq<Seq<u8>> {
    Seq::new(scopes.len(), |i: int| scopes[i].display)
}

/// Builds the ancestor path strings: the first line of each ancestor that is
/// a class or function definition of `language`, outermost first.
pub fn build_chunk_ancestors(ancestors: &[usize], tree: &SyntaxTree, source: &[u8], language: Language) -> (r: Vec<
    String,
>)
    requires
        tree.wf(source@.len()),
        forall|a: int| 0 <= a < ancestors@.len() ==> #[trigger] ancestors@[a] < tree.nodes@.len(),
    ensures
        r@.len() == scopes_of(*tree, source@, ancestors@, language).len(),
        forall|i: int|
            0 <= i < r@.len() ==> encode_utf8(#[trigger] r@[i]@) == displays(
                scopes_of(*tree, source@, ancestors@, language),
            )[i],
{
    let scopes = build_scopes(ancestors, tree, source, language);
    let ghost sv = scopes.deep_view();
    let mut out: Vec<String> = Vec::new();
    let mut i: usize = 0;
    while i < scopes.len()
        invariant
            sv == scopes.deep_view(),
            i <= sv.len(),
            out@.len() == i,
            forall|x: int| 0 <= x < i ==> encode_utf8(#[trigger] out@[x]@) == sv[x].display,
        decreases sv.len() - i,
    {
        assert(sv[i as int] == scopes@[i as int].deep_view());
        out.push(scopes[i].display.clone());
        i = i + 1;
    }
    out
}

/// `c` is the chunk built from window `w`.
pub open spec fn chunk_of_window(c: AstChunk, tree: SyntaxTree, source: Seq<u8>, language: Language, w: Seq<AstNodeModel>) -> bool {
    let text = layout(node_pieces(tree, source, w));
    let scopes = scopes_of(tree, source, w[0].ancestors, language);
    &&& encode_utf8(c.text@) == text
    &&& c.byte_range == ByteRange {
        start: tree.range(w[0].node as int).start,
        end: tree.range(w.last().node as int).end,
    }
    &&& c.start_line == tree.node(w[0].node as int).info.start_position.row
    &&& c.end_line == tree.node(w.last().node as int).info.end_position.row
    &&& c.size == nws_count(text)
    &&& c.node_count == w.len()
    &&& c.ancestors@.len() == scopes.len()
    &&& forall|i: int| 0 <= i < c.ancestors@.len() ==> encode_utf8(#[trigger] c.ancestors@[i]@) == displays(scopes)[i]
}

/// What [`build_chunk`] needs of a window: nodes of the tree with valid UTF-8
/// texts, a forward byte range from the first to the last node, and a text
/// size that fits `u32`.
pub open spec fn window_buildable(tree: SyntaxTree, source: Seq<u8>, w: Seq<AstNodeModel>) -> bool {
    &&& w.len() > 0
    &&& forall|j: int| 0 <= j < w.len() ==> node_in_tree(#[trigger] w[j], tree.nodes@.len())
    &&& window_texts_valid(tree, source, w)
    &&& tree.range(w[0].node as int).start <= tree.range(w.last().node as int).end
    &&& nws_count(layout(node_pieces(tree, source, w))) <= u32::MAX
}

/// Assembles the chunk of a window from its rebuilt text and that text's
/// non-whitespace size.
fn assemble_chunk(
    window: &[AstNode],
    tree: &SyntaxTree,
    source: &[u8],
    language: Language,
    bytes: Vec<u8>,
    size: u32,
) -> (r: AstChunk)
    requires
        tree.wf(source@.len()),
        window_buildable(*tree, source@, window.deep_view()),
        bytes@ == layout(node_pieces(*tree, source@, window.deep_view())),
        valid_utf8(bytes@),
        size == nws_count(bytes@),
    ensures
        chunk_of_window(r, *tree, source@, language, window.deep_view()),
{
    let ghost w = window.deep_view();
    proof {
        lemma_window_nodes(window, tree);
    }
    let text = string_from_valid_utf8(bytes);
    let first = &window[0];
    let last = &window[window.len() - 1];
    assert(w[0] == first.deep_view());
    assert(w.last() == last.deep_view());
    let byte_range = ByteRange::new(
        tree.nodes[first.node].info.range.start,
        tree.nodes[last.node].info.range.end,
    );
    let start_line = first.start_line(tree);
    let end_line = last.end_line(tree);
    assert(node_in_tree(w[0], tree.nodes@.len()));
    assert forall|a: int| 0 <= a < first.ancestors@.len() implies #[trigger] first.ancestors@[a]
        < tree.nodes@.len() by {
        assert(w[0].ancestors[a] == first.ancestors@[a]);
    }
    let ancestors = build_chunk_ancestors(first.ancestors.as_slice(), tree, source, language);
    AstChunk {
        text,
        byte_range,
        start_line,
        end_line,
        size,
        node_count: window.len(),
        ancestors,
    }
}

/// The nodes of a window that lies in the tree have indices below the
/// tree's node count.
proof fn lemma_window_nodes(window: &[AstNode], tree: &SyntaxTree)
    requires
        forall|j: int| 0 <= j < window@.len() ==> node_in_tree(#[trigger] window.deep_view()[j], tree.nodes@.len()),
    ensures
        forall|j: int| 0 <= j < window@.len() ==> (#[trigger] window@[j]).node < tree.nodes@.len(),
{
    let w = window.deep_view();
    assert forall|j: int| 0 <= j < window@.len() implies (#[trigger] window@[j]).node < tree.nodes@.len() by {
        assert(w[j] == window@[j].deep_view());
        assert(node_in_tree(w[j], tree.nodes@.len()));
    }
}

/// Converts a window of nodes into a chunk.
pub fn build_chunk(window: &[AstNode], tree: &SyntaxTree, source: &[u8], language: Language) -> (r: AstChunk)
    requires
        tree.wf(source@.len()),
        window_buildable(*tree, source@, window.deep_view()),
    ensures
        chunk_of_window(r, *tree, source@, language, window.deep_view()),
{
    proof {
        lemma_window_nodes(window, tree);
    }
    let bytes = rebuild_code_bytes(window, tree, source);
    let size = nws_count_bytes(bytes.as_slice());
    assemble_chunk(window, tree, source, language, bytes, size)
}

/// Whether the text of every node of the window is valid UTF-8.
fn texts_valid(window: &[AstNode], tree: &SyntaxTree, source: &[u8]) -> (r: bool)
    requires
        tree.wf(source@.len()),
        forall|j: int| 0 <= j < window@.len() ==> (#[trigger] window@[j]).node < tree.nodes@.len(),
    ensures
        r == window_texts_valid(*tree, source@, window.deep_view()),
{
    let ghost w = window.deep_view();
    let mut j: usize = 0;
    while j < window.len()
        invariant
            tree.wf(source@.len()),
            w == window.deep_view(),
            forall|x: int| 0 <= x < window@.len() ==> (#[trigger] window@[x]).node < tree.nodes@.len(),
            j <= window@.len(),
            forall|x: int| 0 <= x < j ==> valid_utf8(
                #[trigger] source@.subrange(
                    tree.range(w[x].node as int).start as int,
                    tree.range(w[x].node as int).end as int,
                ),
            ),
        decreases window@.len() - j,
    {
        assert(w[j as int] == window@[j as int].deep_view());
        let range = tree.nodes[window[j].node].info.range;
        let bytes = vstd::slice::slice_subrange(source, range.start as usize, range.end as usize);
        if str_from_utf8(bytes).is_none() {
            return false;
        }
        j = j + 1;
    }
    proof {
        assert forall|i: int| 0 <= i < w.len() implies {
            &&& (#[trigger] w[i]).node < tree.nodes@.len()
            &&& valid_utf8(
                source@.subrange(tree.range(w[i].node as int).start as int, tree.range(w[i].node as int).end as int),
            )
        } by {
            assert(w[i] == window@[i].deep_view());
        }
    }
    true
}

/// Converts a window of nodes into a chunk where it can be: `None` exactly
/// when the window is not [`window_buildable`].
pub fn try_build_chunk(window: &[AstNode], tree: &SyntaxTree, source: &[u8], language: Language) -> (r: Option<
    AstChunk,
>)
    requires
        tree.wf(source@.len()),
        window@.len() > 0,
        forall|j: int| 0 <= j < window@.len() ==> node_in_tree(#[trigger] window.deep_view()[j], tree.nodes@.len()),
    ensures
        r is Some <==> window_buildable(*tree, source@, window.deep_view()),
        r matches Some(c) ==> chunk_of_window(c, *tree, source@, language, window.deep_view()),
{
    let ghost w = window.deep_view();
    proof {
        lemma_window_nodes(window, tree);
    }
    if !texts_valid(window, tree, source) {
        return None;
    }
    let first = &window[0];
    let last = &window[window.len() - 1];
    assert(w[0] == first.deep_view());
    assert(w.last() == last.deep_view());
    if tree.nodes[first.node].info.range.start > tree.nodes[last.node].info.range.end {
        return None;
    }
    let bytes = rebuild_code_bytes(window, tree, source);
    match nws_count_bytes_checked(bytes.as_slice()) {
        Some(size) => Some(assemble_chunk(window, tree, source, language, bytes, size)),
        None => None,
    }
}

} // verus!
