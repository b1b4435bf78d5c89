//! The syntax tree as the library holds it: an arena of nodes in which every
//! node lists its children by index, each child stored after its parent.

use vstd::prelude::*;

use crate::byte_range::ByteRange;
use crate::internal::materialize::offset_position;
use crate::lang::Language;

verus! {

/// A 0-based (row, column) position; the column counts bytes.
#[derive(Debug, Clone, Copy, PartialEq, Eq, Hash, Structural)]
pub struct Point {
    /// 0-based line.
    pub row: u32,
    /// 0-based byte column within the line.
    pub column: u32,
}

/// What the chunker reads of a syntax node.
#[derive(Debug, Clone)]
pub struct NodeInfo {
    /// The node type (e.g. `function_definition`).
    pub kind: String,
    /// The bytes of the source that the node spans.
    pub range: ByteRange,
    /// Position of the first byte.
    pub start_position: Point,
    /// Position just past the last byte.
    pub end_position: Point,
}

/// A node of the arena with the indices of its children, in order.
#[derive(Debug, Clone)]
pub struct TreeNode {
    /// The node's own data.
    pub info: NodeInfo,
    /// Indices of the children in [`SyntaxTree::nodes`].
    pub children: Vec<usize>,
}

/// A syntax tree; `nodes[0]` is the root.
#[derive(Debug, Clone)]
pub struct SyntaxTree {
    /// All nodes, parents before their children.
    pub nodes: Vec<TreeNode>,
    /// The language whose grammar the tree was parsed with.
    pub language: Language,
}

/// The positions of `info` are those of its byte offsets in `source`.
pub open spec fn info_positioned(info: NodeInfo, source: Seq<u8>) -> bool {
    &&& offset_position(source, info.range.start as int) == (
        info.start_position.row as int,
        info.start_position.column as int,
    )
    &&& offset_position(source, info.range.end as int) == (
        info.end_position.row as int,
        info.end_position.column as int,
    )
}

/// `a` ends, in bytes and in lines, no later than `b` starts.
pub open spec fn info_before(a: NodeInfo, b: NodeInfo) -> bool {
    &&& a.range.end <= b.range.start
    &&& a.end_position.row <= b.start_position.row
}

/// `c` lies within `p`, in bytes and in lines.
pub open spec fn info_within(c: NodeInfo, p: NodeInfo) -> bool {
    &&& p.range.start <= c.range.start
    &&& c.range.end <= p.range.end
    &&& p.start_position.row <= c.start_position.row
    &&& c.end_position.row <= p.end_position.row
}

/// Every node spans a forward range inside a source of `source_len` bytes,
/// starts on a line no later than it ends, on lines below `u32::MAX`, and
/// lists children stored after itself; children lie within their parent and
/// follow each other in order.
pub open spec fn nodes_wf(nodes: Seq<TreeNode>, source_len: nat) -> bool {
    &&& forall|i: int|
        0 <= i < nodes.len() ==> {
            &&& (#[trigger] nodes[i]).info.range.start <= nodes[i].info.range.end
            &&& nodes[i].info.range.end <= source_len
            &&& nodes[i].info.start_position.row <= nodes[i].info.end_position.row
            &&& nodes[i].info.end_position.row < u32::MAX
        }
    &&& forall|i: int, j: int|
        0 <= i < nodes.len() && 0 <= j < nodes[i].children@.len() ==> i < #[trigger] nodes[i].children@[j]
            < nodes.len()
    &&& forall|i: int, j: int|
        0 <= i < nodes.len() && 0 <= j < nodes[i].children@.len() ==> info_within(
            nodes[#[trigger] nodes[i].children@[j] as int].info,
            nodes[i].info,
        )
    &&& forall|i: int, j: int|
        0 <= i < nodes.len() && 0 <= j && j + 1 < nodes[i].children@.len() ==> info_before(
            nodes[#[trigger] nodes[i].children@[j] as int].info,
            nodes[nodes[i].children@[j + 1] as int].info,
        )
}

impl SyntaxTree {
    /// The tree is non-empty and its nodes are well formed for a source of
    /// `source_len` bytes.
    pub open spec fn wf(&self, source_len: nat) -> bool {
        &&& self.nodes@.len() > 0
        &&& nodes_wf(self.nodes@, source_len)
    }

    /// Every node's (row, column) positions are those of its byte offsets
    /// in `source`.
    pub open spec fn positioned(&self, source: Seq<u8>) -> bool {
        forall|i: int| 0 <= i < self.nodes@.len() ==> info_positioned(#[trigger] self.nodes@[i].info, source)
    }

    /// The node at index `i`.
    pub open spec fn node(&self, i: int) -> TreeNode {
        self.nodes@[i]
    }

    /// The children of node `i`.
    pub open spec fn children(&self, i: int) -> Seq<usize> {
        self.nodes@[i].children@
    }

    /// The byte range of node `i`.
    pub open spec fn range(&self, i: int) -> ByteRange {
        self.nodes@[i].info.range
    }

    /// Index of the root node.
    pub fn root(&self) -> (r: usize)
        ensures
            r == 0,
    {
        0
    }
}

} // verus!
