//! A syntax node placed in a window, with its size and its ancestors.

use vstd::prelude::*;
use vstd::string::StringSliceAdditionalSpecFns;
use vstd::utf8::valid_utf8;

use crate::text::str_from_utf8;

use crate::internal::tree::SyntaxTree;
use crate::nws::{nws_count, NwsCumsum};

verus! {

/// A node of a [`SyntaxTree`] with its non-whitespace size and the chain of
/// its ancestors (root first, parent last), all given by index.
#[derive(Debug, Clone)]
pub struct AstNode {
    /// Index of the node in the tree.
    pub node: usize,
    /// Non-whitespace character count of this node.
    pub nws_size: u32,
    /// Ancestor indices, from the root toward this node's parent.
    pub ancestors: Vec<usize>,
}

/// The mathematical value of an [`AstNode`].
pub struct AstNodeModel {
    /// Index of the node in the tree.
    pub node: usize,
    /// Non-whitespace character count of this node.
    pub nws_size: u32,
    /// Ancestor indices.
    pub ancestors: Seq<usize>,
}

impl DeepView for AstNode {
    type V = AstNodeModel;

    open spec fn deep_view(&self) -> AstNodeModel {
        AstNodeModel { node: self.node, nws_size: self.nws_size, ancestors: self.ancestors@ }
    }
}

/// Copies a vector of indices.
pub fn copy_indices(v: &Vec<usize>) -> (r: Vec<usize>)
    ensures
        r@ == v@,
{
    let mut r: Vec<usize> = Vec::new();
    let mut i: usize = 0;
    while i < v.len()
        invariant
            i <= v@.len(),
            r@ == v@.take(i as int),
        decreases v@.len() - i,
    {
        r.push(v[i]);
        i = i + 1;
        assert(r@ =~= v@.take(i as int));
    }
    assert(v@.take(v@.len() as int) =~= v@);
    r
}

impl AstNode {
    /// Creates a new `AstNode`.
    pub fn new(node: usize, nws_size: u32, ancestors: Vec<usize>) -> (r: Self)
        ensures
            r.node == node,
            r.nws_size == nws_size,
            r.ancestors@ == ancestors@,
    {
        AstNode { node, nws_size, ancestors }
    }

    /// An independent copy of this node.
    pub fn copy_of(&self) -> (r: Self)
        ensures
            r.deep_view() == self.deep_view(),
    {
        AstNode { node: self.node, nws_size: self.nws_size, ancestors: copy_indices(&self.ancestors) }
    }

    /// 0-based start line.
    pub fn start_line(&self, tree: &SyntaxTree) -> (r: u32)
        requires
            self.node < tree.nodes@.len(),
        ensures
            r == tree.node(self.node as int).info.start_position.row,
    {
        tree.nodes[self.node].info.start_position.row
    }

    /// 0-based end line.
    pub fn end_line(&self, tree: &SyntaxTree) -> (r: u32)
        requires
            self.node < tree.nodes@.len(),
        ensures
            r == tree.node(self.node as int).info.end_position.row,
    {
        tree.nodes[self.node].info.end_position.row
    }

    /// Start column (byte offset within the line).
    pub fn start_col(&self, tree: &SyntaxTree) -> (r: u32)
        requires
            self.node < tree.nodes@.len(),
        ensures
            r == tree.node(self.node as int).info.start_position.column,
    {
        tree.nodes[self.node].info.start_position.column
    }

    /// End column.
    pub fn end_col(&self, tree: &SyntaxTree) -> (r: u32)
        requires
            self.node < tree.nodes@.len(),
        ensures
            r == tree.node(self.node as int).info.end_position.column,
    {
        tree.nodes[self.node].info.end_position.column
    }

    /// The text of this node, taken from the source bytes; the bytes must be
    /// valid UTF-8.
    pub fn text<'a>(&self, tree: &SyntaxTree, source: &'a [u8]) -> (r: &'a str)
        requires
            tree.wf(source@.len()),
            self.node < tree.nodes@.len(),
            valid_utf8(
                source@.subrange(
                    tree.range(self.node as int).start as int,
                    tree.range(self.node as int).end as int,
                ),
            ),
        ensures
            r.spec_bytes() == source@.subrange(
                tree.range(self.node as int).start as int,
                tree.range(self.node as int).end as int,
            ),
    {
        let range = tree.nodes[self.node].info.range;
        let bytes = vstd::slice::slice_subrange(source, range.start as usize, range.end as usize);
        match str_from_utf8(bytes) {
            Some(s) => s,
            None => {
                proof {
                    assert(false);
                }
                ""
            },
        }
    }
}

/// Non-whitespace size of node `i` in `source`.
pub open spec fn node_size(tree: SyntaxTree, source: Seq<u8>, i: int) -> nat {
    nws_count(source.subrange(tree.range(i).start as int, tree.range(i).end as int))
}

/// Computes the non-whitespace size of a node using the cumulative sums.
pub fn node_nws_size(tree: &SyntaxTree, node: usize, cumsum: &NwsCumsum) -> (r: u32)
    requires
        tree.wf(cumsum.source().len()),
        node < tree.nodes@.len(),
    ensures
        r == node_size(*tree, cumsum.source(), node as int),
{
    let range = tree.nodes[node].info.range;
    cumsum.get(range)
}

} // verus!
