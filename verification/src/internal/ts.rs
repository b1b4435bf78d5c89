//! Parsing with tree-sitter, and the conversion of its tree into a
//! [`SyntaxTree`](crate::internal::tree::SyntaxTree).

use tree_sitter::Language as Grammar;
use vstd::prelude::*;

use crate::byte_range::ByteRange;
use crate::internal::materialize::offset_position;
use crate::internal::tree::{
    info_before, info_positioned, info_within, nodes_wf, NodeInfo, Point, SyntaxTree, TreeNode,
};
use crate::lang::{Language, LanguageGrammar};

verus! {

/// A tree-sitter grammar handle (`tree_sitter::Language`).
#[verifier::external_type_specification]
#[verifier::external_body]
pub struct ExGrammar(Grammar);



/// A tree-sitter node (`tree_sitter::Node`).
#[verifier::external_type_specification]
#[verifier::external_body]
pub struct ExNode<'tree>(tree_sitter::Node<'tree>);





/// `tree_sitter::Node::kind`, copied into a `String`.
#[verifier::external_body]
fn ts_kind(node: &tree_sitter::Node<'_>) -> String {
    node.kind().to_string()
}

/// `tree_sitter::Node::start_byte`.
#[verifier::external_body]
fn ts_start_byte(node: &tree_sitter::Node<'_>) -> usize {
    node.start_byte()
}

/// `tree_sitter::Node::end_byte`.
#[verifier::external_body]
fn ts_end_byte(node: &tree_sitter::Node<'_>) -> usize {
    node.end_byte()
}

/// `tree_sitter::Node::start_position`, as (row, column).
#[verifier::external_body]
fn ts_start_position(node: &tree_sitter::Node<'_>) -> (usize, usize) {
    let p = node.start_position();
    (p.row, p.column)
}

/// `tree_sitter::Node::end_position`, as (row, column).
#[verifier::external_body]
fn ts_end_position(node: &tree_sitter::Node<'_>) -> (usize, usize) {
    let p = node.end_position();
    (p.row, p.column)
}

/// `tree_sitter::Node::child_count`.
#[verifier::external_body]
fn ts_child_count(node: &tree_sitter::Node<'_>) -> u32 {
    node.child_count()
}

/// `tree_sitter::Node::child`.
#[verifier::external_body]
fn ts_child<'tree>(node: &tree_sitter::Node<'tree>, i: u32) -> Option<tree_sitter::Node<'tree>> {
    node.child(i)
}

/// `tree_sitter::Node::descendant_count`: the node and all nodes below it.
#[verifier::external_body]
fn ts_descendant_count(node: &tree_sitter::Node<'_>) -> usize {
    node.descendant_count()
}

impl ByteRange {
    /// The byte range of a tree-sitter node; `None` when the node runs
    /// backwards or past `u32::MAX`.
    pub fn from_ts_node(node: &tree_sitter::Node<'_>) -> (r: Option<ByteRange>)
        ensures
            r matches Some(b) ==> b.wf(),
    {
        let start = ts_start_byte(node);
        let end = ts_end_byte(node);
        if start > end || end > 0xffff_ffff {
            None
        } else {
            Some(ByteRange::new(start as u32, end as u32))
        }
    }
}

/// Reads what the chunker needs of a tree-sitter node; `None` when the node
/// does not fit a source of `source_len` bytes.
fn read_node_info(node: &tree_sitter::Node<'_>, source_len: usize) -> (r: Option<NodeInfo>)
    ensures
        r matches Some(info) ==> {
            &&& info.range.start <= info.range.end <= source_len
            &&& info.start_position.row <= info.end_position.row
            &&& info.end_position.row < u32::MAX
        },
{
    let range = match ByteRange::from_ts_node(node) {
        Some(r) => r,
        None => return None,
    };
    let (srow, scol) = ts_start_position(node);
    let (erow, ecol) = ts_end_position(node);
    if range.end as usize > source_len {
        return None;
    }
    if srow > erow || erow >= 0xffff_ffff || scol > 0xffff_ffff || ecol > 0xffff_ffff {
        return None;
    }
    Some(
        NodeInfo {
            kind: ts_kind(node),
            range,
            start_position: Point { row: srow as u32, column: scol as u32 },
            end_position: Point { row: erow as u32, column: ecol as u32 },
        },
    )
}

/// A list that agrees with `mid` on `mid`'s indices, where `mid` agrees with
/// `base` on `base`'s, agrees with `base`.
proof fn lemma_prefix_kept(now: Seq<TreeNode>, mid: Seq<TreeNode>, base: Seq<TreeNode>)
    requires
        base.len() < mid.len() <= now.len(),
        forall|x: int| 0 <= x < mid.len() ==> now[x] == mid[x],
        forall|x: int| 0 <= x < base.len() ==> mid[x] == base[x],
    ensures
        forall|x: int| 0 <= x < base.len() ==> now[x] == base[x],
{
    assert forall|x: int| 0 <= x < base.len() implies now[x] == base[x] by {
        assert(now[x] == mid[x]);
    }
}

/// Whether the nodes at `children` lie within `parent` and follow each other
/// in order.
fn children_nested(nodes: &Vec<TreeNode>, parent: &NodeInfo, children: &Vec<usize>) -> (r: bool)
    requires
        forall|j: int| 0 <= j < children@.len() ==> #[trigger] children@[j] < nodes@.len(),
    ensures
        r == ({
            &&& forall|j: int|
                0 <= j < children@.len() ==> info_within(nodes@[#[trigger] children@[j] as int].info, *parent)
            &&& forall|j: int|
                0 <= j && j + 1 < children@.len() ==> info_before(
                    nodes@[#[trigger] children@[j] as int].info,
                    nodes@[children@[j + 1] as int].info,
                )
        }),
{
    let mut j: usize = 0;
    while j < children.len()
        invariant
            forall|x: int| 0 <= x < children@.len() ==> #[trigger] children@[x] < nodes@.len(),
            j <= children@.len(),
            forall|x: int| 0 <= x < j ==> info_within(nodes@[#[trigger] children@[x] as int].info, *parent),
            forall|x: int|
                0 <= x && x + 1 < children@.len() && x + 1 <= j ==> info_before(
                    nodes@[#[trigger] children@[x] as int].info,
                    nodes@[children@[x + 1] as int].info,
                ),
        decreases children@.len() - j,
    {
        let c = &nodes[children[j]].info;
        if c.range.start < parent.range.start || c.range.end > parent.range.end
            || c.start_position.row < parent.start_position.row
            || c.end_position.row > parent.end_position.row {
            return false;
        }
        if j + 1 < children.len() {
            let d = &nodes[children[j + 1]].info;
            if c.range.end > d.range.start || c.end_position.row > d.start_position.row {
                return false;
            }
        }
        j = j + 1;
    }
    true
}

/// Appends `node` and everything below it to `nodes` in pre-order; returns
/// the index of `node`. Every node consumes one unit of `budget`.
fn add_subtree(
    node: &tree_sitter::Node<'_>,
    source_len: usize,
    nodes: &mut Vec<TreeNode>,
    budget: &mut usize,
) -> (r: Option<usize>)
    requires
        nodes_wf(old(nodes)@, source_len as nat),
    ensures
        nodes_wf(final(nodes)@, source_len as nat),
        final(nodes)@.len() >= old(nodes)@.len(),
        forall|i: int| 0 <= i < old(nodes)@.len() ==> final(nodes)@[i] == old(nodes)@[i],
        *final(budget) <= *old(budget),
        r matches Some(idx) ==> idx == old(nodes)@.len() && idx < final(nodes)@.len(),
    decreases *old(budget),
{
    if *budget == 0 {
        return None;
    }
    *budget = *budget - 1;
    let info = match read_node_info(node, source_len) {
        Some(info) => info,
        None => return None,
    };
    let idx = nodes.len();
    let placeholder = NodeInfo {
        kind: String::new(),
        range: ByteRange::new(0, 0),
        start_position: Point { row: 0, column: 0 },
        end_position: Point { row: 0, column: 0 },
    };
    nodes.push(TreeNode { info: placeholder, children: Vec::new() });
    let count = ts_child_count(node);
    let mut children: Vec<usize> = Vec::new();
    let mut i: u32 = 0;
    let ghost start = nodes@;
    while i < count
        invariant
            nodes_wf(nodes@, source_len as nat),
            idx < nodes@.len(),
            idx == old(nodes)@.len(),
            start.len() == idx + 1,
            forall|x: int| 0 <= x < start.len() ==> nodes@[x] == start[x],
            forall|x: int| 0 <= x < idx ==> start[x] == old(nodes)@[x],
            forall|j: int| 0 <= j < children@.len() ==> idx < #[trigger] children@[j] < nodes@.len(),
            *budget < *old(budget),
        decreases count - i,
    {
        let child = match ts_child(node, i) {
            Some(c) => c,
            None => {
                proof {
                    lemma_prefix_kept(nodes@, start, old(nodes)@);
                }
                return None;
            },
        };
        let ghost mid = nodes@;
        let cidx = match add_subtree(&child, source_len, nodes, budget) {
            Some(c) => c,
            None => {
                proof {
                    assert forall|x: int| 0 <= x < start.len() implies nodes@[x] == start[x] by {
                        assert(nodes@[x] == mid[x]);
                    }
                    lemma_prefix_kept(nodes@, start, old(nodes)@);
                }
                return None;
            },
        };
        proof {
            assert forall|x: int| 0 <= x < start.len() implies nodes@[x] == start[x] by {
                assert(nodes@[x] == mid[x]);
            }
        }
        children.push(cidx);
        i = i + 1;
    }
    if !children_nested(nodes, &info, &children) {
        proof {
            lemma_prefix_kept(nodes@, start, old(nodes)@);
        }
        return None;
    }
    let ghost before = nodes@;
    nodes.set(idx, TreeNode { info, children });
    proof {
        assert forall|a: int, b: int|
            0 <= a < nodes@.len() && 0 <= b < nodes@[a].children@.len() implies a
            < #[trigger] nodes@[a].children@[b] < nodes@.len() by {
            if a != idx {
                assert(nodes@[a] == before[a]);
            }
        }
        assert forall|a: int, b: int|
            0 <= a < nodes@.len() && 0 <= b < nodes@[a].children@.len() implies info_within(
            nodes@[#[trigger] nodes@[a].children@[b] as int].info,
            nodes@[a].info,
        ) by {
            let c = nodes@[a].children@[b] as int;
            if a < idx {
                assert(before[a] == start[a]);
                assert(start[a] == old(nodes)@[a]);
            }
            assert(c != idx);
            if a != idx {
                assert(nodes@[a] == before[a]);
            }
            assert(nodes@[c] == before[c]);
        }
        assert forall|a: int, b: int|
            0 <= a < nodes@.len() && 0 <= b && b + 1 < nodes@[a].children@.len() implies info_before(
            nodes@[#[trigger] nodes@[a].children@[b] as int].info,
            nodes@[nodes@[a].children@[b + 1] as int].info,
        ) by {
            let c = nodes@[a].children@[b] as int;
            let d = nodes@[a].children@[b + 1] as int;
            if a < idx {
                assert(before[a] == start[a]);
                assert(start[a] == old(nodes)@[a]);
            }
            assert(c != idx && d != idx);
            if a != idx {
                assert(nodes@[a] == before[a]);
            }
            assert(nodes@[c] == before[c]);
            assert(nodes@[d] == before[d]);
        }
    }
    proof {
        assert forall|x: int| 0 <= x < old(nodes)@.len() implies nodes@[x] == old(nodes)@[x] by {
            assert(before[x] == start[x]);
        }
    }
    Some(idx)
}

/// The (row, column) of every offset `0..=source.len()` of `source`.
fn position_table(source: &[u8]) -> (t: Vec<(u32, u32)>)
    requires
        source@.len() <= u32::MAX,
    ensures
        t@.len() == source@.len() + 1,
        forall|i: int|
            0 <= i <= source@.len() ==> (#[trigger] t@[i].0 as int, t@[i].1 as int) == offset_position(
                source@,
                i,
            ),
{
    let mut t: Vec<(u32, u32)> = Vec::new();
    let mut line: u32 = 0;
    let mut col: u32 = 0;
    t.push((0, 0));
    let mut i: usize = 0;
    while i < source.len()
        invariant
            i <= source@.len() <= u32::MAX,
            line <= i,
            col <= i,
            (line as int, col as int) == offset_position(source@, i as int),
            t@.len() == i + 1,
            forall|x: int| 0 <= x <= i ==> (#[trigger] t@[x].0 as int, t@[x].1 as int) == offset_position(source@, x),
        decreases source@.len() - i,
    {
        if source[i] == 0x0a {
            line = line + 1;
            col = 0;
        } else {
            col = col + 1;
        }
        i = i + 1;
        t.push((line, col));
    }
    t
}

/// Whether the positions of every node of `tree` are those of its byte
/// offsets in `source`.
fn positions_agree(tree: &SyntaxTree, source: &[u8]) -> (r: bool)
    requires
        tree.wf(source@.len()),
        source@.len() <= u32::MAX,
    ensures
        r == tree.positioned(source@),
{
    let table = position_table(source);
    let mut i: usize = 0;
    while i < tree.nodes.len()
        invariant
            tree.wf(source@.len()),
            table@.len() == source@.len() + 1,
            forall|x: int|
                0 <= x <= source@.len() ==> (#[trigger] table@[x].0 as int, table@[x].1 as int) == offset_position(
                    source@,
                    x,
                ),
            i <= tree.nodes@.len(),
            forall|x: int| 0 <= x < i ==> info_positioned(#[trigger] tree.nodes@[x].info, source@),
        decreases tree.nodes@.len() - i,
    {
        let info = &tree.nodes[i].info;
        assert(tree.nodes@[i as int].info.range.end <= source@.len());
        let (sr, sc) = table[info.range.start as usize];
        let (er, ec) = table[info.range.end as usize];
        if sr != info.start_position.row || sc != info.start_position.column || er != info.end_position.row
            || ec != info.end_position.column {
            return false;
        }
        i = i + 1;
    }
    true
}

/// Reads the tree under `root` into a [`SyntaxTree`] of `language`; `None`
/// when a node does not fit a source of `source_len` bytes or children are
/// out of order.
fn read_tree(root: &tree_sitter::Node<'_>, source_len: usize, language: Language) -> (r: Option<
    SyntaxTree,
>)
    ensures
        r matches Some(t) ==> t.wf(source_len as nat) && t.language == language,
{
    let mut budget = ts_descendant_count(root);
    let mut nodes: Vec<TreeNode> = Vec::new();
    match add_subtree(root, source_len, &mut nodes, &mut budget) {
        Some(_) => Some(SyntaxTree { nodes, language }),
        None => None,
    }
}

/// What tree-sitter's parse of `source` with the grammar of `language` gives,
/// read into a [`SyntaxTree`] by [`read_tree`]; `None` when the grammar is
/// refused, no tree comes back or the reading fails.
pub uninterp spec fn parsed_tree(language: Language, source: Seq<u8>) -> Option<SyntaxTree>;

/// Parses `source` with tree-sitter (`Parser::new`, `Parser::set_language`
/// with `grammar`, `Parser::parse` with no previous tree, `Tree::root_node`)
/// and reads the root with [`read_tree`]. The contract claims only that the
/// result depends on the language and the bytes alone: no timeout,
/// cancellation or previous tree is involved.
#[verifier::external_body]
fn ts_parse_tree(grammar: &LanguageGrammar, language: Language, source: &[u8]) -> (r: Option<SyntaxTree>)
    requires
        grammar.language() == language,
    ensures
        r == parsed_tree(language, source@),
{
    let mut parser = tree_sitter::Parser::new();
    parser.set_language(grammar.as_grammar()).ok()?;
    let tree = parser.parse(source, None)?;
    read_tree(&tree.root_node(), source.len(), language)
}

/// Whether `tree` is well formed for a source of `source_len` bytes.
fn tree_wf(tree: &SyntaxTree, source_len: usize) -> (r: bool)
    ensures
        r == tree.wf(source_len as nat),
{
    let nodes = &tree.nodes;
    if nodes.len() == 0 {
        return false;
    }
    let mut i: usize = 0;
    while i < nodes.len()
        invariant
            nodes@ == tree.nodes@,
            nodes@.len() > 0,
            i <= nodes@.len(),
            forall|x: int|
                0 <= x < i ==> {
                    &&& (#[trigger] nodes@[x]).info.range.start <= nodes@[x].info.range.end
                    &&& nodes@[x].info.range.end <= source_len
                    &&& nodes@[x].info.start_position.row <= nodes@[x].info.end_position.row
                    &&& nodes@[x].info.end_position.row < u32::MAX
                },
            forall|x: int, j: int|
                0 <= x < i && 0 <= j < nodes@[x].children@.len() ==> x < #[trigger] nodes@[x].children@[j]
                    < nodes@.len(),
            forall|x: int, j: int|
                0 <= x < i && 0 <= j < nodes@[x].children@.len() ==> info_within(
                    nodes@[#[trigger] nodes@[x].children@[j] as int].info,
                    nodes@[x].info,
                ),
            forall|x: int, j: int|
                0 <= x < i && 0 <= j && j + 1 < nodes@[x].children@.len() ==> info_before(
                    nodes@[#[trigger] nodes@[x].children@[j] as int].info,
                    nodes@[nodes@[x].children@[j + 1] as int].info,
                ),
        decreases nodes@.len() - i,
    {
        let info = &nodes[i].info;
        if info.range.start > info.range.end || info.range.end as usize > source_len
            || info.start_position.row > info.end_position.row || info.end_position.row >= 0xffff_ffff {
            assert(!nodes_wf(nodes@, source_len as nat)) by {
                let n = nodes@[i as int];
            }
            return false;
        }
        let children = &nodes[i].children;
        let mut j: usize = 0;
        while j < children.len()
            invariant
                nodes@ == tree.nodes@,
                i < nodes@.len(),
                j <= children@.len(),
                children@ == nodes@[i as int].children@,
                forall|y: int| 0 <= y < j ==> i < #[trigger] children@[y] < nodes@.len(),
            decreases children@.len() - j,
        {
            if children[j] <= i || children[j] >= nodes.len() {
                assert(!nodes_wf(nodes@, source_len as nat)) by {
                    let c = nodes@[i as int].children@[j as int];
                }
                return false;
            }
            j = j + 1;
        }
        if !children_nested(nodes, info, children) {
            assert(!nodes_wf(nodes@, source_len as nat)) by {
                if nodes_wf(nodes@, source_len as nat) {
                    assert forall|y: int| 0 <= y < children@.len() implies info_within(
                        nodes@[#[trigger] children@[y] as int].info,
                        *info,
                    ) by {
                        let c = nodes@[i as int].children@[y];
                    }
                    assert forall|y: int| 0 <= y && y + 1 < children@.len() implies info_before(
                        nodes@[#[trigger] children@[y] as int].info,
                        nodes@[children@[y + 1] as int].info,
                    ) by {
                        let c = nodes@[i as int].children@[y];
                    }
                }
            }
            return false;
        }
        i = i + 1;
    }
    true
}

/// Parses `source` as `language`: tree-sitter's tree, read into the
/// library's model (see [`parsed_tree`]), when the source fits `u32::MAX`
/// bytes and the tree is well formed, of `language`, and has the positions
/// of its byte offsets.
pub open spec fn parse_result(language: Language, source: Seq<u8>) -> Option<SyntaxTree> {
    if source.len() > u32::MAX {
        None
    } else {
        match parsed_tree(language, source) {
            Some(t) => if t.wf(source.len()) && t.language == language && t.positioned(source) {
                Some(t)
            } else {
                None
            },
            None => None,
        }
    }
}

/// Parses `source` as `language` with tree-sitter; `None` when the source
/// exceeds `u32::MAX` bytes, when tree-sitter yields no tree, or when the
/// tree does not fit the source (a range outside it, children out of order,
/// or positions that are not those of the byte offsets).
pub fn parse(language: Language, source: &[u8]) -> (r: Option<SyntaxTree>)
    ensures
        r == parse_result(language, source@),
        r matches Some(t) ==> t.wf(source@.len()) && t.language == language && t.positioned(source@),
{
    if source.len() > 0xffff_ffff {
        return None;
    }
    let grammar = language.ts_language();
    match ts_parse_tree(&grammar, language, source) {
        Some(tree) => {
            if tree_wf(&tree, source.len()) && tree.language == language && positions_agree(&tree, source) {
                Some(tree)
            } else {
                None
            }
        },
        None => None,
    }
}

} // verus!
