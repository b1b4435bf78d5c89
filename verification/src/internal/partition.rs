//! Partition of a syntax tree into windows: greedy packing of sibling nodes
//! under a budget of non-whitespace characters, descending into nodes that
//! exceed the budget, followed by greedy merging of the windows found below
//! such a node, and optional overlapping of adjacent windows.

use vstd::prelude::*;

use crate::internal::node::{node_nws_size, node_size, AstNode, AstNodeModel};
use crate::internal::tree::SyntaxTree;
use crate::nws::{lemma_nws_concat, nws_count, NwsCumsum};

pub use crate::internal::ts::parse;

verus! {

/// A window of nodes, as values.
pub type WindowModel = Seq<AstNodeModel>;

/// Total non-whitespace size of a window.
pub open spec fn window_size(w: WindowModel) -> int
    decreases w.len(),
{
    if w.len() == 0 {
        0
    } else {
        window_size(w.drop_last()) + w.last().nws_size
    }
}

/// The window list that flushing `cur` contributes: nothing when it is empty.
pub open spec fn flush(cur: WindowModel) -> Seq<WindowModel> {
    if cur.len() == 0 {
        seq![]
    } else {
        seq![cur]
    }
}

/// Greedy merge of adjacent windows, left to right: a window joins the
/// previous merged window when their combined size fits `max`.
pub open spec fn merge_windows(max: u32, ws: Seq<WindowModel>) -> Seq<WindowModel>
    decreases ws.len(),
{
    if ws.len() <= 1 {
        ws
    } else {
        let m = merge_windows(max, ws.drop_last());
        let w = ws.last();
        if window_size(m.last()) + window_size(w) <= max {
            m.update(m.len() - 1, m.last() + w)
        } else {
            m.push(w)
        }
    }
}

/// Windows produced from the children of node `p`, starting at child `k`,
/// with `cur` (of size `cur_size`) the window being filled. A child larger
/// than `max` closes the current window; its own children are partitioned
/// in turn and merged, or, when it has none, it becomes a window of its own,
/// larger than `max`.
pub open spec fn assign_from(
    max: u32,
    tree: SyntaxTree,
    source: Seq<u8>,
    p: int,
    anc: Seq<usize>,
    k: int,
    cur: WindowModel,
    cur_size: int,
) -> Seq<WindowModel>
    decreases tree.nodes@.len() - p, tree.children(p).len() - k,
{
    if !(0 <= p < tree.nodes@.len()) || k < 0 || k >= tree.children(p).len() {
        flush(cur)
    } else {
        let n = tree.children(p)[k];
        let s = node_size(tree, source, n as int);
        let an = AstNodeModel { node: n, nws_size: s as u32, ancestors: anc };
        if s > max {
            if p < n < tree.nodes@.len() && tree.children(n as int).len() > 0 {
                flush(cur) + merge_windows(
                    max,
                    assign_children(max, tree, source, n as int, anc.push(n)),
                ) + assign_from(max, tree, source, p, anc, k + 1, seq![], 0)
            } else {
                flush(cur) + seq![seq![an]] + assign_from(max, tree, source, p, anc, k + 1, seq![], 0)
            }
        } else if cur_size + s > max {
            flush(cur) + assign_from(max, tree, source, p, anc, k + 1, seq![an], s as int)
        } else {
            assign_from(max, tree, source, p, anc, k + 1, cur.push(an), cur_size + s)
        }
    }
}

/// Windows produced from the children of node `p`, whose ancestors (ending
/// with `p`) are `anc`.
pub open spec fn assign_children(
    max: u32,
    tree: SyntaxTree,
    source: Seq<u8>,
    p: int,
    anc: Seq<usize>,
) -> Seq<WindowModel>
    decreases tree.nodes@.len() - p, tree.children(p).len() + 1,
{
    assign_from(max, tree, source, p, anc, 0, seq![], 0)
}

/// Windows of the whole tree: the root alone when it fits or has no
/// children, else the windows of its children.
pub open spec fn assign_tree(max: u32, tree: SyntaxTree, source: Seq<u8>) -> Seq<WindowModel> {
    let s = node_size(tree, source, 0);
    if s <= max || tree.children(0).len() == 0 {
        seq![seq![AstNodeModel { node: 0, nws_size: s as u32, ancestors: seq![] }]]
    } else {
        assign_children(max, tree, source, 0, seq![0usize])
    }
}

/// Window `i` extended with up to `k` nodes from the end of the previous
/// window and up to `k` nodes from the start of the next one.
pub open spec fn overlap_window(ws: Seq<WindowModel>, k: int, i: int) -> WindowModel {
    let prev = if i > 0 {
        let pw = ws[i - 1];
        pw.subrange(pw.len() - spec_min_int(k, pw.len() as int), pw.len() as int)
    } else {
        seq![]
    };
    let next = if i + 1 < ws.len() {
        let nw = ws[i + 1];
        nw.subrange(0, spec_min_int(k, nw.len() as int))
    } else {
        seq![]
    };
    prev + ws[i] + next
}

/// The smaller of two integers.
pub open spec fn spec_min_int(a: int, b: int) -> int {
    if a <= b {
        a
    } else {
        b
    }
}

/// Every window extended as [`overlap_window`] says.
pub open spec fn overlap_windows(ws: Seq<WindowModel>, k: int) -> Seq<WindowModel> {
    Seq::new(ws.len(), |i: int| overlap_window(ws, k, i))
}

/// Every window is non-empty, and fits `max` unless it holds a single node.
pub open spec fn windows_bounded(ws: Seq<WindowModel>, max: int) -> bool {
    forall|i: int|
        0 <= i < ws.len() ==> (#[trigger] ws[i]).len() > 0 && (window_size(ws[i]) <= max || ws[i].len() == 1)
}

/// Window sizes add up over concatenation.
pub proof fn lemma_window_size_concat(a: WindowModel, b: WindowModel)
    ensures
        window_size(a + b) == window_size(a) + window_size(b),
    decreases b.len(),
{
    if b.len() == 0 {
        assert(a + b =~= a);
    } else {
        lemma_window_size_concat(a, b.drop_last());
        assert((a + b).drop_last() =~= a + b.drop_last());
    }
}

/// Window sizes are never negative.
pub proof fn lemma_window_size_nonneg(a: WindowModel)
    ensures
        window_size(a) >= 0,
    decreases a.len(),
{
    if a.len() > 0 {
        lemma_window_size_nonneg(a.drop_last());
    }
}

/// A prefix of a window is no larger than the window.
pub proof fn lemma_window_size_prefix(a: WindowModel, j: int)
    requires
        0 <= j <= a.len(),
    ensures
        window_size(a.take(j)) <= window_size(a),
{
    assert(a =~= a.take(j) + a.skip(j));
    lemma_window_size_concat(a.take(j), a.skip(j));
    lemma_window_size_nonneg(a.skip(j));
}

/// The non-whitespace size of any node is bounded by that of the source.
pub proof fn lemma_node_size_bounded(tree: SyntaxTree, source: Seq<u8>, i: int)
    requires
        tree.wf(source.len()),
        0 <= i < tree.nodes@.len(),
    ensures
        node_size(tree, source, i) <= nws_count(source),
{
    let lo = tree.range(i).start as int;
    let hi = tree.range(i).end as int;
    assert(source =~= source.take(lo) + source.subrange(lo, hi) + source.skip(hi));
    lemma_nws_concat(source.take(lo) + source.subrange(lo, hi), source.skip(hi));
    lemma_nws_concat(source.take(lo), source.subrange(lo, hi));
}

/// A merge of windows that fit `max` consists of windows that fit `max`.
pub proof fn lemma_merge_bounded(max: u32, ws: Seq<WindowModel>)
    requires
        windows_bounded(ws, max as int),
    ensures
        windows_bounded(merge_windows(max, ws), max as int),
        ws.len() > 0 ==> merge_windows(max, ws).len() > 0,
    decreases ws.len(),
{
    if ws.len() > 1 {
        let m = merge_windows(max, ws.drop_last());
        lemma_merge_bounded(max, ws.drop_last());
        let w = ws.last();
        assert(ws.drop_last()[0] == ws[0]);
        if window_size(m.last()) + window_size(w) <= max {
            lemma_window_size_concat(m.last(), w);
            let r = m.update(m.len() - 1, m.last() + w);
            assert forall|i: int| 0 <= i < r.len() implies (#[trigger] r[i]).len() > 0 && (window_size(r[i])
                <= max || r[i].len() == 1) by {
                if i < m.len() - 1 {
                    assert(r[i] == m[i]);
                }
            }
        } else {
            assert(ws[ws.len() - 1] == w);
            let r = m.push(w);
            assert forall|i: int| 0 <= i < r.len() implies (#[trigger] r[i]).len() > 0 && (window_size(r[i])
                <= max || r[i].len() == 1) by {
                if i < m.len() {
                    assert(r[i] == m[i]);
                }
            }
        }
    }
}

/// Concatenations of window lists that fit `max` fit `max`.
pub proof fn lemma_bounded_concat(a: Seq<WindowModel>, b: Seq<WindowModel>, max: int)
    requires
        windows_bounded(a, max),
        windows_bounded(b, max),
    ensures
        windows_bounded(a + b, max),
{
    assert forall|i: int| 0 <= i < (a + b).len() implies (#[trigger] (a + b)[i]).len() > 0 && (window_size(
        (a + b)[i],
    ) <= max || (a + b)[i].len() == 1) by {
        if i < a.len() {
            assert((a + b)[i] == a[i]);
        } else {
            assert((a + b)[i] == b[i - a.len()]);
        }
    }
}

/// Every window that the partition of the children of a node yields is
/// non-empty and fits the budget, unless it is a single node.
pub proof fn lemma_assign_from_bounded(
    max: u32,
    tree: SyntaxTree,
    source: Seq<u8>,
    p: int,
    anc: Seq<usize>,
    k: int,
    cur: WindowModel,
    cur_size: int,
)
    requires
        tree.wf(source.len()),
        nws_count(source) <= u32::MAX,
        window_size(cur) == cur_size,
        cur_size <= max,
    ensures
        windows_bounded(assign_from(max, tree, source, p, anc, k, cur, cur_size), max as int),
    decreases tree.nodes@.len() - p, tree.children(p).len() - k,
{
    if !(0 <= p < tree.nodes@.len()) || k < 0 || k >= tree.children(p).len() {
    } else {
        let n = tree.children(p)[k];
        assert(p < n < tree.nodes@.len());
        let s = node_size(tree, source, n as int);
        lemma_node_size_bounded(tree, source, n as int);
        let an = AstNodeModel { node: n, nws_size: s as u32, ancestors: anc };
        if s > max && tree.children(n as int).len() == 0 {
            lemma_assign_from_bounded(max, tree, source, p, anc, k + 1, seq![], 0);
            lemma_bounded_concat(flush(cur), seq![seq![an]], max as int);
            lemma_bounded_concat(
                flush(cur) + seq![seq![an]],
                assign_from(max, tree, source, p, anc, k + 1, seq![], 0),
                max as int,
            );
        } else if s > max {
            lemma_assign_children_bounded(max, tree, source, n as int, anc.push(n));
            lemma_merge_bounded(max, assign_children(max, tree, source, n as int, anc.push(n)));
            lemma_assign_from_bounded(max, tree, source, p, anc, k + 1, seq![], 0);
            lemma_bounded_concat(
                flush(cur),
                merge_windows(max, assign_children(max, tree, source, n as int, anc.push(n))),
                max as int,
            );
            lemma_bounded_concat(
                flush(cur) + merge_windows(
                    max,
                    assign_children(max, tree, source, n as int, anc.push(n)),
                ),
                assign_from(max, tree, source, p, anc, k + 1, seq![], 0),
                max as int,
            );
        } else if cur_size + s > max {
            assert(seq![an].drop_last() =~= Seq::<AstNodeModel>::empty());
            assert(window_size(seq![an]) == window_size(seq![an].drop_last()) + seq![an].last().nws_size);
            assert(window_size(seq![an]) == s);
            lemma_assign_from_bounded(max, tree, source, p, anc, k + 1, seq![an], s as int);
            lemma_bounded_concat(
                flush(cur),
                assign_from(max, tree, source, p, anc, k + 1, seq![an], s as int),
                max as int,
            );
        } else {
            assert(cur.push(an).drop_last() =~= cur);
            assert(window_size(cur.push(an)) == window_size(cur) + an.nws_size);
            lemma_assign_from_bounded(max, tree, source, p, anc, k + 1, cur.push(an), cur_size + s);
        }
    }
}

/// See [`lemma_assign_from_bounded`].
pub proof fn lemma_assign_children_bounded(
    max: u32,
    tree: SyntaxTree,
    source: Seq<u8>,
    p: int,
    anc: Seq<usize>,
)
    requires
        tree.wf(source.len()),
        nws_count(source) <= u32::MAX,
    ensures
        windows_bounded(assign_children(max, tree, source, p, anc), max as int),
    decreases tree.nodes@.len() - p, tree.children(p).len() + 1,
{
    lemma_assign_from_bounded(max, tree, source, p, anc, 0, seq![], 0);
}

/// Every window of the partition of a whole tree is non-empty and holds at
/// most `max` non-whitespace characters, unless it is a single node.
pub proof fn lemma_assign_tree_bounded(max: u32, tree: SyntaxTree, source: Seq<u8>)
    requires
        tree.wf(source.len()),
        nws_count(source) <= u32::MAX,
    ensures
        windows_bounded(assign_tree(max, tree, source), max as int),
{
    let s = node_size(tree, source, 0);
    lemma_node_size_bounded(tree, source, 0);
    if s <= max || tree.children(0).len() == 0 {
        let w = seq![AstNodeModel { node: 0, nws_size: s as u32, ancestors: seq![] }];
        assert(w.drop_last() =~= Seq::<AstNodeModel>::empty());
        assert(window_size(w) == window_size(w.drop_last()) + w.last().nws_size);
        assert(window_size(w) == s);
    } else {
        lemma_assign_children_bounded(max, tree, source, 0, seq![0usize]);
    }
}

/// Every leaf of the tree holds at most `max` non-whitespace characters.
pub open spec fn leaves_fit(tree: SyntaxTree, source: Seq<u8>, max: int) -> bool {
    forall|n: int|
        0 <= n < tree.nodes@.len() && tree.children(n).len() == 0 ==> #[trigger] node_size(tree, source, n) <= max
}

/// Every window larger than `max` holds a single node, a leaf of the tree.
pub open spec fn oversize_are_leaves(tree: SyntaxTree, ws: Seq<WindowModel>, max: int) -> bool {
    forall|i: int|
        0 <= i < ws.len() && window_size(#[trigger] ws[i]) > max ==> ws[i].len() == 1 && tree.children(
            ws[i][0].node as int,
        ).len() == 0
}

proof fn lemma_oversize_concat(tree: SyntaxTree, a: Seq<WindowModel>, b: Seq<WindowModel>, max: int)
    requires
        oversize_are_leaves(tree, a, max),
        oversize_are_leaves(tree, b, max),
    ensures
        oversize_are_leaves(tree, a + b, max),
{
    assert forall|i: int| 0 <= i < (a + b).len() && window_size(#[trigger] (a + b)[i]) > max implies (a
        + b)[i].len() == 1 && tree.children((a + b)[i][0].node as int).len() == 0 by {
        if i < a.len() {
            assert((a + b)[i] == a[i]);
        } else {
            assert((a + b)[i] == b[i - a.len()]);
        }
    }
}

proof fn lemma_oversize_merge(tree: SyntaxTree, max: u32, ws: Seq<WindowModel>)
    requires
        oversize_are_leaves(tree, ws, max as int),
    ensures
        oversize_are_leaves(tree, merge_windows(max, ws), max as int),
    decreases ws.len(),
{
    if ws.len() > 1 {
        let m = merge_windows(max, ws.drop_last());
        assert forall|i: int| 0 <= i < ws.drop_last().len() && window_size(#[trigger] ws.drop_last()[i]) > max implies ws.drop_last()[i].len()
            == 1 && tree.children(ws.drop_last()[i][0].node as int).len() == 0 by {
            assert(ws.drop_last()[i] == ws[i]);
        }
        lemma_oversize_merge(tree, max, ws.drop_last());
        lemma_merge_nonempty(max, ws.drop_last());
        let w = ws.last();
        assert(ws[ws.len() - 1] == w);
        if window_size(m.last()) + window_size(w) <= max {
            lemma_window_size_concat(m.last(), w);
            let r = m.update(m.len() - 1, m.last() + w);
            assert forall|i: int| 0 <= i < r.len() && window_size(#[trigger] r[i]) > max implies r[i].len() == 1
                && tree.children(r[i][0].node as int).len() == 0 by {
                if i < m.len() - 1 {
                    assert(r[i] == m[i]);
                } else {
                    assert(r[i] == m.last() + w);
                }
            }
        } else {
            let r = m.push(w);
            assert forall|i: int| 0 <= i < r.len() && window_size(#[trigger] r[i]) > max implies r[i].len() == 1
                && tree.children(r[i][0].node as int).len() == 0 by {
                if i < m.len() {
                    assert(r[i] == m[i]);
                } else {
                    assert(r[i] == ws[ws.len() - 1]);
                    assert(window_size(ws[ws.len() - 1]) > max);
                }
            }
        }
    }
}

proof fn lemma_assign_from_oversize(
    max: u32,
    tree: SyntaxTree,
    source: Seq<u8>,
    p: int,
    anc: Seq<usize>,
    k: int,
    cur: WindowModel,
    cur_size: int,
)
    requires
        tree.wf(source.len()),
        window_size(cur) == cur_size,
        cur_size <= max,
    ensures
        oversize_are_leaves(tree, assign_from(max, tree, source, p, anc, k, cur, cur_size), max as int),
    decreases tree.nodes@.len() - p, tree.children(p).len() - k,
{
    let fc = flush(cur);
    assert(oversize_are_leaves(tree, fc, max as int)) by {
        if cur.len() > 0 {
            assert(fc[0] == cur);
        }
    }
    if !(0 <= p < tree.nodes@.len()) || k < 0 || k >= tree.children(p).len() {
    } else {
        let n = tree.children(p)[k];
        assert(p < n < tree.nodes@.len());
        let s = node_size(tree, source, n as int);
        let an = AstNodeModel { node: n, nws_size: s as u32, ancestors: anc };
        let e = Seq::<AstNodeModel>::empty();
        if s > max && tree.children(n as int).len() == 0 {
            let leaf = seq![seq![an]];
            assert(oversize_are_leaves(tree, leaf, max as int)) by {
                assert(leaf[0] == seq![an]);
            }
            lemma_assign_from_oversize(max, tree, source, p, anc, k + 1, e, 0);
            lemma_oversize_concat(tree, fc, leaf, max as int);
            lemma_oversize_concat(tree, fc + leaf, assign_from(max, tree, source, p, anc, k + 1, e, 0), max as int);
        } else if s > max {
            let below = assign_children(max, tree, source, n as int, anc.push(n));
            lemma_assign_children_oversize(max, tree, source, n as int, anc.push(n));
            lemma_oversize_merge(tree, max, below);
            lemma_assign_from_oversize(max, tree, source, p, anc, k + 1, e, 0);
            lemma_oversize_concat(tree, fc, merge_windows(max, below), max as int);
            lemma_oversize_concat(
                tree,
                fc + merge_windows(max, below),
                assign_from(max, tree, source, p, anc, k + 1, e, 0),
                max as int,
            );
        } else if cur_size + s > max {
            assert(seq![an].drop_last() =~= e);
            assert(window_size(seq![an]) == window_size(seq![an].drop_last()) + seq![an].last().nws_size);
            lemma_assign_from_oversize(max, tree, source, p, anc, k + 1, seq![an], s as int);
            lemma_oversize_concat(tree, fc, assign_from(max, tree, source, p, anc, k + 1, seq![an], s as int), max as int);
        } else {
            assert(cur.push(an).drop_last() =~= cur);
            assert(window_size(cur.push(an)) == window_size(cur) + an.nws_size);
            lemma_assign_from_oversize(max, tree, source, p, anc, k + 1, cur.push(an), cur_size + s);
        }
    }
}

proof fn lemma_assign_children_oversize(max: u32, tree: SyntaxTree, source: Seq<u8>, p: int, anc: Seq<usize>)
    requires
        tree.wf(source.len()),
    ensures
        oversize_are_leaves(tree, assign_children(max, tree, source, p, anc), max as int),
    decreases tree.nodes@.len() - p, tree.children(p).len() + 1,
{
    lemma_assign_from_oversize(max, tree, source, p, anc, 0, seq![], 0);
}

/// A window of the partition of a tree that holds more than `max`
/// non-whitespace characters is a single leaf of the tree.
pub proof fn lemma_assign_tree_oversize_leaves(max: u32, tree: SyntaxTree, source: Seq<u8>)
    requires
        tree.wf(source.len()),
    ensures
        oversize_are_leaves(tree, assign_tree(max, tree, source), max as int),
{
    let s = node_size(tree, source, 0);
    let ws = assign_tree(max, tree, source);
    if s <= max || tree.children(0).len() == 0 {
        let w = seq![AstNodeModel { node: 0, nws_size: s as u32, ancestors: seq![] }];
        assert(w.drop_last() =~= Seq::<AstNodeModel>::empty());
        assert(window_size(w) == window_size(w.drop_last()) + w.last().nws_size);
        assert(ws[0] == w);
    } else {
        lemma_assign_children_oversize(max, tree, source, 0, seq![0usize]);
    }
}

/// Copies a window.
pub fn copy_window(w: &Vec<AstNode>) -> (r: Vec<AstNode>)
    ensures
        r.deep_view() == w.deep_view(),
{
    let mut r: Vec<AstNode> = Vec::new();
    let mut i: usize = 0;
    while i < w.len()
        invariant
            i <= w@.len(),
            r.deep_view() == w.deep_view().take(i as int),
        decreases w@.len() - i,
    {
        let ghost before = r.deep_view();
        r.push(w[i].copy_of());
        assert(r.deep_view() =~= before.push(w[i as int].deep_view()));
        i = i + 1;
        assert(r.deep_view() =~= w.deep_view().take(i as int));
    }
    assert(w.deep_view().take(w@.len() as int) =~= w.deep_view());
    r
}

/// Appends copies of the nodes of `w` to `out`.
fn append_window(out: &mut Vec<AstNode>, w: &Vec<AstNode>)
    ensures
        final(out).deep_view() == old(out).deep_view() + w.deep_view(),
{
    let ghost start = out.deep_view();
    let mut i: usize = 0;
    while i < w.len()
        invariant
            i <= w@.len(),
            out.deep_view() == start + w.deep_view().take(i as int),
        decreases w@.len() - i,
    {
        let ghost before = out.deep_view();
        out.push(w[i].copy_of());
        assert(out.deep_view() =~= before.push(w[i as int].deep_view()));
        i = i + 1;
        assert(out.deep_view() =~= start + w.deep_view().take(i as int));
    }
    assert(w.deep_view().take(w@.len() as int) =~= w.deep_view());
}

/// Total non-whitespace size of a window.
fn window_nws(w: &Vec<AstNode>) -> (r: u64)
    requires
        window_size(w.deep_view()) <= u32::MAX,
    ensures
        r == window_size(w.deep_view()),
{
    let mut total: u64 = 0;
    let mut i: usize = 0;
    while i < w.len()
        invariant
            i <= w@.len(),
            window_size(w.deep_view()) <= u32::MAX,
            total == window_size(w.deep_view().take(i as int)),
        decreases w@.len() - i,
    {
        proof {
            assert(w.deep_view().take(i + 1).drop_last() =~= w.deep_view().take(i as int));
            lemma_window_size_prefix(w.deep_view(), i + 1);
        }
        total = total + w[i].nws_size as u64;
        i = i + 1;
    }
    assert(w.deep_view().take(w@.len() as int) =~= w.deep_view());
    total
}

/// A window that fits `max`, or holds a single node, has a size that fits
/// `u32`.
proof fn lemma_bounded_window_fits(w: WindowModel, max: u32)
    requires
        window_size(w) <= max || w.len() == 1,
    ensures
        0 <= window_size(w) <= u32::MAX,
{
    lemma_window_size_nonneg(w);
    if w.len() == 1 {
        assert(w.drop_last() =~= Seq::<AstNodeModel>::empty());
        assert(window_size(w) == window_size(w.drop_last()) + w.last().nws_size);
    }
}

/// Greedily merges adjacent sibling windows when their combined size fits.
pub fn merge_adjacent_windows(max_chunk_size: u32, ast_windows: Vec<Vec<AstNode>>) -> (r: Vec<
    Vec<AstNode>,
>)
    requires
        ast_windows@.len() > 0,
        windows_bounded(ast_windows.deep_view(), max_chunk_size as int),
    ensures
        r.deep_view() == merge_windows(max_chunk_size, ast_windows.deep_view()),
{
    let ghost ws = ast_windows.deep_view();
    let mut merged: Vec<Vec<AstNode>> = Vec::new();
    assert(ws[0] == ast_windows[0].deep_view());
    let mut current = copy_window(&ast_windows[0]);
    proof {
        lemma_bounded_window_fits(ws[0], max_chunk_size);
    }
    let mut current_size: u64 = window_nws(&ast_windows[0]);
    let mut i: usize = 1;
    assert(ws.take(1) =~= seq![ws[0]]);
    while i < ast_windows.len()
        invariant
            1 <= i <= ws.len(),
            ws == ast_windows.deep_view(),
            windows_bounded(ws, max_chunk_size as int),
            merged.deep_view().push(current.deep_view()) == merge_windows(
                max_chunk_size,
                ws.take(i as int),
            ),
            current_size == window_size(current.deep_view()),
            current_size <= u32::MAX,
        decreases ws.len() - i,
    {
        assert(ws[i as int] == ast_windows[i as int].deep_view());
        proof {
            lemma_bounded_window_fits(ws[i as int], max_chunk_size);
        }
        let w_size = window_nws(&ast_windows[i]);
        let ghost m = merge_windows(max_chunk_size, ws.take(i as int));
        assert(ws.take(i + 1).drop_last() =~= ws.take(i as int));
        assert(ws.take(i + 1).last() == ws[i as int]);
        assert(m.last() == current.deep_view());
        if current_size + w_size <= max_chunk_size as u64 {
            proof {
                lemma_window_size_concat(current.deep_view(), ws[i as int]);
            }
            append_window(&mut current, &ast_windows[i]);
            current_size = current_size + w_size;
            assert(merged.deep_view().push(current.deep_view()) =~= m.update(
                m.len() - 1,
                m.last() + ws[i as int],
            ));
        } else {
            let ghost before = merged.deep_view();
            let mut done = copy_window(&ast_windows[i]);
            std::mem::swap(&mut current, &mut done);
            merged.push(done);
            assert(merged.deep_view() =~= before.push(m.last()));
            current_size = w_size;
            assert(merged.deep_view().push(current.deep_view()) =~= m.push(ws[i as int]));
        }
        i = i + 1;
    }
    assert(ws.take(ws.len() as int) =~= ws);
    let ghost before = merged.deep_view();
    merged.push(current);
    assert(merged.deep_view() =~= before.push(current.deep_view()));
    merged
}

/// Pushes `w` onto `out`.
fn push_window(out: &mut Vec<Vec<AstNode>>, w: Vec<AstNode>)
    ensures
        final(out).deep_view() == old(out).deep_view().push(w.deep_view()),
{
    let ghost before = out.deep_view();
    let ghost wd = w.deep_view();
    out.push(w);
    assert(out.deep_view() =~= before.push(wd));
}

/// Moves all windows of `src` to the end of `out`.
fn append_windows(out: &mut Vec<Vec<AstNode>>, src: Vec<Vec<AstNode>>)
    ensures
        final(out).deep_view() == old(out).deep_view() + src.deep_view(),
{
    let ghost before = out.deep_view();
    let ghost sd = src.deep_view();
    let mut src = src;
    out.append(&mut src);
    assert(out.deep_view() =~= before + sd);
}

/// Copies a slice of indices into a vector.
fn indices_to_vec(s: &[usize]) -> (r: Vec<usize>)
    ensures
        r@ == s@,
{
    vstd::slice::slice_to_vec(s)
}

/// Greedily assigns the nodes of `nodes` (the children of the last of
/// `ancestors`) to windows, appending them to `out`.
fn assign_nodes_to_windows(
    max_chunk_size: u32,
    tree: &SyntaxTree,
    nodes: &[usize],
    cumsum: &NwsCumsum,
    ancestors: &[usize],
    out: &mut Vec<Vec<AstNode>>,
)
    requires
        tree.wf(cumsum.source().len()),
        nws_count(cumsum.source()) <= u32::MAX,
        ancestors@.len() > 0,
        ancestors@.last() < tree.nodes@.len(),
        nodes@ == tree.children(ancestors@.last() as int),
    ensures
        final(out).deep_view() == old(out).deep_view() + assign_children(
            max_chunk_size,
            *tree,
            cumsum.source(),
            ancestors@.last() as int,
            ancestors@,
        ),
    decreases tree.nodes@.len() - ancestors@.last(),
{
    let ghost p = ancestors@.last() as int;
    let ghost src = cumsum.source();
    let ghost anc = ancestors@;
    let ghost start = out.deep_view();
    let mut current: Vec<AstNode> = Vec::new();
    let mut current_size: u64 = 0;
    let mut k: usize = 0;
    assert(current.deep_view() =~= Seq::<AstNodeModel>::empty());
    while k < nodes.len()
        invariant
            tree.wf(src.len()),
            src == cumsum.source(),
            nws_count(src) <= u32::MAX,
            0 <= p < tree.nodes@.len(),
            anc == ancestors@,
            anc.len() > 0,
            anc.last() == p,
            nodes@ == tree.children(p),
            k <= nodes@.len(),
            current_size == window_size(current.deep_view()),
            current_size <= max_chunk_size,
            start + assign_children(max_chunk_size, *tree, src, p, anc) == out.deep_view()
                + assign_from(max_chunk_size, *tree, src, p, anc, k as int, current.deep_view(), current_size as int),
        decreases nodes@.len() - k,
    {
        let node = nodes[k];
        assert(p < node < tree.nodes@.len());
        let node_size = node_nws_size(tree, node, cumsum);
        proof {
            lemma_node_size_bounded(*tree, src, node as int);
        }
        let ghost an = AstNodeModel { node: node, nws_size: node_size, ancestors: anc };
        let ghost cur = current.deep_view();
        let exceeds = node_size > max_chunk_size;
        if (current.len() == 0 && exceeds) || current_size + node_size as u64 > max_chunk_size as u64 {
            let ghost before = out.deep_view();
            if current.len() > 0 {
                let mut done: Vec<AstNode> = Vec::new();
                std::mem::swap(&mut current, &mut done);
                push_window(out, done);
                current_size = 0;
            }
            assert(out.deep_view() == before + flush(cur));
            if exceeds && tree.nodes[node].children.len() == 0 {
                let an_exec = AstNode::new(node, node_size, indices_to_vec(ancestors));
                let mut leaf: Vec<AstNode> = Vec::new();
                leaf.push(an_exec);
                assert(leaf.deep_view() =~= seq![an]);
                let ghost after_flush = out.deep_view();
                push_window(out, leaf);
                assert(out.deep_view() =~= after_flush + seq![seq![an]]);
                assert(current.deep_view() =~= Seq::<AstNodeModel>::empty());
                assert(start + assign_children(max_chunk_size, *tree, src, p, anc)
                    =~= out.deep_view() + assign_from(
                    max_chunk_size,
                    *tree,
                    src,
                    p,
                    anc,
                    k + 1,
                    current.deep_view(),
                    current_size as int,
                ));
            } else if exceeds {
                let mut child_ancestors = indices_to_vec(ancestors);
                child_ancestors.push(node);
                let children = indices_to_vec(tree.nodes[node].children.as_slice());
                let mut child_windows: Vec<Vec<AstNode>> = Vec::new();
                assign_nodes_to_windows(
                    max_chunk_size,
                    tree,
                    children.as_slice(),
                    cumsum,
                    child_ancestors.as_slice(),
                    &mut child_windows,
                );
                assert(child_windows.deep_view() =~= assign_children(
                    max_chunk_size,
                    *tree,
                    src,
                    node as int,
                    anc.push(node),
                ));
                let ghost after_flush = out.deep_view();
                if child_windows.len() > 0 {
                    proof {
                        lemma_assign_children_bounded(
                            max_chunk_size,
                            *tree,
                            src,
                            node as int,
                            anc.push(node),
                        );
                    }
                    let merged = merge_adjacent_windows(max_chunk_size, child_windows);
                    append_windows(out, merged);
                } else {
                    assert(merge_windows(max_chunk_size, child_windows.deep_view()) =~= Seq::<
                        WindowModel,
                    >::empty());
                    assert(out.deep_view() =~= after_flush + merge_windows(
                        max_chunk_size,
                        child_windows.deep_view(),
                    ));
                }
                assert(current.deep_view() =~= Seq::<AstNodeModel>::empty());
                assert(start + assign_children(max_chunk_size, *tree, src, p, anc)
                    =~= out.deep_view() + assign_from(
                    max_chunk_size,
                    *tree,
                    src,
                    p,
                    anc,
                    k + 1,
                    current.deep_view(),
                    current_size as int,
                ));
            } else {
                let an_exec = AstNode::new(node, node_size, indices_to_vec(ancestors));
                let ghost c0 = current.deep_view();
                current.push(an_exec);
                assert(current.deep_view() =~= c0.push(an));
                assert(current.deep_view() =~= seq![an]);
                current_size = node_size as u64;
                assert(seq![an].drop_last() =~= Seq::<AstNodeModel>::empty());
                assert(window_size(seq![an]) == window_size(seq![an].drop_last()) + seq![an].last().nws_size);
                assert(start + assign_children(max_chunk_size, *tree, src, p, anc)
                    =~= out.deep_view() + assign_from(
                    max_chunk_size,
                    *tree,
                    src,
                    p,
                    anc,
                    k + 1,
                    current.deep_view(),
                    current_size as int,
                ));
            }
        } else {
            let an_exec = AstNode::new(node, node_size, indices_to_vec(ancestors));
            current.push(an_exec);
            assert(current.deep_view() =~= cur.push(an));
            assert(cur.push(an).drop_last() =~= cur);
            assert(window_size(cur.push(an)) == window_size(cur) + an.nws_size);
            current_size = current_size + node_size as u64;
        }
        k = k + 1;
    }
    if current.len() > 0 {
        push_window(out, current);
    }
}

/// Assigns the syntax tree to windows (tentative chunks of [`AstNode`]s):
/// the whole tree as one window when it fits `max_chunk_size` or has no
/// children, otherwise the windows of the root's children.
pub fn assign_tree_to_windows(max_chunk_size: u32, source: &[u8], tree: &SyntaxTree) -> (r: Vec<
    Vec<AstNode>,
>)
    requires
        tree.wf(source@.len()),
        nws_count(source@) <= u32::MAX,
    ensures
        r.deep_view() == assign_tree(max_chunk_size, *tree, source@),
        windows_bounded(r.deep_view(), max_chunk_size as int),
{
    proof {
        lemma_assign_tree_bounded(max_chunk_size, *tree, source@);
    }
    let cumsum = NwsCumsum::new(source);
    let root = tree.root();
    let tree_size = node_nws_size(tree, root, &cumsum);
    if tree_size <= max_chunk_size || tree.nodes[root].children.len() == 0 {
        let no_ancestors: Vec<usize> = Vec::new();
        assert(no_ancestors@ =~= Seq::<usize>::empty());
        let mut window: Vec<AstNode> = Vec::new();
        window.push(AstNode::new(root, tree_size, no_ancestors));
        let ghost model = AstNodeModel { node: 0, nws_size: tree_size, ancestors: seq![] };
        assert(window.deep_view() =~= seq![model]);
        let mut windows: Vec<Vec<AstNode>> = Vec::new();
        let ghost wd = window.deep_view();
        windows.push(window);
        assert(windows.deep_view() =~= seq![wd]);
        return windows;
    }
    let mut ancestors: Vec<usize> = Vec::new();
    ancestors.push(root);
    let children = indices_to_vec(tree.nodes[root].children.as_slice());
    let mut windows: Vec<Vec<AstNode>> = Vec::new();
    assign_nodes_to_windows(
        max_chunk_size,
        tree,
        children.as_slice(),
        &cumsum,
        ancestors.as_slice(),
        &mut windows,
    );
    assert(ancestors@ =~= seq![0usize]);
    assert(windows.deep_view() =~= assign_tree(max_chunk_size, *tree, source@));
    windows
}

/// Extends each window with the last `chunk_overlap` nodes of the previous
/// window and the first `chunk_overlap` nodes of the next one (fewer where a
/// neighbour is shorter). The extension is not bound by the size budget.
pub fn add_window_overlapping(ast_windows: &[Vec<AstNode>], chunk_overlap: usize) -> (r: Vec<
    Vec<AstNode>,
>)
    ensures
        r.deep_view() == overlap_windows(ast_windows.deep_view(), chunk_overlap as int),
{
    let ghost ws = ast_windows.deep_view();
    let n = ast_windows.len();
    let mut result: Vec<Vec<AstNode>> = Vec::new();
    let mut i: usize = 0;
    while i < n
        invariant
            n == ws.len(),
            ws == ast_windows.deep_view(),
            i <= n,
            result.deep_view() == overlap_windows(ws, chunk_overlap as int).take(i as int),
        decreases n - i,
    {
        let mut current: Vec<AstNode> = Vec::new();
        assert(current.deep_view() =~= Seq::<AstNodeModel>::empty());
        if i > 0 {
            let prev = &ast_windows[i - 1];
            assert(prev.deep_view() == ws[i - 1]);
            let take = if chunk_overlap <= prev.len() {
                chunk_overlap
            } else {
                prev.len()
            };
            let mut j = prev.len() - take;
            while j < prev.len()
                invariant
                    prev.deep_view() == ws[i - 1],
                    take <= prev@.len(),
                    prev@.len() - take <= j <= prev@.len(),
                    current.deep_view() == ws[i - 1].subrange(prev@.len() - take, j as int),
                decreases prev@.len() - j,
            {
                let ghost before = current.deep_view();
                assert(prev.deep_view()[j as int] == prev[j as int].deep_view());
                current.push(prev[j].copy_of());
                assert(current.deep_view() =~= before.push(prev[j as int].deep_view()));
                j = j + 1;
                assert(current.deep_view() =~= ws[i - 1].subrange(prev@.len() - take, j as int));
            }
        }
        let ghost prefix = current.deep_view();
        assert(ast_windows[i as int].deep_view() == ws[i as int]);
        append_window(&mut current, &ast_windows[i]);
        if i + 1 < n {
            let next = &ast_windows[i + 1];
            assert(next.deep_view() == ws[i + 1]);
            let take = if chunk_overlap <= next.len() {
                chunk_overlap
            } else {
                next.len()
            };
            let ghost mid = current.deep_view();
            let mut j: usize = 0;
            while j < take
                invariant
                    next.deep_view() == ws[i + 1],
                    take <= next@.len(),
                    j <= take,
                    current.deep_view() == mid + ws[i + 1].subrange(0, j as int),
                decreases take - j,
            {
                let ghost before = current.deep_view();
                assert(next.deep_view()[j as int] == next[j as int].deep_view());
                current.push(next[j].copy_of());
                assert(current.deep_view() =~= before.push(next[j as int].deep_view()));
                j = j + 1;
                assert(current.deep_view() =~= mid + ws[i + 1].subrange(0, j as int));
            }
        }
        assert(current.deep_view() =~= overlap_window(ws, chunk_overlap as int, i as int));
        let ghost before = result.deep_view();
        push_window(&mut result, current);
        i = i + 1;
        assert(result.deep_view() =~= overlap_windows(ws, chunk_overlap as int).take(i as int));
    }
    assert(overlap_windows(ws, chunk_overlap as int).take(n as int) =~= overlap_windows(
        ws,
        chunk_overlap as int,
    ));
    result
}

/// All nodes of a list of windows, in order.
pub open spec fn flatten(ws: Seq<WindowModel>) -> WindowModel
    decreases ws.len(),
{
    if ws.len() == 0 {
        seq![]
    } else {
        flatten(ws.drop_last()) + ws.last()
    }
}

/// Merging never empties a non-empty list of windows.
pub proof fn lemma_merge_nonempty(max: u32, ws: Seq<WindowModel>)
    ensures
        ws.len() > 0 ==> merge_windows(max, ws).len() > 0,
        merge_windows(max, ws).len() <= ws.len(),
    decreases ws.len(),
{
    if ws.len() > 1 {
        lemma_merge_nonempty(max, ws.drop_last());
    }
}

/// Merging keeps every node and their order: only window boundaries go.
pub proof fn lemma_merge_preserves_nodes(max: u32, ws: Seq<WindowModel>)
    ensures
        flatten(merge_windows(max, ws)) == flatten(ws),
    decreases ws.len(),
{
    if ws.len() > 1 {
        let m = merge_windows(max, ws.drop_last());
        let w = ws.last();
        lemma_merge_preserves_nodes(max, ws.drop_last());
        lemma_merge_nonempty(max, ws.drop_last());
        if window_size(m.last()) + window_size(w) <= max {
            let r = m.update(m.len() - 1, m.last() + w);
            assert(r.drop_last() =~= m.drop_last());
            assert(flatten(m) == flatten(m.drop_last()) + m.last());
            assert(flatten(r) =~= flatten(m) + w);
        } else {
            assert(m.push(w).drop_last() =~= m);
        }
    }
}

/// `m` is a greedy left-to-right merge of the windows `ws`: it holds the
/// same nodes in the same order, and every window of `m` after the first
/// begins with an input window `ws[j]`, right at a boundary between input
/// windows, that did not fit together with the window of `m` before it.
pub open spec fn greedy_merge_of(max: u32, ws: Seq<WindowModel>, m: Seq<WindowModel>) -> bool {
    &&& flatten(m) == flatten(ws)
    &&& forall|i: int|
        0 < i < m.len() ==> exists|j: int|
            {
                &&& 0 < j < ws.len()
                &&& flatten(m.take(i)) == flatten(ws.take(j))
                &&& ws[j].len() <= m[i].len()
                &&& m[i].take(ws[j].len() as int) == ws[j]
                &&& window_size(#[trigger] m[i - 1]) + window_size(ws[j]) > max
            }
}

/// Merging is greedy from the left: a window joins its predecessor whenever
/// their combined size fits `max`, so adjacent merged windows never fit
/// together (see [`greedy_merge_of`]).
pub proof fn lemma_merge_greedy(max: u32, ws: Seq<WindowModel>)
    ensures
        greedy_merge_of(max, ws, merge_windows(max, ws)),
    decreases ws.len(),
{
    lemma_merge_preserves_nodes(max, ws);
    if ws.len() > 1 {
        let d = ws.drop_last();
        let m = merge_windows(max, d);
        let w = ws.last();
        let n = ws.len() - 1;
        let r = merge_windows(max, ws);
        lemma_merge_greedy(max, d);
        lemma_merge_nonempty(max, d);
        lemma_merge_preserves_nodes(max, d);
        assert forall|i: int| 0 < i < r.len() implies exists|j: int|
            {
                &&& 0 < j < ws.len()
                &&& flatten(r.take(i)) == flatten(ws.take(j))
                &&& ws[j].len() <= r[i].len()
                &&& r[i].take(ws[j].len() as int) == ws[j]
                &&& window_size(#[trigger] r[i - 1]) + window_size(ws[j]) > max
            } by {
            if i < m.len() {
                let j = choose|j: int|
                    {
                        &&& 0 < j < d.len()
                        &&& flatten(m.take(i)) == flatten(d.take(j))
                        &&& d[j].len() <= m[i].len()
                        &&& m[i].take(d[j].len() as int) == d[j]
                        &&& window_size(#[trigger] m[i - 1]) + window_size(d[j]) > max
                    };
                assert(d[j] == ws[j]);
                assert(d.take(j) =~= ws.take(j));
                if window_size(m.last()) + window_size(w) <= max {
                    assert(r == m.update(m.len() - 1, m.last() + w));
                    assert(r.take(i) =~= m.take(i));
                    assert(r[i - 1] == m[i - 1]);
                    if i == m.len() - 1 {
                        assert(r[i] == m[i] + w);
                        assert(r[i].take(ws[j].len() as int) =~= m[i].take(d[j].len() as int));
                    } else {
                        assert(r[i] == m[i]);
                    }
                } else {
                    assert(r == m.push(w));
                    assert(r.take(i) =~= m.take(i));
                    assert(r[i - 1] == m[i - 1]);
                    assert(r[i] == m[i]);
                }
            } else {
                assert(window_size(m.last()) + window_size(w) > max);
                assert(r == m.push(w));
                assert(i == m.len());
                assert(r.take(i) =~= m);
                assert(ws.take(n) =~= d);
                assert(r[i] == ws[n]);
                assert(r[i].take(ws[n].len() as int) =~= ws[n]);
                assert(r[i - 1] == m.last());
            }
        }
    }
}

/// Below a node too large for the budget, the windows partitioned from its
/// children are merged greedily: what such a child contributes to the
/// windows of its parent, between the window closed before it and the
/// windows of its later siblings, is a greedy merge of its children's
/// windows.
pub proof fn lemma_split_node_merged(
    max: u32,
    tree: SyntaxTree,
    source: Seq<u8>,
    p: int,
    anc: Seq<usize>,
    k: int,
    cur: WindowModel,
    cur_size: int,
)
    requires
        0 <= p < tree.nodes@.len(),
        0 <= k < tree.children(p).len(),
        node_size(tree, source, tree.children(p)[k] as int) > max,
        p < tree.children(p)[k] < tree.nodes@.len(),
        tree.children(tree.children(p)[k] as int).len() > 0,
    ensures
        exists|m: Seq<WindowModel>|
            {
                &&& assign_from(max, tree, source, p, anc, k, cur, cur_size) == flush(cur) + m + assign_from(
                    max,
                    tree,
                    source,
                    p,
                    anc,
                    k + 1,
                    seq![],
                    0,
                )
                &&& #[trigger] greedy_merge_of(
                    max,
                    assign_children(
                        max,
                        tree,
                        source,
                        tree.children(p)[k] as int,
                        anc.push(tree.children(p)[k]),
                    ),
                    m,
                )
            },
{
    let n = tree.children(p)[k];
    let below = assign_children(max, tree, source, n as int, anc.push(n));
    lemma_merge_greedy(max, below);
    let m = merge_windows(max, below);
    assert(greedy_merge_of(max, below, m));
}

/// Overlapping keeps the number of windows, leaves windows unchanged when
/// `k` is zero, and keeps each window as a contiguous block placed
/// after the nodes borrowed from its predecessor.
pub proof fn lemma_overlap_keeps_windows(ws: Seq<WindowModel>, k: int, i: int)
    requires
        k >= 0,
        0 <= i < ws.len(),
    ensures
        overlap_windows(ws, k).len() == ws.len(),
        overlap_windows(ws, 0) == ws,
        ({
            let off = if i > 0 {
                spec_min_int(k, ws[i - 1].len() as int)
            } else {
                0
            };
            overlap_windows(ws, k)[i].subrange(off, off + ws[i].len()) == ws[i]
        }),
{
    let off = if i > 0 {
        spec_min_int(k, ws[i - 1].len() as int)
    } else {
        0
    };
    let r = overlap_window(ws, k, i);
    assert(r.subrange(off, off + ws[i].len()) =~= ws[i]);
    assert forall|j: int| 0 <= j < ws.len() implies #[trigger] overlap_window(ws, 0, j) == ws[j] by {
        assert(overlap_window(ws, 0, j) =~= ws[j]);
    }
    assert(overlap_windows(ws, 0) =~= ws);
}

/// The node and all ancestors of `n` are nodes of a tree of `len` nodes.
pub open spec fn node_in_tree(n: AstNodeModel, len: nat) -> bool {
    &&& n.node < len
    &&& forall|a: int| 0 <= a < n.ancestors.len() ==> #[trigger] n.ancestors[a] < len
}

/// `n` refers to nodes of the tree and carries the node's own size.
pub open spec fn node_ok(n: AstNodeModel, tree: SyntaxTree, source: Seq<u8>) -> bool {
    &&& node_in_tree(n, tree.nodes@.len())
    &&& n.nws_size == node_size(tree, source, n.node as int)
}

/// Every node of every window satisfies `p`.
pub open spec fn all_nodes(ws: Seq<WindowModel>, p: spec_fn(AstNodeModel) -> bool) -> bool {
    forall|i: int, j: int| 0 <= i < ws.len() && 0 <= j < ws[i].len() ==> p(#[trigger] ws[i][j])
}

/// Every node of every window satisfies [`node_in_tree`].
pub open spec fn windows_in_tree(ws: Seq<WindowModel>, len: nat) -> bool {
    forall|i: int, j: int| 0 <= i < ws.len() && 0 <= j < ws[i].len() ==> node_in_tree(#[trigger] ws[i][j], len)
}

/// Every node of every window satisfies [`node_ok`].
pub open spec fn windows_ok(ws: Seq<WindowModel>, tree: SyntaxTree, source: Seq<u8>) -> bool {
    forall|i: int, j: int| 0 <= i < ws.len() && 0 <= j < ws[i].len() ==> node_ok(#[trigger] ws[i][j], tree, source)
}

proof fn lemma_all_nodes_concat(a: Seq<WindowModel>, b: Seq<WindowModel>, p: spec_fn(AstNodeModel) -> bool)
    requires
        all_nodes(a, p),
        all_nodes(b, p),
    ensures
        all_nodes(a + b, p),
{
    assert forall|i: int, j: int| 0 <= i < (a + b).len() && 0 <= j < (a + b)[i].len() implies p(
        #[trigger] (a + b)[i][j],
    ) by {
        if i < a.len() {
            assert((a + b)[i] == a[i]);
        } else {
            assert((a + b)[i] == b[i - a.len()]);
        }
    }
}

/// Merging keeps every node (see [`lemma_merge_preserves_nodes`]), so a
/// property of all nodes survives it.
pub proof fn lemma_merge_all_nodes(max: u32, ws: Seq<WindowModel>, p: spec_fn(AstNodeModel) -> bool)
    requires
        all_nodes(ws, p),
    ensures
        all_nodes(merge_windows(max, ws), p),
    decreases ws.len(),
{
    if ws.len() > 1 {
        let m = merge_windows(max, ws.drop_last());
        assert(all_nodes(ws.drop_last(), p)) by {
            assert forall|i: int, j: int| 0 <= i < ws.drop_last().len() && 0 <= j < ws.drop_last()[i].len() implies p(
                #[trigger] ws.drop_last()[i][j],
            ) by {
                assert(ws.drop_last()[i] == ws[i]);
            }
        }
        lemma_merge_all_nodes(max, ws.drop_last(), p);
        lemma_merge_nonempty(max, ws.drop_last());
        let w = ws.last();
        assert forall|j: int| 0 <= j < w.len() implies p(#[trigger] w[j]) by {
            assert(ws[ws.len() - 1][j] == w[j]);
        }
        if window_size(m.last()) + window_size(w) <= max {
            let mw = m.last() + w;
            assert forall|j: int| 0 <= j < mw.len() implies p(#[trigger] mw[j]) by {
                if j < m.last().len() {
                    assert(mw[j] == m[m.len() - 1][j]);
                } else {
                    assert(mw[j] == w[j - m.last().len()]);
                }
            }
            let r = m.update(m.len() - 1, mw);
            assert forall|i: int, j: int| 0 <= i < r.len() && 0 <= j < r[i].len() implies p(#[trigger] r[i][j]) by {
                if i < m.len() - 1 {
                    assert(r[i] == m[i]);
                }
            }
        } else {
            let r = m.push(w);
            assert forall|i: int, j: int| 0 <= i < r.len() && 0 <= j < r[i].len() implies p(#[trigger] r[i][j]) by {
                if i < m.len() {
                    assert(r[i] == m[i]);
                }
            }
        }
    }
}

/// Overlapping only copies nodes between windows, so a property of all
/// nodes survives it.
pub proof fn lemma_overlap_all_nodes(ws: Seq<WindowModel>, k: int, p: spec_fn(AstNodeModel) -> bool)
    requires
        k >= 0,
        all_nodes(ws, p),
    ensures
        all_nodes(overlap_windows(ws, k), p),
{
    let r = overlap_windows(ws, k);
    assert forall|i: int, j: int| 0 <= i < r.len() && 0 <= j < r[i].len() implies p(#[trigger] r[i][j]) by {
        let prev = if i > 0 {
            let pw = ws[i - 1];
            pw.subrange(pw.len() - spec_min_int(k, pw.len() as int), pw.len() as int)
        } else {
            seq![]
        };
        let next = if i + 1 < ws.len() {
            let nw = ws[i + 1];
            nw.subrange(0, spec_min_int(k, nw.len() as int))
        } else {
            seq![]
        };
        assert(r[i] == prev + ws[i] + next);
        if j < prev.len() {
            assert(r[i][j] == prev[j]);
            let pw = ws[i - 1];
            assert(prev[j] == pw[pw.len() - spec_min_int(k, pw.len() as int) + j]);
        } else if j < prev.len() + ws[i].len() {
            assert(r[i][j] == ws[i][j - prev.len()]);
        } else {
            assert(r[i][j] == next[j - prev.len() - ws[i].len()]);
        }
    }
}

/// The partition of the children of a node yields nodes of the tree, with
/// ancestors in the tree and their own sizes.
pub proof fn lemma_assign_from_ok(
    max: u32,
    tree: SyntaxTree,
    source: Seq<u8>,
    p: int,
    anc: Seq<usize>,
    k: int,
    cur: WindowModel,
    cur_size: int,
)
    requires
        tree.wf(source.len()),
        nws_count(source) <= u32::MAX,
        forall|a: int| 0 <= a < anc.len() ==> #[trigger] anc[a] < tree.nodes@.len(),
        forall|j: int| 0 <= j < cur.len() ==> node_ok(#[trigger] cur[j], tree, source),
    ensures
        windows_ok(assign_from(max, tree, source, p, anc, k, cur, cur_size), tree, source),
    decreases tree.nodes@.len() - p, tree.children(p).len() - k,
{
    let okp = |n: AstNodeModel| node_ok(n, tree, source);
    assert(windows_ok(flush(cur), tree, source));
    if !(0 <= p < tree.nodes@.len()) || k < 0 || k >= tree.children(p).len() {
    } else {
        let n = tree.children(p)[k];
        assert(p < n < tree.nodes@.len());
        let s = node_size(tree, source, n as int);
        lemma_node_size_bounded(tree, source, n as int);
        let an = AstNodeModel { node: n, nws_size: s as u32, ancestors: anc };
        assert(node_ok(an, tree, source));
        assert(windows_ok(Seq::<WindowModel>::empty(), tree, source));
        if s > max {
            let anc2 = anc.push(n);
            assert forall|a: int| 0 <= a < anc2.len() implies #[trigger] anc2[a] < tree.nodes@.len() by {
                if a < anc.len() {
                    assert(anc2[a] == anc[a]);
                }
            }
            let below = assign_children(max, tree, source, n as int, anc2);
            lemma_assign_children_ok(max, tree, source, n as int, anc2);
            assert(all_nodes(below, okp));
            lemma_merge_all_nodes(max, below, okp);
            lemma_assign_from_ok(max, tree, source, p, anc, k + 1, seq![], 0);
            let rest = assign_from(max, tree, source, p, anc, k + 1, seq![], 0);
            assert(all_nodes(rest, okp));
            assert(all_nodes(flush(cur), okp));
            lemma_all_nodes_concat(flush(cur), merge_windows(max, below), okp);
            lemma_all_nodes_concat(flush(cur) + merge_windows(max, below), rest, okp);
            assert(windows_ok(flush(cur) + merge_windows(max, below) + rest, tree, source)) by {
                let all = flush(cur) + merge_windows(max, below) + rest;
                assert forall|i: int, j: int| 0 <= i < all.len() && 0 <= j < all[i].len() implies node_ok(
                    #[trigger] all[i][j],
                    tree,
                    source,
                ) by {
                    assert(okp(all[i][j]));
                }
            }
        } else if cur_size + s > max {
            lemma_assign_from_ok(max, tree, source, p, anc, k + 1, seq![an], s as int);
            let rest = assign_from(max, tree, source, p, anc, k + 1, seq![an], s as int);
            assert(all_nodes(rest, okp));
            assert(all_nodes(flush(cur), okp));
            lemma_all_nodes_concat(flush(cur), rest, okp);
            assert(windows_ok(flush(cur) + rest, tree, source)) by {
                let all = flush(cur) + rest;
                assert forall|i: int, j: int| 0 <= i < all.len() && 0 <= j < all[i].len() implies node_ok(
                    #[trigger] all[i][j],
                    tree,
                    source,
                ) by {
                    assert(okp(all[i][j]));
                }
            }
        } else {
            let c2 = cur.push(an);
            assert forall|j: int| 0 <= j < c2.len() implies node_ok(#[trigger] c2[j], tree, source) by {
                if j < cur.len() {
                    assert(c2[j] == cur[j]);
                }
            }
            lemma_assign_from_ok(max, tree, source, p, anc, k + 1, c2, cur_size + s);
        }
    }
}

/// See [`lemma_assign_from_ok`].
pub proof fn lemma_assign_children_ok(max: u32, tree: SyntaxTree, source: Seq<u8>, p: int, anc: Seq<usize>)
    requires
        tree.wf(source.len()),
        nws_count(source) <= u32::MAX,
        forall|a: int| 0 <= a < anc.len() ==> #[trigger] anc[a] < tree.nodes@.len(),
    ensures
        windows_ok(assign_children(max, tree, source, p, anc), tree, source),
    decreases tree.nodes@.len() - p, tree.children(p).len() + 1,
{
    lemma_assign_from_ok(max, tree, source, p, anc, 0, seq![], 0);
}

/// The windows of a tree refer to nodes of that tree, with ancestors in the
/// tree, and each node carries its own non-whitespace size.
pub proof fn lemma_assign_tree_ok(max: u32, tree: SyntaxTree, source: Seq<u8>)
    requires
        tree.wf(source.len()),
        nws_count(source) <= u32::MAX,
    ensures
        windows_ok(assign_tree(max, tree, source), tree, source),
        windows_in_tree(assign_tree(max, tree, source), tree.nodes@.len()),
{
    let s = node_size(tree, source, 0);
    lemma_node_size_bounded(tree, source, 0);
    if s <= max {
    } else {
        lemma_assign_children_ok(max, tree, source, 0, seq![0usize]);
    }
    let ws = assign_tree(max, tree, source);
    assert forall|i: int, j: int| 0 <= i < ws.len() && 0 <= j < ws[i].len() implies node_in_tree(
        #[trigger] ws[i][j],
        tree.nodes@.len(),
    ) by {
        assert(node_ok(ws[i][j], tree, source));
    }
}

/// Overlapping keeps [`windows_ok`].
pub proof fn lemma_overlap_ok(ws: Seq<WindowModel>, k: int, tree: SyntaxTree, source: Seq<u8>)
    requires
        k >= 0,
        windows_ok(ws, tree, source),
    ensures
        windows_ok(overlap_windows(ws, k), tree, source),
        windows_in_tree(overlap_windows(ws, k), tree.nodes@.len()),
{
    let okp = |n: AstNodeModel| node_ok(n, tree, source);
    assert(all_nodes(ws, okp)) by {
        assert forall|i: int, j: int| 0 <= i < ws.len() && 0 <= j < ws[i].len() implies okp(#[trigger] ws[i][j]) by {
            assert(node_ok(ws[i][j], tree, source));
        }
    }
    lemma_overlap_all_nodes(ws, k, okp);
    let r = overlap_windows(ws, k);
    assert forall|i: int, j: int| 0 <= i < r.len() && 0 <= j < r[i].len() implies node_ok(
        #[trigger] r[i][j],
        tree,
        source,
    ) by {
        assert(okp(r[i][j]));
    }
}

} // verus!
