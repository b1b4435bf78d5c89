//! Source order of windows: the partition of a tree lists its nodes in the
//! order in which they appear in the source, so every window, overlapped or
//! not, runs forward, and earlier windows end before later ones start.

use vstd::prelude::*;

use crate::internal::node::{node_size, AstNodeModel};
use crate::internal::partition::{
    assign_children, assign_from, assign_tree, flatten, flush, lemma_merge_preserves_nodes,
    merge_windows, overlap_windows, spec_min_int, WindowModel,
};
use crate::internal::tree::{info_before, info_within, SyntaxTree};

verus! {

/// Node `a` ends, in bytes and in lines, no later than node `b` starts.
pub open spec fn node_before(tree: SyntaxTree, a: AstNodeModel, b: AstNodeModel) -> bool {
    info_before(tree.node(a.node as int).info, tree.node(b.node as int).info)
}

/// The nodes of `s` come in source order: each ends no later than any later
/// one starts.
pub open spec fn in_source_order(tree: SyntaxTree, s: WindowModel) -> bool {
    forall|i: int, j: int| 0 <= i < j < s.len() ==> node_before(tree, #[trigger] s[i], #[trigger] s[j])
}

/// Every node of `s` is a node of the tree lying within node `p`.
pub open spec fn all_within(tree: SyntaxTree, s: WindowModel, p: int) -> bool {
    forall|i: int|
        0 <= i < s.len() ==> (#[trigger] s[i]).node < tree.nodes@.len() && info_within(
            tree.node(s[i].node as int).info,
            tree.node(p).info,
        )
}

/// Every node of `s` starts, in bytes and in lines, no earlier than node `c`.
pub open spec fn all_from(tree: SyntaxTree, s: WindowModel, c: int) -> bool {
    forall|i: int|
        0 <= i < s.len() ==> tree.range(c).start <= tree.range((#[trigger] s[i]).node as int).start
            && tree.node(c).info.start_position.row <= tree.node(s[i].node as int).info.start_position.row
}

/// Every node of `s` ends, in bytes and in lines, no later than node `c`
/// starts.
pub open spec fn all_before(tree: SyntaxTree, s: WindowModel, c: int) -> bool {
    forall|i: int|
        0 <= i < s.len() ==> tree.range((#[trigger] s[i]).node as int).end <= tree.range(c).start
            && tree.node(s[i].node as int).info.end_position.row <= tree.node(c).info.start_position.row
}

/// Each window runs in source order, and every node of a window ends before
/// any node of a later window starts.
pub open spec fn windows_in_order(tree: SyntaxTree, ws: Seq<WindowModel>) -> bool {
    &&& forall|i: int| 0 <= i < ws.len() ==> in_source_order(tree, #[trigger] ws[i])
    &&& forall|i: int, j: int, a: int, b: int|
        0 <= i < j < ws.len() && 0 <= a < ws[i].len() && 0 <= b < ws[j].len() ==> node_before(
            tree,
            #[trigger] ws[i][a],
            #[trigger] ws[j][b],
        )
}

proof fn lemma_flatten_concat(a: Seq<WindowModel>, b: Seq<WindowModel>)
    ensures
        flatten(a + b) == flatten(a) + flatten(b),
    decreases b.len(),
{
    if b.len() == 0 {
        assert(a + b =~= a);
        assert(flatten(b) =~= Seq::<AstNodeModel>::empty());
        assert(flatten(a) + flatten(b) =~= flatten(a));
    } else {
        lemma_flatten_concat(a, b.drop_last());
        assert((a + b).drop_last() =~= a + b.drop_last());
        assert(flatten(a + b) =~= flatten(a) + flatten(b));
    }
}

proof fn lemma_flatten_flush(cur: WindowModel)
    ensures
        flatten(flush(cur)) == cur,
{
    let e = Seq::<WindowModel>::empty();
    assert(flatten(e) == Seq::<AstNodeModel>::empty());
    if cur.len() > 0 {
        assert(flush(cur) == seq![cur]);
        assert(seq![cur].drop_last() =~= e);
        assert(flatten(seq![cur]) == flatten(e) + cur);
        assert(flatten(flush(cur)) =~= cur);
    } else {
        assert(flush(cur) == e);
        assert(flatten(flush(cur)) =~= cur);
    }
}

/// Two runs in source order, the first ending before the second starts,
/// make one run in source order.
proof fn lemma_order_concat(tree: SyntaxTree, a: WindowModel, b: WindowModel)
    requires
        in_source_order(tree, a),
        in_source_order(tree, b),
        forall|i: int, j: int| 0 <= i < a.len() && 0 <= j < b.len() ==> node_before(tree, #[trigger] a[i], #[trigger] b[j]),
    ensures
        in_source_order(tree, a + b),
{
    let s = a + b;
    assert forall|i: int, j: int| 0 <= i < j < s.len() implies node_before(tree, #[trigger] s[i], #[trigger] s[j]) by {
        if j < a.len() {
            assert(s[i] == a[i] && s[j] == a[j]);
        } else if i >= a.len() {
            assert(s[i] == b[i - a.len()] && s[j] == b[j - a.len()]);
        } else {
            assert(s[i] == a[i] && s[j] == b[j - a.len()]);
        }
    }
}

/// Nodes ending before `c` starts come before nodes starting at or after
/// `c`'s start.
proof fn lemma_cross(tree: SyntaxTree, a: WindowModel, b: WindowModel, c: int)
    requires
        all_before(tree, a, c),
        all_from(tree, b, c),
    ensures
        forall|i: int, j: int| 0 <= i < a.len() && 0 <= j < b.len() ==> node_before(tree, #[trigger] a[i], #[trigger] b[j]),
{
    assert forall|i: int, j: int| 0 <= i < a.len() && 0 <= j < b.len() implies node_before(
        tree,
        #[trigger] a[i],
        #[trigger] b[j],
    ) by {
        assert(all_before(tree, a, c) ==> tree.range(a[i].node as int).end <= tree.range(c).start);
        assert(all_from(tree, b, c) ==> tree.range(c).start <= tree.range(b[j].node as int).start);
    }
}

/// The facts that the tree gives about child `k` of node `p`.
proof fn lemma_child_facts(tree: SyntaxTree, source_len: nat, p: int, k: int)
    requires
        tree.wf(source_len),
        0 <= p < tree.nodes@.len(),
        0 <= k < tree.children(p).len(),
    ensures
        p < tree.children(p)[k] < tree.nodes@.len(),
        info_within(tree.node(tree.children(p)[k] as int).info, tree.node(p).info),
        k + 1 < tree.children(p).len() ==> info_before(
            tree.node(tree.children(p)[k] as int).info,
            tree.node(tree.children(p)[k + 1] as int).info,
        ),
        tree.range(tree.children(p)[k] as int).start <= tree.range(tree.children(p)[k] as int).end,
        tree.node(tree.children(p)[k] as int).info.start_position.row <= tree.node(
            tree.children(p)[k] as int,
        ).info.end_position.row,
{
    let n = tree.children(p)[k] as int;
    assert(tree.nodes@[p].children@[k] == tree.children(p)[k]);
    assert(tree.nodes@[n] == tree.node(n));
    if k + 1 < tree.children(p).len() {
        assert(tree.nodes@[p].children@[k + 1] == tree.children(p)[k + 1]);
    }
}

/// Nodes within a child of `p` lie within `p`.
proof fn lemma_within_trans(tree: SyntaxTree, s: WindowModel, n: int, p: int)
    requires
        all_within(tree, s, n),
        info_within(tree.node(n).info, tree.node(p).info),
    ensures
        all_within(tree, s, p),
        all_from(tree, s, n),
{
}

/// Nodes of `s` within `n` end no later than `n`, hence before any node
/// that `n` comes before.
proof fn lemma_within_before(tree: SyntaxTree, s: WindowModel, n: int, c: int)
    requires
        all_within(tree, s, n),
        info_before(tree.node(n).info, tree.node(c).info),
    ensures
        all_before(tree, s, c),
{
    assert forall|i: int| 0 <= i < s.len() implies tree.range((#[trigger] s[i]).node as int).end <= tree.range(c).start
        && tree.node(s[i].node as int).info.end_position.row <= tree.node(c).info.start_position.row by {
        assert(info_within(tree.node(s[i].node as int).info, tree.node(n).info));
    }
}

/// The windows of an oversized child `n` (listing `fb`), followed by those of
/// the later siblings (listing `fr`), after the current window `cur`.
proof fn lemma_step_descend(
    tree: SyntaxTree,
    cur: WindowModel,
    fb: WindowModel,
    fr: WindowModel,
    p: int,
    n: int,
    next: Option<int>,
)
    requires
        in_source_order(tree, cur),
        all_within(tree, cur, p),
        all_before(tree, cur, n),
        in_source_order(tree, fb),
        all_within(tree, fb, n),
        in_source_order(tree, fr),
        all_within(tree, fr, p),
        info_within(tree.node(n).info, tree.node(p).info),
        tree.range(n).start <= tree.range(n).end,
        tree.node(n).info.start_position.row <= tree.node(n).info.end_position.row,
        next matches Some(c) ==> info_before(tree.node(n).info, tree.node(c).info) && all_from(tree, fr, c),
        next is None ==> fr.len() == 0,
    ensures
        in_source_order(tree, cur + (fb + fr)),
        all_within(tree, cur + (fb + fr), p),
        all_from(tree, fb + fr, n),
{
    lemma_within_trans(tree, fb, n, p);
    if let Some(c) = next {
        lemma_within_before(tree, fb, n, c);
        lemma_cross(tree, fb, fr, c);
    }
    lemma_order_concat(tree, fb, fr);
    let sfx = fb + fr;
    assert forall|i: int| 0 <= i < sfx.len() implies tree.range(n).start <= tree.range((#[trigger] sfx[i]).node as int).start
        && tree.node(n).info.start_position.row <= tree.node(sfx[i].node as int).info.start_position.row by {
        if i < fb.len() {
            assert(sfx[i] == fb[i]);
        } else {
            assert(sfx[i] == fr[i - fb.len()]);
        }
    }
    lemma_cross(tree, cur, sfx, n);
    lemma_order_concat(tree, cur, sfx);
    let f = cur + sfx;
    assert forall|i: int| 0 <= i < f.len() implies (#[trigger] f[i]).node < tree.nodes@.len() && info_within(
        tree.node(f[i].node as int).info,
        tree.node(p).info,
    ) by {
        if i < cur.len() {
            assert(f[i] == cur[i]);
        } else if i < cur.len() + fb.len() {
            assert(f[i] == fb[i - cur.len()]);
        } else {
            assert(f[i] == fr[i - cur.len() - fb.len()]);
        }
    }
}

/// A new window opened with child `n` (its windows listing `fr`, which starts
/// with `n`), after the current window `cur`.
proof fn lemma_step_new(tree: SyntaxTree, cur: WindowModel, fr: WindowModel, an: AstNodeModel, p: int, n: int, next: Option<int>)
    requires
        an.node == n,
        in_source_order(tree, cur),
        all_within(tree, cur, p),
        all_before(tree, cur, n),
        1 <= fr.len(),
        fr.take(1) == seq![an],
        in_source_order(tree, fr),
        all_within(tree, fr, p),
        tree.range(n).start <= tree.range(n).end,
        tree.node(n).info.start_position.row <= tree.node(n).info.end_position.row,
        next matches Some(c) ==> info_before(tree.node(n).info, tree.node(c).info) && all_from(tree, fr.skip(1), c),
        next is None ==> fr.len() == 1,
    ensures
        in_source_order(tree, cur + fr),
        all_within(tree, cur + fr, p),
        all_from(tree, fr, n),
{
    assert(fr[0] == an) by {
        assert(fr.take(1)[0] == fr[0]);
    }
    assert forall|i: int| 0 <= i < fr.len() implies tree.range(n).start <= tree.range((#[trigger] fr[i]).node as int).start
        && tree.node(n).info.start_position.row <= tree.node(fr[i].node as int).info.start_position.row by {
        if i > 0 {
            assert(fr.skip(1)[i - 1] == fr[i]);
        }
    }
    lemma_cross(tree, cur, fr, n);
    lemma_order_concat(tree, cur, fr);
    let f = cur + fr;
    assert forall|i: int| 0 <= i < f.len() implies (#[trigger] f[i]).node < tree.nodes@.len() && info_within(
        tree.node(f[i].node as int).info,
        tree.node(p).info,
    ) by {
        if i < cur.len() {
            assert(f[i] == cur[i]);
        } else {
            assert(f[i] == fr[i - cur.len()]);
        }
    }
}

/// Child `n` appended to the current window `cur` keeps its order, and the
/// nodes listed after `cur` start no earlier than `n`.
proof fn lemma_step_extend(tree: SyntaxTree, cur: WindowModel, an: AstNodeModel, p: int, n: int, next: Option<int>)
    requires
        an.node == n,
        n < tree.nodes@.len(),
        in_source_order(tree, cur),
        all_within(tree, cur, p),
        all_before(tree, cur, n),
        info_within(tree.node(n).info, tree.node(p).info),
        tree.range(n).start <= tree.range(n).end,
        tree.node(n).info.start_position.row <= tree.node(n).info.end_position.row,
        next matches Some(c) ==> info_before(tree.node(n).info, tree.node(c).info),
    ensures
        in_source_order(tree, cur.push(an)),
        all_within(tree, cur.push(an), p),
        next matches Some(c) ==> all_before(tree, cur.push(an), c),
        forall|f: WindowModel|
            #![trigger f.skip(cur.len() as int)]
            cur.len() + 1 <= f.len() && f.take(cur.len() + 1int) == cur.push(an) && (next matches Some(c) ==> all_from(
                tree,
                f.skip(cur.len() + 1int),
                c,
            )) && (next is None ==> f.len() == cur.len() + 1) ==> all_from(tree, f.skip(cur.len() as int), n)
                && f.take(cur.len() as int) == cur,
{
    let cur2 = cur.push(an);
    assert forall|i: int, j: int| 0 <= i < j < cur2.len() implies node_before(tree, #[trigger] cur2[i], #[trigger] cur2[j]) by {
        if j < cur.len() {
            assert(cur2[i] == cur[i] && cur2[j] == cur[j]);
        } else {
            assert(cur2[i] == cur[i]);
        }
    }
    assert forall|i: int| 0 <= i < cur2.len() implies (#[trigger] cur2[i]).node < tree.nodes@.len() && info_within(
        tree.node(cur2[i].node as int).info,
        tree.node(p).info,
    ) by {
        if i < cur.len() {
            assert(cur2[i] == cur[i]);
        }
    }
    if let Some(c) = next {
        assert forall|i: int| 0 <= i < cur2.len() implies tree.range((#[trigger] cur2[i]).node as int).end <= tree.range(
            c,
        ).start && tree.node(cur2[i].node as int).info.end_position.row <= tree.node(c).info.start_position.row by {
            if i < cur.len() {
                assert(cur2[i] == cur[i]);
            }
        }
    }
    assert forall|f: WindowModel|
        #![trigger f.skip(cur.len() as int)]
        cur.len() + 1 <= f.len() && f.take(cur.len() + 1int) == cur2 && (next matches Some(c) ==> all_from(
            tree,
            f.skip(cur.len() + 1int),
            c,
        )) && (next is None ==> f.len() == cur.len() + 1) implies all_from(tree, f.skip(cur.len() as int), n)
            && f.take(cur.len() as int) == cur by {
        assert(f.take(cur.len() as int) =~= cur) by {
            assert forall|i: int| 0 <= i < cur.len() implies f[i] == cur[i] by {
                assert(f.take(cur.len() + 1int)[i] == cur2[i]);
            }
        }
        let sfx = f.skip(cur.len() as int);
        assert forall|i: int| 0 <= i < sfx.len() implies tree.range(n).start <= tree.range((#[trigger] sfx[i]).node as int).start
            && tree.node(n).info.start_position.row <= tree.node(sfx[i].node as int).info.start_position.row by {
            if i == 0 {
                assert(sfx[0] == f[cur.len() as int]);
                assert(f.take(cur.len() + 1int)[cur.len() as int] == cur2[cur.len() as int]);
            } else {
                let c = next->0;
                assert(sfx[i] == f.skip(cur.len() + 1int)[i - 1]);
                assert(info_before(tree.node(n).info, tree.node(c).info));
                assert(tree.range(c).start <= tree.range(sfx[i].node as int).start);
                assert(tree.node(c).info.start_position.row <= tree.node(sfx[i].node as int).info.start_position.row);
            }
        }
    }
}

/// The nodes listed by the windows of `assign_from` come in source order,
/// lie within `p`, begin with `cur`, and after `cur` start no earlier than
/// child `k`.
proof fn lemma_assign_from_order(
    max: u32,
    tree: SyntaxTree,
    source: Seq<u8>,
    p: int,
    anc: Seq<usize>,
    k: int,
    cur: WindowModel,
    cur_size: int,
)
    requires
        tree.wf(source.len()),
        0 <= p < tree.nodes@.len(),
        k >= 0,
        in_source_order(tree, cur),
        all_within(tree, cur, p),
        k < tree.children(p).len() ==> all_before(tree, cur, tree.children(p)[k] as int),
    ensures
        ({
            let f = flatten(assign_from(max, tree, source, p, anc, k, cur, cur_size));
            &&& cur.len() <= f.len()
            &&& f.take(cur.len() as int) == cur
            &&& k >= tree.children(p).len() ==> f == cur
            &&& in_source_order(tree, f)
            &&& all_within(tree, f, p)
            &&& k < tree.children(p).len() ==> all_from(
                tree,
                f.skip(cur.len() as int),
                tree.children(p)[k] as int,
            )
        }),
    decreases tree.nodes@.len() - p, tree.children(p).len() - k,
{
    let out = assign_from(max, tree, source, p, anc, k, cur, cur_size);
    if k >= tree.children(p).len() {
        lemma_flatten_flush(cur);
        assert(cur.take(cur.len() as int) =~= cur);
    } else {
        lemma_child_facts(tree, source.len(), p, k);
        let n = tree.children(p)[k];
        let s = node_size(tree, source, n as int);
        let an = AstNodeModel { node: n, nws_size: s as u32, ancestors: anc };
        let next: Option<int> = if k + 1 < tree.children(p).len() {
            Some(tree.children(p)[k + 1] as int)
        } else {
            None
        };
        let e = Seq::<AstNodeModel>::empty();
        if s > max && tree.children(n as int).len() == 0 {
            let leaf = seq![an];
            let rest = assign_from(max, tree, source, p, anc, k + 1, e, 0);
            assert(in_source_order(tree, e) && all_within(tree, e, p));
            if k + 1 < tree.children(p).len() {
                assert(all_before(tree, e, tree.children(p)[k + 1] as int));
            }
            lemma_assign_from_order(max, tree, source, p, anc, k + 1, e, 0);
            let fr = flatten(rest);
            assert(fr.skip(0) =~= fr);
            if next is None {
                lemma_flatten_flush(e);
            }
            assert(in_source_order(tree, leaf));
            assert(all_within(tree, leaf, n as int));
            lemma_flatten_flush(leaf);
            assert(out == flush(cur) + flush(leaf) + rest);
            lemma_flatten_concat(flush(cur) + flush(leaf), rest);
            lemma_flatten_concat(flush(cur), flush(leaf));
            lemma_flatten_flush(cur);
            assert(flatten(out) =~= cur + (leaf + fr));
            lemma_step_descend(tree, cur, leaf, fr, p, n as int, next);
            assert(flatten(out).take(cur.len() as int) =~= cur);
            assert(flatten(out).skip(cur.len() as int) =~= leaf + fr);
        } else if s > max {
            let anc2 = anc.push(n);
            let below = assign_children(max, tree, source, n as int, anc2);
            lemma_assign_children_order(max, tree, source, n as int, anc2);
            lemma_merge_preserves_nodes(max, below);
            let m = merge_windows(max, below);
            let rest = assign_from(max, tree, source, p, anc, k + 1, e, 0);
            assert(in_source_order(tree, e) && all_within(tree, e, p));
            if k + 1 < tree.children(p).len() {
                assert(all_before(tree, e, tree.children(p)[k + 1] as int));
            }
            lemma_assign_from_order(max, tree, source, p, anc, k + 1, e, 0);
            let fb = flatten(below);
            let fr = flatten(rest);
            assert(fr.skip(0) =~= fr);
            if next is None {
                lemma_flatten_flush(e);
            }
            assert(out == flush(cur) + m + rest);
            lemma_flatten_concat(flush(cur) + m, rest);
            lemma_flatten_concat(flush(cur), m);
            lemma_flatten_flush(cur);
            assert(flatten(out) =~= cur + (fb + fr));
            lemma_step_descend(tree, cur, fb, fr, p, n as int, next);
            assert(flatten(out).take(cur.len() as int) =~= cur);
            assert(flatten(out).skip(cur.len() as int) =~= fb + fr);
        } else if cur_size + s > max {
            let one = seq![an];
            assert(in_source_order(tree, one));
            assert(all_within(tree, one, p));
            if let Some(c) = next {
                assert(all_before(tree, one, c));
            }
            let rest = assign_from(max, tree, source, p, anc, k + 1, one, s as int);
            lemma_assign_from_order(max, tree, source, p, anc, k + 1, one, s as int);
            let fr = flatten(rest);
            if next is None {
                lemma_flatten_flush(one);
            }
            assert(out == flush(cur) + rest);
            lemma_flatten_concat(flush(cur), rest);
            lemma_flatten_flush(cur);
            assert(flatten(out) =~= cur + fr);
            lemma_step_new(tree, cur, fr, an, p, n as int, next);
            assert(flatten(out).take(cur.len() as int) =~= cur);
            assert(flatten(out).skip(cur.len() as int) =~= fr);
        } else {
            lemma_step_extend(tree, cur, an, p, n as int, next);
            lemma_assign_from_order(max, tree, source, p, anc, k + 1, cur.push(an), cur_size + s);
            let f = flatten(out);
            assert(f.skip(cur.len() as int) == f.skip(cur.len() as int));
        }
    }
}

/// The nodes listed by the windows of the children of `p` come in source
/// order and lie within `p`.
proof fn lemma_assign_children_order(max: u32, tree: SyntaxTree, source: Seq<u8>, p: int, anc: Seq<usize>)
    requires
        tree.wf(source.len()),
        0 <= p < tree.nodes@.len(),
    ensures
        in_source_order(tree, flatten(assign_children(max, tree, source, p, anc))),
        all_within(tree, flatten(assign_children(max, tree, source, p, anc)), p),
    decreases tree.nodes@.len() - p, tree.children(p).len() + 1,
{
    let e = Seq::<AstNodeModel>::empty();
    assert(in_source_order(tree, e));
    assert(all_within(tree, e, p));
    assert(all_before(tree, e, 0));
    if 0 < tree.children(p).len() {
        assert(all_before(tree, e, tree.children(p)[0] as int));
    }
    lemma_assign_from_order(max, tree, source, p, anc, 0, e, 0);
}

/// Runs in source order split into windows keep that order window by window.
proof fn lemma_windows_in_order_of_flatten(tree: SyntaxTree, ws: Seq<WindowModel>)
    requires
        in_source_order(tree, flatten(ws)),
    ensures
        windows_in_order(tree, ws),
    decreases ws.len(),
{
    if ws.len() > 0 {
        let init = ws.drop_last();
        let fi = flatten(init);
        let l = ws.last();
        let f = flatten(ws);
        assert(f == fi + l);
        assert(in_source_order(tree, fi)) by {
            assert forall|i: int, j: int| 0 <= i < j < fi.len() implies node_before(tree, #[trigger] fi[i], #[trigger] fi[j]) by {
                assert(f[i] == fi[i] && f[j] == fi[j]);
            }
        }
        lemma_windows_in_order_of_flatten(tree, init);
        assert forall|i: int| 0 <= i < ws.len() - 1 implies in_source_order(tree, #[trigger] ws[i]) by {
            assert(ws[i] == init[i]);
        }
        assert(in_source_order(tree, l)) by {
            assert forall|i: int, j: int| 0 <= i < j < l.len() implies node_before(tree, #[trigger] l[i], #[trigger] l[j]) by {
                assert(f[fi.len() + i] == l[i] && f[fi.len() + j] == l[j]);
            }
        }
        assert forall|i: int, j: int, a: int, b: int|
            0 <= i < j < ws.len() && 0 <= a < ws[i].len() && 0 <= b < ws[j].len() implies node_before(
            tree,
            #[trigger] ws[i][a],
            #[trigger] ws[j][b],
        ) by {
            if j < ws.len() - 1 {
                assert(ws[i] == init[i] && ws[j] == init[j]);
            } else {
                let x = lemma_flatten_index(init, i, a);
                assert(f[x] == fi[x]);
                assert(f[fi.len() + b] == l[b]);
            }
        }
    }
}

/// Node `a` of window `i` sits in the flattened list.
proof fn lemma_flatten_index(ws: Seq<WindowModel>, i: int, a: int) -> (x: int)
    requires
        0 <= i < ws.len(),
        0 <= a < ws[i].len(),
    ensures
        0 <= x < flatten(ws).len(),
        flatten(ws)[x] == ws[i][a],
    decreases ws.len(),
{
    let init = ws.drop_last();
    assert(flatten(ws) == flatten(init) + ws.last());
    if i == ws.len() - 1 {
        flatten(init).len() + a
    } else {
        assert(ws[i] == init[i]);
        lemma_flatten_index(init, i, a)
    }
}

/// The windows of a tree keep source order: each window runs forward and
/// every node of a window ends, in bytes and in lines, before any node of a
/// later window starts.
pub proof fn lemma_assign_tree_in_order(max: u32, tree: SyntaxTree, source: Seq<u8>)
    requires
        tree.wf(source.len()),
    ensures
        windows_in_order(tree, assign_tree(max, tree, source)),
{
    let ws = assign_tree(max, tree, source);
    let s = node_size(tree, source, 0);
    if s <= max || tree.children(0).len() == 0 {
        let w = ws[0];
        let e = Seq::<WindowModel>::empty();
        assert(flatten(e) == Seq::<AstNodeModel>::empty());
        assert(ws.drop_last() =~= e);
        assert(flatten(ws) == flatten(e) + w);
        assert(flatten(ws) =~= w);
    } else {
        lemma_assign_children_order(max, tree, source, 0, seq![0usize]);
    }
    lemma_windows_in_order_of_flatten(tree, ws);
}

/// Overlapping windows that keep source order gives windows that each run
/// forward.
pub proof fn lemma_overlap_in_order(tree: SyntaxTree, ws: Seq<WindowModel>, k: int)
    requires
        k >= 0,
        windows_in_order(tree, ws),
    ensures
        forall|i: int| 0 <= i < ws.len() ==> in_source_order(tree, #[trigger] overlap_windows(ws, k)[i]),
{
    assert forall|i: int| 0 <= i < ws.len() implies in_source_order(tree, #[trigger] overlap_windows(ws, k)[i]) by {
        let prev = if i > 0 {
            let pw = ws[i - 1];
            pw.subrange(pw.len() - spec_min_int(k, pw.len() as int), pw.len() as int)
        } else {
            seq![]
        };
        let next = if i + 1 < ws.len() {
            let nw = ws[i + 1];
            nw.subrange(0, spec_min_int(k, nw.len() as int))
        } else {
            seq![]
        };
        let w = ws[i];
        assert(overlap_windows(ws, k)[i] == prev + w + next);
        assert(in_source_order(tree, w));
        assert(in_source_order(tree, prev)) by {
            if i > 0 {
                let pw = ws[i - 1];
                let off = pw.len() - spec_min_int(k, pw.len() as int);
                assert(in_source_order(tree, pw));
                assert forall|a: int, b: int| 0 <= a < b < prev.len() implies node_before(tree, #[trigger] prev[a], #[trigger] prev[b]) by {
                    assert(prev[a] == pw[off + a] && prev[b] == pw[off + b]);
                }
            }
        }
        assert(in_source_order(tree, next)) by {
            if i + 1 < ws.len() {
                let nw = ws[i + 1];
                assert(in_source_order(tree, nw));
                assert forall|a: int, b: int| 0 <= a < b < next.len() implies node_before(tree, #[trigger] next[a], #[trigger] next[b]) by {
                    assert(next[a] == nw[a] && next[b] == nw[b]);
                }
            }
        }
        assert forall|a: int, b: int| 0 <= a < prev.len() && 0 <= b < w.len() implies node_before(tree, #[trigger] prev[a], #[trigger] w[b]) by {
            let pw = ws[i - 1];
            let off = pw.len() - spec_min_int(k, pw.len() as int);
            assert(prev[a] == pw[off + a]);
            assert(node_before(tree, ws[i - 1][off + a], ws[i][b]));
        }
        lemma_order_concat(tree, prev, w);
        let pw2 = prev + w;
        assert forall|a: int, b: int| 0 <= a < pw2.len() && 0 <= b < next.len() implies node_before(tree, #[trigger] pw2[a], #[trigger] next[b]) by {
            assert(next[b] == ws[i + 1][b]);
            if a < prev.len() {
                let pw = ws[i - 1];
                let off = pw.len() - spec_min_int(k, pw.len() as int);
                assert(pw2[a] == pw[off + a]);
                assert(node_before(tree, ws[i - 1][off + a], ws[i + 1][b]));
            } else {
                assert(pw2[a] == w[a - prev.len()]);
                assert(node_before(tree, ws[i][a - prev.len()], ws[i + 1][b]));
            }
        }
        lemma_order_concat(tree, pw2, next);
    }
}

/// A window whose nodes come in source order starts, in bytes and in lines,
/// no later than it ends.
pub proof fn lemma_window_forward(tree: SyntaxTree, source_len: nat, w: WindowModel)
    requires
        tree.wf(source_len),
        w.len() > 0,
        forall|j: int| 0 <= j < w.len() ==> (#[trigger] w[j]).node < tree.nodes@.len(),
        in_source_order(tree, w),
    ensures
        tree.node(w[0].node as int).info.start_position.row <= tree.node(w.last().node as int).info.end_position.row,
        tree.range(w[0].node as int).start <= tree.range(w.last().node as int).end,
{
    let a = w[0].node as int;
    let b = w.last().node as int;
    assert(tree.nodes@[a] == tree.node(a));
    assert(tree.nodes@[b] == tree.node(b));
    if w.len() > 1 {
        assert(node_before(tree, w[0], w[w.len() - 1]));
    }
}

/// The partition of a tree, overlapped by `k` nodes when `k` is positive,
/// has windows that each run in source order.
pub proof fn lemma_partition_in_order(max: u32, k: int, tree: SyntaxTree, source: Seq<u8>)
    requires
        tree.wf(source.len()),
        k >= 0,
    ensures
        forall|i: int|
            0 <= i < assign_tree(max, tree, source).len() ==> in_source_order(
                tree,
                #[trigger] assign_tree(max, tree, source)[i],
            ),
        forall|i: int|
            0 <= i < assign_tree(max, tree, source).len() ==> in_source_order(
                tree,
                #[trigger] overlap_windows(assign_tree(max, tree, source), k)[i],
            ),
{
    let ws = assign_tree(max, tree, source);
    lemma_assign_tree_in_order(max, tree, source);
    lemma_overlap_in_order(tree, ws, k);
}

} // verus!
