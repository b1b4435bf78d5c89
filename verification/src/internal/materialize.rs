//! Rebuilding source text from windows of nodes or from byte-range segments,
//! restoring the newlines and indentation between the pieces.

use vstd::prelude::*;
use vstd::utf8::{encode_utf8, valid_utf8};

use crate::byte_range::ByteRange;
use crate::internal::node::{AstNode, AstNodeModel};
use crate::internal::tree::SyntaxTree;
use crate::nws::{is_ws, lemma_nws_all_ws, lemma_nws_concat, nws_count};
use crate::text::{
    extend_from_range, lemma_ascii_valid, lemma_valid_utf8_concat, push_repeated, str_from_utf8,
    string_from_valid_utf8,
};

verus! {

/// A piece of text placed at a (row, column) position of the source.
pub struct Piece {
    /// Row where the piece starts.
    pub start_row: int,
    /// Column where the piece starts.
    pub start_col: int,
    /// Row just past the piece's end.
    pub end_row: int,
    /// Column just past the piece's end.
    pub end_col: int,
    /// The piece's bytes.
    pub text: Seq<u8>,
}

/// `n` copies of byte `b`.
pub open spec fn repeat(b: u8, n: int) -> Seq<u8> {
    Seq::new(n as nat, |_i: int| b)
}

/// Layout state after placing `pieces[0..n]`: the text so far and the
/// cursor (row, column).
pub open spec fn layout_state(pieces: Seq<Piece>, n: int) -> (Seq<u8>, int, int)
    decreases n,
{
    if n <= 0 {
        (repeat(0x20, pieces[0].start_col), pieces[0].start_row, pieces[0].start_col)
    } else {
        let (code, line, col) = layout_state(pieces, n - 1);
        let p = pieces[n - 1];
        let code1 = if p.start_row > line {
            code + repeat(0x0a, p.start_row - line)
        } else {
            code
        };
        let col1 = if p.start_row > line {
            0
        } else {
            col
        };
        let code2 = if p.start_col > col1 {
            code1 + repeat(0x20, p.start_col - col1)
        } else {
            code1
        };
        (code2 + p.text, p.end_row, p.end_col)
    }
}

/// The text rebuilt from placed pieces: the first piece is indented to its
/// column, and before every piece newlines are added to reach its row and
/// spaces to reach its column.
pub open spec fn layout(pieces: Seq<Piece>) -> Seq<u8> {
    if pieces.len() == 0 {
        seq![]
    } else {
        layout_state(pieces, pieces.len() as int).0
    }
}

/// The pieces of a window of nodes: their positions and source text.
pub open spec fn node_pieces(tree: SyntaxTree, source: Seq<u8>, window: Seq<AstNodeModel>) -> Seq<
    Piece,
> {
    Seq::new(
        window.len(),
        |i: int|
            {
                let info = tree.node(window[i].node as int).info;
                Piece {
                    start_row: info.start_position.row as int,
                    start_col: info.start_position.column as int,
                    end_row: info.end_position.row as int,
                    end_col: info.end_position.column as int,
                    text: source.subrange(info.range.start as int, info.range.end as int),
                }
            },
    )
}

/// (row, column) of byte `offset` of `s`: newlines before it, and bytes since
/// the last of them.
pub open spec fn offset_position(s: Seq<u8>, offset: int) -> (int, int)
    decreases offset,
{
    if offset <= 0 {
        (0, 0)
    } else {
        let (l, c) = offset_position(s, offset - 1);
        if s[offset - 1] == 0x0a {
            (l + 1, 0)
        } else {
            (l, c + 1)
        }
    }
}

/// The text of a segment: its bytes when they are valid UTF-8, else nothing.
pub open spec fn segment_text(source: Seq<u8>, r: ByteRange) -> Seq<u8> {
    let t = source.subrange(r.start as int, r.end as int);
    if valid_utf8(t) {
        t
    } else {
        seq![]
    }
}

/// The pieces of a list of segments, placed where they lie in `source`.
pub open spec fn segment_pieces(source: Seq<u8>, segments: Seq<ByteRange>) -> Seq<Piece> {
    Seq::new(
        segments.len(),
        |i: int|
            Piece {
                start_row: offset_position(source, segments[i].start as int).0,
                start_col: offset_position(source, segments[i].start as int).1,
                end_row: offset_position(source, segments[i].end as int).0,
                end_col: offset_position(source, segments[i].end as int).1,
                text: segment_text(source, segments[i]),
            },
    )
}

/// Nodes of the window lie in the tree and their texts are valid UTF-8.
pub open spec fn window_texts_valid(tree: SyntaxTree, source: Seq<u8>, window: Seq<AstNodeModel>) -> bool {
    forall|i: int|
        0 <= i < window.len() ==> {
            &&& (#[trigger] window[i]).node < tree.nodes@.len()
            &&& valid_utf8(
                source.subrange(
                    tree.range(window[i].node as int).start as int,
                    tree.range(window[i].node as int).end as int,
                ),
            )
        }
}

proof fn lemma_repeat_valid(b: u8, n: int)
    requires
        b < 0x80,
    ensures
        valid_utf8(repeat(b, n)),
{
    lemma_ascii_valid(repeat(b, n));
}

/// Rebuilds the bytes of a window of nodes (see [`layout`]).
pub fn rebuild_code_bytes(window: &[AstNode], tree: &SyntaxTree, source: &[u8]) -> (r: Vec<u8>)
    requires
        tree.wf(source@.len()),
        forall|i: int| 0 <= i < window@.len() ==> (#[trigger] window@[i]).node < tree.nodes@.len(),
    ensures
        r@ == layout(node_pieces(*tree, source@, window.deep_view())),
        window_texts_valid(*tree, source@, window.deep_view()) ==> valid_utf8(r@),
{
    let ghost pieces = node_pieces(*tree, source@, window.deep_view());
    let mut code: Vec<u8> = Vec::new();
    if window.len() == 0 {
        return code;
    }
    let first = &window[0];
    let mut current_line = first.start_line(tree);
    let mut current_col = first.start_col(tree);
    push_repeated(&mut code, 0x20, current_col);
    proof {
        lemma_repeat_valid(0x20, current_col as int);
        assert(code@ =~= repeat(0x20, current_col as int));
    }
    let mut k: usize = 0;
    while k < window.len()
        invariant
            tree.wf(source@.len()),
            forall|i: int| 0 <= i < window@.len() ==> (#[trigger] window@[i]).node < tree.nodes@.len(),
            pieces == node_pieces(*tree, source@, window.deep_view()),
            pieces.len() == window@.len(),
            0 < window@.len(),
            k <= window@.len(),
            layout_state(pieces, k as int) == (code@, current_line as int, current_col as int),
            window_texts_valid(*tree, source@, window.deep_view()) ==> valid_utf8(code@),
        decreases window@.len() - k,
    {
        let node = &window[k];
        assert(window.deep_view()[k as int] == node.deep_view());
        let ghost before = code@;
        let start_line = node.start_line(tree);
        let start_col = node.start_col(tree);
        if start_line > current_line {
            push_repeated(&mut code, 0x0a, start_line - current_line);
            current_col = 0;
            proof {
                lemma_repeat_valid(0x0a, (start_line - current_line) as int);
                if window_texts_valid(*tree, source@, window.deep_view()) {
                    lemma_valid_utf8_concat(before, repeat(0x0a, (start_line - current_line) as int));
                }
            }
        }
        let ghost mid = code@;
        if start_col > current_col {
            push_repeated(&mut code, 0x20, start_col - current_col);
            proof {
                lemma_repeat_valid(0x20, (start_col - current_col) as int);
                if window_texts_valid(*tree, source@, window.deep_view()) {
                    lemma_valid_utf8_concat(mid, repeat(0x20, (start_col - current_col) as int));
                }
            }
        }
        let ghost mid2 = code@;
        let range = tree.nodes[node.node].info.range;
        extend_from_range(&mut code, source, range.start as usize, range.end as usize);
        proof {
            if window_texts_valid(*tree, source@, window.deep_view()) {
                assert(window.deep_view()[k as int].node == node.node);
                lemma_valid_utf8_concat(mid2, source@.subrange(range.start as int, range.end as int));
            }
        }
        current_line = node.end_line(tree);
        current_col = node.end_col(tree);
        k = k + 1;
        assert(code@ =~= layout_state(pieces, k as int).0);
    }
    code
}

/// Rebuilds source code from a window of nodes, restoring newlines and
/// indentation between nodes from their line/column coordinates. Every
/// node's text must be valid UTF-8.
pub fn rebuild_code(window: &[AstNode], tree: &SyntaxTree, source: &[u8]) -> (r: String)
    requires
        tree.wf(source@.len()),
        window_texts_valid(*tree, source@, window.deep_view()),
    ensures
        encode_utf8(r@) == layout(node_pieces(*tree, source@, window.deep_view())),
{
    assert forall|i: int| 0 <= i < window@.len() implies (#[trigger] window@[i]).node
        < tree.nodes@.len() by {
        assert(window.deep_view()[i].node == window@[i].node);
    }
    let bytes = rebuild_code_bytes(window, tree, source);
    string_from_valid_utf8(bytes)
}

/// Computes the 0-based (line, column) position of a byte offset in source.
pub fn byte_offset_position(source: &[u8], offset: usize) -> (r: (u32, u32))
    requires
        offset <= source@.len(),
        offset <= u32::MAX,
    ensures
        (r.0 as int, r.1 as int) == offset_position(source@, offset as int),
{
    let mut line: u32 = 0;
    let mut col: u32 = 0;
    let mut i: usize = 0;
    while i < offset
        invariant
            i <= offset <= source@.len(),
            offset <= u32::MAX,
            line <= i,
            col <= i,
            (line as int, col as int) == offset_position(source@, i as int),
        decreases offset - i,
    {
        if source[i] == 0x0a {
            line = line + 1;
            col = 0;
        } else {
            col = col + 1;
        }
        i = i + 1;
    }
    (line, col)
}

/// Every segment runs forward inside the source.
pub open spec fn segments_in_source(segments: Seq<ByteRange>, source_len: nat) -> bool {
    forall|i: int|
        0 <= i < segments.len() ==> (#[trigger] segments[i]).start <= segments[i].end <= source_len
}

/// Rebuilds the bytes of a list of segments (see [`layout`]).
pub fn rebuild_segments_bytes(segments: &[ByteRange], source: &[u8]) -> (r: Vec<u8>)
    requires
        segments_in_source(segments@, source@.len()),
    ensures
        r@ == layout(segment_pieces(source@, segments@)),
        valid_utf8(r@),
{
    let ghost pieces = segment_pieces(source@, segments@);
    let mut code: Vec<u8> = Vec::new();
    if segments.len() == 0 {
        proof {
            lemma_ascii_valid(code@);
        }
        return code;
    }
    let mut current_line: u32 = 0;
    let mut current_col: u32 = 0;
    let mut k: usize = 0;
    while k < segments.len()
        invariant
            segments_in_source(segments@, source@.len()),
            pieces == segment_pieces(source@, segments@),
            pieces.len() == segments@.len(),
            0 < segments@.len(),
            k <= segments@.len(),
            k > 0 ==> layout_state(pieces, k as int) == (
                code@,
                current_line as int,
                current_col as int,
            ),
            k > 0 ==> valid_utf8(code@),
            k == 0 ==> code@.len() == 0,
        decreases segments@.len() - k,
    {
        let seg = segments[k];
        let start = seg.start as usize;
        let end = seg.end as usize;
        let (seg_start_line, seg_start_col) = byte_offset_position(source, start);
        if k == 0 {
            push_repeated(&mut code, 0x20, seg_start_col);
            current_line = seg_start_line;
            current_col = seg_start_col;
            proof {
                lemma_repeat_valid(0x20, seg_start_col as int);
                assert(code@ =~= repeat(0x20, seg_start_col as int));
                assert(layout_state(pieces, 0) == (code@, current_line as int, current_col as int));
            }
        }
        let ghost before = code@;
        if seg_start_line > current_line {
            push_repeated(&mut code, 0x0a, seg_start_line - current_line);
            current_col = 0;
            proof {
                lemma_repeat_valid(0x0a, (seg_start_line - current_line) as int);
                lemma_valid_utf8_concat(before, repeat(0x0a, (seg_start_line - current_line) as int));
            }
        }
        let ghost mid = code@;
        if seg_start_col > current_col {
            push_repeated(&mut code, 0x20, seg_start_col - current_col);
            proof {
                lemma_repeat_valid(0x20, (seg_start_col - current_col) as int);
                lemma_valid_utf8_concat(mid, repeat(0x20, (seg_start_col - current_col) as int));
            }
        }
        let ghost mid2 = code@;
        let bytes = vstd::slice::slice_subrange(source, start, end);
        if str_from_utf8(bytes).is_some() {
            extend_from_range(&mut code, source, start, end);
            proof {
                lemma_valid_utf8_concat(mid2, source@.subrange(start as int, end as int));
            }
        } else {
            assert(code@ =~= mid2 + segment_text(source@, seg));
        }
        let (end_line, end_col) = byte_offset_position(source, end);
        current_line = end_line;
        current_col = end_col;
        k = k + 1;
        assert(code@ =~= layout_state(pieces, k as int).0);
    }
    code
}

/// Rebuilds source code from byte-range segments, restoring newlines and
/// indentation between segments from their positions in the source. A
/// segment whose bytes are not valid UTF-8 contributes no text.
pub fn rebuild_from_segments(segments: &[ByteRange], source: &[u8]) -> (r: String)
    requires
        segments_in_source(segments@, source@.len()),
    ensures
        encode_utf8(r@) == layout(segment_pieces(source@, segments@)),
{
    let bytes = rebuild_segments_bytes(segments, source);
    string_from_valid_utf8(bytes)
}

/// The byte ranges of the nodes of a window.
pub open spec fn window_segments(tree: SyntaxTree, window: Seq<AstNodeModel>) -> Seq<ByteRange> {
    Seq::new(window.len(), |i: int| tree.range(window[i].node as int))
}

/// Node positions agree with the source: each node starts and ends at the
/// (row, column) of its start and end offsets.
pub open spec fn positions_match_source(tree: SyntaxTree, source: Seq<u8>, window: Seq<AstNodeModel>) -> bool {
    forall|i: int|
        0 <= i < window.len() ==> {
            let info = tree.node((#[trigger] window[i]).node as int).info;
            &&& offset_position(source, info.range.start as int) == (
                info.start_position.row as int,
                info.start_position.column as int,
            )
            &&& offset_position(source, info.range.end as int) == (
                info.end_position.row as int,
                info.end_position.column as int,
            )
        }
}

/// Rebuilding a window from its nodes and rebuilding it from the byte ranges
/// of those nodes give the same text, when node positions agree with the
/// source and every node's text is valid UTF-8.
pub proof fn lemma_rebuild_nodes_equals_segments(
    tree: SyntaxTree,
    source: Seq<u8>,
    window: Seq<AstNodeModel>,
)
    requires
        window_texts_valid(tree, source, window),
        positions_match_source(tree, source, window),
    ensures
        layout(node_pieces(tree, source, window)) == layout(
            segment_pieces(source, window_segments(tree, window)),
        ),
{
    let a = node_pieces(tree, source, window);
    let b = segment_pieces(source, window_segments(tree, window));
    assert forall|i: int| 0 <= i < window.len() implies #[trigger] a[i] == b[i] by {
        assert(window_texts_valid(tree, source, window));
        let w = window[i];
        assert(w.node < tree.nodes@.len());
    }
    assert(a =~= b);
}

/// On a tree whose node positions agree with the source, as parsing checks,
/// rebuilding any window of valid UTF-8 node texts from its nodes and from
/// its byte segments gives the same text.
pub proof fn lemma_positioned_rebuild_agrees(tree: SyntaxTree, source: Seq<u8>, window: Seq<AstNodeModel>)
    requires
        tree.positioned(source),
        window_texts_valid(tree, source, window),
    ensures
        layout(node_pieces(tree, source, window)) == layout(
            segment_pieces(source, window_segments(tree, window)),
        ),
{
    assert forall|i: int| 0 <= i < window.len() implies {
        let info = tree.node((#[trigger] window[i]).node as int).info;
        &&& offset_position(source, info.range.start as int) == (
            info.start_position.row as int,
            info.start_position.column as int,
        )
        &&& offset_position(source, info.range.end as int) == (
            info.end_position.row as int,
            info.end_position.column as int,
        )
    } by {
        assert(window[i].node < tree.nodes@.len());
        assert(crate::internal::tree::info_positioned(tree.nodes@[window[i].node as int].info, source));
    }
    lemma_rebuild_nodes_equals_segments(tree, source, window);
}

/// Rebuilding no segments gives the empty text; rebuilding one segment gives
/// its text indented by the column at which it starts, so one segment
/// spanning a whole valid UTF-8 source gives the source back.
pub proof fn lemma_rebuild_few_segments(source: Seq<u8>, r: ByteRange)
    requires
        r.start <= r.end <= source.len(),
    ensures
        layout(segment_pieces(source, seq![])) == Seq::<u8>::empty(),
        layout(segment_pieces(source, seq![r])) == repeat(0x20, offset_position(source, r.start as int).1)
            + segment_text(source, r),
        r.start == 0 && r.end == source.len() && valid_utf8(source) ==> layout(
            segment_pieces(source, seq![r]),
        ) == source,
{
    let pieces = segment_pieces(source, seq![r]);
    assert(pieces.len() == 1);
    assert(layout_state(pieces, 0).0 == repeat(0x20, pieces[0].start_col));
    assert(layout(pieces) == layout_state(pieces, 1).0);
    assert(layout(pieces) =~= repeat(0x20, offset_position(source, r.start as int).1) + segment_text(
        source,
        r,
    ));
    if r.start == 0 && r.end == source.len() && valid_utf8(source) {
        assert(source.subrange(0, source.len() as int) =~= source);
        assert(repeat(0x20, 0) =~= Seq::<u8>::empty());
        assert(layout(pieces) =~= source);
    }
}

/// Across `k` newlines and then spaces, the row advances by `k` and the
/// column counts the spaces.
proof fn lemma_offset_across_gap(s: Seq<u8>, b: int, k: int, c: int)
    requires
        0 <= b,
        1 <= k,
        b + k <= c <= s.len(),
        forall|t: int| b <= t < b + k ==> s[t] == 0x0a,
        forall|t: int| b + k <= t < c ==> s[t] == 0x20,
    ensures
        offset_position(s, c) == (offset_position(s, b).0 + k, c - b - k),
    decreases c - b,
{
    if c > b + k {
        lemma_offset_across_gap(s, b, k, c - 1);
    } else {
        lemma_offset_across_newlines(s, b, k);
    }
}

proof fn lemma_offset_across_newlines(s: Seq<u8>, b: int, k: int)
    requires
        0 <= b,
        1 <= k,
        b + k <= s.len(),
        forall|t: int| b <= t < b + k ==> s[t] == 0x0a,
    ensures
        offset_position(s, b + k) == (offset_position(s, b).0 + k, 0int),
    decreases k,
{
    if k > 1 {
        lemma_offset_across_newlines(s, b, k - 1);
    }
}

/// Rebuilding keeps the blank lines between segments: two segments, the
/// first starting a line, separated in the source by `k >= 1` newlines and
/// then only the indentation of the second, rebuild to exactly the source
/// from the start of the first to the end of the second.
pub proof fn lemma_rebuild_keeps_line_gaps(source: Seq<u8>, r1: ByteRange, r2: ByteRange, k: int)
    requires
        r1.start <= r1.end,
        1 <= k,
        r1.end + k <= r2.start <= r2.end <= source.len(),
        offset_position(source, r1.start as int).1 == 0,
        forall|t: int| r1.end <= t < r1.end + k ==> source[t] == 0x0a,
        forall|t: int| r1.end + k <= t < r2.start ==> source[t] == 0x20,
        valid_utf8(source.subrange(r1.start as int, r1.end as int)),
        valid_utf8(source.subrange(r2.start as int, r2.end as int)),
    ensures
        layout(segment_pieces(source, seq![r1, r2])) == source.subrange(r1.start as int, r2.end as int),
{
    let (a, b, c, d) = (r1.start as int, r1.end as int, r2.start as int, r2.end as int);
    let pieces = segment_pieces(source, seq![r1, r2]);
    lemma_offset_across_gap(source, b, k, c);
    let s0 = layout_state(pieces, 0);
    assert(s0.0 =~= Seq::<u8>::empty());
    let s1 = layout_state(pieces, 1);
    assert(s1.0 =~= source.subrange(a, b));
    assert(s1.1 == offset_position(source, b).0);
    let s2 = layout_state(pieces, 2);
    assert(s2.0 =~= source.subrange(a, b) + repeat(0x0a, k) + repeat(0x20, c - b - k) + source.subrange(c, d));
    assert(layout(pieces) == s2.0);
    assert(s2.0 =~= source.subrange(a, d));
}

/// The non-whitespace count of the bytes of each segment, summed in order.
pub open spec fn segments_nws(source: Seq<u8>, segments: Seq<ByteRange>) -> nat
    decreases segments.len(),
{
    if segments.len() == 0 {
        0
    } else {
        segments_nws(source, segments.drop_last()) + nws_count(
            source.subrange(segments.last().start as int, segments.last().end as int),
        )
    }
}

/// Rebuilding segments whose bytes are valid UTF-8 adds only whitespace: the
/// rebuilt text has as many non-whitespace bytes as the segments together.
pub proof fn lemma_rebuild_segments_nws(source: Seq<u8>, segments: Seq<ByteRange>)
    requires
        segments_in_source(segments, source.len()),
        forall|i: int|
            0 <= i < segments.len() ==> valid_utf8(
                source.subrange((#[trigger] segments[i]).start as int, segments[i].end as int),
            ),
    ensures
        nws_count(layout(segment_pieces(source, segments))) == segments_nws(source, segments),
{
    lemma_layout_nws(segment_pieces(source, segments));
    lemma_segment_texts_nws(source, segments);
}

proof fn lemma_segment_texts_nws(source: Seq<u8>, segments: Seq<ByteRange>)
    requires
        forall|i: int|
            0 <= i < segments.len() ==> valid_utf8(
                source.subrange((#[trigger] segments[i]).start as int, segments[i].end as int),
            ),
    ensures
        texts_nws(segment_pieces(source, segments)) == segments_nws(source, segments),
    decreases segments.len(),
{
    if segments.len() > 0 {
        let d = segments.drop_last();
        assert forall|i: int| 0 <= i < d.len() implies valid_utf8(
            source.subrange((#[trigger] d[i]).start as int, d[i].end as int),
        ) by {
            assert(d[i] == segments[i]);
        }
        lemma_segment_texts_nws(source, d);
        let ps = segment_pieces(source, segments);
        assert(ps.drop_last() =~= segment_pieces(source, d));
        assert(valid_utf8(source.subrange(segments.last().start as int, segments.last().end as int)));
    }
}

/// Total non-whitespace size of the pieces' texts.
pub open spec fn texts_nws(pieces: Seq<Piece>) -> nat
    decreases pieces.len(),
{
    if pieces.len() == 0 {
        0
    } else {
        texts_nws(pieces.drop_last()) + nws_count(pieces.last().text)
    }
}

proof fn lemma_repeat_nws(b: u8, n: int)
    requires
        is_ws(b),
    ensures
        nws_count(repeat(b, n)) == 0,
{
    lemma_nws_all_ws(repeat(b, n));
}

proof fn lemma_layout_state_nws(pieces: Seq<Piece>, n: int)
    requires
        0 <= n <= pieces.len(),
        pieces.len() > 0,
    ensures
        nws_count(layout_state(pieces, n).0) == texts_nws(pieces.take(n)),
    decreases n,
{
    if n == 0 {
        lemma_repeat_nws(0x20, pieces[0].start_col);
        assert(pieces.take(0) =~= Seq::<Piece>::empty());
    } else {
        lemma_layout_state_nws(pieces, n - 1);
        let (code, line, col) = layout_state(pieces, n - 1);
        let p = pieces[n - 1];
        let code1 = if p.start_row > line {
            code + repeat(0x0a, p.start_row - line)
        } else {
            code
        };
        let col1 = if p.start_row > line {
            0
        } else {
            col
        };
        let code2 = if p.start_col > col1 {
            code1 + repeat(0x20, p.start_col - col1)
        } else {
            code1
        };
        lemma_repeat_nws(0x0a, p.start_row - line);
        lemma_repeat_nws(0x20, p.start_col - col1);
        lemma_nws_concat(code, repeat(0x0a, p.start_row - line));
        lemma_nws_concat(code1, repeat(0x20, p.start_col - col1));
        lemma_nws_concat(code2, p.text);
        assert(pieces.take(n).drop_last() =~= pieces.take(n - 1));
    }
}

/// Layout adds only whitespace: the rebuilt text has exactly the
/// non-whitespace characters of the pieces.
pub proof fn lemma_layout_nws(pieces: Seq<Piece>)
    ensures
        nws_count(layout(pieces)) == texts_nws(pieces),
{
    if pieces.len() > 0 {
        lemma_layout_state_nws(pieces, pieces.len() as int);
        assert(pieces.take(pieces.len() as int) =~= pieces);
    }
}

} // verus!
