use astchunk::byte_range::ByteRange;
use astchunk::internal::node::AstNode;
use astchunk::internal::partition::{add_window_overlapping, assign_tree_to_windows};
use astchunk::internal::ts::parse;
use astchunk::lang::Language;

fn node(id: usize, size: u32) -> AstNode {
    AstNode::new(id, size, vec![])
}

fn ids(windows: &[Vec<AstNode>]) -> Vec<Vec<usize>> {
    windows.iter().map(|w| w.iter().map(|n| n.node).collect()).collect()
}

#[test]
fn overlap_borrows_from_neighbours() {
    let windows = vec![
        vec![node(1, 1), node(2, 1), node(3, 1)],
        vec![node(4, 1)],
        vec![node(5, 1), node(6, 1)],
    ];
    let out = add_window_overlapping(&windows, 2);
    assert_eq!(
        ids(&out),
        vec![vec![1, 2, 3, 4], vec![2, 3, 4, 5, 6], vec![4, 5, 6]]
    );
}

#[test]
fn overlap_zero_keeps_windows() {
    let windows = vec![vec![node(1, 1)], vec![node(2, 1), node(3, 1)]];
    let out = add_window_overlapping(&windows, 0);
    assert_eq!(ids(&out), ids(&windows));
}

#[test]
fn oversized_leaf_is_kept() {
    // A single token larger than the budget has no children to descend into:
    // it becomes a window of its own.
    let code = "xxxxxxxxxxxxxxxxxxxxxxxxxxxxxxxxxxxxxxxxxxxxxxxxxxxxxx\n";
    let tree = parse(Language::Python, code.as_bytes()).unwrap();
    let windows = assign_tree_to_windows(5, code.as_bytes(), &tree);
    assert!(!windows.is_empty());
    let leaves: Vec<&AstNode> = windows.iter().flatten().filter(|n| tree.nodes[n.node].children.is_empty()).collect();
    assert!(leaves.iter().any(|n| tree.nodes[n.node].info.kind == "identifier" && n.nws_size > 5));
    for w in &windows {
        let size: u32 = w.iter().map(|n| n.nws_size).sum();
        assert!(size <= 5 || (w.len() == 1 && tree.nodes[w[0].node].children.is_empty()));
    }
}

#[test]
fn oversized_leaf_keeps_its_place() {
    let code = "a = 1\nbbbbbbbbbbbbbbbbbbbbbbbbbbbbbb\nc = 2\n";
    let tree = parse(Language::Python, code.as_bytes()).unwrap();
    let windows = assign_tree_to_windows(4, code.as_bytes(), &tree);
    let ranges: Vec<ByteRange> = windows.iter().flatten().map(|n| tree.nodes[n.node].info.range).collect();
    assert!(ranges.iter().any(|r| r.start == 6 && r.end == 36));
    for pair in ranges.windows(2) {
        assert!(pair[0].end <= pair[1].start);
    }
}

#[test]
fn windows_keep_source_order() {
    let mut code = String::new();
    for i in 0..12 {
        code.push_str(&format!("v{i} = {i} + {i}"));
        code.push('\n');
    }
    let tree = parse(Language::Python, code.as_bytes()).unwrap();
    let windows = assign_tree_to_windows(20, code.as_bytes(), &tree);
    let ranges: Vec<ByteRange> = windows
        .iter()
        .flatten()
        .map(|n| tree.nodes[n.node].info.range)
        .collect();
    for pair in ranges.windows(2) {
        assert!(pair[0].end <= pair[1].start);
    }
}
