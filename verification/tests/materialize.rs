use astchunk::byte_range::ByteRange;
use astchunk::internal::materialize::{byte_offset_position, rebuild_code, rebuild_from_segments};
use astchunk::internal::node::{node_nws_size, AstNode};
use astchunk::internal::tree::SyntaxTree;
use astchunk::internal::ts::parse;
use astchunk::lang::Language;
use astchunk::nws::NwsCumsum;

fn python_tree(code: &str) -> SyntaxTree {
    parse(Language::Python, code.as_bytes()).unwrap()
}

fn child_of_kind(tree: &SyntaxTree, parent: usize, kind: &str) -> usize {
    *tree.nodes[parent]
        .children
        .iter()
        .find(|&&c| tree.nodes[c].info.kind == kind)
        .unwrap()
}

fn root_children_nodes(tree: &SyntaxTree, source: &[u8]) -> Vec<AstNode> {
    let cumsum = NwsCumsum::new(source);
    tree.nodes[0]
        .children
        .iter()
        .map(|&c| AstNode::new(c, node_nws_size(tree, c, &cumsum), vec![]))
        .collect()
}

fn block_statement_nodes(tree: &SyntaxTree, source: &[u8]) -> Vec<AstNode> {
    let cumsum = NwsCumsum::new(source);
    let func_def = tree.nodes[0].children[0];
    let block = child_of_kind(tree, func_def, "block");
    tree.nodes[block]
        .children
        .iter()
        .filter(|&&c| tree.nodes[c].info.kind == "expression_statement")
        .map(|&c| AstNode::new(c, node_nws_size(tree, c, &cumsum), vec![0, func_def]))
        .collect()
}

#[test]
fn materialize_test_rebuild_code_simple() {
    let code = "x = 1\ny = 2\n";
    let source = code.as_bytes();
    let tree = python_tree(code);
    let ast_nodes = root_children_nodes(&tree, source);
    let rebuilt = rebuild_code(&ast_nodes, &tree, source);
    assert_eq!(rebuilt, "x = 1\ny = 2");
}

#[test]
fn materialize_test_rebuild_code_indented() {
    let code = "def foo():\n    x = 1\n    y = 2\n";
    let source = code.as_bytes();
    let tree = python_tree(code);
    let ast_nodes = block_statement_nodes(&tree, source);
    let rebuilt = rebuild_code(&ast_nodes, &tree, source);
    assert_eq!(rebuilt, "    x = 1\n    y = 2");
}

#[test]
fn test_rebuild_from_segments_simple() {
    let code = "x = 1\ny = 2\n";
    let source = code.as_bytes();
    let tree = python_tree(code);
    let ast_nodes = root_children_nodes(&tree, source);
    let segments: Vec<ByteRange> = ast_nodes.iter().map(|n| tree.nodes[n.node].info.range).collect();
    let from_nodes = rebuild_code(&ast_nodes, &tree, source);
    let from_segments = rebuild_from_segments(&segments, source);
    assert_eq!(from_nodes, from_segments);
}

#[test]
fn test_rebuild_from_segments_indented() {
    let code = "def foo():\n    x = 1\n    y = 2\n";
    let source = code.as_bytes();
    let tree = python_tree(code);
    let ast_nodes = block_statement_nodes(&tree, source);
    let segments: Vec<ByteRange> = ast_nodes.iter().map(|n| tree.nodes[n.node].info.range).collect();
    let from_nodes = rebuild_code(&ast_nodes, &tree, source);
    let from_segments = rebuild_from_segments(&segments, source);
    assert_eq!(from_nodes, from_segments);
}

#[test]
fn rebuild_of_empty_inputs_is_empty() {
    let tree = python_tree("x = 1\n");
    assert_eq!(rebuild_code(&[], &tree, b"x = 1\n"), "");
    assert_eq!(rebuild_from_segments(&[], b"x = 1\n"), "");
}

#[test]
fn rebuild_from_segments_skips_invalid_utf8() {
    let source: &[u8] = &[b'a', 0xff, b'\n', b'b'];
    let segments = [ByteRange::new(0, 2), ByteRange::new(3, 4)];
    // The first segment is not valid UTF-8 and contributes no text; the
    // cursor still moves past it.
    assert_eq!(rebuild_from_segments(&segments, source), "\nb");
}

#[test]
fn rebuild_from_segments_restores_gaps() {
    let source = b"ab   cd\n  ef";
    let segments = [ByteRange::new(0, 2), ByteRange::new(5, 7), ByteRange::new(10, 12)];
    assert_eq!(rebuild_from_segments(&segments, source), "ab   cd\n  ef");
}

#[test]
fn byte_offset_positions() {
    let source = b"ab\ncd\n\nx";
    assert_eq!(byte_offset_position(source, 0), (0, 0));
    assert_eq!(byte_offset_position(source, 2), (0, 2));
    assert_eq!(byte_offset_position(source, 3), (1, 0));
    assert_eq!(byte_offset_position(source, 5), (1, 2));
    assert_eq!(byte_offset_position(source, 7), (3, 0));
    assert_eq!(byte_offset_position(source, 8), (3, 1));
}

#[test]
fn test_ast_node_properties() {
    let code = "def foo():\n    return 42\n";
    let source = code.as_bytes();
    let tree = python_tree(code);
    let cumsum = NwsCumsum::new(source);

    assert_eq!(tree.nodes[0].info.kind, "module");
    let func_def = tree.nodes[0].children[0];
    assert_eq!(tree.nodes[func_def].info.kind, "function_definition");

    let nws = node_nws_size(&tree, func_def, &cumsum);
    let ast_node = AstNode::new(func_def, nws, vec![0]);

    assert_eq!(ast_node.start_line(&tree), 0);
    assert_eq!(ast_node.end_line(&tree), 1);
    assert_eq!(ast_node.start_col(&tree), 0);
    assert!(ast_node.nws_size > 0);
    assert_eq!(ast_node.text(&tree, source), "def foo():\n    return 42");
    assert_eq!(ast_node.ancestors.len(), 1);
}

#[test]
fn rebuild_few_segments_and_counts() {
    let code = "def f():\n    x = 1\n    return x\n";
    let source = code.as_bytes();
    let n = source.len() as u32;
    assert_eq!(rebuild_from_segments(&[], source), "");
    assert_eq!(rebuild_from_segments(&[ByteRange::new(0, n)], source), code);
    assert_eq!(rebuild_from_segments(&[ByteRange::new(13, 18)], source), "    x = 1");
    let segs = [ByteRange::new(0, 8), ByteRange::new(13, 18), ByteRange::new(23, 31)];
    let rebuilt = rebuild_from_segments(&segs, source);
    let cumsum = NwsCumsum::new(source);
    let total: u32 = segs.iter().map(|s| cumsum.get(*s)).sum();
    assert_eq!(astchunk::nws::nws_count_direct(&rebuilt), total);
}
