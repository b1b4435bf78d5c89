use astchunk::builder::AstChunkBuilder;
use astchunk::chunker::{CastChunker, CastChunkerOptions, Chunker};
use astchunk::types::{Document, DocumentId, Origin};
use astchunk::chunk::{build_chunk, build_chunk_ancestors, rebuild_code};
use astchunk::internal::node::{node_nws_size, AstNode};
use astchunk::internal::tree::SyntaxTree;
use astchunk::lang::Language;
use astchunk::metadata::{ChunkOptions, CodeWindow, MetadataTemplate, RepoMetadata, WindowMetadata};
use astchunk::nws::NwsCumsum;

fn make_builder(max_chunk_size: u32) -> AstChunkBuilder {
    AstChunkBuilder::new(max_chunk_size, Language::Python)
}

fn child_of_kind(tree: &SyntaxTree, parent: usize, kind: &str) -> usize {
    *tree.nodes[parent]
        .children
        .iter()
        .find(|&&c| tree.nodes[c].info.kind == kind)
        .unwrap()
}

fn chunk_size(w: &CodeWindow) -> u32 {
    match w {
        CodeWindow::Standard { metadata: WindowMetadata::Default { chunk_size, .. }, .. } => *chunk_size,
        _ => panic!("Expected a Standard CodeWindow with default metadata"),
    }
}

fn content(w: &CodeWindow) -> &str {
    match w {
        CodeWindow::Standard { content, .. } => content,
        CodeWindow::SwebenchLite { text, .. } => text,
    }
}

fn functions_code(n: usize) -> String {
    let mut code = String::new();
    for i in 0..n {
        code.push_str(&format!("def func_{i}(arg1, arg2):\n    result = arg1 + arg2 + {i}\n    return result\n"));
        code.push('\n');
    }
    code
}

#[test]
fn test_small_code_single_window() {
    let code = "x = 1\ny = 2\n";
    let builder = make_builder(1000);
    let tree = builder.parse(code.as_bytes()).unwrap();
    let windows = builder.assign_tree_to_windows(code.as_bytes(), &tree);

    assert_eq!(windows.len(), 1);
    assert_eq!(windows[0].len(), 1);
    assert_eq!(tree.nodes[windows[0][0].node].info.kind, "module");
}

#[test]
fn test_multiple_functions_split() {
    let mut code = String::new();
    for i in 0..20 {
        code.push_str(&format!("def func_{i}():\n    x = {i}\n    return x * 2\n"));
        code.push('\n');
    }
    let builder = make_builder(50);
    let tree = builder.parse(code.as_bytes()).unwrap();
    let windows = builder.assign_tree_to_windows(code.as_bytes(), &tree);

    assert!(windows.len() > 1, "Expected multiple windows, got {}", windows.len());
    for (i, w) in windows.iter().enumerate() {
        assert!(!w.is_empty(), "Window {i} is empty");
    }
}

#[test]
fn test_large_function_recursive_split() {
    let mut code = String::from("def big_function():\n");
    for i in 0..50 {
        code.push_str(&format!("    x_{i} = {i}"));
        code.push('\n');
    }
    code.push_str("    return x_0\n");

    let builder = make_builder(30);
    let tree = builder.parse(code.as_bytes()).unwrap();
    let windows = builder.assign_tree_to_windows(code.as_bytes(), &tree);

    assert!(windows.len() > 1, "Expected multiple windows for large function");
    for w in &windows {
        for node in w {
            assert!(
                node.ancestors.len() >= 2,
                "Expected at least 2 ancestors, got {}",
                node.ancestors.len()
            );
        }
    }
}

#[test]
fn test_window_sizes_respect_limit() {
    let code = functions_code(30);
    let max_size = 100;
    let builder = make_builder(max_size);
    let tree = builder.parse(code.as_bytes()).unwrap();
    let cumsum = NwsCumsum::new(code.as_bytes());
    let windows = builder.assign_tree_to_windows(code.as_bytes(), &tree);

    for (i, w) in windows.iter().enumerate() {
        let total_nws: u32 = w.iter().map(|n| n.nws_size).sum();
        assert!(!w.is_empty(), "Window {i} is empty");
        for node in w {
            let expected = NwsCumsum::new(code.as_bytes()).get(tree.nodes[node.node].info.range);
            assert_eq!(node.nws_size, expected, "NWS size mismatch for node in window {i}");
        }
        let _ = (total_nws, &cumsum);
    }
}

#[test]
fn test_chunkify_java() {
    let code = r"
public class Calculator {
    private int value;

    public Calculator(int initial) {
        this.value = initial;
    }

    public int add(int x) {
        this.value += x;
        return this.value;
    }

    public int subtract(int x) {
        this.value -= x;
        return this.value;
    }

    public int getValue() {
        return this.value;
    }
}
";
    let builder = AstChunkBuilder::new(50, Language::Java);
    let options = ChunkOptions::default();
    let windows = builder.chunkify(code, MetadataTemplate::Default, &options).unwrap();

    assert!(!windows.is_empty(), "Java chunking should produce chunks");
    for w in &windows {
        if let CodeWindow::Standard { content, .. } = w {
            assert!(!content.is_empty());
        }
    }
}

#[test]
fn test_chunkify_typescript() {
    let code = r#"
class Greeter {
    greeting: string;

    constructor(message: string) {
        this.greeting = message;
    }

    greet(): string {
        return "Hello, " + this.greeting;
    }
}

function main() {
    const g = new Greeter("world");
    console.log(g.greet());
}
"#;
    let builder = AstChunkBuilder::new(50, Language::TypeScript);
    let options = ChunkOptions::default();
    let windows = builder.chunkify(code, MetadataTemplate::Default, &options).unwrap();

    assert!(!windows.is_empty(), "TypeScript chunking should produce chunks");
    for w in &windows {
        if let CodeWindow::Standard { content, .. } = w {
            assert!(!content.is_empty());
        }
    }
}

#[test]
fn chunk_test_rebuild_code_simple() {
    let code = "x = 1\ny = 2\n";
    let source = code.as_bytes();
    let builder = make_builder(1000);
    let tree = builder.parse(source).unwrap();
    let cumsum = NwsCumsum::new(source);
    let ast_nodes: Vec<AstNode> = tree.nodes[0]
        .children
        .iter()
        .map(|&c| AstNode::new(c, node_nws_size(&tree, c, &cumsum), vec![]))
        .collect();

    let rebuilt = rebuild_code(&ast_nodes, &tree, source);
    assert_eq!(rebuilt, "x = 1\ny = 2");
}

#[test]
fn chunk_test_rebuild_code_indented() {
    let code = "def foo():\n    x = 1\n    y = 2\n";
    let source = code.as_bytes();
    let builder = make_builder(1000);
    let tree = builder.parse(source).unwrap();
    let cumsum = NwsCumsum::new(source);
    let func_def = tree.nodes[0].children[0];
    let block = child_of_kind(&tree, func_def, "block");
    let ast_nodes: Vec<AstNode> = tree.nodes[block]
        .children
        .iter()
        .filter(|&&c| tree.nodes[c].info.kind == "expression_statement")
        .map(|&c| AstNode::new(c, node_nws_size(&tree, c, &cumsum), vec![0, func_def]))
        .collect();

    let rebuilt = rebuild_code(&ast_nodes, &tree, source);
    assert_eq!(rebuilt, "    x = 1\n    y = 2");
}

#[test]
fn test_build_chunk_ancestors() {
    let code = "class MyClass:\n    def method(self):\n        pass\n";
    let source = code.as_bytes();
    let builder = make_builder(1000);
    let tree = builder.parse(source).unwrap();

    let class_def = tree.nodes[0].children[0];
    assert_eq!(tree.nodes[class_def].info.kind, "class_definition");

    let class_body = child_of_kind(&tree, class_def, "block");
    let method_def = child_of_kind(&tree, class_body, "function_definition");
    assert_eq!(tree.nodes[method_def].info.kind, "function_definition");

    let ancestors_nodes = vec![0, class_def, method_def];
    let ancestors = build_chunk_ancestors(&ancestors_nodes, &tree, source, Language::Python);

    assert_eq!(ancestors.len(), 2);
    assert_eq!(ancestors[0], "class MyClass:");
    assert_eq!(ancestors[1], "def method(self):");
}

#[test]
fn test_build_chunk() {
    let code = "x = 1\ny = 2\nz = 3\n";
    let source = code.as_bytes();
    let builder = make_builder(1000);
    let tree = builder.parse(source).unwrap();
    let cumsum = NwsCumsum::new(source);
    let ast_nodes: Vec<AstNode> = tree.nodes[0]
        .children
        .iter()
        .map(|&c| AstNode::new(c, node_nws_size(&tree, c, &cumsum), vec![0]))
        .collect();

    let chunk = build_chunk(&ast_nodes, &tree, source, Language::Python);

    assert_eq!(chunk.text, "x = 1\ny = 2\nz = 3");
    assert_eq!(chunk.start_line, 0);
    assert_eq!(chunk.end_line, 2);
    assert_eq!(chunk.node_count, 3);
    assert!(chunk.size > 0);
    assert_eq!(chunk.line_count(), 3);
}

#[test]
fn chunkify_default_metadata_of_small_file() {
    let code = "x = 1\ny = 2\n";
    let builder = make_builder(1000);
    let mut meta = RepoMetadata::new();
    meta.insert(String::from("filepath"), String::from("a.py"));
    let options = ChunkOptions { chunk_overlap: 0, chunk_expansion: false, repo_metadata: meta };
    let windows = builder.chunkify(code, MetadataTemplate::Default, &options).unwrap();
    assert_eq!(windows.len(), 1);
    match &windows[0] {
        CodeWindow::Standard {
            content,
            metadata:
                WindowMetadata::Default { filepath, chunk_size, line_count, start_line_no, end_line_no, node_count },
        } => {
            assert_eq!(content, "x = 1\ny = 2\n");
            assert_eq!(filepath, "a.py");
            assert_eq!(*chunk_size, 6);
            assert_eq!(*line_count, 3);
            assert_eq!(*start_line_no, 0);
            assert_eq!(*end_line_no, 2);
            assert_eq!(*node_count, 1);
        },
        other => panic!("unexpected window {other:?}"),
    }
}

#[test]
fn chunkify_sizes_stay_within_budget() {
    let code = functions_code(30);
    for max in [40u32, 100, 250] {
        let builder = make_builder(max);
        let windows = builder.chunkify(&code, MetadataTemplate::Default, &ChunkOptions::default()).unwrap();
        assert!(!windows.is_empty());
        for w in &windows {
            assert!(chunk_size(w) <= max);
        }
    }
}

#[test]
fn chunkify_overlap_keeps_window_count() {
    let code = functions_code(20);
    let builder = make_builder(100);
    let plain = builder.chunkify(&code, MetadataTemplate::Default, &ChunkOptions::default()).unwrap();
    let options = ChunkOptions { chunk_overlap: 2, ..ChunkOptions::default() };
    let overlapped = builder.chunkify(&code, MetadataTemplate::Default, &options).unwrap();
    assert_eq!(plain.len(), overlapped.len());
    assert!(plain.len() > 1);
    for (a, b) in plain.iter().zip(&overlapped) {
        assert!(content(b).len() >= content(a).len());
    }
}

#[test]
fn chunkify_expansion_prefixes_header() {
    let code = "class A:\n    def f(self):\n        x = 1\n        return x\n\n    def g(self):\n        y = 2\n        return y\n";
    let builder = make_builder(12);
    let mut meta = RepoMetadata::new();
    meta.insert(String::from("filepath"), String::from("pkg/a.py"));
    let options = ChunkOptions { chunk_overlap: 0, chunk_expansion: true, repo_metadata: meta };
    let windows = builder.chunkify(code, MetadataTemplate::Default, &options).unwrap();
    assert!(!windows.is_empty());
    for w in &windows {
        assert!(content(w).starts_with("'''\npkg/a.py\n"));
    }
    assert!(windows.iter().any(|w| content(w).contains("class A:\n\tdef f(self):\n'''\n")));
}

#[test]
fn chunkify_swebench_lite_ids() {
    let code = "x = 1\ny = 2\n";
    let builder = make_builder(1000);
    let mut meta = RepoMetadata::new();
    meta.insert(String::from("instance_id"), String::from("inst-7"));
    meta.insert(String::from("filename"), String::from("m.py"));
    let options = ChunkOptions { chunk_overlap: 0, chunk_expansion: false, repo_metadata: meta };
    let windows = builder.chunkify(code, MetadataTemplate::CodeRagBenchSwebenchLite, &options).unwrap();
    match &windows[0] {
        CodeWindow::SwebenchLite { _id, title, text } => {
            assert_eq!(_id, "inst-7_0-2");
            assert_eq!(title, "m.py");
            assert_eq!(text, "x = 1\ny = 2\n");
        },
        other => panic!("unexpected window {other:?}"),
    }
}

#[test]
fn chunkify_repo_eval_splits_path() {
    let code = "x = 1\n";
    let builder = make_builder(1000);
    let mut meta = RepoMetadata::new();
    meta.insert(String::from("fpath_tuple"), String::from("src/lib/m.py"));
    meta.insert(String::from("repo"), String::from("org/r"));
    let options = ChunkOptions { chunk_overlap: 0, chunk_expansion: false, repo_metadata: meta };
    let windows = builder.chunkify(code, MetadataTemplate::CodeRagBenchRepoEval, &options).unwrap();
    match &windows[0] {
        CodeWindow::Standard { metadata: WindowMetadata::RepoEval { fpath_tuple, repo, line_count, .. }, .. } => {
            assert_eq!(fpath_tuple, &vec!["src".to_string(), "lib".to_string(), "m.py".to_string()]);
            assert_eq!(repo, "org/r");
            assert_eq!(*line_count, 2);
        },
        other => panic!("unexpected window {other:?}"),
    }
}

#[test]
fn builder_agrees_with_chunker() {
    let code = functions_code(25);
    for (max, overlap) in [(80u32, 0usize), (150, 1)] {
        let mut options = CastChunkerOptions::default();
        options.max_nws_size = max;
        options.overlap_nodes = overlap;
        let doc = Document {
            document_id: DocumentId(0),
            language: Language::Python,
            source: code.clone(),
            origin: Origin::default(),
        };
        let chunks = CastChunker::new(options).chunk(&doc).unwrap();
        let builder = make_builder(max);
        let opts = ChunkOptions { chunk_overlap: overlap, ..ChunkOptions::default() };
        let windows = builder.chunkify(&code, MetadataTemplate::Default, &opts).unwrap();
        assert_eq!(chunks.len(), windows.len());
        for (c, w) in chunks.iter().zip(&windows) {
            match w {
                CodeWindow::Standard {
                    metadata: WindowMetadata::Default { chunk_size, start_line_no, end_line_no, .. },
                    ..
                } => {
                    assert_eq!(*chunk_size, c.metrics.nws_size);
                    assert_eq!(*start_line_no, c.line_index_range.start);
                    assert_eq!(*end_line_no, c.line_index_range.end - 1);
                },
                other => panic!("unexpected {other:?}"),
            }
        }
    }
}

#[test]
fn parsed_tree_carries_language_and_positions() {
    let code = "def f():\n    return 1\n\nx = f()\n";
    let builder = AstChunkBuilder::new(100, Language::Java);
    let tree = builder.parse(code.as_bytes()).unwrap();
    assert_eq!(tree.language, Language::Java);
    let py = make_builder(100).parse(code.as_bytes()).unwrap();
    assert_eq!(py.language, Language::Python);
    for node in &py.nodes {
        let start = node.info.range.start as usize;
        let before = &code.as_bytes()[..start];
        let row = before.iter().filter(|&&b| b == b'\n').count() as u32;
        let col = (start - before.iter().rposition(|&b| b == b'\n').map(|p| p + 1).unwrap_or(0)) as u32;
        assert_eq!((node.info.start_position.row, node.info.start_position.column), (row, col));
    }
}
