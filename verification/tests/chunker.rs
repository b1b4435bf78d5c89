use astchunk::chunker::{CastChunker, CastChunkerOptions, Chunker};
use astchunk::lang::Language;
use astchunk::types::{Document, DocumentId, Origin};

fn make_document(code: &str, language: Language) -> Document {
    Document {
        document_id: DocumentId(0),
        language,
        source: String::from(code),
        origin: Origin::default(),
    }
}

fn options(max_nws_size: u32, overlap_nodes: usize) -> CastChunkerOptions {
    let mut o = CastChunkerOptions::default();
    o.max_nws_size = max_nws_size;
    o.overlap_nodes = overlap_nodes;
    o
}

#[test]
fn test_document_id_propagated() {
    let code = "x = 1\ny = 2\n";
    let mut doc = make_document(code, Language::Python);
    doc.document_id = DocumentId(42);
    let chunker = CastChunker::new(CastChunkerOptions::default());
    let chunks = chunker.chunk(&doc).unwrap();
    for chunk in &chunks {
        assert_eq!(chunk.document_id, DocumentId(42));
    }
}

#[test]
fn test_java_smoke() {
    let code = r"
public class Calculator {
    private int value;

    public Calculator(int initial) {
        this.value = initial;
    }

    public int add(int x) {
        this.value += x;
        return this.value;
    }

    public int subtract(int x) {
        this.value -= x;
        return this.value;
    }
}
";
    let doc = make_document(code, Language::Java);
    let chunker = CastChunker::new(options(50, 0));
    let chunks = chunker.chunk(&doc).unwrap();
    assert!(!chunks.is_empty(), "Java chunking should produce chunks");
}

#[test]
fn test_rust_smoke() {
    let code = r#"
pub struct Calculator {
    value: i32,
}

impl Calculator {
    pub fn new(value: i32) -> Self {
        Self { value }
    }

    pub fn add(&mut self, x: i32) -> i32 {
        self.value += x;
        self.value
    }
}

fn main() {
    let mut calc = Calculator::new(0);
    println!("{}", calc.add(42));
}
"#;
    let doc = make_document(code, Language::Rust);
    let chunker = CastChunker::new(options(50, 0));
    let chunks = chunker.chunk(&doc).unwrap();
    assert!(!chunks.is_empty(), "Rust chunking should produce chunks");
}

#[test]
fn test_scopes_for_nested_python() {
    let code = "\
class Foo:
    def bar(self):
        x = 1
        y = 2
        z = 3
        w = 4
        a = 5
        b = 6
        c = 7
        d = 8
";
    let doc = make_document(code, Language::Python);
    let chunker = CastChunker::new(options(10, 0));
    let chunks = chunker.chunk(&doc).unwrap();
    assert!(!chunks.is_empty());

    let has_scopes = chunks.iter().any(|c| !c.scopes.is_empty());
    assert!(has_scopes, "Expected at least one chunk with scopes");
}

#[test]
fn chunk_ids_are_sequential_and_lines_increase() {
    let mut code = String::new();
    for i in 0..40 {
        code.push_str(&format!("def f{i}(a, b):\n    return a * {i} + b\n\n"));
    }
    let doc = make_document(&code, Language::Python);
    let chunker = CastChunker::new(options(60, 0));
    let chunks = chunker.chunk(&doc).unwrap();
    assert!(chunks.len() > 1);
    for (i, chunk) in chunks.iter().enumerate() {
        assert_eq!(chunk.chunk_id.0, u32::try_from(i).unwrap());
        assert!(chunk.line_index_range.start < chunk.line_index_range.end);
        assert!(chunk.metrics.nws_size <= 60);
        assert_eq!(chunk.metrics.node_count, chunk.metrics.segment_count);
        assert_eq!(chunk.segments.len() as u32, chunk.metrics.node_count);
    }
    assert_eq!(chunks[0].line_index_range.start, 0);
}

#[test]
fn overlap_keeps_chunk_count() {
    let mut code = String::new();
    for i in 0..30 {
        code.push_str(&format!("value_{i} = compute({i}, {i})\n"));
    }
    let doc = make_document(&code, Language::Python);
    let plain = CastChunker::new(options(40, 0)).chunk(&doc).unwrap();
    let overlapped = CastChunker::new(options(40, 2)).chunk(&doc).unwrap();
    assert_eq!(plain.len(), overlapped.len());
    for chunk in &overlapped {
        assert!(chunk.metrics.node_count > 0);
    }
}

#[test]
fn scope_display_is_first_line() {
    let code = "class Foo:\r\n    def bar(self):\n        x = 1\n        y = 2\n";
    let doc = make_document(code, Language::Python);
    let chunks = CastChunker::new(options(5, 0)).chunk(&doc).unwrap();
    let scoped = chunks.iter().find(|c| c.scopes.len() == 2).unwrap();
    assert_eq!(scoped.scopes[0].display, "class Foo:");
    assert_eq!(scoped.scopes[1].display, "def bar(self):");
}

#[test]
fn whole_small_file_is_one_chunk() {
    let code = "x = 1\ny = 2\n";
    let doc = make_document(code, Language::Python);
    let chunks = CastChunker::new(CastChunkerOptions::default()).chunk(&doc).unwrap();
    assert_eq!(chunks.len(), 1);
    assert_eq!(chunks[0].envelope.start, 0);
    assert_eq!(chunks[0].envelope.end as usize, code.len());
    assert_eq!(chunks[0].metrics.nws_size, 6);
    assert!(chunks[0].scopes.is_empty());
}

#[test]
fn chunks_keep_source_order() {
    let mut code = String::from("class Outer:\n");
    for i in 0..15 {
        code.push_str(&format!("    def m{i}(self, x):\n        y = x + {i}\n        return y * y\n\n"));
    }
    code.push_str("value = Outer()\n");
    let doc = make_document(&code, Language::Python);
    for overlap in [0usize, 2] {
        let chunks = CastChunker::new(options(45, overlap)).chunk(&doc).unwrap();
        assert!(chunks.len() > 2);
        for c in &chunks {
            assert!(c.line_index_range.start < c.line_index_range.end);
            assert!(c.envelope.start <= c.envelope.end);
        }
        if overlap == 0 {
            for pair in chunks.windows(2) {
                let last_end = pair[0].segments.iter().map(|s| s.end).max().unwrap();
                let first_start = pair[1].segments.iter().map(|s| s.start).min().unwrap();
                assert!(last_end <= first_start);
            }
        }
    }
}

#[test]
fn overlapped_chunk_holds_neighbour_segments() {
    let mut code = String::new();
    for i in 0..12 {
        code.push_str(&format!("value_{i} = compute({i}, {i})\n"));
    }
    let doc = make_document(&code, Language::Python);
    let base = CastChunker::new(options(40, 0)).chunk(&doc).unwrap();
    let k = 1usize;
    let overlapped = CastChunker::new(options(40, k)).chunk(&doc).unwrap();
    assert!(base.len() > 2);
    assert_eq!(base.len(), overlapped.len());
    for i in 0..base.len() {
        let mut expected = Vec::new();
        if i > 0 {
            let p = &base[i - 1].segments;
            expected.extend_from_slice(&p[p.len() - k.min(p.len())..]);
        }
        expected.extend_from_slice(&base[i].segments);
        if i + 1 < base.len() {
            let n = &base[i + 1].segments;
            expected.extend_from_slice(&n[..k.min(n.len())]);
        }
        assert_eq!(overlapped[i].segments, expected);
        assert!(overlapped[i].metrics.node_count >= base[i].metrics.node_count);
    }
}

#[test]
fn two_calls_agree() {
    let mut code = String::new();
    for i in 0..8 {
        code.push_str(&format!("def f_{i}(a):\n    return a + {i}\n\n"));
    }
    let doc = make_document(&code, Language::Python);
    let chunker = CastChunker::new(options(30, 1));
    let a = chunker.chunk(&doc).unwrap();
    let b = chunker.chunk(&doc).unwrap();
    assert_eq!(a.len(), b.len());
    for (x, y) in a.iter().zip(b.iter()) {
        assert_eq!(x.segments, y.segments);
        assert_eq!(x.metrics, y.metrics);
        assert_eq!(x.envelope, y.envelope);
        assert_eq!(x.chunk_id, y.chunk_id);
    }
}
