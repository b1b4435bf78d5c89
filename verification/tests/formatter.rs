use astchunk::chunker::{CastChunker, CastChunkerOptions, Chunker};
use astchunk::formatter::contextual::build_contextual_text;
use astchunk::formatter::{CanonicalFormatter, ContextualFormatter, Formatter};
use astchunk::lang::Language;
use astchunk::nws::nws_count_direct;
use astchunk::types::{Document, DocumentId, Origin, ScopeFrame, ScopeKind, TextMode};

fn make_document(code: &str, language: Language) -> Document {
    Document {
        document_id: DocumentId(0),
        language,
        source: String::from(code),
        origin: Origin::default(),
    }
}

fn make_document_with_path(code: &str, language: Language, path: &str) -> Document {
    Document {
        document_id: DocumentId(0),
        language,
        source: String::from(code),
        origin: Origin {
            path: Some(String::from(path)),
            ..Origin::default()
        },
    }
}

#[test]
fn test_canonical_text_mode() {
    let code = "x = 1\ny = 2\n";
    let doc = make_document(code, Language::Python);
    let chunker = CastChunker::new(CastChunkerOptions::default());
    let chunks = chunker.chunk(&doc).unwrap();
    let formatter = CanonicalFormatter::default();
    let text_chunks = formatter.format(&doc, &chunks).unwrap();

    for tc in &text_chunks {
        assert_eq!(tc.text_mode, TextMode::Canonical);
        assert!(!tc.content.is_empty());
        assert!(!tc.content.starts_with("'''"));
    }
}

#[test]
fn test_text_metrics_correct() {
    let code = "x = 1\ny = 2\nz = 3\n";
    let doc = make_document(code, Language::Python);
    let chunker = CastChunker::new(CastChunkerOptions::default());
    let chunks = chunker.chunk(&doc).unwrap();
    let formatter = CanonicalFormatter::default();
    let text_chunks = formatter.format(&doc, &chunks).unwrap();

    for tc in &text_chunks {
        let actual_lines = if tc.content.is_empty() {
            0
        } else {
            u32::try_from(tc.content.lines().count()).unwrap()
        };
        assert_eq!(tc.metrics.content_line_count, actual_lines);

        let actual_nws = nws_count_direct(&tc.content);
        assert_eq!(tc.metrics.content_nws_size, actual_nws);
    }
}

#[test]
fn test_empty_chunks() {
    let code = "x = 1\n";
    let doc = make_document(code, Language::Python);
    let formatter = CanonicalFormatter::default();
    let text_chunks = formatter.format(&doc, &[]).unwrap();
    assert!(text_chunks.is_empty());
}

#[test]
fn canonical_order_preserved() {
    let mut code = String::new();
    for i in 0..25 {
        code.push_str(&format!("item_{i} = [{i}, {i}, {i}]\n"));
    }
    let doc = make_document(&code, Language::Python);
    let mut options = CastChunkerOptions::default();
    options.max_nws_size = 50;
    let chunks = CastChunker::new(options).chunk(&doc).unwrap();
    let text_chunks = CanonicalFormatter::default().format(&doc, &chunks).unwrap();
    assert_eq!(text_chunks.len(), chunks.len());
    for (tc, ac) in text_chunks.iter().zip(chunks.iter()) {
        assert_eq!(tc.ast_chunk_id, ac.chunk_id);
        assert_eq!(tc.source_line_index_range, ac.line_index_range);
        assert_eq!(tc.metrics.content_nws_size, ac.metrics.nws_size);
    }
}

#[test]
fn test_contextual_header_format() {
    let code = "class MyClass:\n    def method(self):\n        pass\n";
    let doc = make_document_with_path(code, Language::Python, "src/example.py");
    let chunker = CastChunker::new(CastChunkerOptions::default());
    let chunks = chunker.chunk(&doc).unwrap();
    let formatter = ContextualFormatter::default();
    let text_chunks = formatter.format(&doc, &chunks).unwrap();

    for tc in &text_chunks {
        assert_eq!(tc.text_mode, TextMode::Contextual);
        assert!(tc.content.starts_with("'''\n"));
        assert!(tc.content.contains("src/example.py"));
    }
}

#[test]
fn test_contextual_header_with_scopes() {
    let header = build_contextual_text(
        "pass",
        Some("src/main.py"),
        &[
            ScopeFrame {
                kind: ScopeKind::Class,
                display: String::from("class Foo:"),
            },
            ScopeFrame {
                kind: ScopeKind::Method,
                display: String::from("def bar(self):"),
            },
        ],
    );

    let expected = "'''\nsrc/main.py\nclass Foo:\n    def bar(self):\n'''\npass";
    assert_eq!(header, expected);
}

#[test]
fn test_contextual_header_four_space_indent() {
    let header = build_contextual_text(
        "body",
        Some("a.py"),
        &[
            ScopeFrame {
                kind: ScopeKind::Class,
                display: String::from("class A:"),
            },
            ScopeFrame {
                kind: ScopeKind::Class,
                display: String::from("class B:"),
            },
            ScopeFrame {
                kind: ScopeKind::Function,
                display: String::from("def c():"),
            },
        ],
    );

    let lines: Vec<&str> = header.lines().collect();
    assert_eq!(lines[0], "'''");
    assert_eq!(lines[1], "a.py");
    assert_eq!(lines[2], "class A:");
    assert_eq!(lines[3], "    class B:");
    assert_eq!(lines[4], "        def c():");
    assert_eq!(lines[5], "'''");
    assert_eq!(lines[6], "body");
}

#[test]
fn test_contextual_header_no_path() {
    let header = build_contextual_text(
        "code",
        None,
        &[ScopeFrame {
            kind: ScopeKind::Function,
            display: String::from("def foo():"),
        }],
    );

    let expected = "\
'''\n\
def foo():\n\
'''\n\
code";
    assert_eq!(header, expected);
}

#[test]
fn contextual_header_empty_path_is_skipped() {
    let header = build_contextual_text("x", Some(""), &[]);
    assert_eq!(header, "'''\n'''\nx");
}

#[test]
fn contextual_metrics_count_the_header() {
    let code = "x = 1\n";
    let doc = make_document_with_path(code, Language::Python, "m.py");
    let chunks = CastChunker::new(CastChunkerOptions::default()).chunk(&doc).unwrap();
    let tcs = ContextualFormatter::default().format(&doc, &chunks).unwrap();
    assert_eq!(tcs.len(), 1);
    assert_eq!(tcs[0].content, "'''\nm.py\n'''\nx = 1\n");
    assert_eq!(tcs[0].metrics.content_line_count, 4);
    assert_eq!(tcs[0].metrics.content_nws_size, 13);
}

#[test]
fn can_format_checks_segments() {
    let doc = make_document("x = 1\ny = 2\n", Language::Python);
    let chunker = CastChunker::new(CastChunkerOptions::default());
    let mut chunks = chunker.chunk(&doc).unwrap();
    assert!(CanonicalFormatter::default().can_format(&doc, &chunks));
    assert!(ContextualFormatter::default().can_format(&doc, &chunks));
    assert!(CanonicalFormatter::default().can_format(&doc, &[]));
    chunks[0].segments[0].end = 1000;
    assert!(!CanonicalFormatter::default().can_format(&doc, &chunks));
    assert!(!ContextualFormatter::default().can_format(&doc, &chunks));
}
