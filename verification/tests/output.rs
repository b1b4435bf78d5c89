use astchunk::error::AstchunkError;
use astchunk::lang::Language;
use astchunk::output::{JsonRecord, RepoEvalRecord, SwebenchLiteRecord};
use astchunk::types::{
    AstChunk, ByteRange, ChunkId, ChunkMetrics, Document, DocumentId, LineIndexRange, Origin,
    TextChunk, TextMetrics, TextMode,
};

fn test_document(path: Option<&str>, repo: Option<&str>) -> Document {
    Document {
        document_id: DocumentId(0),
        language: Language::Python,
        source: String::from("# placeholder"),
        origin: Origin {
            path: path.map(String::from),
            repo: repo.map(String::from),
            revision: None,
        },
    }
}

fn test_ast_chunk(id: u32, line_start: u32, line_end: u32, node_count: u32) -> AstChunk {
    AstChunk {
        chunk_id: ChunkId(id),
        document_id: DocumentId(0),
        segments: vec![ByteRange { start: 0, end: 10 }],
        envelope: ByteRange { start: 0, end: 10 },
        line_index_range: LineIndexRange {
            start: line_start,
            end: line_end,
        },
        scopes: vec![],
        metrics: ChunkMetrics {
            nws_size: 5,
            node_count,
            segment_count: 1,
        },
    }
}

fn test_text_chunk(
    ast_chunk_id: u32,
    content: &str,
    line_start: u32,
    line_end: u32,
    line_count: u32,
    nws: u32,
) -> TextChunk {
    TextChunk {
        ast_chunk_id: ChunkId(ast_chunk_id),
        content: String::from(content),
        text_mode: TextMode::Canonical,
        source_line_index_range: LineIndexRange {
            start: line_start,
            end: line_end,
        },
        metrics: TextMetrics {
            content_line_count: line_count,
            content_nws_size: nws,
        },
    }
}

#[test]
fn json_record_basic() {
    let doc = test_document(Some("src/main.py"), Some("my-repo"));
    let chunks = [test_ast_chunk(0, 0, 5, 3)];
    let text_chunks = [test_text_chunk(0, "print('hi')", 0, 5, 1, 10)];

    let records = JsonRecord::build(&doc, &chunks, &text_chunks);
    assert_eq!(records.len(), 1);
    assert_eq!(records[0].content, "print('hi')");
    assert_eq!(records[0].metadata.path.as_deref(), Some("src/main.py"));
    assert_eq!(records[0].metadata.repo.as_deref(), Some("my-repo"));
    assert_eq!(records[0].metadata.content_line_count, 1);
    assert_eq!(records[0].metadata.content_nws_size, 10);
    assert_eq!(records[0].metadata.node_count, 3);
}

#[test]
fn json_record_line_numbers() {
    let doc = test_document(Some("f.py"), None);
    let chunks = [test_ast_chunk(0, 0, 10, 1)];
    let text_chunks = [test_text_chunk(0, "code", 0, 10, 10, 4)];

    let records = JsonRecord::build(&doc, &chunks, &text_chunks);
    assert_eq!(records[0].metadata.source_start_line_number, 1);
    assert_eq!(records[0].metadata.source_end_line_number, 10);
}

#[test]
fn json_record_optional_fields() {
    let doc = test_document(None, None);
    let chunks = [test_ast_chunk(0, 0, 1, 1)];
    let text_chunks = [test_text_chunk(0, "x", 0, 1, 1, 1)];

    let records = JsonRecord::build(&doc, &chunks, &text_chunks);
    assert!(records[0].metadata.path.is_none());
    assert!(records[0].metadata.repo.is_none());
}

#[test]
fn repo_eval_record_basic() {
    let doc = test_document(Some("src/lib/utils.py"), Some("org/repo"));
    let chunks = [test_ast_chunk(0, 0, 5, 7)];
    let text_chunks = [test_text_chunk(0, "code", 0, 5, 5, 4)];

    let records = RepoEvalRecord::build(&doc, &chunks, &text_chunks).unwrap();
    assert_eq!(records.len(), 1);
    assert_eq!(
        records[0].metadata.fpath_tuple,
        vec![
            String::from("src"),
            String::from("lib"),
            String::from("utils.py"),
        ]
    );
    assert_eq!(records[0].metadata.repo, "org/repo");
    assert_eq!(records[0].metadata.node_count, 7);
}

#[test]
fn repo_eval_record_missing_path() {
    let doc = test_document(None, Some("repo"));
    let chunks = [test_ast_chunk(0, 0, 1, 1)];
    let text_chunks = [test_text_chunk(0, "x", 0, 1, 1, 1)];

    let err = RepoEvalRecord::build(&doc, &chunks, &text_chunks).unwrap_err();
    match err {
        AstchunkError::ExportRequirementMissing { exporter, field } => {
            assert_eq!(exporter, "RepoEvalRecord");
            assert_eq!(field, "origin.path");
        }
        _ => panic!("unexpected error variant"),
    }
}

#[test]
fn repo_eval_record_missing_repo() {
    let doc = test_document(Some("f.py"), None);
    let chunks = [test_ast_chunk(0, 0, 1, 1)];
    let text_chunks = [test_text_chunk(0, "x", 0, 1, 1, 1)];

    let err = RepoEvalRecord::build(&doc, &chunks, &text_chunks).unwrap_err();
    match err {
        AstchunkError::ExportRequirementMissing { exporter, field } => {
            assert_eq!(exporter, "RepoEvalRecord");
            assert_eq!(field, "origin.repo");
        }
        _ => panic!("unexpected error variant"),
    }
}

#[test]
fn swebench_lite_record_basic() {
    let doc = test_document(Some("src/utils/helper.py"), None);
    let chunks = [test_ast_chunk(0, 5, 15, 2)];
    let text_chunks = [test_text_chunk(0, "text", 5, 15, 10, 4)];

    let records = SwebenchLiteRecord::build(&doc, &text_chunks, "inst-42").unwrap();
    assert_eq!(records.len(), 1);
    assert_eq!(records[0].id, "inst-42_6-15");
    assert_eq!(records[0].title, "helper.py");
    assert_eq!(records[0].text, "text");
    let _ = &chunks;
}

#[test]
fn swebench_lite_record_missing_path() {
    let doc = test_document(None, None);
    let text_chunks = [test_text_chunk(0, "x", 0, 1, 1, 1)];

    let err = SwebenchLiteRecord::build(&doc, &text_chunks, "id").unwrap_err();
    match err {
        AstchunkError::ExportRequirementMissing { exporter, field } => {
            assert_eq!(exporter, "SwebenchLiteRecord");
            assert_eq!(field, "origin.path");
        }
        _ => panic!("unexpected error variant"),
    }
}

#[test]
fn output_order_preserved() {
    let doc = test_document(Some("f.py"), Some("r"));
    let chunks = [
        test_ast_chunk(0, 0, 3, 1),
        test_ast_chunk(1, 3, 6, 2),
        test_ast_chunk(2, 6, 9, 3),
    ];
    let text_chunks = [
        test_text_chunk(0, "a", 0, 3, 3, 1),
        test_text_chunk(1, "b", 3, 6, 3, 1),
        test_text_chunk(2, "c", 6, 9, 3, 1),
    ];

    let json = JsonRecord::build(&doc, &chunks, &text_chunks);
    assert_eq!(json[0].content, "a");
    assert_eq!(json[1].content, "b");
    assert_eq!(json[2].content, "c");

    let repo_eval = RepoEvalRecord::build(&doc, &chunks, &text_chunks).unwrap();
    assert_eq!(repo_eval[0].content, "a");
    assert_eq!(repo_eval[1].content, "b");
    assert_eq!(repo_eval[2].content, "c");

    let swebench = SwebenchLiteRecord::build(&doc, &text_chunks, "id").unwrap();
    assert_eq!(swebench[0].text, "a");
    assert_eq!(swebench[1].text, "b");
    assert_eq!(swebench[2].text, "c");
}

#[test]
fn split_and_title_edge_cases() {
    let chunks = [test_ast_chunk(0, 0, 1, 1)];
    let text_chunks = [test_text_chunk(0, "x", 0, 1, 1, 1)];
    let doc = test_document(Some("/a//b/"), Some("r"));
    let recs = RepoEvalRecord::build(&doc, &chunks, &text_chunks).unwrap();
    assert_eq!(recs[0].metadata.fpath_tuple, vec!["", "a", "", "b", ""]);
    let sw = SwebenchLiteRecord::build(&doc, &text_chunks, "i").unwrap();
    assert_eq!(sw[0].title, "");
    let doc = test_document(Some("plain.py"), None);
    let sw = SwebenchLiteRecord::build(&doc, &text_chunks, "").unwrap();
    assert_eq!(sw[0].title, "plain.py");
    assert_eq!(sw[0].id, "_1-1");
}

#[test]
fn error_messages() {
    let e = AstchunkError::ExportRequirementMissing {
        exporter: "RepoEvalRecord",
        field: "origin.repo",
    };
    assert_eq!(e.message(), "export requirement missing for RepoEvalRecord: `origin.repo`");
    let e = AstchunkError::UnsupportedLanguage {
        language: String::from("cobol"),
    };
    assert_eq!(e.message(), "unsupported language: cobol");
    let e = AstchunkError::InvalidOrigin { field: "path" };
    assert_eq!(e.message(), "invalid origin: missing `path`");
}
