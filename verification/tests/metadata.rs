use astchunk::byte_range::ByteRange;
use astchunk::chunk::AstChunk;
use astchunk::metadata::{
    apply_chunk_expansion, build_metadata, ChunkOptions, CodeWindow, MetadataTemplate, RepoMetadata, WindowMetadata,
};

fn chunk(text: &str, ancestors: &[&str]) -> AstChunk {
    AstChunk {
        text: text.to_string(),
        byte_range: ByteRange::new(3, 20),
        start_line: 4,
        end_line: 9,
        size: 12,
        node_count: 2,
        ancestors: ancestors.iter().map(|a| a.to_string()).collect(),
    }
}

#[test]
fn repo_metadata_reads_back_last_write() {
    let mut meta = RepoMetadata::new();
    assert!(meta.get("repo").is_none());
    meta.insert("repo".to_string(), "a".to_string());
    meta.insert("filepath".to_string(), "f.py".to_string());
    meta.insert("repo".to_string(), "b".to_string());
    assert_eq!(meta.get("repo").map(String::as_str), Some("b"));
    assert_eq!(meta.get("filepath").map(String::as_str), Some("f.py"));
    assert!(meta.get("missing").is_none());
}

#[test]
fn default_options() {
    let o = ChunkOptions::default();
    assert_eq!(o.chunk_overlap, 0);
    assert!(!o.chunk_expansion);
    assert!(o.repo_metadata.get("filepath").is_none());
    assert_eq!(MetadataTemplate::default(), MetadataTemplate::Default);
}

#[test]
fn expansion_header_layout() {
    let mut meta = RepoMetadata::new();
    meta.insert("filepath".to_string(), "src/a.py".to_string());
    let mut c = chunk("    return 1", &["class A:", "def f(self):", "def g():"]);
    apply_chunk_expansion(&mut c, MetadataTemplate::Default, &meta);
    assert_eq!(c.text, "'''\nsrc/a.py\nclass A:\n\tdef f(self):\n\t\tdef g():\n'''\n    return 1");
    assert_eq!(c.size, 12);
    assert_eq!(c.ancestors.len(), 3);
}

#[test]
fn expansion_without_path_or_ancestors() {
    let meta = RepoMetadata::new();
    let mut c = chunk("x", &[]);
    apply_chunk_expansion(&mut c, MetadataTemplate::NoMetadata, &meta);
    assert_eq!(c.text, "'''\n'''\nx");
    let mut d = chunk("y", &["def h():"]);
    apply_chunk_expansion(&mut d, MetadataTemplate::CodeRagBenchSwebenchLite, &meta);
    assert_eq!(d.text, "'''\ndef h():\n'''\ny");
}

#[test]
fn metadata_templates() {
    let mut meta = RepoMetadata::new();
    meta.insert("filepath".to_string(), "p.py".to_string());
    meta.insert("fpath_tuple".to_string(), "a/b/p.py".to_string());
    meta.insert("repo".to_string(), "org/repo".to_string());
    meta.insert("instance_id".to_string(), "django-1".to_string());
    meta.insert("filename".to_string(), "p.py".to_string());
    let c = chunk("body", &[]);

    match build_metadata(&c, MetadataTemplate::NoMetadata, &meta) {
        CodeWindow::Standard { content, metadata: WindowMetadata::Empty } => assert_eq!(content, "body"),
        other => panic!("unexpected {other:?}"),
    }
    match build_metadata(&c, MetadataTemplate::Default, &meta) {
        CodeWindow::Standard {
            metadata: WindowMetadata::Default { filepath, chunk_size, line_count, start_line_no, end_line_no, node_count },
            ..
        } => {
            assert_eq!(filepath, "p.py");
            assert_eq!((chunk_size, line_count, start_line_no, end_line_no, node_count), (12, 6, 4, 9, 2));
        },
        other => panic!("unexpected {other:?}"),
    }
    match build_metadata(&c, MetadataTemplate::CodeRagBenchRepoEval, &meta) {
        CodeWindow::Standard { metadata: WindowMetadata::RepoEval { fpath_tuple, repo, line_count, .. }, .. } => {
            assert_eq!(fpath_tuple, vec!["a", "b", "p.py"]);
            assert_eq!(repo, "org/repo");
            assert_eq!(line_count, 6);
        },
        other => panic!("unexpected {other:?}"),
    }
    match build_metadata(&c, MetadataTemplate::CodeRagBenchSwebenchLite, &meta) {
        CodeWindow::SwebenchLite { _id, title, text } => {
            assert_eq!(_id, "django-1_4-9");
            assert_eq!(title, "p.py");
            assert_eq!(text, "body");
        },
        other => panic!("unexpected {other:?}"),
    }
    let empty = RepoMetadata::new();
    match build_metadata(&c, MetadataTemplate::CodeRagBenchRepoEval, &empty) {
        CodeWindow::Standard { metadata: WindowMetadata::RepoEval { fpath_tuple, repo, .. }, .. } => {
            assert!(fpath_tuple.is_empty());
            assert_eq!(repo, "");
        },
        other => panic!("unexpected {other:?}"),
    }
}
