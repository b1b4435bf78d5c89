use astchunk::cli::{Cli, TemplateArg};
use astchunk::display::{
    decimal_string, extract_chunk_info, first_code_line, format_chunk, params_header, params_row, summary_header,
    summary_row, ChunkInfo,
};
use astchunk::types::{
    AstChunk, ChunkId, ChunkMetrics, DocumentId, LineIndexRange, TextChunk, TextMetrics, TextMode,
};
use astchunk::byte_range::ByteRange;

fn info(content: &str, index: usize, start_line: u32, end_line: u32) -> ChunkInfo {
    ChunkInfo { index, content: content.to_string(), line_count: 2, nws_size: 10, node_count: 3, start_line, end_line }
}

#[test]
fn first_code_line_skips_blank_lines() {
    assert_eq!(first_code_line("\n   \n\tdef f():\n    pass\n"), "\tdef f():");
    assert_eq!(first_code_line(""), "");
    assert_eq!(first_code_line("  \n \t \n"), "");
    assert_eq!(first_code_line("x = 1\r\ny = 2"), "x = 1");
    assert_eq!(first_code_line("\u{a0}\u{2003}\nz"), "z");
}

#[test]
fn first_code_line_cuts_long_lines() {
    let exact: String = "a".repeat(60);
    assert_eq!(first_code_line(&exact), exact);
    let long: String = "é".repeat(61);
    let expected = format!("{}...", "é".repeat(57));
    assert_eq!(first_code_line(&long), expected);
    assert_eq!(first_code_line(&long).chars().count(), 60);
}

#[test]
fn format_chunk_header_only() {
    let i = info("x = 1\ny = 2", 0, 7, 8);
    assert_eq!(format_chunk(&i, 4, false), "─── Chunk 1/4 │ Lines: 2 │ NWS: 10 │ Nodes: 3 │ L7..L8 ───");
}

#[test]
fn format_chunk_numbers_lines() {
    let i = info("x = 1\r\ny = 2\n", 2, 8, 9);
    let expected = "─── Chunk 3/5 │ Lines: 2 │ NWS: 10 │ Nodes: 3 │ L8..L9 ───\n  8 │ x = 1\n  9 │ y = 2";
    assert_eq!(format_chunk(&i, 5, true), expected);
    let wide = info("a\n\nb", 0, 98, 100);
    let expected_wide =
        "─── Chunk 1/1 │ Lines: 2 │ NWS: 10 │ Nodes: 3 │ L98..L100 ───\n  98 │ a\n  99 │ \n 100 │ b";
    assert_eq!(format_chunk(&wide, 1, true), expected_wide);
}

#[test]
fn chunk_info_uses_one_based_lines() {
    let ast = AstChunk {
        chunk_id: ChunkId(0),
        document_id: DocumentId(0),
        segments: vec![ByteRange::new(0, 5)],
        envelope: ByteRange::new(0, 5),
        line_index_range: LineIndexRange { start: 4, end: 6 },
        scopes: vec![],
        metrics: ChunkMetrics { nws_size: 11, node_count: 2, segment_count: 2 },
    };
    let text = TextChunk {
        ast_chunk_id: ChunkId(0),
        content: "a\nb".to_string(),
        text_mode: TextMode::Canonical,
        source_line_index_range: LineIndexRange { start: 4, end: 6 },
        metrics: TextMetrics { content_line_count: 2, content_nws_size: 2 },
    };
    let i = extract_chunk_info(&ast, &text, 3);
    assert_eq!(i.index, 3);
    assert_eq!(i.content, "a\nb");
    assert_eq!(i.line_count, 2);
    assert_eq!(i.nws_size, 11);
    assert_eq!(i.node_count, 2);
    assert_eq!(i.start_line, 5);
    assert_eq!(i.end_line, 6);
}

#[test]
fn table_rows() {
    assert_eq!(summary_header(false), vec!["#", "Lines", "NWS Size", "Nodes", "Start Line", "End Line"]);
    assert_eq!(summary_header(true).len(), 7);
    let i = info("\n  return 1\n", 4, 10, 11);
    assert_eq!(summary_row(&i, false), vec!["5", "2", "10", "3", "10", "11"]);
    assert_eq!(summary_row(&i, true)[6], "  return 1");
    assert_eq!(params_header()[1], "Max Chunk Size");
    let cli = Cli {
        debug: false,
        language: None,
        max_chunk_size: 1500,
        overlap: 2,
        expansion: true,
        template: TemplateArg::NoMetadata,
        repo: None,
        stdin_path: None,
        json: false,
        brief: false,
        chunk_id: None,
        files: vec![],
    };
    assert_eq!(params_row("Python", &cli, 18), vec!["Python", "1500", "2", "enabled", "None", "18"]);
    assert_eq!(decimal_string(0), "0");
    assert_eq!(decimal_string(1234567890123), "1234567890123");
}

#[test]
fn first_code_line_knows_every_white_space_character() {
    let blank = "\u{9}\u{b}\u{c}\u{85}\u{1680}\u{2000}\u{200a}\u{2028}\u{2029}\u{202f}\u{205f}\u{3000}";
    assert_eq!(first_code_line(&format!("{blank}\nq")), "q");
    assert_eq!(first_code_line("\u{200b}\nq"), "\u{200b}");
    assert_eq!(first_code_line("\u{180e}\nq"), "\u{180e}");
}
