use astchunk::cli::{
    build_chunker, build_origin_for_file, build_origin_for_stdin, chunk_index, resolve_language, validate_cli,
    Cli, LangArg, TemplateArg,
};
use astchunk::lang::Language;

fn make_cli() -> Cli {
    Cli {
        debug: false,
        language: None,
        max_chunk_size: 1500,
        overlap: 0,
        expansion: false,
        template: TemplateArg::Default,
        repo: None,
        stdin_path: None,
        json: false,
        brief: false,
        chunk_id: None,
        files: vec![],
    }
}

#[test]
fn validate_repo_eval_requires_repo() {
    let mut cli = make_cli();
    cli.template = TemplateArg::RepoEval;
    cli.files.push("src/lib.rs".into());

    let err = validate_cli(&cli).unwrap_err();
    assert_eq!(err, "--repo is required with --template repo-eval");
}

#[test]
fn validate_repo_eval_stdin_requires_path() {
    let mut cli = make_cli();
    cli.template = TemplateArg::RepoEval;
    cli.repo = Some("astchunk".to_string());

    let err = validate_cli(&cli).unwrap_err();
    assert_eq!(err, "--stdin-path is required with --template repo-eval when reading from stdin");
}

#[test]
fn validate_stdin_path_rejected_for_file_mode() {
    let mut cli = make_cli();
    cli.stdin_path = Some("src/lib.rs".into());
    cli.files.push("src/main.rs".into());

    let err = validate_cli(&cli).unwrap_err();
    assert_eq!(err, "--stdin-path can only be used when reading from stdin");
}

#[test]
fn build_origin_for_file_includes_repo_metadata() {
    let mut cli = make_cli();
    cli.repo = Some("astchunk".to_string());

    let origin = build_origin_for_file("src/lib.rs", &cli);
    assert_eq!(origin.path.as_deref(), Some("src/lib.rs"));
    assert_eq!(origin.repo.as_deref(), Some("astchunk"));
}

#[test]
fn build_origin_for_stdin_uses_cli_metadata() {
    let mut cli = make_cli();
    cli.repo = Some("astchunk".to_string());
    cli.stdin_path = Some("src/from_stdin.py".into());

    let origin = build_origin_for_stdin(&cli);
    assert_eq!(origin.path.as_deref(), Some("src/from_stdin.py"));
    assert_eq!(origin.repo.as_deref(), Some("astchunk"));
}

#[test]
fn validate_swebench_lite_stdin_requires_path() {
    let mut cli = make_cli();
    cli.template = TemplateArg::SwebenchLite;
    let err = validate_cli(&cli).unwrap_err();
    assert_eq!(err, "--stdin-path is required with --template swebench-lite when reading from stdin");
}

#[test]
fn validate_accepts_plain_runs() {
    let mut cli = make_cli();
    assert!(validate_cli(&cli).is_ok());
    cli.template = TemplateArg::SwebenchLite;
    cli.files.push("a.py".into());
    assert!(validate_cli(&cli).is_ok());
    cli.template = TemplateArg::RepoEval;
    cli.repo = Some("r".into());
    assert!(validate_cli(&cli).is_ok());
    let mut stdin_cli = make_cli();
    stdin_cli.template = TemplateArg::RepoEval;
    stdin_cli.repo = Some("r".into());
    stdin_cli.stdin_path = Some("x.py".into());
    assert!(validate_cli(&stdin_cli).is_ok());
}

#[test]
fn origin_without_repo_or_stdin_path() {
    let cli = make_cli();
    let origin = build_origin_for_stdin(&cli);
    assert!(origin.path.is_none());
    assert!(origin.repo.is_none());
    assert!(origin.revision.is_none());
    let file_origin = build_origin_for_file("b.rs", &cli);
    assert_eq!(file_origin.path.as_deref(), Some("b.rs"));
    assert!(file_origin.repo.is_none());
}

#[test]
fn language_resolution() {
    assert_eq!(resolve_language(Some("py"), None), Some(Language::Python));
    assert_eq!(resolve_language(Some("py"), Some(LangArg::Rust)), Some(Language::Rust));
    assert_eq!(resolve_language(Some("txt"), None), None);
    assert_eq!(resolve_language(None, None), None);
    assert_eq!(resolve_language(None, Some(LangArg::Csharp)), Some(Language::CSharp));
    assert_eq!(LangArg::Typescript.into_language(), Language::TypeScript);
    assert_eq!(LangArg::Cpp.into_language(), Language::Cpp);
}

#[test]
fn chunk_index_range() {
    assert_eq!(chunk_index(0, 3), None);
    assert_eq!(chunk_index(1, 3), Some(0));
    assert_eq!(chunk_index(3, 3), Some(2));
    assert_eq!(chunk_index(4, 3), None);
    assert_eq!(chunk_index(1, 0), None);
}

#[test]
fn chunker_takes_budget_and_overlap() {
    let mut cli = make_cli();
    cli.max_chunk_size = 321;
    cli.overlap = 4;
    let chunker = build_chunker(&cli);
    assert_eq!(chunker.options.max_nws_size, 321);
    assert_eq!(chunker.options.overlap_nodes, 4);
}
