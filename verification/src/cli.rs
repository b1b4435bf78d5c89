//! Command-line settings and the decisions made on them: which combinations
//! of options are accepted, the origin recorded for an input, the language of
//! a file and the chunk a 1-based identifier selects.

use vstd::prelude::*;

use crate::chunker::{CastChunker, CastChunkerOptions};
use crate::lang::{spec_from_extension, Language};
use crate::text::{clone_opt_string, same_opt_string};
use crate::types::Origin;

verus! {

/// Language named on the command line.
#[derive(Debug, Clone, Copy, PartialEq, Eq, Structural)]
pub enum LangArg {
    /// Python.
    Python,
    /// Java.
    Java,
    /// C++.
    Cpp,
    /// Rust.
    Rust,
    /// C#.
    Csharp,
    /// TypeScript.
    Typescript,
}

/// The language a [`LangArg`] names.
pub open spec fn spec_into_language(arg: LangArg) -> Language {
    match arg {
        LangArg::Python => Language::Python,
        LangArg::Java => Language::Java,
        LangArg::Cpp => Language::Cpp,
        LangArg::Rust => Language::Rust,
        LangArg::Csharp => Language::CSharp,
        LangArg::Typescript => Language::TypeScript,
    }
}

impl LangArg {
    /// The language this argument names.
    pub fn into_language(self) -> (r: Language)
        ensures
            r == spec_into_language(self),
    {
        match self {
            LangArg::Python => Language::Python,
            LangArg::Java => Language::Java,
            LangArg::Cpp => Language::Cpp,
            LangArg::Rust => Language::Rust,
            LangArg::Csharp => Language::CSharp,
            LangArg::Typescript => Language::TypeScript,
        }
    }
}

/// Export format named on the command line.
#[derive(Debug, Clone, Copy, PartialEq, Eq, Structural)]
pub enum TemplateArg {
    /// No metadata.
    NoMetadata,
    /// The default record.
    Default,
    /// `RepoEval` records.
    RepoEval,
    /// SWE-bench Lite records.
    SwebenchLite,
}

impl Default for TemplateArg {
    fn default() -> (r: Self)
        ensures
            r == TemplateArg::Default,
    {
        TemplateArg::Default
    }
}

/// Settings of a command-line run.
#[derive(Debug, Clone)]
pub struct Cli {
    /// Enable debug logging.
    pub debug: bool,
    /// Language of the input (detected from the extension when absent).
    pub language: Option<LangArg>,
    /// Maximum non-whitespace characters per chunk.
    pub max_chunk_size: u32,
    /// Number of AST nodes to overlap between windows.
    pub overlap: usize,
    /// Add the ancestry header to each chunk.
    pub expansion: bool,
    /// Export format for JSON output.
    pub template: TemplateArg,
    /// Repository name used in output metadata (required for `repo-eval`).
    pub repo: Option<String>,
    /// Logical source path for standard-input metadata.
    pub stdin_path: Option<String>,
    /// Output as JSON.
    pub json: bool,
    /// Show only the summary table.
    pub brief: bool,
    /// Output only the chunk with this 1-based identifier.
    pub chunk_id: Option<usize>,
    /// Source files or directories (standard input when empty).
    pub files: Vec<String>,
}

/// The error that refuses a combination of settings, if any: a standard-input
/// path with files; `repo-eval` without a repository; `repo-eval` or
/// `swebench-lite` on standard input without a standard-input path.
pub open spec fn validation_error(cli: Cli) -> Option<Seq<char>> {
    if cli.files@.len() > 0 && cli.stdin_path is Some {
        Some("--stdin-path can only be used when reading from stdin"@)
    } else if cli.template == TemplateArg::RepoEval && cli.repo is None {
        Some("--repo is required with --template repo-eval"@)
    } else if cli.files@.len() == 0 && cli.stdin_path is None && cli.template == TemplateArg::RepoEval {
        Some("--stdin-path is required with --template repo-eval when reading from stdin"@)
    } else if cli.files@.len() == 0 && cli.stdin_path is None && cli.template == TemplateArg::SwebenchLite {
        Some("--stdin-path is required with --template swebench-lite when reading from stdin"@)
    } else {
        None
    }
}

/// Checks that the settings go together; the error says which do not.
pub fn validate_cli(cli: &Cli) -> (r: Result<(), String>)
    ensures
        r is Ok <==> validation_error(*cli) is None,
        r matches Err(m) ==> validation_error(*cli) == Some(m@),
{
    if cli.files.len() > 0 && cli.stdin_path.is_some() {
        return Err("--stdin-path can only be used when reading from stdin".to_owned());
    }
    if cli.template == TemplateArg::RepoEval && cli.repo.is_none() {
        return Err("--repo is required with --template repo-eval".to_owned());
    }
    if cli.files.len() == 0 && cli.stdin_path.is_none() {
        match cli.template {
            TemplateArg::RepoEval => {
                return Err(
                    "--stdin-path is required with --template repo-eval when reading from stdin".to_owned(),
                );
            },
            TemplateArg::SwebenchLite => {
                return Err(
                    "--stdin-path is required with --template swebench-lite when reading from stdin".to_owned(),
                );
            },
            _ => {},
        }
    }
    Ok(())
}

/// The origin of a file input: its path and the repository of the settings.
pub fn build_origin_for_file(path: &str, cli: &Cli) -> (r: Origin)
    ensures
        r.path is Some && r.path->0@ == path@,
        same_opt_string(r.repo, cli.repo),
        r.revision is None,
{
    Origin { path: Some(path.to_owned()), repo: clone_opt_string(&cli.repo), revision: None }
}

/// The origin of standard input: the standard-input path and the repository
/// of the settings.
pub fn build_origin_for_stdin(cli: &Cli) -> (r: Origin)
    ensures
        same_opt_string(r.path, cli.stdin_path),
        same_opt_string(r.repo, cli.repo),
        r.revision is None,
{
    Origin { path: clone_opt_string(&cli.stdin_path), repo: clone_opt_string(&cli.repo), revision: None }
}

/// The language of a file: the one named on the command line, else the one
/// its extension gives, else none.
pub fn resolve_language(extension: Option<&str>, explicit: Option<LangArg>) -> (r: Option<Language>)
    ensures
        r == match explicit {
            Some(arg) => Some(spec_into_language(arg)),
            None => match extension {
                Some(ext) => spec_from_extension(ext@),
                None => None,
            },
        },
{
    match explicit {
        Some(arg) => Some(arg.into_language()),
        None => match extension {
            Some(ext) => Language::from_extension(ext),
            None => None,
        },
    }
}

/// The 0-based index of the chunk with 1-based identifier `chunk_id` among
/// `total` chunks; `None` when the identifier is out of `1..=total`.
pub fn chunk_index(chunk_id: usize, total: usize) -> (r: Option<usize>)
    ensures
        r is Some <==> 1 <= chunk_id <= total,
        r matches Some(i) ==> i == chunk_id - 1,
{
    if chunk_id == 0 || chunk_id > total {
        None
    } else {
        Some(chunk_id - 1)
    }
}

/// The chunker of a run: the budget and overlap of the settings.
pub fn build_chunker(cli: &Cli) -> (r: CastChunker)
    ensures
        r.options.max_nws_size == cli.max_chunk_size,
        r.options.overlap_nodes == cli.overlap,
{
    let mut options = CastChunkerOptions::default();
    options.max_nws_size = cli.max_chunk_size;
    options.overlap_nodes = cli.overlap;
    CastChunker::new(options)
}

} // verus!
