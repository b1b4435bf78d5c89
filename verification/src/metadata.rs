//! Output windows of the chunk builder: each chunk's text with metadata laid
//! out by a template, and the optional context header ("chunk expansion").

use vstd::prelude::*;
use vstd::string::StringSliceAdditionalSpecFns;
use vstd::utf8::{encode_utf8, valid_utf8};

use crate::chunk::AstChunk;
use crate::internal::materialize::repeat;
use crate::output::build_swebench_id;
use crate::text::{
    decimal, extend_from_range, lemma_ascii_valid, lemma_valid_utf8_concat, push_ascii_valid,
    push_str_valid, split_bytes, split_on, str_eq, string_from_valid_utf8,
};

verus! {

/// Metadata template used for chunk output formatting.
#[derive(Debug, Clone, Copy, PartialEq, Eq, Hash, Structural)]
pub enum MetadataTemplate {
    /// No metadata.
    NoMetadata,
    /// Default template with filepath, chunk size, line count, start/end line, node count.
    Default,
    /// `CodeRAGBench` `RepoEval` template.
    CodeRagBenchRepoEval,
    /// `CodeRAGBench` SWE-bench Lite template.
    CodeRagBenchSwebenchLite,
}

impl Default for MetadataTemplate {
    fn default() -> (r: Self)
        ensures
            r == MetadataTemplate::Default,
    {
        MetadataTemplate::Default
    }
}

/// Repository-level metadata: a map from keys (such as `filepath`, `repo`,
/// `fpath_tuple`, `instance_id`, `filename`) to values.
#[derive(Debug, Clone)]
pub struct RepoMetadata {
    /// Inserted pairs, oldest first; a later pair overrides an earlier one.
    entries: Vec<(String, String)>,
}

/// The value of `key` among `entries`: that of the last pair with this key.
pub open spec fn lookup(entries: Seq<(String, String)>, key: Seq<char>) -> Option<Seq<char>>
    decreases entries.len(),
{
    if entries.len() == 0 {
        None
    } else if entries.last().0@ == key {
        Some(entries.last().1@)
    } else {
        lookup(entries.drop_last(), key)
    }
}

impl View for RepoMetadata {
    type V = Map<Seq<char>, Seq<char>>;

    closed spec fn view(&self) -> Map<Seq<char>, Seq<char>> {
        Map::new(|k: Seq<char>| lookup(self.entries@, k) is Some, |k: Seq<char>| lookup(self.entries@, k)->0)
    }
}

impl RepoMetadata {
    /// An empty map.
    pub fn new() -> (r: Self)
        ensures
            r@ == Map::<Seq<char>, Seq<char>>::empty(),
    {
        let r = RepoMetadata { entries: Vec::new() };
        assert(r@ =~= Map::<Seq<char>, Seq<char>>::empty());
        r
    }

    /// Sets `key` to `value`.
    pub fn insert(&mut self, key: String, value: String)
        ensures
            final(self)@ == old(self)@.insert(key@, value@),
    {
        let ghost before = self.entries@;
        self.entries.push((key, value));
        proof {
            assert(self.entries@.drop_last() =~= before);
            assert forall|k: Seq<char>| lookup(self.entries@, k) == if k == key@ {
                Some(value@)
            } else {
                lookup(before, k)
            } by {}
        }
        assert(self@ =~= old(self)@.insert(key@, value@));
    }

    /// The value of `key`, if present.
    pub fn get(&self, key: &str) -> (r: Option<&String>)
        ensures
            r is Some <==> self@.contains_key(key@),
            r matches Some(v) ==> v@ == self@[key@],
    {
        let mut i = self.entries.len();
        assert(self.entries@.take(i as int) =~= self.entries@);
        while i > 0
            invariant
                i <= self.entries@.len(),
                lookup(self.entries@, key@) == lookup(self.entries@.take(i as int), key@),
            decreases i,
        {
            assert(self.entries@.take(i as int).drop_last() =~= self.entries@.take(i - 1));
            if str_eq(self.entries[i - 1].0.as_str(), key) {
                return Some(&self.entries[i - 1].1);
            }
            i = i - 1;
        }
        assert(self.entries@.take(0) =~= Seq::<(String, String)>::empty());
        None
    }
}

/// The UTF-8 bytes of the value of `key`, or nothing when it is absent.
pub open spec fn value_bytes(meta: Map<Seq<char>, Seq<char>>, key: Seq<char>) -> Seq<u8> {
    if meta.contains_key(key) {
        encode_utf8(meta[key])
    } else {
        seq![]
    }
}

/// The value of `key`, or an empty string.
fn get_or_empty(meta: &RepoMetadata, key: &str) -> (r: String)
    ensures
        encode_utf8(r@) == value_bytes(meta@, key@),
{
    match meta.get(key) {
        Some(v) => v.clone(),
        None => {
            let r = String::new();
            assert(encode_utf8(r@) =~= Seq::<u8>::empty());
            r
        },
    }
}

/// Options for the chunking process.
#[derive(Debug, Clone)]
pub struct ChunkOptions {
    /// Number of nodes to overlap between adjacent windows (default 0).
    pub chunk_overlap: usize,
    /// Whether to add an ancestry context header to each chunk (default false).
    pub chunk_expansion: bool,
    /// Repository-level metadata (e.g. filepath, repo, instance id, filename).
    pub repo_metadata: RepoMetadata,
}

impl Default for ChunkOptions {
    fn default() -> (r: Self)
        ensures
            r.chunk_overlap == 0,
            !r.chunk_expansion,
            r.repo_metadata@ == Map::<Seq<char>, Seq<char>>::empty(),
    {
        ChunkOptions { chunk_overlap: 0, chunk_expansion: false, repo_metadata: RepoMetadata::new() }
    }
}

/// Metadata attached to a standard output window.
#[derive(Debug, Clone)]
pub enum WindowMetadata {
    /// No metadata.
    Empty,
    /// The default template.
    Default {
        /// The file's path.
        filepath: String,
        /// Non-whitespace size of the chunk.
        chunk_size: u32,
        /// Number of lines covered.
        line_count: u32,
        /// 0-based start line.
        start_line_no: u32,
        /// 0-based end line.
        end_line_no: u32,
        /// Number of nodes.
        node_count: usize,
    },
    /// The `RepoEval` template.
    RepoEval {
        /// Components of the file's path.
        fpath_tuple: Vec<String>,
        /// Repository name.
        repo: String,
        /// Non-whitespace size of the chunk.
        chunk_size: u32,
        /// Number of lines covered.
        line_count: u32,
        /// 0-based start line.
        start_line_no: u32,
        /// 0-based end line.
        end_line_no: u32,
        /// Number of nodes.
        node_count: usize,
    },
}

/// An output code window.
#[derive(Debug, Clone)]
pub enum CodeWindow {
    /// Standard output: the content and its metadata.
    Standard {
        /// The chunk text.
        content: String,
        /// Metadata.
        metadata: WindowMetadata,
    },
    /// SWE-bench Lite output.
    SwebenchLite {
        /// Unique identifier.
        _id: String,
        /// Title (file name).
        title: String,
        /// Chunk text.
        text: String,
    },
}

/// The value of [`WindowMetadata`], strings given as UTF-8 bytes.
pub enum WindowMetadataModel {
    /// No metadata.
    Empty,
    /// The default template.
    Default {
        filepath: Seq<u8>,
        chunk_size: u32,
        line_count: u32,
        start_line_no: u32,
        end_line_no: u32,
        node_count: usize,
    },
    /// The `RepoEval` template.
    RepoEval {
        fpath_tuple: Seq<Seq<u8>>,
        repo: Seq<u8>,
        chunk_size: u32,
        line_count: u32,
        start_line_no: u32,
        end_line_no: u32,
        node_count: usize,
    },
}

/// The value of [`CodeWindow`], strings given as UTF-8 bytes.
pub enum CodeWindowModel {
    /// Standard output.
    Standard { content: Seq<u8>, metadata: WindowMetadataModel },
    /// SWE-bench Lite output.
    SwebenchLite { id: Seq<u8>, title: Seq<u8>, text: Seq<u8> },
}

/// The UTF-8 bytes of each string.
pub open spec fn strings_bytes(v: Seq<String>) -> Seq<Seq<u8>> {
    Seq::new(v.len(), |i: int| encode_utf8(v[i]@))
}

impl DeepView for WindowMetadata {
    type V = WindowMetadataModel;

    open spec fn deep_view(&self) -> WindowMetadataModel {
        match self {
            WindowMetadata::Empty => WindowMetadataModel::Empty,
            WindowMetadata::Default { filepath, chunk_size, line_count, start_line_no, end_line_no, node_count } =>
                WindowMetadataModel::Default {
                filepath: encode_utf8(filepath@),
                chunk_size: *chunk_size,
                line_count: *line_count,
                start_line_no: *start_line_no,
                end_line_no: *end_line_no,
                node_count: *node_count,
            },
            WindowMetadata::RepoEval {
                fpath_tuple,
                repo,
                chunk_size,
                line_count,
                start_line_no,
                end_line_no,
                node_count,
            } => WindowMetadataModel::RepoEval {
                fpath_tuple: strings_bytes(fpath_tuple@),
                repo: encode_utf8(repo@),
                chunk_size: *chunk_size,
                line_count: *line_count,
                start_line_no: *start_line_no,
                end_line_no: *end_line_no,
                node_count: *node_count,
            },
        }
    }
}

impl DeepView for CodeWindow {
    type V = CodeWindowModel;

    open spec fn deep_view(&self) -> CodeWindowModel {
        match self {
            CodeWindow::Standard { content, metadata } => CodeWindowModel::Standard {
                content: encode_utf8(content@),
                metadata: metadata.deep_view(),
            },
            CodeWindow::SwebenchLite { _id, title, text } => CodeWindowModel::SwebenchLite {
                id: encode_utf8(_id@),
                title: encode_utf8(title@),
                text: encode_utf8(text@),
            },
        }
    }
}

/// The output window under a template of a chunk with text bytes `text`,
/// non-whitespace size `size`, line range `start_line..=end_line` and
/// `node_count` nodes.
pub open spec fn window_model(
    text: Seq<u8>,
    size: u32,
    start_line: u32,
    end_line: u32,
    node_count: usize,
    template: MetadataTemplate,
    meta: Map<Seq<char>, Seq<char>>,
) -> CodeWindowModel {
    let line_count = (end_line - start_line + 1) as u32;
    match template {
        MetadataTemplate::NoMetadata => CodeWindowModel::Standard { content: text, metadata: WindowMetadataModel::Empty },
        MetadataTemplate::Default => CodeWindowModel::Standard {
            content: text,
            metadata: WindowMetadataModel::Default {
                filepath: value_bytes(meta, "filepath"@),
                chunk_size: size,
                line_count,
                start_line_no: start_line,
                end_line_no: end_line,
                node_count,
            },
        },
        MetadataTemplate::CodeRagBenchRepoEval => CodeWindowModel::Standard {
            content: text,
            metadata: WindowMetadataModel::RepoEval {
                fpath_tuple: if meta.contains_key("fpath_tuple"@) {
                    split_bytes(encode_utf8(meta["fpath_tuple"@]), 0x2f)
                } else {
                    seq![]
                },
                repo: value_bytes(meta, "repo"@),
                chunk_size: size,
                line_count,
                start_line_no: start_line,
                end_line_no: end_line,
                node_count,
            },
        },
        MetadataTemplate::CodeRagBenchSwebenchLite => CodeWindowModel::SwebenchLite {
            id: value_bytes(meta, "instance_id"@) + seq![0x5fu8] + decimal(start_line as nat)
                + seq![0x2du8] + decimal(end_line as nat),
            title: value_bytes(meta, "filename"@),
            text,
        },
    }
}

/// The window of a chunk under a template.
pub open spec fn spec_build_metadata(
    chunk: AstChunk,
    template: MetadataTemplate,
    meta: Map<Seq<char>, Seq<char>>,
) -> CodeWindowModel {
    window_model(
        encode_utf8(chunk.text@),
        chunk.size,
        chunk.start_line,
        chunk.end_line,
        chunk.node_count,
        template,
        meta,
    )
}

/// A template that reports a line count needs a forward line range whose
/// count fits `u32`.
pub open spec fn lines_fit(template: MetadataTemplate, start_line: u32, end_line: u32) -> bool {
    template == MetadataTemplate::Default || template == MetadataTemplate::CodeRagBenchRepoEval
        ==> start_line <= end_line && end_line - start_line + 1 <= u32::MAX
}

/// Builds the `RepoEval` path components: the `fpath_tuple` value split at
/// `/`, or none.
fn fpath_components(meta: &RepoMetadata) -> (r: Vec<String>)
    ensures
        strings_bytes(r@) == if meta@.contains_key("fpath_tuple"@) {
            split_bytes(encode_utf8(meta@["fpath_tuple"@]), 0x2f)
        } else {
            seq![]
        },
{
    match meta.get("fpath_tuple") {
        Some(v) => {
            let r = split_on(v.as_str(), 0x2f);
            assert(strings_bytes(r@) =~= split_bytes(encode_utf8(v@), 0x2f));
            r
        },
        None => {
            let r: Vec<String> = Vec::new();
            assert(strings_bytes(r@) =~= Seq::<Seq<u8>>::empty());
            r
        },
    }
}

/// Builds the output window of a chunk according to the template.
pub fn build_metadata(chunk: &AstChunk, template: MetadataTemplate, repo_metadata: &RepoMetadata) -> (r: CodeWindow)
    requires
        lines_fit(template, chunk.start_line, chunk.end_line),
    ensures
        r.deep_view() == spec_build_metadata(*chunk, template, repo_metadata@),
{
    match template {
        MetadataTemplate::NoMetadata => CodeWindow::Standard { content: chunk.text.clone(), metadata: WindowMetadata::Empty },
        MetadataTemplate::Default => {
            let filepath = get_or_empty(repo_metadata, "filepath");
            CodeWindow::Standard {
                content: chunk.text.clone(),
                metadata: WindowMetadata::Default {
                    filepath,
                    chunk_size: chunk.size,
                    line_count: chunk.line_count(),
                    start_line_no: chunk.start_line,
                    end_line_no: chunk.end_line,
                    node_count: chunk.node_count,
                },
            }
        },
        MetadataTemplate::CodeRagBenchRepoEval => {
            let fpath_tuple = fpath_components(repo_metadata);
            let repo = get_or_empty(repo_metadata, "repo");
            CodeWindow::Standard {
                content: chunk.text.clone(),
                metadata: WindowMetadata::RepoEval {
                    fpath_tuple,
                    repo,
                    chunk_size: chunk.size,
                    line_count: chunk.line_count(),
                    start_line_no: chunk.start_line,
                    end_line_no: chunk.end_line,
                    node_count: chunk.node_count,
                },
            }
        },
        MetadataTemplate::CodeRagBenchSwebenchLite => {
            let instance_id = get_or_empty(repo_metadata, "instance_id");
            let filename = get_or_empty(repo_metadata, "filename");
            let id = build_swebench_id(instance_id.as_str(), chunk.start_line, chunk.end_line);
            CodeWindow::SwebenchLite { _id: id, title: filename, text: chunk.text.clone() }
        },
    }
}

/// The path shown in the expansion header for a template.
pub open spec fn expansion_path(template: MetadataTemplate, meta: Map<Seq<char>, Seq<char>>) -> Seq<u8> {
    match template {
        MetadataTemplate::Default => value_bytes(meta, "filepath"@),
        MetadataTemplate::CodeRagBenchRepoEval => value_bytes(meta, "fpath_tuple"@),
        MetadataTemplate::CodeRagBenchSwebenchLite => value_bytes(meta, "filename"@),
        MetadataTemplate::NoMetadata => seq![],
    }
}

/// The ancestors joined by newlines, ancestor `i` indented by `i` tabs.
pub open spec fn tab_join(ancestors: Seq<Seq<u8>>) -> Seq<u8>
    decreases ancestors.len(),
{
    if ancestors.len() == 0 {
        seq![]
    } else if ancestors.len() == 1 {
        ancestors[0]
    } else {
        tab_join(ancestors.drop_last()) + seq![0x0au8] + repeat(0x09, ancestors.len() - 1)
            + ancestors.last()
    }
}

/// The expansion header: `'''` newline, the path and a newline when the
/// path is not empty, the joined ancestors and a newline when they are not
/// empty, then `'''`.
pub open spec fn expansion_header(path: Seq<u8>, joined: Seq<u8>) -> Seq<u8> {
    seq![0x27u8, 0x27, 0x27, 0x0a] + (if path.len() > 0 {
        path + seq![0x0au8]
    } else {
        seq![]
    }) + (if joined.len() > 0 {
        joined + seq![0x0au8]
    } else {
        seq![]
    }) + seq![0x27u8, 0x27, 0x27]
}

/// The ancestors joined by newlines, ancestor `i` indented by `i` tabs.
fn join_ancestors(ancestors: &Vec<String>) -> (joined: Vec<u8>)
    ensures
        joined@ == tab_join(strings_bytes(ancestors@)),
        valid_utf8(joined@),
{
    let ghost ancs = strings_bytes(ancestors@);
    let mut joined: Vec<u8> = Vec::new();
    proof {
        lemma_ascii_valid(joined@);
    }
    let mut i: usize = 0;
    assert(ancs.take(0) =~= Seq::<Seq<u8>>::empty());
    while i < ancestors.len()
        invariant
            ancs == strings_bytes(ancestors@),
            i <= ancs.len(),
            joined@ == tab_join(ancs.take(i as int)),
            valid_utf8(joined@),
        decreases ancs.len() - i,
    {
        let ghost before = joined@;
        if i > 0 {
            push_ascii_valid(&mut joined, 0x0a);
            let mut t: usize = 0;
            while t < i
                invariant
                    t <= i,
                    joined@ == before + seq![0x0au8] + repeat(0x09, t as int),
                    valid_utf8(joined@),
                decreases i - t,
            {
                push_ascii_valid(&mut joined, 0x09);
                t = t + 1;
                assert(joined@ =~= before + seq![0x0au8] + repeat(0x09, t as int));
            }
        }
        push_str_valid(&mut joined, ancestors[i].as_str());
        i = i + 1;
        assert(ancs.take(i as int).drop_last() =~= ancs.take(i - 1));
        if i == 1 {
            assert(joined@ =~= tab_join(ancs.take(1)));
        } else {
            assert(joined@ =~= tab_join(ancs.take(i as int)));
        }
    }
    assert(ancs.take(ancs.len() as int) =~= ancs);
    joined
}

/// The expansion header followed by a newline and `text`.
fn expanded_text(path: &str, joined: &Vec<u8>, text: &str) -> (out: Vec<u8>)
    requires
        valid_utf8(joined@),
    ensures
        out@ == expansion_header(path.spec_bytes(), joined@) + seq![0x0au8] + text.spec_bytes(),
        valid_utf8(out@),
{
    let mut out: Vec<u8> = Vec::new();
    proof {
        lemma_ascii_valid(out@);
    }
    push_ascii_valid(&mut out, 0x27);
    push_ascii_valid(&mut out, 0x27);
    push_ascii_valid(&mut out, 0x27);
    push_ascii_valid(&mut out, 0x0a);
    if path.as_bytes().len() > 0 {
        push_str_valid(&mut out, path);
        push_ascii_valid(&mut out, 0x0a);
    }
    if joined.len() > 0 {
        let ghost before = out@;
        extend_from_range(&mut out, joined.as_slice(), 0, joined.len());
        proof {
            assert(joined@.subrange(0, joined@.len() as int) =~= joined@);
            lemma_valid_utf8_concat(before, joined@);
        }
        push_ascii_valid(&mut out, 0x0a);
    }
    push_ascii_valid(&mut out, 0x27);
    push_ascii_valid(&mut out, 0x27);
    push_ascii_valid(&mut out, 0x27);
    push_ascii_valid(&mut out, 0x0a);
    push_str_valid(&mut out, text);
    assert(out@ =~= expansion_header(path.spec_bytes(), joined@) + seq![0x0au8] + text.spec_bytes());
    out
}

/// Prepends the ancestry context header to the chunk's text: the header of
/// [`expansion_header`], a newline, then the chunk's previous text.
pub fn apply_chunk_expansion(chunk: &mut AstChunk, template: MetadataTemplate, repo_metadata: &RepoMetadata)
    ensures
        encode_utf8(final(chunk).text@) == expansion_header(
            expansion_path(template, repo_metadata@),
            tab_join(strings_bytes(old(chunk).ancestors@)),
        ) + seq![0x0au8] + encode_utf8(old(chunk).text@),
        final(chunk).byte_range == old(chunk).byte_range,
        final(chunk).start_line == old(chunk).start_line,
        final(chunk).end_line == old(chunk).end_line,
        final(chunk).size == old(chunk).size,
        final(chunk).node_count == old(chunk).node_count,
        final(chunk).ancestors@ == old(chunk).ancestors@,
{
    let filepath = match template {
        MetadataTemplate::Default => get_or_empty(repo_metadata, "filepath"),
        MetadataTemplate::CodeRagBenchRepoEval => get_or_empty(repo_metadata, "fpath_tuple"),
        MetadataTemplate::CodeRagBenchSwebenchLite => get_or_empty(repo_metadata, "filename"),
        MetadataTemplate::NoMetadata => {
            let r = String::new();
            assert(encode_utf8(r@) =~= Seq::<u8>::empty());
            r
        },
    };
    let joined = join_ancestors(&chunk.ancestors);
    let out = expanded_text(filepath.as_str(), &joined, chunk.text.as_str());
    chunk.text = string_from_valid_utf8(out);
}

} // verus!
