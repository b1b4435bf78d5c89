//! Languages supported by the chunker, and their tree-sitter grammars.

use vstd::prelude::*;

use crate::text::str_eq;
use tree_sitter::Language as Grammar;

verus! {

/// Supported programming languages for AST-based chunking.
#[derive(Debug, Clone, Copy, PartialEq, Eq, Hash, Structural)]
pub enum Language {
    /// Python
    Python,
    /// Java
    Java,
    /// C++
    Cpp,
    /// Rust
    Rust,
    /// C#
    CSharp,
    /// TypeScript / TSX
    TypeScript,
}

/// The language that a file extension denotes, if any.
pub open spec fn spec_from_extension(ext: Seq<char>) -> Option<Language> {
    if ext == "py"@ {
        Some(Language::Python)
    } else if ext == "java"@ {
        Some(Language::Java)
    } else if ext == "cpp"@ || ext == "cc"@ || ext == "cxx"@ || ext == "c++"@ || ext == "h"@
        || ext == "hpp"@ || ext == "hxx"@ || ext == "hh"@ {
        Some(Language::Cpp)
    } else if ext == "rs"@ {
        Some(Language::Rust)
    } else if ext == "cs"@ {
        Some(Language::CSharp)
    } else if ext == "ts"@ || ext == "tsx"@ {
        Some(Language::TypeScript)
    } else {
        None
    }
}

/// Node types that represent class or function definitions (the scopes
/// that make up a chunk's ancestry).
pub open spec fn spec_ancestor_node_types(lang: Language) -> Seq<Seq<char>> {
    match lang {
        Language::Python => seq!["class_definition"@, "function_definition"@],
        Language::Cpp => seq![
            "class_specifier"@,
            "function_definition"@,
            "namespace_definition"@,
            "struct_specifier"@,
        ],
        Language::Rust => seq![
            "impl_item"@,
            "function_item"@,
            "struct_item"@,
            "enum_item"@,
            "trait_item"@,
            "mod_item"@,
        ],
        Language::Java | Language::CSharp => seq![
            "class_declaration"@,
            "method_declaration"@,
            "constructor_declaration"@,
            "interface_declaration"@,
        ],
        Language::TypeScript => seq![
            "class_declaration"@,
            "method_definition"@,
            "function_declaration"@,
            "arrow_function"@,
            "interface_declaration"@,
        ],
    }
}

/// The node type of the root node for a language.
pub open spec fn spec_root_node_type(lang: Language) -> Seq<char> {
    match lang {
        Language::Python => "module"@,
        Language::Cpp => "translation_unit"@,
        Language::Rust => "source_file"@,
        Language::Java | Language::TypeScript => "program"@,
        Language::CSharp => "compilation_unit"@,
    }
}

/// A tree-sitter grammar together with the language it parses.
pub struct LanguageGrammar {
    grammar: Grammar,
    language: Ghost<Language>,
}

impl LanguageGrammar {
    /// The language that the grammar parses.
    pub closed spec fn language(&self) -> Language {
        self.language@
    }

    /// The tree-sitter grammar handle.
    pub fn as_grammar(&self) -> &Grammar {
        &self.grammar
    }
}

/// The grammar of Python (`tree_sitter_python::LANGUAGE`), labelled with the language it parses.
#[verifier::external_body]
fn python_grammar() -> (r: LanguageGrammar)
    ensures
        r.language() == Language::Python,
{
    LanguageGrammar { grammar: tree_sitter_python::LANGUAGE.into(), language: Ghost(Language::Python) }
}

/// The grammar of Java (`tree_sitter_java::LANGUAGE`), labelled with the language it parses.
#[verifier::external_body]
fn java_grammar() -> (r: LanguageGrammar)
    ensures
        r.language() == Language::Java,
{
    LanguageGrammar { grammar: tree_sitter_java::LANGUAGE.into(), language: Ghost(Language::Java) }
}

/// The grammar of C++ (`tree_sitter_cpp::LANGUAGE`), labelled with the language it parses.
#[verifier::external_body]
fn cpp_grammar() -> (r: LanguageGrammar)
    ensures
        r.language() == Language::Cpp,
{
    LanguageGrammar { grammar: tree_sitter_cpp::LANGUAGE.into(), language: Ghost(Language::Cpp) }
}

/// The grammar of Rust (`tree_sitter_rust::LANGUAGE`), labelled with the language it parses.
#[verifier::external_body]
fn rust_grammar() -> (r: LanguageGrammar)
    ensures
        r.language() == Language::Rust,
{
    LanguageGrammar { grammar: tree_sitter_rust::LANGUAGE.into(), language: Ghost(Language::Rust) }
}

/// The grammar of C# (`tree_sitter_c_sharp::LANGUAGE`), labelled with the language it parses.
#[verifier::external_body]
fn csharp_grammar() -> (r: LanguageGrammar)
    ensures
        r.language() == Language::CSharp,
{
    LanguageGrammar { grammar: tree_sitter_c_sharp::LANGUAGE.into(), language: Ghost(Language::CSharp) }
}

/// The grammar of TSX, which covers TypeScript
/// (`tree_sitter_typescript::LANGUAGE_TSX`), labelled with the language it
/// parses.
#[verifier::external_body]
fn tsx_grammar() -> (r: LanguageGrammar)
    ensures
        r.language() == Language::TypeScript,
{
    LanguageGrammar {
        grammar: tree_sitter_typescript::LANGUAGE_TSX.into(),
        language: Ghost(Language::TypeScript),
    }
}

impl Language {
    /// Detects the language from a file extension.
    pub fn from_extension(ext: &str) -> (r: Option<Self>)
        ensures
            r == spec_from_extension(ext@),
    {
        if str_eq(ext, "py") {
            Some(Language::Python)
        } else if str_eq(ext, "java") {
            Some(Language::Java)
        } else if str_eq(ext, "cpp") || str_eq(ext, "cc") || str_eq(ext, "cxx") || str_eq(
            ext,
            "c++",
        ) || str_eq(ext, "h") || str_eq(ext, "hpp") || str_eq(ext, "hxx") || str_eq(ext, "hh") {
            Some(Language::Cpp)
        } else if str_eq(ext, "rs") {
            Some(Language::Rust)
        } else if str_eq(ext, "cs") {
            Some(Language::CSharp)
        } else if str_eq(ext, "ts") || str_eq(ext, "tsx") {
            Some(Language::TypeScript)
        } else {
            None
        }
    }

    /// The tree-sitter grammar for this language (TSX for TypeScript).
    pub fn ts_language(self) -> (r: LanguageGrammar)
        ensures
            r.language() == self,
    {
        match self {
            Language::Python => python_grammar(),
            Language::Java => java_grammar(),
            Language::Cpp => cpp_grammar(),
            Language::Rust => rust_grammar(),
            Language::CSharp => csharp_grammar(),
            Language::TypeScript => tsx_grammar(),
        }
    }

    /// The node type strings that represent class or function definitions
    /// in this language; used for building ancestor paths.
    pub fn ancestor_node_types(self) -> (r: &'static [&'static str])
        ensures
            r@.len() == spec_ancestor_node_types(self).len(),
            forall|i: int| 0 <= i < r@.len() ==> #[trigger] r@[i]@ == spec_ancestor_node_types(self)[i],
    {
        proof {
            reveal_strlit("class_definition");
        }
        match self {
            Language::Python => &["class_definition", "function_definition"],
            Language::Cpp => &[
                "class_specifier",
                "function_definition",
                "namespace_definition",
                "struct_specifier",
            ],
            Language::Rust => &[
                "impl_item",
                "function_item",
                "struct_item",
                "enum_item",
                "trait_item",
                "mod_item",
            ],
            Language::Java | Language::CSharp => &[
                "class_declaration",
                "method_declaration",
                "constructor_declaration",
                "interface_declaration",
            ],
            Language::TypeScript => &[
                "class_declaration",
                "method_definition",
                "function_declaration",
                "arrow_function",
                "interface_declaration",
            ],
        }
    }

    /// The node type string of the root node in this language.
    pub fn root_node_type(self) -> (r: &'static str)
        ensures
            r@ == spec_root_node_type(self),
    {
        match self {
            Language::Python => "module",
            Language::Cpp => "translation_unit",
            Language::Rust => "source_file",
            Language::Java | Language::TypeScript => "program",
            Language::CSharp => "compilation_unit",
        }
    }
}

/// Whether `kind` is one of the scope node types of `lang`.
pub open spec fn is_ancestor_type(lang: Language, kind: Seq<char>) -> bool {
    spec_ancestor_node_types(lang).contains(kind)
}

/// The node kinds that make a scope (and so a frame in a chunk's scopes
/// and a line in its context header), for each language and in the order
/// [`Language::ancestor_node_types`] lists them: classes, functions and
/// methods, and the language's other definitions.
pub proof fn lemma_scope_kinds(kind: Seq<char>)
    ensures
        is_ancestor_type(Language::Python, kind) <==> (kind == "class_definition"@ || kind
            == "function_definition"@),
        is_ancestor_type(Language::Cpp, kind) <==> (kind == "class_specifier"@ || kind == "function_definition"@
            || kind == "namespace_definition"@ || kind == "struct_specifier"@),
        is_ancestor_type(Language::Rust, kind) <==> (kind == "impl_item"@ || kind == "function_item"@ || kind
            == "struct_item"@ || kind == "enum_item"@ || kind == "trait_item"@ || kind == "mod_item"@),
        is_ancestor_type(Language::Java, kind) <==> (kind == "class_declaration"@ || kind
            == "method_declaration"@ || kind == "constructor_declaration"@ || kind
            == "interface_declaration"@),
        is_ancestor_type(Language::CSharp, kind) <==> is_ancestor_type(Language::Java, kind),
        is_ancestor_type(Language::TypeScript, kind) <==> (kind == "class_declaration"@ || kind
            == "method_definition"@ || kind == "function_declaration"@ || kind == "arrow_function"@ || kind
            == "interface_declaration"@),
        spec_ancestor_node_types(Language::Cpp) == seq![
            "class_specifier"@,
            "function_definition"@,
            "namespace_definition"@,
            "struct_specifier"@,
        ],
        spec_ancestor_node_types(Language::Python) == seq!["class_definition"@, "function_definition"@],
        spec_ancestor_node_types(Language::Rust) == seq![
            "impl_item"@,
            "function_item"@,
            "struct_item"@,
            "enum_item"@,
            "trait_item"@,
            "mod_item"@,
        ],
        spec_ancestor_node_types(Language::Java) == seq![
            "class_declaration"@,
            "method_declaration"@,
            "constructor_declaration"@,
            "interface_declaration"@,
        ],
        spec_ancestor_node_types(Language::CSharp) == spec_ancestor_node_types(Language::Java),
        spec_ancestor_node_types(Language::TypeScript) == seq![
            "class_declaration"@,
            "method_definition"@,
            "function_declaration"@,
            "arrow_function"@,
            "interface_declaration"@,
        ],
{
    let py = spec_ancestor_node_types(Language::Python);
    let cpp = spec_ancestor_node_types(Language::Cpp);
    let rs = spec_ancestor_node_types(Language::Rust);
    let java = spec_ancestor_node_types(Language::Java);
    let ts = spec_ancestor_node_types(Language::TypeScript);
    assert(py[0] == "class_definition"@ && py[1] == "function_definition"@);
    assert(cpp[0] == "class_specifier"@ && cpp[1] == "function_definition"@ && cpp[2] == "namespace_definition"@
        && cpp[3] == "struct_specifier"@);
    assert(rs[0] == "impl_item"@ && rs[1] == "function_item"@ && rs[2] == "struct_item"@ && rs[3] == "enum_item"@
        && rs[4] == "trait_item"@ && rs[5] == "mod_item"@);
    assert(java[0] == "class_declaration"@ && java[1] == "method_declaration"@ && java[2]
        == "constructor_declaration"@ && java[3] == "interface_declaration"@);
    assert(ts[0] == "class_declaration"@ && ts[1] == "method_definition"@ && ts[2] == "function_declaration"@
        && ts[3] == "arrow_function"@ && ts[4] == "interface_declaration"@);
}

/// Tests whether `kind` is one of [`Language::ancestor_node_types`].
pub fn is_ancestor_node_type(lang: Language, kind: &str) -> (r: bool)
    ensures
        r == is_ancestor_type(lang, kind@),
{
    let types = lang.ancestor_node_types();
    let mut i: usize = 0;
    while i < types.len()
        invariant
            i <= types@.len(),
            types@.len() == spec_ancestor_node_types(lang).len(),
            forall|j: int| 0 <= j < types@.len() ==> #[trigger] types@[j]@ == spec_ancestor_node_types(lang)[j],
            forall|j: int| 0 <= j < i ==> spec_ancestor_node_types(lang)[j] != kind@,
        decreases types@.len() - i,
    {
        if str_eq(types[i], kind) {
            assert(spec_ancestor_node_types(lang)[i as int] == kind@);
            return true;
        }
        i = i + 1;
    }
    false
}

} // verus!
