use astchunk::internal::ts::parse;
use astchunk::lang::Language;

#[test]
fn from_extension_known_and_unknown() {
    assert_eq!(Language::from_extension("py"), Some(Language::Python));
    assert_eq!(Language::from_extension("java"), Some(Language::Java));
    for ext in ["cpp", "cc", "cxx", "c++", "h", "hpp", "hxx", "hh"] {
        assert_eq!(Language::from_extension(ext), Some(Language::Cpp));
    }
    assert_eq!(Language::from_extension("rs"), Some(Language::Rust));
    assert_eq!(Language::from_extension("cs"), Some(Language::CSharp));
    assert_eq!(Language::from_extension("ts"), Some(Language::TypeScript));
    assert_eq!(Language::from_extension("tsx"), Some(Language::TypeScript));
    assert_eq!(Language::from_extension("txt"), None);
    assert_eq!(Language::from_extension(""), None);
    assert_eq!(Language::from_extension("PY"), None);
}

#[test]
fn ancestor_node_types_per_language() {
    assert_eq!(
        Language::Python.ancestor_node_types(),
        &["class_definition", "function_definition"]
    );
    assert_eq!(Language::Rust.ancestor_node_types().len(), 6);
    assert_eq!(
        Language::Java.ancestor_node_types(),
        Language::CSharp.ancestor_node_types()
    );
    assert!(Language::TypeScript
        .ancestor_node_types()
        .contains(&"arrow_function"));
}

#[test]
fn root_node_types() {
    assert_eq!(Language::Python.root_node_type(), "module");
    assert_eq!(Language::Cpp.root_node_type(), "translation_unit");
    assert_eq!(Language::Rust.root_node_type(), "source_file");
    assert_eq!(Language::Java.root_node_type(), "program");
    assert_eq!(Language::TypeScript.root_node_type(), "program");
    assert_eq!(Language::CSharp.root_node_type(), "compilation_unit");
}

#[test]
fn parsed_root_has_root_node_type() {
    let cases = [
        (Language::Python, "x = 1\n"),
        (Language::Java, "class A {}\n"),
        (Language::Cpp, "int x;\n"),
        (Language::Rust, "fn main() {}\n"),
        (Language::CSharp, "class A {}\n"),
        (Language::TypeScript, "let x = 1;\n"),
    ];
    for (lang, code) in cases {
        let tree = parse(lang, code.as_bytes()).unwrap();
        assert_eq!(tree.nodes[0].info.kind, lang.root_node_type());
    }
}
