use repomap::languages::{infer_language, Language};

#[test]
fn test_infer_language() {
    assert_eq!(infer_language("main.rs"), Some(Language::Rust));
    assert_eq!(infer_language("README.md"), Some(Language::Markdown));
    assert_eq!(infer_language("script.py"), Some(Language::Python));
    assert_eq!(infer_language("photo.jpg"), None);
}

use repomap::languages::{
    get_import_query, get_ts_language, lang_tag, language_for_extension, symbol_query,
};

const ALL: [Language; 7] = [
    Language::Rust,
    Language::Python,
    Language::Go,
    Language::Javascript,
    Language::Typescript,
    Language::Tsx,
    Language::Markdown,
];

#[test]
fn every_known_extension_has_its_language() {
    assert_eq!(language_for_extension("rs"), Some(Language::Rust));
    assert_eq!(language_for_extension("py"), Some(Language::Python));
    assert_eq!(language_for_extension("go"), Some(Language::Go));
    assert_eq!(language_for_extension("js"), Some(Language::Javascript));
    assert_eq!(language_for_extension("jsx"), Some(Language::Javascript));
    assert_eq!(language_for_extension("ts"), Some(Language::Typescript));
    assert_eq!(language_for_extension("tsx"), Some(Language::Tsx));
    assert_eq!(language_for_extension("md"), Some(Language::Markdown));
}

#[test]
fn other_extensions_have_no_language() {
    for ext in ["", "RS", "rs ", ".rs", "rss", "r", "markdown", "mdx", "c"] {
        assert_eq!(language_for_extension(ext), None, "{:?}", ext);
    }
}

#[test]
fn language_is_told_by_the_last_extension_of_the_file_name() {
    assert_eq!(infer_language("src/deep/mod.rs"), Some(Language::Rust));
    assert_eq!(infer_language("app.test.tsx"), Some(Language::Tsx));
    assert_eq!(infer_language("archive.rs.bak"), None);
    assert_eq!(infer_language("dir.py/file"), None);
    assert_eq!(infer_language("Makefile"), None);
    assert_eq!(infer_language(".rs"), None);
    assert_eq!(infer_language(""), None);
    assert_eq!(infer_language("main.RS"), None);
    assert_eq!(infer_language("lib.go"), Some(Language::Go));
    assert_eq!(infer_language("x.jsx"), Some(Language::Javascript));
}

#[test]
fn fence_tags() {
    let tags: Vec<&str> = ALL.iter().map(|l| lang_tag(*l)).collect();
    assert_eq!(
        tags,
        ["rust", "python", "go", "javascript", "typescript", "typescript", "markdown"]
    );
}

#[test]
fn only_markdown_has_no_import_pattern() {
    for lang in ALL {
        assert_eq!(get_import_query(lang).is_none(), lang == Language::Markdown);
    }
    assert_eq!(
        get_import_query(Language::Rust),
        Some("(use_declaration argument: (_) @import)")
    );
    assert_eq!(
        get_import_query(Language::Typescript),
        get_import_query(Language::Javascript)
    );
}

#[test]
fn every_pattern_compiles_for_its_grammar() {
    for lang in ALL {
        let grammar = get_ts_language(lang);
        assert!(
            tree_sitter::Query::new(&grammar, symbol_query(lang)).is_ok(),
            "{:?}",
            lang
        );
        if let Some(pattern) = get_import_query(lang) {
            assert!(tree_sitter::Query::new(&grammar, pattern).is_ok(), "{:?}", lang);
        }
    }
}

#[test]
fn grammars_differ_by_language() {
    let rust = get_ts_language(Language::Rust);
    let python = get_ts_language(Language::Python);
    assert!(rust != python);
    assert!(rust.id_for_node_kind("struct_item", true) != 0);
    assert!(python.id_for_node_kind("class_definition", true) != 0);
    assert_eq!(python.id_for_node_kind("struct_item", true), 0);
}

#[test]
fn markdown_pattern_is_the_heading_pattern() {
    assert_eq!(symbol_query(Language::Markdown), "(atx_heading) @item");
}
