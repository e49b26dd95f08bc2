//! The languages the library can map, and what each needs from the query
//! engine: a grammar, a pattern for symbols, a pattern for imports, and the
//! tag of its code fences.

use vstd::prelude::*;
use vstd::string::*;
use tree_sitter::Language as Grammar;
use crate::text::same_text;

verus! {

/// A language whose files can be mapped.
#[derive(Copy, Clone, PartialEq, Eq, PartialOrd, Ord, Debug, Structural)]
pub enum Language {
    Rust,
    Python,
    Go,
    Javascript,
    Typescript,
    Tsx,
    Markdown,
}

/// A grammar of the query engine: an opaque handle that is only handed on.
#[verifier::external_type_specification]
#[verifier::external_body]
pub struct ExGrammar(Grammar);

/// The language that files with the extension `ext` are written in.
pub open spec fn language_of_extension(ext: Seq<char>) -> Option<Language> {
    if ext == "rs"@ {
        Some(Language::Rust)
    } else if ext == "py"@ {
        Some(Language::Python)
    } else if ext == "go"@ {
        Some(Language::Go)
    } else if ext == "js"@ || ext == "jsx"@ {
        Some(Language::Javascript)
    } else if ext == "ts"@ {
        Some(Language::Typescript)
    } else if ext == "tsx"@ {
        Some(Language::Tsx)
    } else if ext == "md"@ {
        Some(Language::Markdown)
    } else {
        None
    }
}

/// Looks up the language of a file extension, given without its dot.
pub fn language_for_extension(ext: &str) -> (language: Option<Language>)
    ensures
        language == language_of_extension(ext@),
{
    if same_text(ext, "rs") {
        Some(Language::Rust)
    } else if same_text(ext, "py") {
        Some(Language::Python)
    } else if same_text(ext, "go") {
        Some(Language::Go)
    } else if same_text(ext, "js") || same_text(ext, "jsx") {
        Some(Language::Javascript)
    } else if same_text(ext, "ts") {
        Some(Language::Typescript)
    } else if same_text(ext, "tsx") {
        Some(Language::Tsx)
    } else if same_text(ext, "md") {
        Some(Language::Markdown)
    } else {
        None
    }
}

/// The extension of the path `path`, as `std::path::Path::extension` gives
/// it on the platform the library is built for: `None` where the path has no
/// file name or the name has no extension.
pub uninterp spec fn extension_of(path: Seq<char>) -> Option<Seq<char>>;

/// Calls `std::path::Path::extension` on `path`. The extension of a path is a
/// function of the path's text alone; the contract gives it the name
/// [`extension_of`] and claims nothing else of it. A path made from a `str`
/// has an extension that is a `str` too.
#[verifier::external_body]
fn path_extension(path: &str) -> (ext: Option<String>)
    ensures
        match ext {
            Some(text) => extension_of(path@) == Some(text@),
            None => extension_of(path@) is None,
        },
{
    std::path::Path::new(path).extension().and_then(|ext| ext.to_str()).map(|ext| ext.to_owned())
}

/// The language of the file at `path`, told by its extension.
pub fn infer_language(path: &str) -> (language: Option<Language>)
    ensures
        language == match extension_of(path@) {
            Some(ext) => language_of_extension(ext),
            None => None,
        },
{
    match path_extension(path) {
        Some(ext) => language_for_extension(ext.as_str()),
        None => None,
    }
}

/// The grammar that the query engine has for `lang`.
pub uninterp spec fn grammar_of(lang: Language) -> Grammar;

/// `tree_sitter_rust::LANGUAGE`, made into a grammar by
/// `tree_sitter::Language::new`. The value is a constant of that crate; the
/// contract only gives it its name.
#[verifier::external_body]
fn rust_grammar() -> (grammar: Grammar)
    ensures
        grammar == grammar_of(Language::Rust),
{
    Grammar::new(tree_sitter_rust::LANGUAGE)
}

/// `tree_sitter_python::LANGUAGE`, made into a grammar in the same way.
#[verifier::external_body]
fn python_grammar() -> (grammar: Grammar)
    ensures
        grammar == grammar_of(Language::Python),
{
    Grammar::new(tree_sitter_python::LANGUAGE)
}

/// `tree_sitter_go::LANGUAGE`, made into a grammar in the same way.
#[verifier::external_body]
fn go_grammar() -> (grammar: Grammar)
    ensures
        grammar == grammar_of(Language::Go),
{
    Grammar::new(tree_sitter_go::LANGUAGE)
}

/// `tree_sitter_javascript::LANGUAGE`, made into a grammar in the same way.
#[verifier::external_body]
fn javascript_grammar() -> (grammar: Grammar)
    ensures
        grammar == grammar_of(Language::Javascript),
{
    Grammar::new(tree_sitter_javascript::LANGUAGE)
}

/// `tree_sitter_typescript::LANGUAGE_TYPESCRIPT`, made into a grammar in the
/// same way.
#[verifier::external_body]
fn typescript_grammar() -> (grammar: Grammar)
    ensures
        grammar == grammar_of(Language::Typescript),
{
    Grammar::new(tree_sitter_typescript::LANGUAGE_TYPESCRIPT)
}

/// `tree_sitter_typescript::LANGUAGE_TSX`, made into a grammar in the same
/// way.
#[verifier::external_body]
fn tsx_grammar() -> (grammar: Grammar)
    ensures
        grammar == grammar_of(Language::Tsx),
{
    Grammar::new(tree_sitter_typescript::LANGUAGE_TSX)
}

/// `tree_sitter_md::LANGUAGE`, made into a grammar in the same way.
#[verifier::external_body]
fn markdown_grammar() -> (grammar: Grammar)
    ensures
        grammar == grammar_of(Language::Markdown),
{
    Grammar::new(tree_sitter_md::LANGUAGE)
}

/// The grammar to parse files of `lang` with.
pub fn get_ts_language(lang: Language) -> (grammar: Grammar)
    ensures
        grammar == grammar_of(lang),
{
    match lang {
        Language::Rust => rust_grammar(),
        Language::Python => python_grammar(),
        Language::Go => go_grammar(),
        Language::Javascript => javascript_grammar(),
        Language::Typescript => typescript_grammar(),
        Language::Tsx => tsx_grammar(),
        Language::Markdown => markdown_grammar(),
    }
}

/// The tag of the code fence that holds the symbols of a file of `lang`.
pub open spec fn fence_tag(lang: Language) -> Seq<char> {
    match lang {
        Language::Rust => "rust"@,
        Language::Python => "python"@,
        Language::Go => "go"@,
        Language::Javascript => "javascript"@,
        Language::Typescript | Language::Tsx => "typescript"@,
        Language::Markdown => "markdown"@,
    }
}

/// The tag of the code fence that holds the symbols of a file of `lang`.
pub fn lang_tag(lang: Language) -> (tag: &'static str)
    ensures
        tag@ == fence_tag(lang),
{
    match lang {
        Language::Rust => "rust",
        Language::Python => "python",
        Language::Go => "go",
        Language::Javascript => "javascript",
        Language::Typescript | Language::Tsx => "typescript",
        Language::Markdown => "markdown",
    }
}

/// The pattern that finds the symbols of a file of `lang`: functions, types
/// and the members of types, or headings.
pub open spec fn symbol_pattern(lang: Language) -> Seq<char> {
    match lang {
        Language::Rust => "(function_item name: (identifier) @name) @item
             (struct_item name: (type_identifier) @name) @item
             (impl_item
                type: (_) @parent
                body: (declaration_list (function_item name: (identifier) @name) @item))"@,
        Language::Python => "(function_definition name: (identifier) @name) @item
             (class_definition name: (identifier) @name) @item
             (class_definition
                name: (identifier) @parent
                body: (block (function_definition name: (identifier) @name) @item))"@,
        Language::Go => "(function_declaration name: (identifier) @name) @item
             (type_spec name: (type_identifier) @name) @item
             (method_declaration
                receiver: (parameter_list (parameter_declaration type: (_) @parent))
                name: (field_identifier) @name) @item"@,
        Language::Javascript => "(function_declaration name: (identifier) @name) @item
             (class_declaration name: (identifier) @name) @item
             (class_declaration
                name: (identifier) @parent
                body: (class_body (method_definition name: (property_identifier) @name) @item))"@,
        Language::Typescript | Language::Tsx => "(function_declaration name: (identifier) @name) @item
             (class_declaration name: (type_identifier) @name) @item
             (interface_declaration name: (type_identifier) @name) @item
             (class_declaration
                name: (type_identifier) @parent
                body: (class_body (method_definition name: (property_identifier) @name) @item))"@,
        Language::Markdown => "(atx_heading) @item"@,
    }
}

/// The pattern that finds the symbols of a file of `lang`.
pub fn symbol_query(lang: Language) -> (pattern: &'static str)
    ensures
        pattern@ == symbol_pattern(lang),
{
    match lang {
        Language::Rust => "(function_item name: (identifier) @name) @item
             (struct_item name: (type_identifier) @name) @item
             (impl_item
                type: (_) @parent
                body: (declaration_list (function_item name: (identifier) @name) @item))",
        Language::Python => "(function_definition name: (identifier) @name) @item
             (class_definition name: (identifier) @name) @item
             (class_definition
                name: (identifier) @parent
                body: (block (function_definition name: (identifier) @name) @item))",
        Language::Go => "(function_declaration name: (identifier) @name) @item
             (type_spec name: (type_identifier) @name) @item
             (method_declaration
                receiver: (parameter_list (parameter_declaration type: (_) @parent))
                name: (field_identifier) @name) @item",
        Language::Javascript => "(function_declaration name: (identifier) @name) @item
             (class_declaration name: (identifier) @name) @item
             (class_declaration
                name: (identifier) @parent
                body: (class_body (method_definition name: (property_identifier) @name) @item))",
        Language::Typescript | Language::Tsx => "(function_declaration name: (identifier) @name) @item
             (class_declaration name: (type_identifier) @name) @item
             (interface_declaration name: (type_identifier) @name) @item
             (class_declaration
                name: (type_identifier) @parent
                body: (class_body (method_definition name: (property_identifier) @name) @item))",
        Language::Markdown => "(atx_heading) @item",
    }
}

/// The pattern that finds the imports of a file of `lang`; none for a
/// language that has no imports.
pub open spec fn import_pattern(lang: Language) -> Option<Seq<char>> {
    match lang {
        Language::Rust => Some("(use_declaration argument: (_) @import)"@),
        Language::Python => Some(
            "(import_statement name: (dotted_name) @import)
             (import_from_statement module_name: (dotted_name) @import)
             (import_from_statement module_name: (relative_import) @import)"@,
        ),
        Language::Go => Some("(import_spec path: (interpreted_string_literal) @import)"@),
        Language::Javascript | Language::Typescript | Language::Tsx => Some(
            "(import_statement source: (string) @import)
             (export_statement source: (string) @import)"@,
        ),
        Language::Markdown => None,
    }
}

/// The pattern that finds the imports of a file of `lang`.
pub fn get_import_query(lang: Language) -> (pattern: Option<&'static str>)
    ensures
        match pattern {
            Some(text) => import_pattern(lang) == Some(text@),
            None => import_pattern(lang) is None,
        },
{
    match lang {
        Language::Rust => Some("(use_declaration argument: (_) @import)"),
        Language::Python => Some(
            "(import_statement name: (dotted_name) @import)
             (import_from_statement module_name: (dotted_name) @import)
             (import_from_statement module_name: (relative_import) @import)",
        ),
        Language::Go => Some("(import_spec path: (interpreted_string_literal) @import)"),
        Language::Javascript | Language::Typescript | Language::Tsx => Some(
            "(import_statement source: (string) @import)
             (export_statement source: (string) @import)",
        ),
        Language::Markdown => None,
    }
}

} // verus!
