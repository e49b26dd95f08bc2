use repomap::parser::Symbol;
use repomap::render::{parse_heading_level, render_file};

fn symbol(name: &str, kind: &str, parent: Option<&str>, line: usize, end_line: usize) -> Symbol {
    Symbol {
        name: name.to_string(),
        parent: parent.map(|p| p.to_string()),
        line,
        kind: kind.to_string(),
        end_line,
    }
}

fn table(symbols: Vec<Symbol>) -> String {
    render_file("f", &symbols, &Vec::new(), "t")
}

fn row(s: Symbol) -> String {
    let text = table(vec![s]);
    let body = text.strip_prefix("\n## f\n```t\n").unwrap();
    body.strip_suffix("```\n").unwrap().to_string()
}

#[test]
fn file_without_symbols_and_imports_has_no_fragment() {
    assert_eq!(render_file("src/lib.rs", &Vec::new(), &Vec::new(), "rust"), "");
}

#[test]
fn fragment_with_imports_and_symbols() {
    let symbols = vec![
        symbol("MyStruct", "struct_item", None, 3, 5),
        symbol("run", "function_item", Some("MyStruct"), 12, 40),
    ];
    let imports = vec!["std::fmt".to_string(), "crate::parser".to_string()];
    assert_eq!(
        render_file("src/lib.rs", &symbols, &imports, "rust"),
        "\n## src/lib.rs\nimports: std::fmt, crate::parser\n```rust\n\
         L3   | struct_item | MyStruct                       | (3 lines)\n\
         L12  | function_item | MyStruct > run                 | (29 lines)\n\
         ```\n"
    );
}

#[test]
fn fragment_with_imports_only() {
    let imports = vec!["os".to_string()];
    assert_eq!(
        render_file("a.py", &Vec::new(), &imports, "python"),
        "\n## a.py\nimports: os\n"
    );
}

#[test]
fn fragment_with_symbols_only() {
    assert_eq!(
        render_file("a.go", &vec![symbol("main", "func", None, 1, 1)], &Vec::new(), "go"),
        "\n## a.go\n```go\nL1   | func       | main                           | (1 lines)\n```\n"
    );
}

#[test]
fn line_field_is_three_wide_after_the_letter() {
    assert!(row(symbol("x", "k", None, 7, 7)).starts_with("L7   | "));
    assert!(row(symbol("x", "k", None, 12, 12)).starts_with("L12  | "));
    assert!(row(symbol("x", "k", None, 123, 123)).starts_with("L123 | "));
    assert!(row(symbol("x", "k", None, 12345, 12345)).starts_with("L12345 | "));
}

#[test]
fn kind_field_is_ten_wide() {
    assert_eq!(
        row(symbol("x", "function", None, 1, 1)),
        "L1   | function   | x                              | (1 lines)\n"
    );
    assert_eq!(
        row(symbol("x", "0123456789", None, 1, 1)),
        "L1   | 0123456789 | x                              | (1 lines)\n"
    );
    assert_eq!(
        row(symbol("x", "interface_declaration", None, 1, 1)),
        "L1   | interface_declaration | x                              | (1 lines)\n"
    );
}

#[test]
fn name_field_is_thirty_wide() {
    let exact = "a".repeat(30);
    assert_eq!(
        row(symbol(&exact, "k", None, 1, 1)),
        format!("L1   | k          | {} | (1 lines)\n", exact)
    );
    let long = "b".repeat(31);
    assert_eq!(
        row(symbol(&long, "k", None, 1, 1)),
        format!("L1   | k          | {} | (1 lines)\n", long)
    );
    assert_eq!(
        row(symbol("é", "k", None, 1, 1)),
        format!("L1   | k          | é{} | (1 lines)\n", " ".repeat(29))
    );
}

#[test]
fn size_is_the_inclusive_span() {
    assert!(row(symbol("x", "k", None, 5, 5)).ends_with("| (1 lines)\n"));
    assert!(row(symbol("x", "k", None, 5, 14)).ends_with("| (10 lines)\n"));
    assert!(row(symbol("x", "k", None, 1, usize::MAX))
        .ends_with(&format!("| ({} lines)\n", usize::MAX)));
}

#[test]
fn member_is_shown_behind_its_parent() {
    assert_eq!(
        row(symbol("run", "h3", Some("Thing"), 1, 1)),
        "L1   | h3         | Thing > run                    | (1 lines)\n"
    );
}

#[test]
fn heading_is_indented_by_its_level() {
    assert_eq!(
        row(symbol("Top", "h1", None, 1, 1)),
        "L1   | h1         | Top                            | (1 lines)\n"
    );
    assert_eq!(
        row(symbol("Sub", "h2", None, 1, 1)),
        "L1   | h2         |   Sub                          | (1 lines)\n"
    );
    assert_eq!(
        row(symbol("Deep", "h4", None, 1, 1)),
        "L1   | h4         |       Deep                     | (1 lines)\n"
    );
    assert_eq!(
        row(symbol("Far", "h12", None, 1, 1)),
        format!("L1   | h12        | {}Far      | (1 lines)\n", " ".repeat(22))
    );
}

#[test]
fn kinds_that_are_no_headings_are_not_indented() {
    for kind in ["h", "h0", "hx", "h2x", "h+3", "h 3", "H2", "x2", "header", "h²", ""] {
        assert_eq!(
            row(symbol("name", kind, None, 1, 1)),
            format!("L1   | {:<10} | {:<30} | (1 lines)\n", kind, "name"),
            "kind {:?}",
            kind
        );
    }
}

#[test]
fn heading_level_may_have_leading_zeros() {
    assert_eq!(
        row(symbol("Sub", "h002", None, 1, 1)),
        "L1   | h002       |   Sub                          | (1 lines)\n"
    );
}

#[test]
fn heading_level_beyond_the_machine_is_not_indented() {
    let kind = format!("h{}0", usize::MAX);
    assert_eq!(
        row(symbol("name", &kind, None, 1, 1)),
        format!("L1   | {} | {:<30} | (1 lines)\n", kind, "name")
    );
}

#[test]
fn parse_heading_level_reads_the_number() {
    assert_eq!(parse_heading_level("h1"), Some(1));
    assert_eq!(parse_heading_level("h0"), Some(0));
    assert_eq!(parse_heading_level("h42"), Some(42));
    assert_eq!(parse_heading_level(&format!("h{}", usize::MAX)), Some(usize::MAX));
    assert_eq!(parse_heading_level(&format!("h{}1", usize::MAX)), None);
    assert_eq!(parse_heading_level("h"), None);
    assert_eq!(parse_heading_level("h1a"), None);
    assert_eq!(parse_heading_level("1"), None);
    assert_eq!(parse_heading_level(""), None);
}

#[test]
fn symbols_are_rendered_in_their_order() {
    let text = table(vec![
        symbol("zeta", "k", None, 9, 9),
        symbol("alpha", "k", None, 2, 2),
    ]);
    assert!(text.find("zeta").unwrap() < text.find("alpha").unwrap());
    assert_eq!(text.lines().count(), 6);
}
