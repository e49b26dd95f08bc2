use repomap::splice::{
    push_token_display, update_or_append_repomap, wrap_for_claude_md, REPOMAP_END, REPOMAP_START,
};

fn block(inner: &str) -> String {
    format!("{}{}{}", REPOMAP_START, inner, REPOMAP_END)
}

fn shown(tokens: usize) -> String {
    let mut out = String::new();
    push_token_display(&mut out, tokens);
    out
}

#[test]
fn markers_have_their_fixed_text() {
    assert_eq!(REPOMAP_START, "<!-- REPOMAP START -->");
    assert_eq!(REPOMAP_END, "<!-- REPOMAP END -->");
}

#[test]
fn wrap_gives_the_exact_block() {
    assert_eq!(
        wrap_for_claude_md("MAP", 3, 250),
        "<!-- REPOMAP START -->\n## Repository Structure\n\n<details>\n<summary>Repository map (3 files, ~250 tokens)</summary>\n\nMAP\n</details>\n<!-- REPOMAP END -->\n"
    );
}

#[test]
fn wrap_shows_thousands_with_one_decimal() {
    assert_eq!(
        wrap_for_claude_md("", 12, 2500),
        "<!-- REPOMAP START -->\n## Repository Structure\n\n<details>\n<summary>Repository map (12 files, ~2.5k tokens)</summary>\n\n\n</details>\n<!-- REPOMAP END -->\n"
    );
}

#[test]
fn token_display_below_one_thousand_is_the_number() {
    assert_eq!(shown(0), "~0 tokens");
    assert_eq!(shown(1), "~1 tokens");
    assert_eq!(shown(999), "~999 tokens");
}

#[test]
fn token_display_from_one_thousand_is_in_thousands() {
    assert_eq!(shown(1000), "~1.0k tokens");
    assert_eq!(shown(1049), "~1.0k tokens");
    assert_eq!(shown(1050), "~1.1k tokens");
    assert_eq!(shown(1940), "~1.9k tokens");
    assert_eq!(shown(1950), "~2.0k tokens");
    assert_eq!(shown(12345), "~12.3k tokens");
    assert_eq!(shown(999_949), "~999.9k tokens");
    assert_eq!(shown(999_950), "~1000.0k tokens");
}

#[test]
fn token_display_of_the_largest_number_does_not_overflow() {
    let text = shown(usize::MAX);
    assert!(text.starts_with('~'));
    assert!(text.ends_with("k tokens"));
}

#[test]
fn splice_into_empty_document_is_the_block() {
    assert_eq!(update_or_append_repomap("", "BLOCK"), "BLOCK");
}

#[test]
fn splice_into_blank_document_is_the_block() {
    assert_eq!(update_or_append_repomap("  \n\t\n", "BLOCK"), "BLOCK");
}

#[test]
fn splice_appends_after_a_blank_line() {
    assert_eq!(update_or_append_repomap("# Notes\n", "BLOCK"), "# Notes\n\nBLOCK");
    assert_eq!(update_or_append_repomap("# Notes", "BLOCK"), "# Notes\n\nBLOCK");
    assert_eq!(update_or_append_repomap("# Notes\n\n\n  ", "BLOCK"), "# Notes\n\nBLOCK");
}

#[test]
fn splice_replaces_the_marked_region() {
    let doc = format!("intro\n\n{}\nold\n{}\noutro\n", REPOMAP_START, REPOMAP_END);
    assert_eq!(update_or_append_repomap(&doc, "NEW"), "introNEW\noutro\n");
}

#[test]
fn splice_keeps_what_follows_the_closing_marker() {
    let doc = format!("{}x{}  tail \n\n", REPOMAP_START, REPOMAP_END);
    assert_eq!(update_or_append_repomap(&doc, "NEW"), "NEW  tail \n\n");
}

#[test]
fn splice_keeps_what_precedes_the_opening_marker_up_to_whitespace() {
    let doc = format!("a\n b{}x{}", REPOMAP_START, REPOMAP_END);
    assert_eq!(update_or_append_repomap(&doc, "NEW"), "a\n bNEW");
    let spaced = format!("a\n b \n\n{}x{}", REPOMAP_START, REPOMAP_END);
    assert_eq!(update_or_append_repomap(&spaced, "NEW"), "a\n bNEW");
}

#[test]
fn splice_uses_the_first_of_each_marker() {
    let doc = format!(
        "a{}1{}b{}2{}c",
        REPOMAP_START, REPOMAP_END, REPOMAP_START, REPOMAP_END
    );
    assert_eq!(
        update_or_append_repomap(&doc, "NEW"),
        format!("aNEWb{}2{}c", REPOMAP_START, REPOMAP_END)
    );
}

#[test]
fn splice_appends_where_the_closing_marker_comes_first() {
    let doc = format!("{} mid {}", REPOMAP_END, REPOMAP_START);
    assert_eq!(update_or_append_repomap(&doc, "NEW"), format!("{}\n\nNEW", doc));
}

#[test]
fn splice_appends_where_a_marker_is_missing() {
    let only_start = format!("text {}", REPOMAP_START);
    assert_eq!(
        update_or_append_repomap(&only_start, "NEW"),
        format!("{}\n\nNEW", only_start)
    );
    let only_end = format!("text {}", REPOMAP_END);
    assert_eq!(
        update_or_append_repomap(&only_end, "NEW"),
        format!("{}\n\nNEW", only_end)
    );
}

#[test]
fn splice_of_a_marker_block_twice_is_splice_once() {
    let new = block("\nnew map\n");
    let with_old = format!("# Title\n\n{}\nafter\n", block("old"));
    for doc in [with_old.as_str(), "", " \n "] {
        let once = update_or_append_repomap(doc, &new);
        let twice = update_or_append_repomap(&once, &new);
        assert_eq!(twice, once);
    }
}

#[test]
fn splice_updates_only_the_interior() {
    let doc = format!("head{}tail", block("one"));
    let updated = update_or_append_repomap(&doc, &block("two"));
    assert_eq!(updated, format!("head{}tail", block("two")));
    assert_eq!(updated.matches(REPOMAP_START).count(), 1);
    assert_eq!(updated.matches(REPOMAP_END).count(), 1);
}

#[test]
fn splice_of_a_wrapped_report_never_repeats_the_markers() {
    let wrapped = wrap_for_claude_md("map", 1, 10);
    let once = update_or_append_repomap("# Doc\n", &wrapped);
    let twice = update_or_append_repomap(&once, &wrapped);
    assert_eq!(once, format!("# Doc\n\n{}", wrapped));
    assert_eq!(twice.matches(REPOMAP_START).count(), 1);
    assert_eq!(twice.matches(REPOMAP_END).count(), 1);
    assert!(twice.starts_with("# Doc"));
}

#[test]
fn splice_handles_text_outside_ascii() {
    let doc = format!("héllo \u{3000}{}x{}wörld", REPOMAP_START, REPOMAP_END);
    assert_eq!(update_or_append_repomap(&doc, "NEW"), "hélloNEWwörld");
}
