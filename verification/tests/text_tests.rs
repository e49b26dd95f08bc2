use repomap::layout::{digit, push_decimal, push_joined, push_padded, push_spaces};
use repomap::text::{
    count_lines, find, matches_at, same_text, skip_leading_index, slice_text, string_from_range,
    to_chars, trim_end_index, trim_range, trim_start_index,
};

fn chars(s: &str) -> Vec<char> {
    s.chars().collect()
}

#[test]
fn to_chars_copies_every_character() {
    assert_eq!(to_chars("héllo"), vec!['h', 'é', 'l', 'l', 'o']);
    assert_eq!(to_chars(""), Vec::<char>::new());
}

#[test]
fn trim_range_drops_whitespace_at_both_ends() {
    let text = chars(" \tname \n");
    assert_eq!(trim_range(&text, 0, text.len()), (2, 6));
    assert_eq!(string_from_range(&text, 2, 6), "name");
}

#[test]
fn trim_range_of_blank_text_is_empty() {
    let text = chars(" \n\t ");
    let (start, end) = trim_range(&text, 0, text.len());
    assert_eq!(start, end);
}

#[test]
fn trim_treats_unicode_spaces_as_whitespace() {
    let text = chars("\u{00a0}x\u{3000}");
    assert_eq!(trim_range(&text, 0, text.len()), (1, 2));
}

#[test]
fn trim_end_index_keeps_inner_whitespace() {
    let text = chars("a b  ");
    assert_eq!(trim_end_index(&text, 0, text.len()), 3);
    assert_eq!(trim_start_index(&text, 0, text.len()), 0);
}

#[test]
fn trim_indices_respect_the_given_range() {
    let text = chars("  ab  cd  ");
    assert_eq!(trim_end_index(&text, 2, 6), 4);
    assert_eq!(trim_start_index(&text, 4, 8), 6);
}

#[test]
fn skip_leading_index_counts_the_run() {
    let text = chars("### Title #");
    assert_eq!(skip_leading_index(&text, 0, text.len(), '#'), 3);
    assert_eq!(skip_leading_index(&text, 0, text.len(), 'x'), 0);
    let all = chars("##");
    assert_eq!(skip_leading_index(&all, 0, all.len(), '#'), 2);
}

#[test]
fn find_gives_the_first_occurrence() {
    assert_eq!(find(&chars("abcabc"), &chars("bc")), Some(1));
    assert_eq!(find(&chars("abcabc"), &chars("abc")), Some(0));
    assert_eq!(find(&chars("aab"), &chars("ab")), Some(1));
}

#[test]
fn find_gives_none_where_the_needle_is_absent_or_longer() {
    assert_eq!(find(&chars("abc"), &chars("cd")), None);
    assert_eq!(find(&chars("ab"), &chars("abc")), None);
    assert_eq!(find(&chars(""), &chars("a")), None);
}

#[test]
fn find_of_empty_needle_is_the_start() {
    assert_eq!(find(&chars("abc"), &chars("")), Some(0));
    assert_eq!(find(&chars(""), &chars("")), Some(0));
}

#[test]
fn find_counts_characters_not_bytes() {
    assert_eq!(find(&chars("ééx"), &chars("x")), Some(2));
}

#[test]
fn matches_at_compares_the_window() {
    assert!(matches_at(&chars("hello"), &chars("llo"), 2));
    assert!(!matches_at(&chars("hello"), &chars("llo"), 1));
    assert!(matches_at(&chars("hello"), &chars(""), 5));
}

#[test]
fn same_text_is_equality_of_characters() {
    assert!(same_text("name", "name"));
    assert!(!same_text("name", "names"));
    assert!(!same_text("name", "namE"));
    assert!(same_text("", ""));
}

#[test]
fn slice_text_cuts_at_byte_offsets() {
    assert_eq!(slice_text("hello world", 6, 11), Some("world"));
    assert_eq!(slice_text("hello", 0, 0), Some(""));
    assert_eq!(slice_text("hello", 5, 5), Some(""));
    assert_eq!(slice_text("héllo", 0, 3), Some("hé"));
}

#[test]
fn slice_text_refuses_bad_spans() {
    assert_eq!(slice_text("hello", 3, 2), None);
    assert_eq!(slice_text("hello", 0, 6), None);
    assert_eq!(slice_text("héllo", 0, 2), None);
    assert_eq!(slice_text("héllo", 2, 4), None);
}

#[test]
fn count_lines_counts_feeds_and_an_open_last_line() {
    assert_eq!(count_lines(""), 0);
    assert_eq!(count_lines("a"), 1);
    assert_eq!(count_lines("a\n"), 1);
    assert_eq!(count_lines("a\nb"), 2);
    assert_eq!(count_lines("\n\n"), 2);
    assert_eq!(count_lines("a\r\nb\r\n"), 2);
}

#[test]
fn count_lines_agrees_with_the_standard_library() {
    for text in ["", "x", "x\n", "\n", "a\n\nb", "a\r\n", "trailing\n\n\n", "é\nü"] {
        assert_eq!(count_lines(text), text.lines().count());
    }
}

#[test]
fn digits_are_the_decimal_digits() {
    let all: String = (0..10).map(digit).collect();
    assert_eq!(all, "0123456789");
}

#[test]
fn push_decimal_writes_the_number() {
    for n in [0usize, 7, 10, 99, 100, 12345, usize::MAX] {
        let mut out = String::from("n=");
        push_decimal(&mut out, n);
        assert_eq!(out, format!("n={}", n));
    }
}

#[test]
fn push_spaces_writes_that_many_spaces() {
    let mut out = String::from("|");
    push_spaces(&mut out, 3);
    push_spaces(&mut out, 0);
    assert_eq!(out, "|   ");
}

#[test]
fn push_padded_fills_to_the_width() {
    let mut out = String::new();
    push_padded(&mut out, "ab", 5);
    out.push('|');
    assert_eq!(out, "ab   |");
}

#[test]
fn push_padded_keeps_a_wide_text_whole() {
    let mut out = String::new();
    push_padded(&mut out, "abcdef", 3);
    push_padded(&mut out, "xyz", 3);
    assert_eq!(out, "abcdefxyz");
}

#[test]
fn push_padded_counts_characters() {
    let mut out = String::new();
    push_padded(&mut out, "éé", 4);
    assert_eq!(out, "éé  ");
}

#[test]
fn push_joined_separates_neighbours() {
    let items = vec!["a".to_string(), "b".to_string(), "c".to_string()];
    let mut out = String::new();
    push_joined(&mut out, &items, ", ");
    assert_eq!(out, "a, b, c");

    let mut one = String::new();
    push_joined(&mut one, &items[..1].to_vec(), ", ");
    assert_eq!(one, "a");

    let mut none = String::from("x");
    push_joined(&mut none, &Vec::new(), ", ");
    assert_eq!(none, "x");
}

#[test]
fn ascii_whitespace_is_the_space_and_the_controls_from_tab_to_carriage_return() {
    for code in 0u8..128 {
        let c = code as char;
        let text = vec![c];
        let blank = trim_end_index(&text, 0, 1) == 0;
        let expected = c == ' ' || ('\t'..='\r').contains(&c);
        assert_eq!(blank, expected, "U+{:04X}", code);
        assert_eq!(trim_start_index(&text, 0, 1) == 1, expected, "U+{:04X}", code);
    }
}

#[test]
fn whitespace_beyond_ascii_is_trimmed_too() {
    for c in ['\u{0085}', '\u{00a0}', '\u{2003}', '\u{2028}', '\u{3000}'] {
        let text = vec!['x', c];
        assert_eq!(trim_end_index(&text, 0, 2), 1, "U+{:04X}", c as u32);
    }
    for c in ['\u{200b}', 'é', '\u{feff}'] {
        let text = vec!['x', c];
        assert_eq!(trim_end_index(&text, 0, 2), 2, "U+{:04X}", c as u32);
    }
}
