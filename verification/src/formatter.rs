//! The whole-repository report: accumulation of per-file fragments and
//! assembly of the final text.

use vstd::prelude::*;
use vstd::string::*;
use crate::languages::{
    extension_of, fence_tag, get_import_query, get_ts_language, grammar_of, import_pattern,
    infer_language, lang_tag, language_of_extension, symbol_pattern, symbol_query, Language,
};
use crate::layout::{decimal, push_decimal, texts};
use crate::parser::{
    engine_matches, extract_imports, extract_symbols, normalized, normalized_imports,
    ParseFailure, SymbolView,
};
use crate::render::{render_file, rendered};
use crate::text::{count_lines, line_count};

verus! {

/// Accumulator of a scan: the fragments of the files seen so far, their
/// summary rows, and how many files there were.
pub struct RepoStats {
    pub map_content: String,
    pub table_rows: String,
    pub file_count: usize,
}

/// What a [`RepoStats`] holds, as mathematical values.
pub ghost struct StatsView {
    pub map_content: Seq<char>,
    pub table_rows: Seq<char>,
    pub file_count: nat,
}

impl View for RepoStats {
    type V = StatsView;

    open spec fn view(&self) -> StatsView {
        StatsView {
            map_content: self.map_content@,
            table_rows: self.table_rows@,
            file_count: self.file_count as nat,
        }
    }
}

/// The accumulator before any file.
pub open spec fn empty_stats() -> StatsView {
    StatsView { map_content: Seq::empty(), table_rows: Seq::empty(), file_count: 0 }
}

/// The summary row of one file.
pub open spec fn summary_row(path: Seq<char>, symbols: nat, lines: nat) -> Seq<char> {
    "| `"@ + path + "` | "@ + decimal(symbols) + " | "@ + decimal(lines) + " |\n"@
}

/// The accumulator after one more file.
pub open spec fn stats_with_file(
    stats: StatsView,
    path: Seq<char>,
    fragment: Seq<char>,
    symbols: nat,
    lines: nat,
) -> StatsView {
    StatsView {
        map_content: stats.map_content + fragment,
        table_rows: stats.table_rows + summary_row(path, symbols, lines),
        file_count: stats.file_count + 1,
    }
}

/// Rough token cost of a text of `byte_len` bytes: one token per four bytes.
pub open spec fn token_estimate(byte_len: nat) -> nat {
    byte_len / 4
}

impl RepoStats {
    /// An accumulator that has seen no file.
    pub fn new() -> (stats: RepoStats)
        ensures
            stats@ == empty_stats(),
    {
        RepoStats { map_content: String::new(), table_rows: String::new(), file_count: 0 }
    }

    /// Registers one file: its fragment goes to the end of the map, its row
    /// to the end of the table, and the file counter goes up by one.
    pub fn add_file(&mut self, path: &str, file_map: String, sym_count: usize, line_count: usize)
        requires
            old(self).file_count < usize::MAX,
        ensures
            final(self)@ == stats_with_file(
                old(self)@,
                path@,
                file_map@,
                sym_count as nat,
                line_count as nat,
            ),
    {
        self.map_content.append(file_map.as_str());
        self.table_rows.append("| `");
        self.table_rows.append(path);
        self.table_rows.append("` | ");
        push_decimal(&mut self.table_rows, sym_count);
        self.table_rows.append(" | ");
        push_decimal(&mut self.table_rows, line_count);
        self.table_rows.append(" |\n");
        self.file_count += 1;
        assert(self.table_rows@ =~= old(self).table_rows@ + summary_row(
            path@,
            sym_count as nat,
            line_count as nat,
        ));
    }

    /// Estimates the token cost of `final_output` from its length in bytes.
    pub fn estimate_tokens(&self, final_output: &str) -> (tokens: usize)
        ensures
            tokens == token_estimate(final_output.spec_bytes().len()),
    {
        estimate_tokens(final_output)
    }
}

/// Estimates the token cost of `text` from its length in bytes.
pub fn estimate_tokens(text: &str) -> (tokens: usize)
    ensures
        tokens == token_estimate(text.spec_bytes().len()),
{
    text.as_bytes().len() / 4
}

/// The final report for the files gathered in `stats`.
pub open spec fn final_map(root: Seq<char>, stats: StatsView, show_summary: bool) -> Seq<char> {
    "# Repository Map\n**Root:** `"@ + root + "`\n**Files:** "@ + decimal(stats.file_count)
        + "\n\n"@ + (if show_summary {
        "## Summary\n| File | Symbols | Lines |\n| :--- | :--- | :--- |\n"@ + stats.table_rows
            + "\n---\n"@
    } else {
        "---\n"@
    }) + stats.map_content
}

/// Assembles the report: a header with the root and the number of files, the
/// summary table where `show_summary` asks for it, a rule, and the map.
pub fn assemble_final_map(root: &str, stats: &RepoStats, show_summary: bool) -> (output: String)
    ensures
        output@ == final_map(root@, stats@, show_summary),
{
    let mut output = String::new();
    output.append("# Repository Map\n**Root:** `");
    output.append(root);
    output.append("`\n**Files:** ");
    push_decimal(&mut output, stats.file_count);
    output.append("\n\n");
    let ghost head = output@;
    if show_summary {
        output.append("## Summary\n| File | Symbols | Lines |\n| :--- | :--- | :--- |\n");
        output.append(stats.table_rows.as_str());
        output.append("\n---\n");
        assert(output@ == head + ("## Summary\n| File | Symbols | Lines |\n| :--- | :--- | :--- |\n"@
            + stats.table_rows@ + "\n---\n"@));
    } else {
        output.append("---\n");
    }
    output.append(stats.map_content.as_str());
    output
}

/// What is handed to [`RepoStats::add_file`] for one file.
pub ghost struct FileEntry {
    pub path: Seq<char>,
    pub fragment: Seq<char>,
    pub symbols: nat,
    pub lines: nat,
}

/// The accumulator after the files of `files` were registered in order,
/// starting from an empty one.
pub open spec fn stats_after(files: Seq<FileEntry>) -> StatsView
    decreases files.len(),
{
    if files.len() == 0 {
        empty_stats()
    } else {
        let last = files.last();
        stats_with_file(
            stats_after(files.drop_last()),
            last.path,
            last.fragment,
            last.symbols,
            last.lines,
        )
    }
}

/// The texts of `parts` one after the other.
pub open spec fn concat(parts: Seq<Seq<char>>) -> Seq<char>
    decreases parts.len(),
{
    if parts.len() == 0 {
        Seq::empty()
    } else {
        concat(parts.drop_last()) + parts.last()
    }
}

/// After any number of files, the map is the fragments in the order in which
/// the files were registered, the table is their rows in that order, one per
/// file, and the counter is the number of files.
pub proof fn lemma_files_in_order(files: Seq<FileEntry>)
    ensures
        stats_after(files).map_content == concat(
            Seq::new(files.len(), |i: int| files[i].fragment),
        ),
        stats_after(files).table_rows == concat(
            Seq::new(
                files.len(),
                |i: int| summary_row(files[i].path, files[i].symbols, files[i].lines),
            ),
        ),
        stats_after(files).file_count == files.len(),
    decreases files.len(),
{
    if files.len() > 0 {
        let init = files.drop_last();
        lemma_files_in_order(init);
        let fragments = Seq::new(files.len(), |i: int| files[i].fragment);
        let rows = Seq::new(
            files.len(),
            |i: int| summary_row(files[i].path, files[i].symbols, files[i].lines),
        );
        assert(fragments.drop_last() =~= Seq::new(init.len(), |i: int| init[i].fragment));
        assert(rows.drop_last() =~= Seq::new(
            init.len(),
            |i: int| summary_row(init[i].path, init[i].symbols, init[i].lines),
        ));
    }
}

/// The symbols of a file of `lang` with the text `content`, or why the file
/// cannot be mapped.
pub open spec fn file_symbols(lang: Language, content: Seq<char>) -> Result<
    Seq<SymbolView>,
    ParseFailure,
> {
    match engine_matches(grammar_of(lang), symbol_pattern(lang), content) {
        Ok(matches) => Ok(normalized(matches, content)),
        Err(failure) => Err(failure),
    }
}

/// The imports of a file of `lang` with the text `content`: none for a
/// language without an import pattern, and none where the engine fails.
pub open spec fn file_imports(lang: Language, content: Seq<char>) -> Seq<Seq<char>> {
    match import_pattern(lang) {
        Some(pattern) => match engine_matches(grammar_of(lang), pattern, content) {
            Ok(matches) => normalized_imports(matches, content),
            Err(_) => Seq::empty(),
        },
        None => Seq::empty(),
    }
}

/// Maps one file, given its path and its text: the fragment for the report,
/// the number of its symbols and the number of its lines. Fails where the
/// engine cannot find the symbols.
pub fn process_file_with_stats(path: &str, content: &str, lang: Language) -> (report: Result<
    (String, usize, usize),
    ParseFailure,
>)
    ensures
        match report {
            Ok((fragment, symbol_count, lines)) => {
                &&& file_symbols(lang, content@) is Ok
                &&& fragment@ == rendered(
                    path@,
                    file_symbols(lang, content@).unwrap(),
                    file_imports(lang, content@),
                    fence_tag(lang),
                )
                &&& symbol_count == file_symbols(lang, content@).unwrap().len()
                &&& lines == line_count(content@)
            },
            Err(failure) => file_symbols(lang, content@) == Err::<Seq<SymbolView>, ParseFailure>(
                failure,
            ),
        },
{
    let grammar = get_ts_language(lang);
    let symbols = match extract_symbols(content, &grammar, symbol_query(lang)) {
        Ok(symbols) => symbols,
        Err(failure) => {
            return Err(failure);
        },
    };
    let imports = match get_import_query(lang) {
        Some(pattern) => extract_imports(content, &grammar, pattern),
        None => {
            let none: Vec<String> = Vec::new();
            assert(texts(none@) =~= Seq::<Seq<char>>::empty());
            none
        },
    };
    let fragment = render_file(path, &symbols, &imports, lang_tag(lang));
    let lines = count_lines(content);
    Ok((fragment, symbols.len(), lines))
}

/// The language to map the file at `path` with: the forced one where one is
/// given, else the one that the extension of the path tells.
pub open spec fn chosen_language(forced: Option<Language>, path: Seq<char>) -> Option<Language> {
    match forced {
        Some(lang) => Some(lang),
        None => match extension_of(path) {
            Some(ext) => language_of_extension(ext),
            None => None,
        },
    }
}

/// Picks the language to map the file at `path` with.
pub fn choose_language(forced: Option<Language>, path: &str) -> (language: Option<Language>)
    ensures
        language == chosen_language(forced, path@),
{
    match forced {
        Some(lang) => Some(lang),
        None => infer_language(path),
    }
}

/// What a file adds to the report: its fragment and its counts, where it has
/// a language, the engine finds its symbols, and the fragment is not empty.
pub open spec fn file_entry(forced: Option<Language>, path: Seq<char>, content: Seq<char>) -> Option<
    FileEntry,
> {
    match chosen_language(forced, path) {
        Some(lang) => match file_symbols(lang, content) {
            Ok(symbols) => {
                let fragment = rendered(
                    path,
                    symbols,
                    file_imports(lang, content),
                    fence_tag(lang),
                );
                if fragment.len() > 0 {
                    Some(
                        FileEntry {
                            path,
                            fragment,
                            symbols: symbols.len(),
                            lines: line_count(content),
                        },
                    )
                } else {
                    None
                }
            },
            Err(_) => None,
        },
        None => None,
    }
}

/// Takes one file of a scan, given its path and its text, and registers it
/// with `stats` where it adds something to the report. A file without a
/// language, one whose symbols the engine cannot find, and one with an empty
/// fragment leave `stats` as it was. Tells whether the file was registered.
pub fn map_file(stats: &mut RepoStats, path: &str, content: &str, forced: Option<Language>) -> (mapped:
    bool)
    requires
        old(stats).file_count < usize::MAX,
    ensures
        match file_entry(forced, path@, content@) {
            Some(entry) => mapped && final(stats)@ == stats_with_file(
                old(stats)@,
                entry.path,
                entry.fragment,
                entry.symbols,
                entry.lines,
            ),
            None => !mapped && final(stats)@ == old(stats)@,
        },
{
    let lang = match choose_language(forced, path) {
        Some(lang) => lang,
        None => {
            return false;
        },
    };
    match process_file_with_stats(path, content, lang) {
        Ok((fragment, symbol_count, lines)) => {
            if fragment.as_str().is_empty() {
                false
            } else {
                stats.add_file(path, fragment, symbol_count, lines);
                true
            }
        },
        Err(_) => false,
    }
}

} // verus!
