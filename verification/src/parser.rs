//! From the raw matches of the query engine to symbols and imports.
//!
//! The engine is reached through three trusted calls, which hand back plain
//! values; everything that reads those values is verified.

use vstd::prelude::*;
use vstd::string::*;
use tree_sitter::StreamingIterator;
use tree_sitter::Language as Grammar;
use crate::layout::{decimal, push_decimal, texts};
use crate::text::{
    leading_count, same_text, skip_leading, skip_leading_index, slice_text, span_text,
    string_from_range, to_chars, trim, trim_range,
};

verus! {

/// A syntax tree of the query engine: an opaque handle that is only handed
/// on.
#[verifier::external_type_specification]
#[verifier::external_body]
pub struct ExTree(tree_sitter::Tree);

/// A compiled pattern of the query engine: an opaque handle that is only
/// handed on.
#[verifier::external_type_specification]
#[verifier::external_body]
pub struct ExQuery(tree_sitter::Query);

/// One structural element found in a file.
pub struct Symbol {
    pub name: String,
    pub parent: Option<String>,
    pub line: usize,
    pub kind: String,
    pub end_line: usize,
}

/// A [`Symbol`] as mathematical values.
pub ghost struct SymbolView {
    pub name: Seq<char>,
    pub parent: Option<Seq<char>>,
    pub line: nat,
    pub kind: Seq<char>,
    pub end_line: nat,
}

impl SymbolView {
    /// A symbol has a name and spans at least one line, counted from one.
    pub open spec fn wf(self) -> bool {
        &&& self.name.len() > 0
        &&& 1 <= self.line <= self.end_line
    }

    /// Number of lines that the symbol spans.
    pub open spec fn size(self) -> nat {
        (self.end_line - self.line + 1) as nat
    }
}

impl View for Symbol {
    type V = SymbolView;

    open spec fn view(&self) -> SymbolView {
        SymbolView {
            name: self.name@,
            parent: match self.parent {
                Some(p) => Some(p@),
                None => None,
            },
            line: self.line as nat,
            kind: self.kind@,
            end_line: self.end_line as nat,
        }
    }
}

/// The views of a list of symbols.
pub open spec fn symbols_view(symbols: Seq<Symbol>) -> Seq<SymbolView> {
    symbols.map_values(|s: Symbol| s@)
}

/// One capture of a structural match: the name it has in the pattern, the
/// category of the node, and the node's byte span and rows in the source,
/// rows counted from zero.
pub struct RawCapture {
    pub name: String,
    pub kind: String,
    pub start_byte: usize,
    pub end_byte: usize,
    pub start_row: usize,
    pub end_row: usize,
}

/// One structural match: its captures in the order of the engine.
pub struct RawMatch {
    pub captures: Vec<RawCapture>,
}

/// What a capture is for.
#[derive(Copy, Clone, PartialEq, Eq, Debug, Structural)]
pub enum CaptureRole {
    Name,
    Parent,
    Item,
    Import,
    Other,
}

/// A [`RawCapture`] as mathematical values.
pub ghost struct CaptureView {
    pub name: Seq<char>,
    pub kind: Seq<char>,
    pub start_byte: nat,
    pub end_byte: nat,
    pub start_row: nat,
    pub end_row: nat,
}

/// The role of a capture with the name `name`.
pub open spec fn role_of(name: Seq<char>) -> CaptureRole {
    if name == "name"@ {
        CaptureRole::Name
    } else if name == "parent"@ {
        CaptureRole::Parent
    } else if name == "item"@ {
        CaptureRole::Item
    } else if name == "import"@ {
        CaptureRole::Import
    } else {
        CaptureRole::Other
    }
}

impl CaptureView {
    /// What the capture is for.
    pub open spec fn role(self) -> CaptureRole {
        role_of(self.name)
    }

    /// The text that the capture spans in `source`, where its span is one.
    pub open spec fn text(self, source: Seq<char>) -> Option<Seq<char>> {
        span_text(source, self.start_byte as int, self.end_byte as int)
    }

    /// Whether the rows can be lines: in order, and the last one with a
    /// successor among the machine's numbers.
    pub open spec fn rows_ok(self) -> bool {
        self.start_row <= self.end_row < usize::MAX
    }

    /// Whether the node is a heading.
    pub open spec fn is_heading(self) -> bool {
        self.kind == "atx_heading"@
    }
}

impl View for RawCapture {
    type V = CaptureView;

    open spec fn view(&self) -> CaptureView {
        CaptureView {
            name: self.name@,
            kind: self.kind@,
            start_byte: self.start_byte as nat,
            end_byte: self.end_byte as nat,
            start_row: self.start_row as nat,
            end_row: self.end_row as nat,
        }
    }
}

impl View for RawMatch {
    type V = Seq<CaptureView>;

    open spec fn view(&self) -> Seq<CaptureView> {
        self.captures@.map_values(|c: RawCapture| c@)
    }
}

/// The views of a list of matches.
pub open spec fn matches_view(matches: Seq<RawMatch>) -> Seq<Seq<CaptureView>> {
    matches.map_values(|m: RawMatch| m@)
}

impl RawCapture {
    /// What the capture is for.
    pub fn role(&self) -> (role: CaptureRole)
        ensures
            role == self@.role(),
    {
        let name = self.name.as_str();
        if same_text(name, "name") {
            CaptureRole::Name
        } else if same_text(name, "parent") {
            CaptureRole::Parent
        } else if same_text(name, "item") {
            CaptureRole::Item
        } else if same_text(name, "import") {
            CaptureRole::Import
        } else {
            CaptureRole::Other
        }
    }
}

/// The tree that the engine builds for `source` with `grammar`; `None`
/// where the grammar cannot be loaded or no tree is built.
pub uninterp spec fn parsed_tree(grammar: Grammar, source: Seq<char>) -> Option<tree_sitter::Tree>;

/// The pattern `pattern` compiled for `grammar`; `None` where the engine
/// refuses it.
pub uninterp spec fn compiled_query(grammar: Grammar, pattern: Seq<char>) -> Option<
    tree_sitter::Query,
>;

/// The matches of `query` in `tree`, in the order of the engine, each with
/// its captures in the order of the engine.
pub uninterp spec fn query_matches(
    query: tree_sitter::Query,
    tree: tree_sitter::Tree,
    source: Seq<char>,
) -> Seq<Seq<CaptureView>>;

/// Parses `source` with a fresh `tree_sitter::Parser` set to `grammar`:
/// `Parser::new`, `Parser::set_language`, `Parser::parse`. With no old tree,
/// no time limit and no cancellation the outcome is a function of the grammar
/// and the text; the contract gives it the name [`parsed_tree`] and claims
/// nothing else of it.
#[verifier::external_body]
fn parse_source(grammar: &Grammar, source: &str) -> (tree: Option<tree_sitter::Tree>)
    ensures
        tree == parsed_tree(*grammar, source@),
{
    let mut parser = tree_sitter::Parser::new();
    parser.set_language(grammar).ok()?;
    parser.parse(source, None)
}

/// Compiles `pattern` with `tree_sitter::Query::new`. The outcome is a
/// function of the grammar and the pattern; the contract gives it the name
/// [`compiled_query`] and claims nothing else of it.
#[verifier::external_body]
fn compile_query(grammar: &Grammar, pattern: &str) -> (query: Option<tree_sitter::Query>)
    ensures
        query == compiled_query(*grammar, pattern@),
{
    tree_sitter::Query::new(grammar, pattern).ok()
}

/// Runs `query` over `tree` with a fresh `tree_sitter::QueryCursor`
/// (`QueryCursor::matches` from the root node) and copies every capture of
/// every match into plain values.
///
/// The engine reads the text again while it tests the text predicates of a
/// pattern, at the byte ranges of the nodes, and a query may only be run on
/// nodes of the grammar it was compiled for. So the call is only made with
/// the tree that the engine built for this very text and the query that it
/// compiled for the same grammar; `grammar` and `pattern` are taken to say
/// so. The matches are then a function of the query, the tree and the text;
/// the contract gives them the name [`query_matches`] and claims nothing
/// else of them.
#[verifier::external_body]
#[allow(unused_variables)]
fn collect_matches(
    grammar: &Grammar,
    pattern: &str,
    query: &tree_sitter::Query,
    tree: &tree_sitter::Tree,
    source: &str,
) -> (found: Vec<RawMatch>)
    requires
        parsed_tree(*grammar, source@) == Some(*tree),
        compiled_query(*grammar, pattern@) == Some(*query),
    ensures
        matches_view(found@) == query_matches(*query, *tree, source@),
{
    let names = query.capture_names();
    let mut cursor = tree_sitter::QueryCursor::new();
    let mut matches = cursor.matches(query, tree.root_node(), source.as_bytes());
    let mut found = Vec::new();
    while let Some(m) = matches.next() {
        found.push(RawMatch { captures: m.captures().iter().map(|c| RawCapture {
            name: names[c.index as usize].to_string(),
            kind: c.node.kind().to_string(),
            start_byte: c.node.start_byte(),
            end_byte: c.node.end_byte(),
            start_row: c.node.start_position().row,
            end_row: c.node.end_position().row,
        }).collect() });
    }
    found
}

/// Why a file could not be mapped.
#[derive(Copy, Clone, PartialEq, Eq, Debug, Structural)]
pub enum ParseFailure {
    /// The engine built no tree for the source.
    NoTree,
    /// The engine refused the pattern.
    BadQuery,
}

/// What the engine finds for `pattern` in `source`: the failure where it
/// builds no tree or refuses the pattern, its matches otherwise.
pub open spec fn engine_matches(grammar: Grammar, pattern: Seq<char>, source: Seq<char>) -> Result<
    Seq<Seq<CaptureView>>,
    ParseFailure,
> {
    match parsed_tree(grammar, source) {
        None => Err(ParseFailure::NoTree),
        Some(tree) => match compiled_query(grammar, pattern) {
            None => Err(ParseFailure::BadQuery),
            Some(query) => Ok(query_matches(query, tree, source)),
        },
    }
}

/// Asks the engine for the matches of `pattern` in `source`.
pub fn run_query(source: &str, grammar: &Grammar, pattern: &str) -> (found: Result<
    Vec<RawMatch>,
    ParseFailure,
>)
    ensures
        match found {
            Ok(matches) => engine_matches(*grammar, pattern@, source@) == Ok::<
                Seq<Seq<CaptureView>>,
                ParseFailure,
            >(matches_view(matches@)),
            Err(failure) => engine_matches(*grammar, pattern@, source@) == Err::<
                Seq<Seq<CaptureView>>,
                ParseFailure,
            >(failure),
        },
{
    match parse_source(grammar, source) {
        None => Err(ParseFailure::NoTree),
        Some(tree) => match compile_query(grammar, pattern) {
            None => Err(ParseFailure::BadQuery),
            Some(query) => Ok(collect_matches(grammar, pattern, &query, &tree, source)),
        },
    }
}

/// What is known of the symbol of one match while its captures are read.
/// The line is zero until an item capture is read.
pub ghost struct Draft {
    pub name: Seq<char>,
    pub parent: Option<Seq<char>>,
    pub kind: Seq<char>,
    pub line: nat,
    pub end_line: nat,
}

/// The draft before any capture.
pub open spec fn empty_draft() -> Draft {
    Draft { name: Seq::empty(), parent: None, kind: Seq::empty(), line: 0, end_line: 0 }
}

/// The kind of a heading whose text is `text`: `h` and the number of its
/// leading `#`.
pub open spec fn heading_kind(text: Seq<char>) -> Seq<char> {
    seq!['h'] + decimal(leading_count(text, '#'))
}

/// The name of a heading whose text is `text`: the text without its leading
/// `#` and without whitespace around what is left.
pub open spec fn heading_name(text: Seq<char>) -> Seq<char> {
    trim(skip_leading(text, '#'))
}

/// The draft after one more capture. A later capture of a role replaces what
/// an earlier one gave.
///
/// A name capture gives the name, trimmed. A parent capture gives the parent.
/// An item capture gives the kind and the lines; where its node is a heading
/// it gives the kind and the name of the heading instead. A capture whose
/// span is not a piece of the source gives no text; an item capture whose
/// rows cannot be lines gives nothing.
pub open spec fn draft_with(draft: Draft, capture: CaptureView, source: Seq<char>) -> Draft {
    match capture.role() {
        CaptureRole::Name => match capture.text(source) {
            Some(text) => Draft { name: trim(text), ..draft },
            None => draft,
        },
        CaptureRole::Parent => match capture.text(source) {
            Some(text) => Draft { parent: Some(text), ..draft },
            None => draft,
        },
        CaptureRole::Item => if capture.rows_ok() {
            let placed = Draft {
                kind: capture.kind,
                line: capture.start_row + 1,
                end_line: capture.end_row + 1,
                ..draft
            };
            match capture.text(source) {
                Some(text) => if capture.is_heading() {
                    Draft { kind: heading_kind(text), name: heading_name(text), ..placed }
                } else {
                    placed
                },
                None => placed,
            }
        } else {
            draft
        },
        _ => draft,
    }
}

/// The draft after all captures of a match, read in order.
pub open spec fn draft_of(captures: Seq<CaptureView>, source: Seq<char>) -> Draft
    decreases captures.len(),
{
    if captures.len() == 0 {
        empty_draft()
    } else {
        draft_with(draft_of(captures.drop_last(), source), captures.last(), source)
    }
}

/// The symbol of a match: none where the match gives no name or no item.
pub open spec fn candidate(captures: Seq<CaptureView>, source: Seq<char>) -> Option<SymbolView> {
    let draft = draft_of(captures, source);
    if draft.name.len() > 0 && draft.line > 0 {
        Some(
            SymbolView {
                name: draft.name,
                parent: draft.parent,
                line: draft.line,
                kind: draft.kind,
                end_line: draft.end_line,
            },
        )
    } else {
        None
    }
}

/// Whether `symbol` repeats, without a parent, a line that `earlier` already
/// holds with one.
pub open spec fn shadowed(earlier: Seq<SymbolView>, symbol: SymbolView) -> bool {
    &&& symbol.parent is None
    &&& exists|i: int|
        0 <= i < earlier.len() && (#[trigger] earlier[i]).line == symbol.line
            && earlier[i].parent is Some
}

/// The symbols of a file: the symbol of each match in the order of the
/// matches, but for those that an earlier symbol shadows.
pub open spec fn normalized(matches: Seq<Seq<CaptureView>>, source: Seq<char>) -> Seq<SymbolView>
    decreases matches.len(),
{
    if matches.len() == 0 {
        Seq::empty()
    } else {
        let earlier = normalized(matches.drop_last(), source);
        match candidate(matches.last(), source) {
            Some(symbol) => if shadowed(earlier, symbol) {
                earlier
            } else {
                earlier.push(symbol)
            },
            None => earlier,
        }
    }
}

/// Whether every symbol is well formed.
pub open spec fn all_wf(symbols: Seq<SymbolView>) -> bool {
    forall|i: int| 0 <= i < symbols.len() ==> (#[trigger] symbols[i]).wf()
}

/// Whether no symbol without a parent stands after a symbol of the same line
/// that has one.
pub open spec fn parents_first(symbols: Seq<SymbolView>) -> bool {
    forall|i: int, j: int|
        0 <= i < j < symbols.len() && (#[trigger] symbols[i]).parent is Some && (
        #[trigger] symbols[j]).parent is None ==> symbols[i].line != symbols[j].line
}

proof fn lemma_draft_lines(captures: Seq<CaptureView>, source: Seq<char>)
    ensures
        ({
            let draft = draft_of(captures, source);
            draft.line == 0 || 1 <= draft.line <= draft.end_line <= usize::MAX
        }),
    decreases captures.len(),
{
    if captures.len() > 0 {
        lemma_draft_lines(captures.drop_last(), source);
    }
}

/// Every symbol of a file is well formed, and none without a parent follows
/// one of the same line that has a parent.
pub proof fn lemma_normalized_wf(matches: Seq<Seq<CaptureView>>, source: Seq<char>)
    ensures
        all_wf(normalized(matches, source)),
        parents_first(normalized(matches, source)),
        normalized(matches, source).len() <= matches.len(),
    decreases matches.len(),
{
    if matches.len() > 0 {
        lemma_normalized_wf(matches.drop_last(), source);
        lemma_draft_lines(matches.last(), source);
    }
}

/// Of two matches on one line, the first with a parent and the second
/// without, only the symbol of the first is kept.
pub proof fn lemma_member_shadows_bare(
    member: Seq<CaptureView>,
    bare: Seq<CaptureView>,
    source: Seq<char>,
)
    requires
        candidate(member, source) is Some,
        candidate(bare, source) is Some,
        candidate(member, source).unwrap().parent is Some,
        candidate(bare, source).unwrap().parent is None,
        candidate(member, source).unwrap().line == candidate(bare, source).unwrap().line,
    ensures
        normalized(seq![member, bare], source) == seq![candidate(member, source).unwrap()],
{
    let both = seq![member, bare];
    let first = both.drop_last();
    assert(first =~= seq![member]);
    assert(first.drop_last() =~= Seq::<Seq<CaptureView>>::empty());
    let kept = normalized(first, source);
    assert(normalized(first.drop_last(), source) =~= Seq::<SymbolView>::empty());
    assert(kept =~= seq![candidate(member, source).unwrap()]);
    assert(kept[0].line == candidate(bare, source).unwrap().line);
    assert(shadowed(kept, candidate(bare, source).unwrap()));
}

/// Of two matches on one line, the first without a parent and the second
/// with one, both symbols are kept: only an earlier symbol can shadow.
pub proof fn lemma_bare_before_member_stays(
    bare: Seq<CaptureView>,
    member: Seq<CaptureView>,
    source: Seq<char>,
)
    requires
        candidate(member, source) is Some,
        candidate(bare, source) is Some,
        candidate(member, source).unwrap().parent is Some,
        candidate(bare, source).unwrap().parent is None,
    ensures
        normalized(seq![bare, member], source) == seq![
            candidate(bare, source).unwrap(),
            candidate(member, source).unwrap(),
        ],
{
    let both = seq![bare, member];
    let first = both.drop_last();
    assert(first =~= seq![bare]);
    assert(first.drop_last() =~= Seq::<Seq<CaptureView>>::empty());
    assert(normalized(first.drop_last(), source) =~= Seq::<SymbolView>::empty());
    assert(normalized(first, source) =~= seq![candidate(bare, source).unwrap()]);
}

/// A match without a parent, put after any matches of which one gave a
/// symbol with a parent on its line, changes nothing.
pub proof fn lemma_shadowed_is_dropped(
    matches: Seq<Seq<CaptureView>>,
    bare: Seq<CaptureView>,
    source: Seq<char>,
)
    requires
        candidate(bare, source) is Some,
        shadowed(normalized(matches, source), candidate(bare, source).unwrap()),
    ensures
        normalized(matches.push(bare), source) == normalized(matches, source),
{
    assert(matches.push(bare).drop_last() =~= matches);
}

/// The draft of a symbol while the captures of its match are read.
struct DraftSymbol {
    name: String,
    parent: Option<String>,
    kind: String,
    line: usize,
    end_line: usize,
}

impl View for DraftSymbol {
    type V = Draft;

    closed spec fn view(&self) -> Draft {
        Draft {
            name: self.name@,
            parent: match self.parent {
                Some(p) => Some(p@),
                None => None,
            },
            kind: self.kind@,
            line: self.line as nat,
            end_line: self.end_line as nat,
        }
    }
}

/// `text` without whitespace around it.
pub fn trimmed(text: &str) -> (out: String)
    ensures
        out@ == trim(text@),
{
    let chars = to_chars(text);
    assert(chars@.subrange(0, chars@.len() as int) == chars@);
    let (start, end) = trim_range(&chars, 0, chars.len());
    string_from_range(&chars, start, end)
}

/// Brings one more capture into the draft.
fn read_capture(draft: &mut DraftSymbol, capture: &RawCapture, source: &str)
    ensures
        final(draft)@ == draft_with(old(draft)@, capture@, source@),
{
    match capture.role() {
        CaptureRole::Name => {
            match slice_text(source, capture.start_byte, capture.end_byte) {
                Some(text) => {
                    draft.name = trimmed(text);
                },
                None => {},
            }
        },
        CaptureRole::Parent => {
            match slice_text(source, capture.start_byte, capture.end_byte) {
                Some(text) => {
                    draft.parent = Some(text.to_owned());
                },
                None => {},
            }
        },
        CaptureRole::Item => {
            if capture.start_row <= capture.end_row && capture.end_row < usize::MAX {
                draft.kind = capture.kind.clone();
                draft.line = capture.start_row + 1;
                draft.end_line = capture.end_row + 1;
                match slice_text(source, capture.start_byte, capture.end_byte) {
                    Some(text) => {
                        if same_text(capture.kind.as_str(), "atx_heading") {
                            let chars = to_chars(text);
                            assert(chars@.subrange(0, chars@.len() as int) == chars@);
                            let level = skip_leading_index(&chars, 0, chars.len(), '#');
                            let mut kind = String::new();
                            kind.push('h');
                            push_decimal(&mut kind, level);
                            let (start, end) = trim_range(&chars, level, chars.len());
                            draft.kind = kind;
                            draft.name = string_from_range(&chars, start, end);
                            assert(draft.kind@ =~= heading_kind(text@));
                        }
                    },
                    None => {},
                }
            }
        },
        _ => {},
    }
}

/// The view of a symbol that may be absent.
pub open spec fn optional_view(symbol: Option<Symbol>) -> Option<SymbolView> {
    match symbol {
        Some(s) => Some(s@),
        None => None,
    }
}

/// The symbol of one match.
pub fn match_symbol(found: &RawMatch, source: &str) -> (symbol: Option<Symbol>)
    ensures
        optional_view(symbol) == candidate(found@, source@),
{
    let mut draft = DraftSymbol {
        name: String::new(),
        parent: None,
        kind: String::new(),
        line: 0,
        end_line: 0,
    };
    let ghost captures = found@;
    let mut i: usize = 0;
    while i < found.captures.len()
        invariant
            i <= found.captures.len(),
            captures == found@,
            draft@ == draft_of(captures.take(i as int), source@),
        decreases found.captures.len() - i,
    {
        proof {
            let next = captures.take(i + 1);
            assert(next.drop_last() == captures.take(i as int));
            assert(next.last() == found.captures@[i as int]@);
        }
        read_capture(&mut draft, &found.captures[i], source);
        i += 1;
    }
    proof {
        assert(captures.take(captures.len() as int) == captures);
    }
    if draft.name.as_str().is_empty() || draft.line == 0 {
        None
    } else {
        Some(
            Symbol {
                name: draft.name,
                parent: draft.parent,
                line: draft.line,
                kind: draft.kind,
                end_line: draft.end_line,
            },
        )
    }
}

/// Whether `symbol` repeats, without a parent, a line that `earlier` already
/// holds with one.
pub fn is_shadowed(earlier: &Vec<Symbol>, symbol: &Symbol) -> (hidden: bool)
    ensures
        hidden == shadowed(symbols_view(earlier@), symbol@),
{
    if symbol.parent.is_some() {
        return false;
    }
    let ghost views = symbols_view(earlier@);
    let mut i: usize = 0;
    while i < earlier.len()
        invariant
            i <= earlier.len(),
            views == symbols_view(earlier@),
            symbol.parent is None,
            forall|k: int|
                0 <= k < i ==> !((#[trigger] views[k]).line == symbol@.line
                    && views[k].parent is Some),
        decreases earlier.len() - i,
    {
        if earlier[i].line == symbol.line && earlier[i].parent.is_some() {
            proof {
                let at = symbols_view(earlier@)[i as int];
                assert(at == earlier@[i as int]@);
                assert(at.line == symbol@.line && at.parent is Some);
                assert(symbol@.parent is None);
            }
            return true;
        }
        i += 1;
    }
    false
}

/// Turns the matches of a file into its symbols, in the order of the
/// matches. A symbol without a parent is left out where an earlier symbol of
/// the same line has one.
pub fn normalize_symbols(matches: &Vec<RawMatch>, source: &str) -> (symbols: Vec<Symbol>)
    ensures
        symbols_view(symbols@) == normalized(matches_view(matches@), source@),
        all_wf(symbols_view(symbols@)),
        parents_first(symbols_view(symbols@)),
{
    let mut symbols: Vec<Symbol> = Vec::new();
    let ghost all = matches_view(matches@);
    let mut i: usize = 0;
    while i < matches.len()
        invariant
            i <= matches.len(),
            all == matches_view(matches@),
            symbols_view(symbols@) == normalized(all.take(i as int), source@),
        decreases matches.len() - i,
    {
        proof {
            let next = all.take(i + 1);
            assert(next.drop_last() == all.take(i as int));
            assert(next.last() == matches@[i as int]@);
        }
        match match_symbol(&matches[i], source) {
            Some(symbol) => {
                if !is_shadowed(&symbols, &symbol) {
                    let ghost before = symbols@;
                    let ghost view = symbol@;
                    symbols.push(symbol);
                    assert(symbols_view(symbols@) =~= symbols_view(before).push(view));
                }
            },
            None => {},
        }
        i += 1;
    }
    proof {
        assert(all.take(matches@.len() as int) == all);
        lemma_normalized_wf(all, source@);
    }
    symbols
}

/// `s` without the pair of quotes around it, where it stands between two
/// double quotes or between two single quotes.
pub open spec fn strip_quotes(s: Seq<char>) -> Seq<char> {
    if s.len() >= 2 && s.first() == s.last() && (s.first() == '"' || s.first() == '\'') {
        s.subrange(1, s.len() - 1)
    } else {
        s
    }
}

/// The import that the text of a capture names: the text without whitespace
/// around it and without one pair of quotes.
pub open spec fn cleaned_import(text: Seq<char>) -> Seq<char> {
    strip_quotes(trim(text))
}

/// The import of one capture, where it is an import capture with a text that
/// names one.
pub open spec fn capture_import(capture: CaptureView, source: Seq<char>) -> Option<Seq<char>> {
    match capture.text(source) {
        Some(text) => if capture.role() == CaptureRole::Import && cleaned_import(text).len() > 0 {
            Some(cleaned_import(text))
        } else {
            None
        },
        None => None,
    }
}

/// The imports of the captures of one match, in order, repeats included.
pub open spec fn match_imports(captures: Seq<CaptureView>, source: Seq<char>) -> Seq<Seq<char>>
    decreases captures.len(),
{
    if captures.len() == 0 {
        Seq::empty()
    } else {
        let earlier = match_imports(captures.drop_last(), source);
        match capture_import(captures.last(), source) {
            Some(import) => earlier.push(import),
            None => earlier,
        }
    }
}

/// The imports of all matches, in order, repeats included.
pub open spec fn raw_imports(matches: Seq<Seq<CaptureView>>, source: Seq<char>) -> Seq<Seq<char>>
    decreases matches.len(),
{
    if matches.len() == 0 {
        Seq::empty()
    } else {
        raw_imports(matches.drop_last(), source) + match_imports(matches.last(), source)
    }
}

/// `values` without the repeats: each value stays where it first stood.
pub open spec fn dedup_first(values: Seq<Seq<char>>) -> Seq<Seq<char>>
    decreases values.len(),
{
    if values.len() == 0 {
        Seq::empty()
    } else {
        let earlier = dedup_first(values.drop_last());
        if earlier.contains(values.last()) {
            earlier
        } else {
            earlier.push(values.last())
        }
    }
}

/// The imports of a file: those of its matches, each once, in the order in
/// which they first occur.
pub open spec fn normalized_imports(matches: Seq<Seq<CaptureView>>, source: Seq<char>) -> Seq<
    Seq<char>,
> {
    dedup_first(raw_imports(matches, source))
}

/// Whether `values` holds the value at `at` nowhere before `at`.
pub open spec fn is_first_position(values: Seq<Seq<char>>, at: int) -> bool {
    &&& 0 <= at < values.len()
    &&& forall|k: int| 0 <= k < at ==> #[trigger] values[k] != values[at]
}

/// What `dedup_first` keeps is exactly the values at the positions where a
/// value occurs for the first time, in the order of those positions. The
/// positions are returned, one for each value kept.
///
/// So every value of the input is kept exactly once, at the place that its
/// first occurrence gives it among the others.
pub proof fn lemma_dedup_first(values: Seq<Seq<char>>) -> (positions: Seq<int>)
    ensures
        positions.len() == dedup_first(values).len(),
        forall|k: int|
            0 <= k < positions.len() ==> is_first_position(values, #[trigger] positions[k])
                && values[positions[k]] == dedup_first(values)[k],
        forall|k: int, l: int|
            0 <= k < l < positions.len() ==> #[trigger] positions[k] < #[trigger] positions[l],
        forall|at: int| #[trigger]
            is_first_position(values, at) ==> exists|k: int|
                0 <= k < positions.len() && #[trigger] positions[k] == at,
        forall|k: int, l: int|
            0 <= k < l < dedup_first(values).len() ==> #[trigger] dedup_first(values)[k]
                != #[trigger] dedup_first(values)[l],
        forall|v: Seq<char>| values.contains(v) <==> dedup_first(values).contains(v),
    decreases values.len(),
{
    if values.len() == 0 {
        Seq::empty()
    } else {
        let init = values.drop_last();
        let last = values.last();
        let n = init.len() as int;
        let earlier = lemma_dedup_first(init);
        let kept = dedup_first(init);
        assert forall|k: int| 0 <= k < earlier.len() implies is_first_position(
            values,
            #[trigger] earlier[k],
        ) && values[earlier[k]] == kept[k] by {
            assert(is_first_position(init, earlier[k]));
            assert forall|m: int| 0 <= m < earlier[k] implies #[trigger] values[m] != values[earlier[k]] by {
                assert(init[m] != init[earlier[k]]);
            }
        }
        if kept.contains(last) {
            let w = choose|w: int| 0 <= w < kept.len() && kept[w] == last;
            assert(values[earlier[w]] == last);
            assert forall|at: int| #[trigger] is_first_position(values, at) implies exists|k: int|
                0 <= k < earlier.len() && #[trigger] earlier[k] == at by {
                if at == n {
                    assert(values[earlier[w]] != values[at]);
                } else {
                    assert(is_first_position(init, at)) by {
                        assert forall|m: int| 0 <= m < at implies #[trigger] init[m] != init[at] by {
                            assert(values[m] != values[at]);
                        }
                    }
                }
            }
            assert forall|v: Seq<char>| values.contains(v) <==> kept.contains(v) by {
                if values.contains(v) {
                    let p = choose|p: int| 0 <= p < values.len() && values[p] == v;
                    if p < n {
                        assert(init[p] == v);
                        assert(init.contains(v));
                    }
                }
                if kept.contains(v) {
                    assert(init.contains(v));
                    let p = choose|p: int| 0 <= p < init.len() && init[p] == v;
                    assert(values[p] == v);
                }
            }
            earlier
        } else {
            let positions = earlier.push(n);
            let out = kept.push(last);
            assert(is_first_position(values, n)) by {
                assert forall|m: int| 0 <= m < n implies #[trigger] values[m] != values[n] by {
                    if values[m] == values[n] {
                        assert(init[m] == last);
                        assert(init.contains(last));
                    }
                }
            }
            assert forall|k: int, l: int| 0 <= k < l < positions.len() implies #[trigger]
                positions[k] < #[trigger] positions[l] by {
                if l == earlier.len() {
                    assert(is_first_position(values, earlier[k]));
                    assert(is_first_position(init, earlier[k]));
                }
            }
            assert forall|at: int| #[trigger] is_first_position(values, at) implies exists|k: int|
                0 <= k < positions.len() && #[trigger] positions[k] == at by {
                if at == n {
                    assert(positions[earlier.len() as int] == at);
                } else {
                    assert(is_first_position(init, at)) by {
                        assert forall|m: int| 0 <= m < at implies #[trigger] init[m] != init[at] by {
                            assert(values[m] != values[at]);
                        }
                    }
                    let k = choose|k: int| 0 <= k < earlier.len() && #[trigger] earlier[k] == at;
                    assert(positions[k] == at);
                }
            }
            assert forall|k: int, l: int| 0 <= k < l < out.len() implies #[trigger] out[k]
                != #[trigger] out[l] by {
                if l == kept.len() {
                    if out[k] == out[l] {
                        assert(kept[k] == last);
                        assert(kept.contains(last));
                    }
                } else {
                    assert(kept[k] != kept[l]);
                }
            }
            assert forall|v: Seq<char>| values.contains(v) <==> out.contains(v) by {
                if values.contains(v) {
                    let p = choose|p: int| 0 <= p < values.len() && values[p] == v;
                    if p < n {
                        assert(init[p] == v);
                        assert(init.contains(v));
                        let q = choose|q: int| 0 <= q < kept.len() && kept[q] == v;
                        assert(out[q] == v);
                    } else {
                        assert(out[kept.len() as int] == v);
                    }
                }
                if out.contains(v) {
                    let q = choose|q: int| 0 <= q < out.len() && out[q] == v;
                    if q < kept.len() {
                        assert(kept[q] == v);
                        assert(kept.contains(v));
                        assert(init.contains(v));
                        let p = choose|p: int| 0 <= p < init.len() && init[p] == v;
                        assert(values[p] == v);
                    } else {
                        assert(values[n] == v);
                    }
                }
            }
            positions
        }
    }
}

/// The import that `text` names: `text` without whitespace around it and
/// without one pair of quotes.
pub fn clean_import(text: &str) -> (out: String)
    ensures
        out@ == cleaned_import(text@),
{
    let chars = to_chars(text);
    assert(chars@.subrange(0, chars@.len() as int) == chars@);
    let (start, end) = trim_range(&chars, 0, chars.len());
    let ghost inner = chars@.subrange(start as int, end as int);
    if end - start >= 2 {
        assert(inner.first() == chars@[start as int]);
        assert(inner.last() == chars@[end - 1]);
        if chars[start] == chars[end - 1] && (chars[start] == '"' || chars[start] == '\'') {
            assert(inner.subrange(1, inner.len() - 1) == chars@.subrange(start + 1, end - 1));
            return string_from_range(&chars, start + 1, end - 1);
        }
    }
    string_from_range(&chars, start, end)
}

/// Whether `list` holds `value`.
pub fn holds(list: &Vec<String>, value: &String) -> (found: bool)
    ensures
        found == texts(list@).contains(value@),
{
    let ghost all = texts(list@);
    let mut i: usize = 0;
    while i < list.len()
        invariant
            i <= list.len(),
            all == texts(list@),
            forall|k: int| 0 <= k < i ==> all[k] != value@,
        decreases list.len() - i,
    {
        if list[i] == *value {
            assert(all[i as int] == value@);
            return true;
        }
        i += 1;
    }
    false
}

/// Turns the matches of the import pattern of a file into its imports: each
/// once, in the order in which they first occur.
pub fn normalize_imports(matches: &Vec<RawMatch>, source: &str) -> (imports: Vec<String>)
    ensures
        texts(imports@) == normalized_imports(matches_view(matches@), source@),
{
    let mut imports: Vec<String> = Vec::new();
    let ghost all = matches_view(matches@);
    let mut i: usize = 0;
    while i < matches.len()
        invariant
            i <= matches.len(),
            all == matches_view(matches@),
            texts(imports@) == dedup_first(raw_imports(all.take(i as int), source@)),
        decreases matches.len() - i,
    {
        let found = &matches[i];
        let ghost captures = found@;
        let ghost done = raw_imports(all.take(i as int), source@);
        proof {
            let next = all.take(i + 1);
            assert(next.drop_last() == all.take(i as int));
            assert(next.last() == captures);
            assert(done + Seq::<Seq<char>>::empty() =~= done);
        }
        let mut j: usize = 0;
        while j < found.captures.len()
            invariant
                j <= found.captures.len(),
                captures == found@,
                texts(imports@) == dedup_first(
                    done + match_imports(captures.take(j as int), source@),
                ),
            decreases found.captures.len() - j,
        {
            let capture = &found.captures[j];
            let ghost seen = match_imports(captures.take(j as int), source@);
            proof {
                let next = captures.take(j + 1);
                assert(next.drop_last() == captures.take(j as int));
                assert(next.last() == capture@);
            }
            if capture.role() == CaptureRole::Import {
                match slice_text(source, capture.start_byte, capture.end_byte) {
                    Some(text) => {
                        let cleaned = clean_import(text);
                        if !cleaned.as_str().is_empty() {
                            proof {
                                let grown = done + seen.push(cleaned@);
                                assert(grown.drop_last() =~= done + seen);
                                assert(grown.last() == cleaned@);
                            }
                            if !holds(&imports, &cleaned) {
                                let ghost before = imports@;
                                let ghost value = cleaned@;
                                imports.push(cleaned);
                                assert(texts(imports@) =~= texts(before).push(value));
                            }
                        }
                    },
                    None => {},
                }
            }
            j += 1;
        }
        proof {
            assert(captures.take(captures.len() as int) == captures);
        }
        i += 1;
    }
    proof {
        assert(all.take(matches@.len() as int) == all);
    }
    imports
}

/// The symbols of `source`, found with `query_str` under the grammar `lang`.
/// Fails where the engine builds no tree or refuses the pattern.
pub fn extract_symbols(source: &str, lang: &Grammar, query_str: &str) -> (symbols: Result<
    Vec<Symbol>,
    ParseFailure,
>)
    ensures
        match symbols {
            Ok(list) => {
                &&& engine_matches(*lang, query_str@, source@) is Ok
                &&& symbols_view(list@) == normalized(
                    engine_matches(*lang, query_str@, source@).unwrap(),
                    source@,
                )
                &&& all_wf(symbols_view(list@))
                &&& parents_first(symbols_view(list@))
            },
            Err(failure) => engine_matches(*lang, query_str@, source@) == Err::<
                Seq<Seq<CaptureView>>,
                ParseFailure,
            >(failure),
        },
{
    match run_query(source, lang, query_str) {
        Ok(matches) => Ok(normalize_symbols(&matches, source)),
        Err(failure) => Err(failure),
    }
}

/// The imports of `source`, found with `query_str` under the grammar `lang`;
/// none where the engine builds no tree or refuses the pattern.
pub fn extract_imports(source: &str, lang: &Grammar, query_str: &str) -> (imports: Vec<String>)
    ensures
        texts(imports@) == match engine_matches(*lang, query_str@, source@) {
            Ok(matches) => normalized_imports(matches, source@),
            Err(_) => Seq::empty(),
        },
{
    match run_query(source, lang, query_str) {
        Ok(matches) => normalize_imports(&matches, source),
        Err(_) => {
            let imports: Vec<String> = Vec::new();
            assert(texts(imports@) =~= Seq::<Seq<char>>::empty());
            imports
        },
    }
}

} // verus!
