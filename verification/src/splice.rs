//! Wrapping a report between two marker lines and splicing it into a
//! document, replacing an earlier block where the document holds one.

use vstd::prelude::*;
use vstd::string::*;
use crate::layout::{decimal, digit, digit_char, push_decimal};
use crate::text::{
    find, first_occurrence, is_blank, is_first_occurrence, is_space, occurs_at, push_range,
    to_chars, trim_end, trim_end_index,
};

verus! {

/// Line that opens the generated block inside a document.
pub const REPOMAP_START: &'static str = "<!-- REPOMAP START -->";

/// Line that closes the generated block inside a document.
pub const REPOMAP_END: &'static str = "<!-- REPOMAP END -->";

/// The opening marker as a sequence of characters.
pub open spec fn start_marker() -> Seq<char> {
    "<!-- REPOMAP START -->"@
}

/// The closing marker as a sequence of characters.
pub open spec fn end_marker() -> Seq<char> {
    "<!-- REPOMAP END -->"@
}

/// Tenths of a thousand in `tokens`, rounded to the nearest, halves upward.
pub open spec fn kilo_tenths(tokens: nat) -> nat {
    tokens / 100 + if tokens % 100 >= 50 {
        1nat
    } else {
        0nat
    }
}

/// The token estimate as shown to a reader: thousands with one decimal from
/// one thousand on, the plain number below.
pub open spec fn token_display(tokens: nat) -> Seq<char> {
    if tokens >= 1000 {
        "~"@ + decimal(kilo_tenths(tokens) / 10).push('.').push(
            digit_char(kilo_tenths(tokens) % 10),
        ) + "k tokens"@
    } else {
        "~"@ + decimal(tokens) + " tokens"@
    }
}

/// The report wrapped for insertion into a document.
pub open spec fn wrapped(content: Seq<char>, file_count: nat, tokens: nat) -> Seq<char> {
    start_marker() + "\n## Repository Structure\n\n<details>\n<summary>Repository map ("@
        + decimal(file_count) + " files, "@ + token_display(tokens) + ")</summary>\n\n"@ + content
        + "\n</details>\n"@ + end_marker() + "\n"@
}

/// Appends the reader's form of a token estimate to `out`.
pub fn push_token_display(out: &mut String, token_estimate: usize)
    ensures
        final(out)@ == old(out)@ + token_display(token_estimate as nat),
{
    out.append("~");
    if token_estimate >= 1000 {
        let round_up: usize = if token_estimate % 100 >= 50 {
            1
        } else {
            0
        };
        let tenths: usize = token_estimate / 100 + round_up;
        push_decimal(out, tenths / 10);
        out.push('.');
        out.push(digit(tenths % 10));
        out.append("k tokens");
        assert(out@ =~= old(out)@ + token_display(token_estimate as nat));
    } else {
        push_decimal(out, token_estimate);
        out.append(" tokens");
        assert(out@ =~= old(out)@ + token_display(token_estimate as nat));
    }
}

/// Wraps `content` between the two marker lines, under a heading and a
/// collapsible summary line that shows the number of files and the token
/// estimate.
pub fn wrap_for_claude_md(content: &str, file_count: usize, token_estimate: usize) -> (block:
    String)
    ensures
        block@ == wrapped(content@, file_count as nat, token_estimate as nat),
{
    let mut block = String::new();
    block.append(REPOMAP_START);
    block.append("\n## Repository Structure\n\n<details>\n<summary>Repository map (");
    push_decimal(&mut block, file_count);
    block.append(" files, ");
    push_token_display(&mut block, token_estimate);
    block.append(")</summary>\n\n");
    block.append(content);
    block.append("\n</details>\n");
    block.append(REPOMAP_END);
    block.append("\n");
    block
}

/// Where the generated block stands in `doc`: the first index of the opening
/// marker and the first index of the closing marker, where both stand in
/// `doc` and the opening one comes first.
pub open spec fn marker_span(doc: Seq<char>) -> Option<(int, int)> {
    match (first_occurrence(doc, start_marker()), first_occurrence(doc, end_marker())) {
        (Some(start), Some(end)) => if start < end {
            Some((start, end))
        } else {
            None
        },
        _ => None,
    }
}

/// The blank line put between a document and a block appended to it.
pub open spec fn blank_line() -> Seq<char> {
    seq!['\n', '\n']
}

/// `doc` with `block` spliced in: in place of the marked region where there
/// is one, after the document otherwise.
pub open spec fn spliced(doc: Seq<char>, block: Seq<char>) -> Seq<char> {
    match marker_span(doc) {
        Some((start, end)) => trim_end(doc.take(start)) + block + doc.skip(
            end + end_marker().len(),
        ),
        None => if is_blank(doc) {
            block
        } else {
            trim_end(doc) + blank_line() + block
        },
    }
}

/// Splices `new_repomap` into `existing_content`.
///
/// Where the document holds both markers, the opening one first, everything
/// from the opening marker through the closing one gives way to the block,
/// whitespace right before it is dropped, and what follows the closing marker
/// stays as it is. Otherwise the block is appended after the right-trimmed
/// document and a blank line, or returned alone where the document is blank.
pub fn update_or_append_repomap(existing_content: &str, new_repomap: &str) -> (updated: String)
    ensures
        updated@ == spliced(existing_content@, new_repomap@),
{
    let doc = to_chars(existing_content);
    let opening = to_chars(REPOMAP_START);
    let closing = to_chars(REPOMAP_END);
    let mut updated = String::new();
    let span: Option<(usize, usize)> = match (find(&doc, &opening), find(&doc, &closing)) {
        (Some(start), Some(end)) => if start < end {
            Some((start, end))
        } else {
            None
        },
        _ => None,
    };
    match span {
        Some((start, end)) => {
            proof {
                crate::text::lemma_first_occurrence(doc@, end_marker());
                assert(doc@.subrange(0, start as int) == doc@.take(start as int));
                assert(doc@.subrange(end + closing.len(), doc.len() as int) == doc@.skip(
                    end + end_marker().len(),
                ));
            }
            let kept = trim_end_index(&doc, 0, start);
            push_range(&mut updated, &doc, 0, kept);
            updated.append(new_repomap);
            push_range(&mut updated, &doc, end + closing.len(), doc.len());
        },
        None => {
            proof {
                assert(doc@.subrange(0, doc.len() as int) == doc@);
            }
            let kept = trim_end_index(&doc, 0, doc.len());
            if kept == 0 {
                updated.append(new_repomap);
            } else {
                push_range(&mut updated, &doc, 0, kept);
                updated.push('\n');
                updated.push('\n');
                updated.append(new_repomap);
                assert(updated@ =~= trim_end(doc@) + blank_line() + new_repomap@);
            }
        },
    }
    updated
}

/// Whether `block` is delimited by the two markers: it begins with the
/// opening marker, ends with the closing one, and holds neither earlier than
/// that.
pub open spec fn is_marker_block(block: Seq<char>) -> bool {
    &&& first_occurrence(block, start_marker()) == Some(0int)
    &&& first_occurrence(block, end_marker()) == Some(block.len() - end_marker().len())
}

/// Both markers start with `<`, hold it nowhere else, and differ.
proof fn lemma_marker_shape()
    ensures
        start_marker().len() == 22,
        end_marker().len() == 20,
        start_marker()[0] == '<',
        end_marker()[0] == '<',
        forall|k: int| 0 < k < 22 ==> start_marker()[k] != '<',
        forall|k: int| 0 < k < 20 ==> end_marker()[k] != '<',
        start_marker()[13] != end_marker()[13],
{
    reveal_strlit("<!-- REPOMAP START -->");
    reveal_strlit("<!-- REPOMAP END -->");
}

/// A marker cannot start inside `head` and run into a `tail` that begins
/// with `<`, nor stand inside `head` where `head` holds none.
proof fn lemma_no_marker_before(head: Seq<char>, tail: Seq<char>, marker: Seq<char>, j: int)
    requires
        marker.len() > 0,
        marker[0] == '<',
        forall|k: int| 0 < k < marker.len() ==> marker[k] != '<',
        tail.len() > 0,
        tail[0] == '<',
        forall|i: int| !occurs_at(head, marker, i),
        0 <= j < head.len(),
    ensures
        !occurs_at(head + tail, marker, j),
{
    let whole = head + tail;
    if occurs_at(whole, marker, j) {
        let window = whole.subrange(j, j + marker.len());
        if j + marker.len() <= head.len() {
            assert(head.subrange(j, j + marker.len()) =~= window);
            assert(occurs_at(head, marker, j));
        } else {
            let k = head.len() - j;
            assert(window[k] == whole[head.len() as int]);
            assert(whole[head.len() as int] == tail[0]);
            assert(marker[k] == '<');
        }
    }
}

/// A prefix of a text holds no occurrence of a needle before the needle's
/// first occurrence in the text.
proof fn lemma_prefix_free(doc: Seq<char>, needle: Seq<char>, first: int, cut: int)
    requires
        is_first_occurrence(doc, needle, first),
        needle.len() > 0,
        0 <= cut <= first,
    ensures
        forall|i: int| !occurs_at(doc.take(cut), needle, i),
{
    assert forall|i: int| !occurs_at(doc.take(cut), needle, i) by {
        if occurs_at(doc.take(cut), needle, i) {
            assert(doc.subrange(i, i + needle.len()) =~= doc.take(cut).subrange(
                i,
                i + needle.len(),
            ));
            assert(occurs_at(doc, needle, i));
        }
    }
}

/// Where a marker block follows a head that holds neither marker, the
/// markers of the whole are those of the block.
proof fn lemma_span_after_head(head: Seq<char>, block: Seq<char>, rest: Seq<char>)
    requires
        is_marker_block(block),
        forall|i: int| !occurs_at(head, start_marker(), i),
        forall|i: int| !occurs_at(head, end_marker(), i),
    ensures
        block.len() >= 42,
        marker_span(head + block + rest) == Some(
            (head.len() as int, head.len() + block.len() - 20),
        ),
{
    lemma_marker_shape();
    crate::text::lemma_first_occurrence(block, start_marker());
    crate::text::lemma_first_occurrence(block, end_marker());
    let whole = head + block + rest;
    let opening = start_marker();
    let closing = end_marker();
    let at_end = block.len() - 20;
    let base = head.len() as int;
    assert(block.subrange(0, 22)[13] == block[13]);
    if at_end < 22 {
        if at_end == 0 {
            assert(block.subrange(0, 20)[13] == block[13]);
        } else {
            assert(block.subrange(at_end, at_end + 20)[0] == block[at_end]);
            assert(block.subrange(0, 22)[at_end] == block[at_end]);
        }
    }
    assert(block[0] == block.subrange(0, 22)[0]);
    assert(is_first_occurrence(whole, opening, base)) by {
        assert(whole.subrange(base, base + 22) =~= block.subrange(0, 22));
        assert forall|j: int| 0 <= j < head.len() implies !occurs_at(whole, opening, j) by {
            lemma_no_marker_before(head, block + rest, opening, j);
            assert(head + (block + rest) =~= whole);
        }
    }
    assert(is_first_occurrence(whole, closing, base + at_end)) by {
        assert(whole.subrange(base + at_end, base + at_end + 20) =~= block.subrange(
            at_end,
            at_end + 20,
        ));
        assert forall|j: int| 0 <= j < base + at_end implies !occurs_at(
            whole,
            closing,
            j,
        ) by {
            if j < head.len() {
                lemma_no_marker_before(head, block + rest, closing, j);
                assert(head + (block + rest) =~= whole);
            } else if occurs_at(whole, closing, j) {
                assert(block.subrange(j - base, j - base + 20) =~= whole.subrange(j, j + 20));
                assert(occurs_at(block, closing, j - base));
            }
        }
    }
    crate::text::lemma_first_occurrence_is(whole, opening, base);
    crate::text::lemma_first_occurrence_is(whole, closing, base + at_end);
}

/// Splicing a marker block a second time changes nothing, for a document
/// that already held a marked region or was blank.
///
/// The law is stated for a block that the two markers delimit exactly and for
/// such a document only: a block that goes on after its closing marker, and a
/// document to which the block was appended after other text, both grow or
/// lose whitespace at each further splice.
pub proof fn lemma_splice_idempotent(doc: Seq<char>, block: Seq<char>)
    requires
        is_marker_block(block),
        marker_span(doc) is Some || is_blank(doc),
    ensures
        spliced(spliced(doc, block), block) == spliced(doc, block),
{
    lemma_marker_shape();
    let empty = Seq::<char>::empty();
    match marker_span(doc) {
        Some((start, end)) => {
            crate::text::lemma_first_occurrence(doc, start_marker());
            crate::text::lemma_first_occurrence(doc, end_marker());
            let before = doc.take(start);
            let head = trim_end(before);
            let rest = doc.skip(end + 20);
            let once = head + block + rest;
            crate::text::lemma_trailing_whitespace_bound(before);
            assert(head =~= doc.take(head.len() as int));
            lemma_prefix_free(doc, start_marker(), start, head.len() as int);
            lemma_prefix_free(doc, end_marker(), end, head.len() as int);
            lemma_span_after_head(head, block, rest);
            crate::text::lemma_trim_end_idempotent(before);
            assert(once.take(head.len() as int) =~= head);
            assert(once.skip(head.len() + block.len() - 20 + 20) =~= rest);
        },
        None => {
            assert forall|i: int| !occurs_at(empty, start_marker(), i) by {}
            assert forall|i: int| !occurs_at(empty, end_marker(), i) by {}
            lemma_span_after_head(empty, block, empty);
            assert(empty + block + empty =~= block);
            assert(block.take(0) =~= empty);
            assert(trim_end(empty) =~= empty);
            assert(block.skip(block.len() - 20 + 20) =~= empty);
        },
    }
}

/// Splicing into a document that holds a marked region keeps what follows
/// the closing marker as it is, and keeps what precedes the opening marker up
/// to its trailing whitespace; where that part ends in no whitespace, it is
/// kept whole.
pub proof fn lemma_splice_preserves_surroundings(doc: Seq<char>, block: Seq<char>)
    requires
        marker_span(doc) is Some,
    ensures
        ({
            let (start, end) = marker_span(doc).unwrap();
            let before = doc.take(start);
            let after = doc.skip(end + end_marker().len());
            let out = spliced(doc, block);
            &&& 0 <= start < end
            &&& end + end_marker().len() <= doc.len()
            &&& out.len() == trim_end(before).len() + block.len() + after.len()
            &&& out.take(trim_end(before).len() as int) == trim_end(before)
            &&& out.skip(out.len() - after.len()) == after
            &&& trim_end(before) == before.take(trim_end(before).len() as int)
            &&& (before.len() == 0 || !is_space(before.last()) ==> out.take(
                before.len() as int,
            ) == before)
        }),
{
    let (start, end) = marker_span(doc).unwrap();
    crate::text::lemma_first_occurrence(doc, start_marker());
    crate::text::lemma_first_occurrence(doc, end_marker());
    let before = doc.take(start);
    let after = doc.skip(end + end_marker().len());
    let out = spliced(doc, block);
    crate::text::lemma_trailing_whitespace_bound(before);
    assert(out.take(trim_end(before).len() as int) =~= trim_end(before));
    assert(out.skip(out.len() - after.len()) =~= after);
    assert(trim_end(before) =~= before.take(trim_end(before).len() as int));
    if before.len() == 0 || !is_space(before.last()) {
        crate::text::lemma_trim_end_fixed(before);
    }
}

} // verus!
