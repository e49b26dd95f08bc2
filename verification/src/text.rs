//! Character-level text primitives: trimming, searching, slicing by byte
//! span, and line counting.
//!
//! Every contract here is stated over `Seq<char>`, the view of `str` and
//! `String`. Executable code works on a `Vec<char>` copy of the text and on
//! half-open index ranges into it.

use vstd::prelude::*;
use vstd::string::*;
use vstd::utf8::*;

verus! {

/// Whether `c`, a character beyond ASCII, carries the Unicode `White_Space`
/// property, as `char::is_whitespace` decides. Nothing is said of it for a
/// character of ASCII.
pub uninterp spec fn is_wide_space(c: char) -> bool;

/// Whether `c` is one of the whitespace characters of ASCII: the space and
/// the five controls from the horizontal tab to the carriage return.
pub open spec fn is_ascii_space(c: char) -> bool {
    c == ' ' || '\t' <= c <= '\r'
}

/// Whether `c` is whitespace: one of the six of ASCII, or a character beyond
/// ASCII with the Unicode `White_Space` property.
pub open spec fn is_space(c: char) -> bool {
    if c <= '\x7f' {
        is_ascii_space(c)
    } else {
        is_wide_space(c)
    }
}

/// `char::is_whitespace` is a pure function of the character. Within ASCII
/// it is true of the space and of U+0009 to U+000D and of nothing else;
/// beyond ASCII it goes by the `White_Space` property of the Unicode tables
/// that the standard library was built with, which the contract gives the
/// name [`is_wide_space`] and claims nothing else of.
pub assume_specification[ char::is_whitespace ](c: char) -> (b: bool)
    ensures
        b == (if c <= '\x7f' {
            is_ascii_space(c)
        } else {
            is_wide_space(c)
        }),
        b == is_space(c),
;

/// `String::push` appends exactly the given character.
pub assume_specification[ String::push ](s: &mut String, c: char)
    ensures
        final(s)@ == old(s)@.push(c),
;

/// Number of whitespace characters at the end of `s`.
pub open spec fn trailing_whitespace(s: Seq<char>) -> nat
    decreases s.len(),
{
    if s.len() > 0 && is_space(s.last()) {
        1 + trailing_whitespace(s.drop_last())
    } else {
        0
    }
}

/// Number of whitespace characters at the start of `s`.
pub open spec fn leading_whitespace(s: Seq<char>) -> nat
    decreases s.len(),
{
    if s.len() > 0 && is_space(s.first()) {
        1 + leading_whitespace(s.drop_first())
    } else {
        0
    }
}

/// Number of consecutive occurrences of `c` at the start of `s`.
pub open spec fn leading_count(s: Seq<char>, c: char) -> nat
    decreases s.len(),
{
    if s.len() > 0 && s.first() == c {
        1 + leading_count(s.drop_first(), c)
    } else {
        0
    }
}

/// `s` without its trailing whitespace.
pub open spec fn trim_end(s: Seq<char>) -> Seq<char> {
    s.take(s.len() - trailing_whitespace(s))
}

/// `s` without its leading whitespace.
pub open spec fn trim_start(s: Seq<char>) -> Seq<char> {
    s.skip(leading_whitespace(s) as int)
}

/// `s` without leading and trailing whitespace.
pub open spec fn trim(s: Seq<char>) -> Seq<char> {
    trim_start(trim_end(s))
}

/// `s` without its leading run of `c`.
pub open spec fn skip_leading(s: Seq<char>, c: char) -> Seq<char> {
    s.skip(leading_count(s, c) as int)
}

/// Whether every character of `s` is whitespace (true of the empty text).
pub open spec fn is_blank(s: Seq<char>) -> bool {
    trim_end(s).len() == 0
}

/// A text has no more trailing whitespace than characters.
pub proof fn lemma_trailing_whitespace_bound(s: Seq<char>)
    ensures
        trailing_whitespace(s) <= s.len(),
    decreases s.len(),
{
    if s.len() > 0 && is_space(s.last()) {
        lemma_trailing_whitespace_bound(s.drop_last());
    }
}

/// A text that does not end in whitespace is its own right-trim.
pub proof fn lemma_trim_end_fixed(s: Seq<char>)
    requires
        s.len() == 0 || !is_space(s.last()),
    ensures
        trim_end(s) == s,
{
}

/// Right-trimming leaves a text that is empty or ends in a non-whitespace
/// character.
pub proof fn lemma_trim_end_tail(s: Seq<char>)
    ensures
        trim_end(s).len() <= s.len(),
        trim_end(s).len() == 0 || !is_space(trim_end(s).last()),
    decreases s.len(),
{
    lemma_trailing_whitespace_bound(s);
    if s.len() > 0 && is_space(s.last()) {
        lemma_trim_end_tail(s.drop_last());
        lemma_trailing_whitespace_bound(s.drop_last());
        assert(trim_end(s) == trim_end(s.drop_last()));
    }
}

/// Right-trimming twice is right-trimming once.
pub proof fn lemma_trim_end_idempotent(s: Seq<char>)
    ensures
        trim_end(trim_end(s)) == trim_end(s),
{
    lemma_trim_end_tail(s);
    lemma_trim_end_fixed(trim_end(s));
}

/// Copies the characters of `s` into a vector.
pub fn to_chars(s: &str) -> (chars: Vec<char>)
    ensures
        chars@ == s@,
{
    let mut chars: Vec<char> = Vec::new();
    for c in it: s.chars()
        invariant
            it.seq() == s@,
            chars@ == it.seq().take(it.index()),
    {
        chars.push(c);
    }
    chars
}

/// Appends `chars[lo..hi]` to `out`.
pub fn push_range(out: &mut String, chars: &Vec<char>, lo: usize, hi: usize)
    requires
        lo <= hi <= chars.len(),
    ensures
        final(out)@ == old(out)@ + chars@.subrange(lo as int, hi as int),
{
    let mut i: usize = lo;
    while i < hi
        invariant
            lo <= i <= hi <= chars.len(),
            out@ == old(out)@ + chars@.subrange(lo as int, i as int),
        decreases hi - i,
    {
        out.push(chars[i]);
        i += 1;
    }
}

/// The text `chars[lo..hi]` as an owned string.
pub fn string_from_range(chars: &Vec<char>, lo: usize, hi: usize) -> (out: String)
    requires
        lo <= hi <= chars.len(),
    ensures
        out@ == chars@.subrange(lo as int, hi as int),
{
    let mut out = String::new();
    push_range(&mut out, chars, lo, hi);
    out
}

/// End of `chars[lo..hi]` once its trailing whitespace is dropped.
pub fn trim_end_index(chars: &Vec<char>, lo: usize, hi: usize) -> (end: usize)
    requires
        lo <= hi <= chars.len(),
    ensures
        lo <= end <= hi,
        chars@.subrange(lo as int, end as int) == trim_end(chars@.subrange(lo as int, hi as int)),
{
    let ghost whole = chars@.subrange(lo as int, hi as int);
    let mut end: usize = hi;
    while end > lo && chars[end - 1].is_whitespace()
        invariant
            lo <= end <= hi <= chars.len(),
            whole == chars@.subrange(lo as int, hi as int),
            trailing_whitespace(whole) == (hi - end) + trailing_whitespace(
                chars@.subrange(lo as int, end as int),
            ),
        decreases end - lo,
    {
        proof {
            let cur = chars@.subrange(lo as int, end as int);
            assert(cur.last() == chars@[end - 1]);
            assert(cur.drop_last() == chars@.subrange(lo as int, end - 1));
        }
        end -= 1;
    }
    proof {
        let cur = chars@.subrange(lo as int, end as int);
        if end > lo {
            assert(cur.last() == chars@[end - 1]);
        }
        assert(trailing_whitespace(cur) == 0);
        assert(whole.take(whole.len() - trailing_whitespace(whole)) == cur);
    }
    end
}

/// Start of `chars[lo..hi]` once its leading whitespace is dropped.
pub fn trim_start_index(chars: &Vec<char>, lo: usize, hi: usize) -> (start: usize)
    requires
        lo <= hi <= chars.len(),
    ensures
        lo <= start <= hi,
        chars@.subrange(start as int, hi as int) == trim_start(
            chars@.subrange(lo as int, hi as int),
        ),
{
    let ghost whole = chars@.subrange(lo as int, hi as int);
    let mut start: usize = lo;
    while start < hi && chars[start].is_whitespace()
        invariant
            lo <= start <= hi <= chars.len(),
            whole == chars@.subrange(lo as int, hi as int),
            leading_whitespace(whole) == (start - lo) + leading_whitespace(
                chars@.subrange(start as int, hi as int),
            ),
        decreases hi - start,
    {
        proof {
            let cur = chars@.subrange(start as int, hi as int);
            assert(cur.first() == chars@[start as int]);
            assert(cur.drop_first() == chars@.subrange(start + 1, hi as int));
        }
        start += 1;
    }
    proof {
        let cur = chars@.subrange(start as int, hi as int);
        if start < hi {
            assert(cur.first() == chars@[start as int]);
        }
        assert(leading_whitespace(cur) == 0);
        assert(whole.skip(leading_whitespace(whole) as int) == cur);
    }
    start
}

/// Start of `chars[lo..hi]` once its leading run of `c` is dropped.
pub fn skip_leading_index(chars: &Vec<char>, lo: usize, hi: usize, c: char) -> (start: usize)
    requires
        lo <= hi <= chars.len(),
    ensures
        lo <= start <= hi,
        start - lo == leading_count(chars@.subrange(lo as int, hi as int), c),
        chars@.subrange(start as int, hi as int) == skip_leading(
            chars@.subrange(lo as int, hi as int),
            c,
        ),
{
    let ghost whole = chars@.subrange(lo as int, hi as int);
    let mut start: usize = lo;
    while start < hi && chars[start] == c
        invariant
            lo <= start <= hi <= chars.len(),
            whole == chars@.subrange(lo as int, hi as int),
            leading_count(whole, c) == (start - lo) + leading_count(
                chars@.subrange(start as int, hi as int),
                c,
            ),
        decreases hi - start,
    {
        proof {
            let cur = chars@.subrange(start as int, hi as int);
            assert(cur.first() == chars@[start as int]);
            assert(cur.drop_first() == chars@.subrange(start + 1, hi as int));
        }
        start += 1;
    }
    proof {
        let cur = chars@.subrange(start as int, hi as int);
        if start < hi {
            assert(cur.first() == chars@[start as int]);
        }
        assert(leading_count(cur, c) == 0);
        assert(whole.skip(leading_count(whole, c) as int) == cur);
    }
    start
}

/// Bounds of `chars[lo..hi]` once whitespace is dropped at both ends.
pub fn trim_range(chars: &Vec<char>, lo: usize, hi: usize) -> (bounds: (usize, usize))
    requires
        lo <= hi <= chars.len(),
    ensures
        lo <= bounds.0 <= bounds.1 <= hi,
        chars@.subrange(bounds.0 as int, bounds.1 as int) == trim(
            chars@.subrange(lo as int, hi as int),
        ),
{
    let end = trim_end_index(chars, lo, hi);
    let start = trim_start_index(chars, lo, end);
    (start, end)
}

/// Whether `needle` stands in `hay` at index `at`.
pub open spec fn occurs_at(hay: Seq<char>, needle: Seq<char>, at: int) -> bool {
    &&& 0 <= at
    &&& at + needle.len() <= hay.len()
    &&& hay.subrange(at, at + needle.len()) == needle
}

/// Whether `at` is the first index at which `needle` stands in `hay`.
pub open spec fn is_first_occurrence(hay: Seq<char>, needle: Seq<char>, at: int) -> bool {
    &&& occurs_at(hay, needle, at)
    &&& forall|j: int| 0 <= j < at ==> !occurs_at(hay, needle, j)
}

/// Whether `needle` stands nowhere in `hay`.
pub open spec fn absent(hay: Seq<char>, needle: Seq<char>) -> bool {
    forall|j: int| !occurs_at(hay, needle, j)
}

/// First index at or after `from` at which `needle` stands in `hay`.
pub open spec fn first_occurrence_from(hay: Seq<char>, needle: Seq<char>, from: int) -> Option<int>
    decreases hay.len() - from,
{
    if from < 0 || from + needle.len() > hay.len() {
        None
    } else if occurs_at(hay, needle, from) {
        Some(from)
    } else if from >= hay.len() {
        None
    } else {
        first_occurrence_from(hay, needle, from + 1)
    }
}

/// First index at which `needle` stands in `hay`, if it stands anywhere.
pub open spec fn first_occurrence(hay: Seq<char>, needle: Seq<char>) -> Option<int> {
    first_occurrence_from(hay, needle, 0)
}

proof fn lemma_first_occurrence_from(hay: Seq<char>, needle: Seq<char>, from: int)
    requires
        0 <= from,
    ensures
        match first_occurrence_from(hay, needle, from) {
            Some(at) => from <= at && occurs_at(hay, needle, at) && forall|j: int|
                from <= j < at ==> !occurs_at(hay, needle, j),
            None => forall|j: int| from <= j ==> !occurs_at(hay, needle, j),
        },
    decreases hay.len() - from,
{
    if from + needle.len() > hay.len() {
    } else if occurs_at(hay, needle, from) {
    } else if from >= hay.len() {
        assert(hay.subrange(from, from + needle.len()) =~= needle);
    } else {
        lemma_first_occurrence_from(hay, needle, from + 1);
    }
}

/// `first_occurrence` returns the least index at which the needle stands,
/// and `None` exactly when it stands nowhere.
pub proof fn lemma_first_occurrence(hay: Seq<char>, needle: Seq<char>)
    ensures
        match first_occurrence(hay, needle) {
            Some(at) => is_first_occurrence(hay, needle, at),
            None => absent(hay, needle),
        },
{
    lemma_first_occurrence_from(hay, needle, 0);
}

/// Any index that is a first occurrence is the one `first_occurrence` gives.
pub proof fn lemma_first_occurrence_is(hay: Seq<char>, needle: Seq<char>, at: int)
    requires
        is_first_occurrence(hay, needle, at),
    ensures
        first_occurrence(hay, needle) == Some(at),
{
    lemma_first_occurrence(hay, needle);
}

/// A needle that stands nowhere has no first occurrence.
pub proof fn lemma_first_occurrence_absent(hay: Seq<char>, needle: Seq<char>)
    requires
        absent(hay, needle),
    ensures
        first_occurrence(hay, needle) is None,
{
    lemma_first_occurrence(hay, needle);
}

/// Whether `needle` stands in `hay` at index `at`.
pub fn matches_at(hay: &Vec<char>, needle: &Vec<char>, at: usize) -> (found: bool)
    requires
        at + needle.len() <= hay.len(),
    ensures
        found == occurs_at(hay@, needle@, at as int),
{
    let mut k: usize = 0;
    while k < needle.len()
        invariant
            k <= needle.len(),
            at + needle.len() <= hay.len(),
            forall|j: int| 0 <= j < k ==> hay@[at + j] == needle@[j],
        decreases needle.len() - k,
    {
        if hay[at + k] != needle[k] {
            proof {
                let window = hay@.subrange(at as int, at + needle.len());
                assert(window[k as int] != needle@[k as int]);
            }
            return false;
        }
        k += 1;
    }
    assert(hay@.subrange(at as int, at + needle.len()) =~= needle@);
    true
}

/// First index at which `needle` stands in `hay`.
pub fn find(hay: &Vec<char>, needle: &Vec<char>) -> (found: Option<usize>)
    ensures
        match found {
            Some(at) => first_occurrence(hay@, needle@) == Some(at as int),
            None => first_occurrence(hay@, needle@) is None,
        },
{
    if needle.len() > hay.len() {
        proof {
            lemma_first_occurrence_absent(hay@, needle@);
        }
        return None;
    }
    let last: usize = hay.len() - needle.len();
    let mut at: usize = 0;
    loop
        invariant
            last == hay.len() - needle.len(),
            at <= last,
            forall|j: int| 0 <= j < at ==> !occurs_at(hay@, needle@, j),
        decreases last - at,
    {
        if matches_at(hay, needle, at) {
            proof {
                lemma_first_occurrence_is(hay@, needle@, at as int);
            }
            return Some(at);
        }
        if at == last {
            proof {
                lemma_first_occurrence_absent(hay@, needle@);
            }
            return None;
        }
        at += 1;
    }
}

/// Whether two texts hold the same characters.
pub fn same_text(a: &str, b: &str) -> (same: bool)
    ensures
        same == (a@ == b@),
{
    let left = to_chars(a);
    let right = to_chars(b);
    if left.len() != right.len() {
        return false;
    }
    let found = matches_at(&left, &right, 0);
    proof {
        assert(left@.subrange(0, left@.len() as int) == left@);
    }
    found
}

/// The text between byte offsets `start` and `end` of the UTF-8 encoding of
/// `source`, where both offsets fall on character boundaries inside it.
pub open spec fn span_text(source: Seq<char>, start: int, end: int) -> Option<Seq<char>> {
    let bytes = encode_utf8(source);
    if 0 <= start <= end <= bytes.len() && is_char_boundary(bytes, start) && is_char_boundary(
        bytes,
        end,
    ) {
        Some(decode_utf8(bytes.subrange(start, end)))
    } else {
        None
    }
}

/// The part of `source` between two byte offsets, or `None` where the offsets
/// are out of order, out of range, or inside a character.
pub fn slice_text(source: &str, start: usize, end: usize) -> (piece: Option<&str>)
    ensures
        match piece {
            Some(text) => span_text(source@, start as int, end as int) == Some(text@),
            None => span_text(source@, start as int, end as int) is None,
        },
{
    broadcast use {encode_utf8_valid_utf8, encode_utf8_decode_utf8};

    let byte_len = source.as_bytes().len();
    if start <= end && end <= byte_len && source.is_char_boundary(start)
        && source.is_char_boundary(end) {
        let ghost bytes = source.spec_bytes();
        let (head, _) = source.split_at(end);
        proof {
            let head_bytes = bytes.subrange(0, end as int);
            assert(head.spec_bytes() == head_bytes);
            valid_utf8_split(bytes, end as int);
            if start < end {
                is_char_boundary_iff_not_is_continuation_byte(bytes, start as int);
                is_char_boundary_iff_not_is_continuation_byte(head_bytes, start as int);
            } else {
                is_char_boundary_start_end_of_seq(head_bytes);
            }
        }
        let (_, text) = head.split_at(start);
        proof {
            assert(text.spec_bytes() == bytes.subrange(start as int, end as int));
            assert(decode_utf8(encode_utf8(text@)) == text@);
        }
        Some(text)
    } else {
        None
    }
}

/// Number of occurrences of `c` in `s`.
pub open spec fn count_char(s: Seq<char>, c: char) -> nat
    decreases s.len(),
{
    if s.len() == 0 {
        0
    } else {
        count_char(s.drop_last(), c) + if s.last() == c {
            1nat
        } else {
            0nat
        }
    }
}

/// Number of lines of a text: one per line feed, and one more for a last line
/// that no line feed ends.
pub open spec fn line_count(s: Seq<char>) -> nat {
    count_char(s, '\n') + if s.len() > 0 && s.last() != '\n' {
        1nat
    } else {
        0nat
    }
}

/// A character occurs in a text no more often than the text is long, and
/// less often where the text ends in another character.
pub proof fn lemma_count_char_bound(s: Seq<char>, c: char)
    ensures
        count_char(s, c) <= s.len(),
        s.len() > 0 && s.last() != c ==> count_char(s, c) < s.len(),
    decreases s.len(),
{
    if s.len() > 0 {
        lemma_count_char_bound(s.drop_last(), c);
    }
}

/// Counts the lines of `text`.
pub fn count_lines(text: &str) -> (lines: usize)
    ensures
        lines == line_count(text@),
{
    let chars = to_chars(text);
    let mut feeds: usize = 0;
    let mut i: usize = 0;
    while i < chars.len()
        invariant
            i <= chars.len(),
            feeds == count_char(chars@.take(i as int), '\n'),
            feeds <= i,
        decreases chars.len() - i,
    {
        proof {
            let next = chars@.take(i + 1);
            assert(next.drop_last() == chars@.take(i as int));
            assert(next.last() == chars@[i as int]);
        }
        if chars[i] == '\n' {
            feeds += 1;
        }
        i += 1;
    }
    proof {
        assert(chars@.take(chars@.len() as int) == chars@);
        lemma_count_char_bound(chars@, '\n');
    }
    if chars.len() > 0 && chars[chars.len() - 1] != '\n' {
        feeds + 1
    } else {
        feeds
    }
}

} // verus!
