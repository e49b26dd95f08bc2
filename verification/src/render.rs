//! One file's symbols and imports as a fragment of the report: a heading, a
//! line of imports, and a fenced table with one fixed-column line per symbol.

use vstd::prelude::*;
use vstd::string::*;
use crate::layout::{
    decimal, join, pad_right, push_decimal, push_joined, push_padded, push_spaces, spaces, texts,
};
use crate::parser::{all_wf, symbols_view, Symbol, SymbolView};
use crate::text::to_chars;

verus! {

/// Whether `c` is a decimal digit.
pub open spec fn is_digit(c: char) -> bool {
    '0' <= c <= '9'
}

/// The number that the digit `c` stands for.
pub open spec fn digit_value(c: char) -> nat {
    (c as nat - '0' as nat) as nat
}

/// Whether `s` holds decimal digits only.
pub open spec fn all_digits(s: Seq<char>) -> bool {
    forall|i: int| 0 <= i < s.len() ==> is_digit(#[trigger] s[i])
}

/// The number that the decimal digits of `s` stand for.
pub open spec fn decimal_value(s: Seq<char>) -> nat
    decreases s.len(),
{
    if s.len() == 0 {
        0
    } else {
        decimal_value(s.drop_last()) * 10 + digit_value(s.last())
    }
}

/// The level of a heading, told by its kind: the number in a kind made of `h`
/// and one or more digits. Other kinds are no headings.
pub open spec fn heading_level(kind: Seq<char>) -> Option<nat> {
    if kind.len() >= 2 && kind[0] == 'h' && all_digits(kind.skip(1)) {
        Some(decimal_value(kind.skip(1)))
    } else {
        None
    }
}

/// Number of spaces in front of the name of a symbol of the kind `kind`: two
/// for each level of a heading below the first. A level that the machine
/// cannot count to gives none.
pub open spec fn heading_indent(kind: Seq<char>) -> nat {
    match heading_level(kind) {
        Some(level) => if 1 <= level <= usize::MAX {
            (2 * (level - 1)) as nat
        } else {
            0
        },
        None => 0,
    }
}

/// The name under which a symbol is shown: behind its parent where it has
/// one, indented by its level where it is a heading.
pub open spec fn display_name(symbol: SymbolView) -> Seq<char> {
    match symbol.parent {
        Some(parent) => parent + " > "@ + symbol.name,
        None => spaces(heading_indent(symbol.kind)) + symbol.name,
    }
}

/// The line of one symbol: its first line, its kind, the name it is shown
/// under and the number of lines it spans, in four columns.
pub open spec fn symbol_line(symbol: SymbolView) -> Seq<char> {
    "L"@ + pad_right(decimal(symbol.line), 3) + " | "@ + pad_right(symbol.kind, 10) + " | "@
        + pad_right(display_name(symbol), 30) + " | ("@ + decimal(symbol.size()) + " lines)\n"@
}

/// The lines of the symbols, in order.
pub open spec fn symbol_lines(symbols: Seq<SymbolView>) -> Seq<char>
    decreases symbols.len(),
{
    if symbols.len() == 0 {
        Seq::empty()
    } else {
        symbol_lines(symbols.drop_last()) + symbol_line(symbols.last())
    }
}

/// The line that lists the imports; nothing where there are none.
pub open spec fn imports_line(imports: Seq<Seq<char>>) -> Seq<char> {
    if imports.len() > 0 {
        "imports: "@ + join(imports, ", "@) + "\n"@
    } else {
        Seq::empty()
    }
}

/// The fenced table of the symbols; nothing where there are none.
pub open spec fn symbol_table(symbols: Seq<SymbolView>, tag: Seq<char>) -> Seq<char> {
    if symbols.len() > 0 {
        "```"@ + tag + "\n"@ + symbol_lines(symbols) + "```\n"@
    } else {
        Seq::empty()
    }
}

/// The fragment of one file; empty for a file without symbols and imports.
pub open spec fn rendered(
    path: Seq<char>,
    symbols: Seq<SymbolView>,
    imports: Seq<Seq<char>>,
    tag: Seq<char>,
) -> Seq<char> {
    if symbols.len() == 0 && imports.len() == 0 {
        Seq::empty()
    } else {
        "\n## "@ + path + "\n"@ + imports_line(imports) + symbol_table(symbols, tag)
    }
}

/// The level that the kind `kind` gives a heading, where the machine can
/// count to it.
pub fn parse_heading_level(kind: &str) -> (level: Option<usize>)
    ensures
        match level {
            Some(n) => heading_level(kind@) == Some(n as nat),
            None => heading_level(kind@) is None || heading_level(kind@).unwrap() > usize::MAX,
        },
{
    let chars = to_chars(kind);
    if chars.len() < 2 || chars[0] != 'h' {
        return None;
    }
    let ghost digits = chars@.skip(1);
    let mut value: usize = 0;
    let mut overflow = false;
    let mut i: usize = 1;
    while i < chars.len()
        invariant
            1 <= i <= chars.len(),
            chars@ == kind@,
            chars@[0] == 'h',
            digits == chars@.skip(1),
            all_digits(digits.take(i - 1)),
            overflow ==> decimal_value(digits.take(i - 1)) > usize::MAX,
            !overflow ==> value == decimal_value(digits.take(i - 1)),
        decreases chars.len() - i,
    {
        let c = chars[i];
        if !('0' <= c && c <= '9') {
            assert(digits[i - 1] == c);
            assert(!all_digits(digits));
            return None;
        }
        proof {
            let next = digits.take(i as int);
            assert(next.drop_last() == digits.take(i - 1));
            assert(next.last() == c);
            assert forall|k: int| 0 <= k < next.len() implies is_digit(#[trigger] next[k]) by {
                if k < i - 1 {
                    assert(digits.take(i - 1)[k] == next[k]);
                }
            }
        }
        if !overflow {
            let d: usize = (c as u32 - '0' as u32) as usize;
            match value.checked_mul(10) {
                Some(scaled) => match scaled.checked_add(d) {
                    Some(sum) => {
                        value = sum;
                    },
                    None => {
                        overflow = true;
                    },
                },
                None => {
                    overflow = true;
                },
            }
        }
        i += 1;
    }
    proof {
        assert(digits.take(digits.len() as int) == digits);
    }
    if overflow {
        None
    } else {
        Some(value)
    }
}

/// Appends the name under which `symbol` is shown to `out`.
fn push_display_name(out: &mut String, symbol: &Symbol)
    ensures
        final(out)@ == old(out)@ + display_name(symbol@),
{
    match &symbol.parent {
        Some(parent) => {
            out.append(parent.as_str());
            out.append(" > ");
            out.append(symbol.name.as_str());
            assert(out@ =~= old(out)@ + display_name(symbol@));
        },
        None => {
            match parse_heading_level(symbol.kind.as_str()) {
                Some(level) => {
                    if level >= 1 {
                        let mut done: usize = 1;
                        while done < level
                            invariant
                                1 <= done <= level,
                                out@ == old(out)@ + spaces((2 * (done - 1)) as nat),
                            decreases level - done,
                        {
                            push_spaces(out, 2);
                            done += 1;
                            assert(spaces((2 * (done - 1)) as nat) =~= spaces(
                                (2 * (done - 2)) as nat,
                            ) + spaces(2));
                        }
                    } else {
                        assert(out@ =~= old(out)@ + spaces(0));
                    }
                },
                None => {
                    assert(out@ =~= old(out)@ + spaces(0));
                },
            }
            out.append(symbol.name.as_str());
        },
    }
}

/// Appends the line of `symbol` to `out`.
fn push_symbol_line(out: &mut String, symbol: &Symbol)
    requires
        symbol@.wf(),
    ensures
        final(out)@ == old(out)@ + symbol_line(symbol@),
{
    let mut line_field = String::new();
    push_decimal(&mut line_field, symbol.line);
    let mut name_field = String::new();
    push_display_name(&mut name_field, symbol);
    out.append("L");
    push_padded(out, line_field.as_str(), 3);
    out.append(" | ");
    push_padded(out, symbol.kind.as_str(), 10);
    out.append(" | ");
    push_padded(out, name_field.as_str(), 30);
    out.append(" | (");
    push_decimal(out, symbol.end_line - symbol.line + 1);
    out.append(" lines)\n");
    assert(line_field@ =~= decimal(symbol@.line));
    assert(name_field@ =~= display_name(symbol@));
    assert(out@ =~= old(out)@ + symbol_line(symbol@));
}

/// Renders the fragment of the file at `path`: a heading with the path, the
/// imports on one line where there are any, and the symbols in a code fence
/// tagged `lang_tag`, one line each in their order. A file with neither
/// symbols nor imports has an empty fragment.
pub fn render_file(path: &str, symbols: &Vec<Symbol>, imports: &Vec<String>, lang_tag: &str) -> (out:
    String)
    requires
        all_wf(symbols_view(symbols@)),
    ensures
        out@ == rendered(path@, symbols_view(symbols@), texts(imports@), lang_tag@),
{
    let mut out = String::new();
    if symbols.len() == 0 && imports.len() == 0 {
        return out;
    }
    out.append("\n## ");
    out.append(path);
    out.append("\n");
    let ghost head = out@;
    if imports.len() > 0 {
        out.append("imports: ");
        push_joined(&mut out, imports, ", ");
        out.append("\n");
        assert(out@ =~= head + imports_line(texts(imports@)));
    } else {
        assert(out@ =~= head + imports_line(texts(imports@)));
    }
    let ghost middle = out@;
    let ghost views = symbols_view(symbols@);
    if symbols.len() > 0 {
        out.append("```");
        out.append(lang_tag);
        out.append("\n");
        let ghost opened = out@;
        let mut i: usize = 0;
        while i < symbols.len()
            invariant
                i <= symbols.len(),
                views == symbols_view(symbols@),
                all_wf(views),
                out@ == opened + symbol_lines(views.take(i as int)),
            decreases symbols.len() - i,
        {
            proof {
                let next = views.take(i + 1);
                assert(next.drop_last() == views.take(i as int));
                assert(next.last() == symbols@[i as int]@);
                assert(views[i as int].wf());
            }
            push_symbol_line(&mut out, &symbols[i]);
            i += 1;
        }
        proof {
            assert(views.take(symbols@.len() as int) == views);
        }
        out.append("```\n");
        assert(out@ =~= middle + symbol_table(views, lang_tag@));
    } else {
        assert(out@ =~= middle + symbol_table(views, lang_tag@));
    }
    out
}

} // verus!
