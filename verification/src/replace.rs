//! Replacing the body of a symbol, or a range of lines, in a parsed file.

use vstd::prelude::*;
use vstd::slice::slice_subrange;

use crate::body::{Body, BodyStyle};
use crate::format::{brace_body_text, format_brace_body, format_indented_body, indented_body_text};
use crate::lines::Line;
use crate::matching::{name_matches, symbol_name_matches};
use crate::parsed::{body_is_sound, ParsedFile};
use crate::symbols::{symbols_view, FileSymbol, Symbol};
use crate::text::{ensure_trailing_newline, with_trailing_newline};

verus! {

/// Why a replacement was not made.
#[derive(Clone, Copy, Debug, PartialEq, Eq, Structural)]
pub enum EditError {
    /// The first line of the range comes after the last.
    LineRangeReversed,
    /// The first line of the range is not a line of the file.
    StartLineOutside,
    /// The last line of the range is not a line of the file.
    EndLineOutside,
    /// No symbol of the file has a name that holds the one asked for.
    SymbolNotFound,
    /// The occurrence asked for is 0 or more than the number of symbols
    /// whose name holds the one asked for.
    OccurrenceOutOfBounds { requested: usize, available: usize },
    /// The names of several symbols hold the one asked for, and no
    /// occurrence was asked for.
    AmbiguousSymbol,
    /// The symbol at `index` among the symbols of the file has no body that
    /// could be replaced.
    NoBody { index: usize },
}

/// What was replaced.
#[derive(Clone, Copy, Debug, PartialEq, Eq, Structural)]
pub enum ReplaceMode {
    /// The lines from `start_line` to `end_line`, counted from 1.
    LineRange { start_line: usize, end_line: usize },
    /// The body of the symbol at `index` among the symbols of the file, which
    /// is the `occurrence`-th, counted from 1, of those whose name holds the
    /// one asked for.
    SymbolBody { index: usize, occurrence: usize },
}

/// A replacement that was made.
pub struct BodyReplaced {
    /// The content of the file after the replacement.
    pub content: Vec<u8>,
    pub mode: ReplaceMode,
}

/// `content` with the bytes from `from` up to `to` replaced by
/// `replacement`.
pub open spec fn splice(content: Seq<u8>, from: int, to: int, replacement: Seq<u8>) -> Seq<u8> {
    content.take(from) + replacement + content.skip(to)
}

/// Replaces the bytes of `content` from `from` up to `to` by `replacement`.
pub fn splice_bytes(content: &[u8], from: usize, to: usize, replacement: &[u8]) -> (r: Vec<u8>)
    requires
        from <= to <= content@.len(),
    ensures
        r@ == splice(content@, from as int, to as int, replacement@),
{
    let mut out: Vec<u8> = Vec::new();
    out.extend_from_slice(slice_subrange(content, 0, from));
    out.extend_from_slice(replacement);
    out.extend_from_slice(slice_subrange(content, to, content.len()));
    proof {
        assert(content@.subrange(0, from as int) =~= content@.take(from as int));
        assert(content@.subrange(to as int, content@.len() as int) =~= content@.skip(to as int));
        assert(out@ =~= splice(content@, from as int, to as int, replacement@));
    }
    out
}

/// What replacing the lines from `start_line` to `end_line`, counted from 1,
/// by `new_body` gives: the content with those lines, line feeds included,
/// replaced by `new_body` and a line feed at its end. The range must not be
/// reversed, and both its ends must be lines of the file.
pub open spec fn line_range_result(
    content: Seq<u8>,
    lines: Seq<Line>,
    new_body: Seq<u8>,
    start_line: usize,
    end_line: usize,
) -> Result<Seq<u8>, EditError> {
    if start_line > end_line {
        Err(EditError::LineRangeReversed)
    } else if start_line < 1 || start_line > lines.len() {
        Err(EditError::StartLineOutside)
    } else if end_line > lines.len() {
        Err(EditError::EndLineOutside)
    } else {
        Ok(
            splice(
                content,
                lines[start_line - 1].start,
                lines[end_line - 1].end,
                with_trailing_newline(new_body),
            ),
        )
    }
}

/// The places, among `symbols`, of those whose name holds `name`, in order.
/// Unless `case_sensitive`, names are compared in lower case.
pub open spec fn candidates(symbols: Seq<Symbol>, name: Seq<u8>, case_sensitive: bool) -> Seq<
    usize,
>
    decreases symbols.len(),
{
    if symbols.len() == 0 {
        Seq::empty()
    } else {
        let rest = candidates(symbols.drop_last(), name, case_sensitive);
        if name_matches(symbols.last().name, name, true, case_sensitive) {
            rest.push((symbols.len() - 1) as usize)
        } else {
            rest
        }
    }
}

/// Which of `count` candidates is meant: the `occurrence`-th, counted from
/// 1, when one is asked for, and else the only one.
pub open spec fn chosen_candidate(count: nat, occurrence: Option<usize>) -> Result<int, EditError> {
    if count == 0 {
        Err(EditError::SymbolNotFound)
    } else {
        match occurrence {
            Some(n) => if n == 0 || n > count {
                Err(EditError::OccurrenceOutOfBounds { requested: n, available: count as usize })
            } else {
                Ok(n - 1)
            },
            None => if count > 1 {
                Err(EditError::AmbiguousSymbol)
            } else {
                Ok(0)
            },
        }
    }
}

/// The content with `body` replaced by `new_body`, laid out to fit; `None`
/// where there is no body.
pub open spec fn body_replaced(content: Seq<u8>, body: Body, new_body: Seq<u8>) -> Option<Seq<u8>> {
    match body {
        Body::Braces { start, end, base_indent, inner_indent } => Some(
            splice(
                content,
                start,
                end,
                brace_body_text(with_trailing_newline(new_body), base_indent, inner_indent),
            ),
        ),
        Body::Indented { start, end, base_indent, indent_unit } => Some(
            splice(
                content,
                start,
                end + 1,
                indented_body_text(with_trailing_newline(new_body), base_indent, indent_unit),
            ),
        ),
        Body::Absent => None,
    }
}

/// What replacing the body of the symbol whose name holds `name` by
/// `new_body` gives.
pub open spec fn symbol_body_result(
    content: Seq<u8>,
    symbols: Seq<Symbol>,
    name: Seq<u8>,
    new_body: Seq<u8>,
    occurrence: Option<usize>,
    case_sensitive: bool,
) -> Result<(Seq<u8>, ReplaceMode), EditError> {
    let found = candidates(symbols, name, case_sensitive);
    match chosen_candidate(found.len(), occurrence) {
        Ok(which) => match body_replaced(content, symbols[found[which] as int].body, new_body) {
            Some(replaced) => Ok(
                (
                    replaced,
                    ReplaceMode::SymbolBody { index: found[which], occurrence: (which + 1) as usize },
                ),
            ),
            None => Err(EditError::NoBody { index: found[which] }),
        },
        Err(e) => Err(e),
    }
}

/// What a replacement gives: that of a range of lines when both
/// `start_line` and `end_line` are given, and that of the body of a symbol
/// otherwise.
pub open spec fn replace_result(
    content: Seq<u8>,
    lines: Seq<Line>,
    symbols: Seq<Symbol>,
    name: Seq<u8>,
    new_body: Seq<u8>,
    occurrence: Option<usize>,
    case_sensitive: bool,
    start_line: Option<usize>,
    end_line: Option<usize>,
) -> Result<(Seq<u8>, ReplaceMode), EditError> {
    match (start_line, end_line) {
        (Some(first), Some(last)) => match line_range_result(content, lines, new_body, first, last) {
            Ok(replaced) => Ok(
                (replaced, ReplaceMode::LineRange { start_line: first, end_line: last }),
            ),
            Err(e) => Err(e),
        },
        _ => symbol_body_result(content, symbols, name, new_body, occurrence, case_sensitive),
    }
}

/// Finds the places, among `symbols`, of those whose name holds `name`.
pub fn find_candidates(symbols: &Vec<FileSymbol>, name: &[u8], case_sensitive: bool) -> (r: Vec<
    usize,
>)
    ensures
        r@ == candidates(symbols_view(symbols@), name@, case_sensitive),
        forall|i: int| 0 <= i < r@.len() ==> (#[trigger] r@[i]) < symbols@.len(),
{
    let ghost all = symbols_view(symbols@);
    let mut found: Vec<usize> = Vec::new();
    let mut i: usize = 0;
    proof {
        assert(all.take(0) =~= Seq::<Symbol>::empty());
    }
    while i < symbols.len()
        invariant
            i <= symbols@.len(),
            all == symbols_view(symbols@),
            found@ == candidates(all.take(i as int), name@, case_sensitive),
            forall|k: int| 0 <= k < found@.len() ==> (#[trigger] found@[k]) < symbols@.len(),
        decreases symbols.len() - i,
    {
        proof {
            assert(all.take(i + 1).drop_last() =~= all.take(i as int));
            assert(all.take(i + 1).last() == symbols@[i as int]@);
        }
        if symbol_name_matches(symbols[i].name.as_slice(), name, true, case_sensitive) {
            found.push(i);
        }
        i += 1;
    }
    proof {
        assert(all.take(symbols@.len() as int) =~= all);
    }
    found
}

/// Replaces, in a parsed file, the body of the symbol whose name holds
/// `symbol` by `new_body`; or, when both `start_line` and `end_line` are
/// given, the lines of that range. The file itself is left as it is: the new
/// content is handed back.
pub fn replace_symbol_body(
    parsed: &ParsedFile,
    symbol: &[u8],
    new_body: &[u8],
    occurrence: Option<usize>,
    case_sensitive: bool,
    start_line: Option<usize>,
    end_line: Option<usize>,
) -> (r: Result<BodyReplaced, EditError>)
    requires
        parsed.wf(),
    ensures
        match r {
            Ok(done) => replace_result(
                parsed.content@,
                parsed.lines@,
                parsed.symbols(),
                symbol@,
                new_body@,
                occurrence,
                case_sensitive,
                start_line,
                end_line,
            ) == Ok::<(Seq<u8>, ReplaceMode), EditError>((done.content@, done.mode)),
            Err(e) => replace_result(
                parsed.content@,
                parsed.lines@,
                parsed.symbols(),
                symbol@,
                new_body@,
                occurrence,
                case_sensitive,
                start_line,
                end_line,
            ) == Err::<(Seq<u8>, ReplaceMode), EditError>(e),
        },
{
    let content = parsed.content.as_slice();
    let replacement = ensure_trailing_newline(new_body);
    match (start_line, end_line) {
        (Some(first), Some(last)) => {
            if first > last {
                return Err(EditError::LineRangeReversed);
            }
            if first < 1 || first > parsed.lines.len() {
                return Err(EditError::StartLineOutside);
            }
            if last > parsed.lines.len() {
                return Err(EditError::EndLineOutside);
            }
            let from: usize = parsed.lines.bounds(first - 1).0;
            let to: usize = parsed.lines.bounds(last - 1).1;
            proof {
                let a = first - 1;
                let b = last - 1;
                assert(crate::lines::is_line_of(parsed.content@, parsed.lines.records@[b]@));
                assert(parsed.lines.records@[a].start < parsed.lines.records@[a].end);
                if a < b {
                    parsed.lines.lemma_starts_increase(a, b);
                }
            }
            let new_content = splice_bytes(content, from, to, replacement.as_slice());
            return Ok(
                BodyReplaced {
                    content: new_content,
                    mode: ReplaceMode::LineRange { start_line: first, end_line: last },
                },
            );
        },
        _ => {},
    }
    let found = find_candidates(&parsed.symbols, symbol, case_sensitive);
    if found.len() == 0 {
        return Err(EditError::SymbolNotFound);
    }
    let which: usize = match occurrence {
        Some(n) => {
            if n == 0 || n > found.len() {
                return Err(
                    EditError::OccurrenceOutOfBounds { requested: n, available: found.len() },
                );
            }
            n - 1
        },
        None => {
            if found.len() > 1 {
                return Err(EditError::AmbiguousSymbol);
            }
            0
        },
    };
    let index: usize = found[which];
    let target = &parsed.symbols[index];
    proof {
        parsed.lemma_symbols();
        assert(parsed.symbols()[index as int] == target@);
        assert(body_is_sound(target@.body, parsed.content@, parsed.lines@));
    }
    let new_content = match &target.body {
        BodyStyle::Braces { start, end, base_indent, inner_indent } => {
            let formatted = format_brace_body(
                replacement.as_slice(),
                base_indent.as_slice(),
                inner_indent.as_slice(),
            );
            splice_bytes(content, *start, *end, formatted.as_slice())
        },
        BodyStyle::Indented { start, end, base_indent, indent_unit } => {
            let formatted = format_indented_body(
                replacement.as_slice(),
                base_indent.as_slice(),
                indent_unit.as_slice(),
            );
            splice_bytes(content, *start, *end + 1, formatted.as_slice())
        },
        BodyStyle::Absent => {
            return Err(EditError::NoBody { index });
        },
    };
    Ok(
        BodyReplaced {
            content: new_content,
            mode: ReplaceMode::SymbolBody { index, occurrence: which + 1 },
        },
    )
}

} // verus!
