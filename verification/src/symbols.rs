//! Symbols: the declarations found in a file, each with the place where it
//! stands and the extent of its body.

use vstd::prelude::*;
use vstd::slice::{slice_subrange, slice_to_vec};

use crate::body::{Body, BodyStyle};
use crate::braces::{brace_body, locate_brace_body};
use crate::indented::{indented_body, locate_python_body};
use crate::lines::{lemma_line_at_bounds, line_at, FileLines, Line};
use crate::pattern::{group_within, Pattern};
use crate::text::{indent_of, indent_width, leading_whitespace, trim_end, trim_end_of};

verus! {

/// What a symbol declares.
#[derive(Clone, Copy, Debug, PartialEq, Eq, Structural)]
pub enum SymbolKind {
    Function,
    Class,
    Struct,
    Enum,
    Trait,
    Impl,
    Method,
    Type,
}

impl SymbolKind {
    /// The label of the kind as a mathematical value.
    pub open spec fn label(self) -> Seq<char> {
        match self {
            SymbolKind::Function => "function"@,
            SymbolKind::Class => "class"@,
            SymbolKind::Struct => "struct"@,
            SymbolKind::Enum => "enum"@,
            SymbolKind::Trait => "trait"@,
            SymbolKind::Impl => "impl"@,
            SymbolKind::Method => "method"@,
            SymbolKind::Type => "type"@,
        }
    }

    /// The label of the kind, in lower case.
    pub fn as_str(&self) -> (r: &'static str)
        ensures
            r@ == self.label(),
    {
        match self {
            SymbolKind::Function => "function",
            SymbolKind::Class => "class",
            SymbolKind::Struct => "struct",
            SymbolKind::Enum => "enum",
            SymbolKind::Trait => "trait",
            SymbolKind::Impl => "impl",
            SymbolKind::Method => "method",
            SymbolKind::Type => "type",
        }
    }
}

/// A symbol as a mathematical value.
pub struct Symbol {
    pub name: Seq<u8>,
    pub kind: SymbolKind,
    pub signature: Seq<u8>,
    pub line: int,
    pub column: int,
    pub body: Body,
}

/// One declaration found in a file.
pub struct FileSymbol {
    /// The identifier declared.
    pub name: Vec<u8>,
    pub kind: SymbolKind,
    /// The text of the line on which the match begins, without the white
    /// space at its end.
    pub signature: Vec<u8>,
    /// The line on which the match begins, counted from 1.
    pub line: usize,
    /// One more than the width of the indentation matched.
    pub column: usize,
    pub body: BodyStyle,
}

impl View for FileSymbol {
    type V = Symbol;

    open spec fn view(&self) -> Symbol {
        Symbol {
            name: self.name@,
            kind: self.kind,
            signature: self.signature@,
            line: self.line as int,
            column: self.column as int,
            body: self.body@,
        }
    }
}

/// The symbols that a vector holds.
pub open spec fn symbols_view(v: Seq<FileSymbol>) -> Seq<Symbol> {
    v.map_values(|s: FileSymbol| s@)
}

/// One match of a declaration pattern: the span of the whole match, of the
/// indentation and of the name.
pub type Capture = (Option<(usize, usize)>, Option<(usize, usize)>, Option<(usize, usize)>);

/// Every span of `capture` lies within a text of `len` bytes.
pub open spec fn capture_within(capture: Capture, len: nat) -> bool {
    &&& group_within(capture.0, len)
    &&& group_within(capture.1, len)
    &&& group_within(capture.2, len)
}

/// Where the declaration of a match begins: where the indentation that the
/// pattern matched ends, or, where it matched none, where the match begins.
pub open spec fn declaration_offset(whole: (usize, usize), indent: Option<(usize, usize)>) -> int {
    match indent {
        Some(span) => span.1 as int,
        None => whole.0 as int,
    }
}

/// The symbol that one match of a declaration pattern stands for. The match
/// must have a name, and the file a line. The symbol stands on the line on
/// which its declaration begins; its column is that of the first byte of
/// the line that is no blank and no tab; its signature is that line.
pub open spec fn symbol_of_capture(
    content: Seq<u8>,
    lines: Seq<Line>,
    capture: Capture,
    kind: SymbolKind,
    by_indentation: bool,
) -> Option<Symbol> {
    match (capture.0, capture.2) {
        (Some(whole), Some(name)) => if lines.len() == 0 {
            None
        } else {
            let line = line_at(lines, declaration_offset(whole, capture.1));
            let text = lines[line].text;
            let indent = indent_of(text);
            Some(
                Symbol {
                    name: content.subrange(name.0 as int, name.1 as int),
                    kind,
                    signature: trim_end_of(text),
                    line: line + 1,
                    column: indent.len() as int + 1,
                    body: if by_indentation {
                        indented_body(lines, line, indent)
                    } else {
                        brace_body(content, lines[line].end, indent)
                    },
                },
            )
        },
        _ => None,
    }
}

/// The symbols that the matches of one declaration pattern stand for, in
/// the order of the matches.
pub open spec fn symbols_of_captures(
    content: Seq<u8>,
    lines: Seq<Line>,
    captures: Seq<Capture>,
    kind: SymbolKind,
    by_indentation: bool,
) -> Seq<Symbol>
    decreases captures.len(),
{
    if captures.len() == 0 {
        Seq::empty()
    } else {
        let rest = symbols_of_captures(content, lines, captures.drop_last(), kind, by_indentation);
        match symbol_of_capture(content, lines, captures.last(), kind, by_indentation) {
            Some(symbol) => rest.push(symbol),
            None => rest,
        }
    }
}

/// A symbol stands on a line of the file; its column, counted from 1, is
/// that of the first byte of the line that is no blank and no tab; and its
/// signature is the text of that line without the white space at its end.
pub open spec fn symbol_is_placed(symbol: Symbol, lines: Seq<Line>) -> bool {
    &&& 1 <= symbol.line <= lines.len()
    &&& symbol.column >= 1
    &&& symbol.column == indent_width(lines[symbol.line - 1].text) + 1
    &&& symbol.signature == trim_end_of(lines[symbol.line - 1].text)
}

/// Every symbol made from a match is placed within the file.
pub proof fn lemma_captured_symbols_are_placed(
    content: Seq<u8>,
    lines: Seq<Line>,
    captures: Seq<Capture>,
    kind: SymbolKind,
    by_indentation: bool,
)
    ensures
        forall|i: int|
            0 <= i < symbols_of_captures(content, lines, captures, kind, by_indentation).len()
                ==> symbol_is_placed(
                #[trigger] symbols_of_captures(content, lines, captures, kind, by_indentation)[i],
                lines,
            ),
    decreases captures.len(),
{
    if captures.len() > 0 {
        lemma_captured_symbols_are_placed(
            content,
            lines,
            captures.drop_last(),
            kind,
            by_indentation,
        );
        let all = symbols_of_captures(content, lines, captures, kind, by_indentation);
        let rest = symbols_of_captures(content, lines, captures.drop_last(), kind, by_indentation);
        assert forall|i: int| 0 <= i < all.len() implies symbol_is_placed(#[trigger] all[i], lines) by {
            match symbol_of_capture(content, lines, captures.last(), kind, by_indentation) {
                Some(symbol) => {
                    if i < rest.len() {
                        assert(all[i] == rest[i]);
                    } else {
                        assert(all[i] == symbol);
                        let whole = captures.last().0.unwrap();
                        lemma_line_at_bounds(
                            lines,
                            declaration_offset(whole, captures.last().1),
                        );
                        crate::text::lemma_indent_width_bounds(
                            lines[line_at(lines, declaration_offset(whole, captures.last().1))].text,
                        );
                    }
                },
                None => {
                    assert(all[i] == rest[i]);
                },
            }
        }
    }
}

/// Makes the symbol that one match of a declaration pattern stands for.
pub fn build_symbol(
    content: &[u8],
    lines: &FileLines,
    capture: Capture,
    kind: SymbolKind,
    by_indentation: bool,
) -> (r: Option<FileSymbol>)
    requires
        lines.describes(content@),
        content@.len() < usize::MAX,
        capture_within(capture, content@.len()),
    ensures
        match r {
            Some(symbol) => symbol_of_capture(content@, lines@, capture, kind, by_indentation)
                == Some(symbol@),
            None => symbol_of_capture(content@, lines@, capture, kind, by_indentation) is None,
        },
{
    let whole = match capture.0 {
        Some(span) => span,
        None => { return None; },
    };
    let name = match capture.2 {
        Some(span) => span,
        None => { return None; },
    };
    if lines.len() == 0 {
        return None;
    }
    let offset: usize = match capture.1 {
        Some(span) => span.1,
        None => whole.0,
    };
    let line_idx: usize = lines.line_index(offset);
    let text = lines.text(line_idx);
    let signature = slice_to_vec(trim_end(text));
    let indent: &[u8] = leading_whitespace(text);
    proof {
        crate::text::lemma_indent_width_bounds(text@);
        assert(lines.records@[line_idx as int]@ == lines@[line_idx as int]);
        assert(crate::lines::is_line_of(content@, lines@[line_idx as int]));
    }
    let column: usize = indent.len() + 1;
    let body = if by_indentation {
        locate_python_body(lines, line_idx, indent)
    } else {
        locate_brace_body(content, lines.bounds(line_idx).1, indent)
    };
    Some(
        FileSymbol {
            name: slice_to_vec(slice_subrange(content, name.0, name.1)),
            kind,
            signature,
            line: line_idx + 1,
            column,
            body,
        },
    )
}

/// Appends to `out` the symbols that the matches of one declaration pattern
/// stand for.
pub fn symbols_from_captures(
    content: &[u8],
    lines: &FileLines,
    captures: &Vec<Capture>,
    kind: SymbolKind,
    by_indentation: bool,
    out: &mut Vec<FileSymbol>,
)
    requires
        lines.describes(content@),
        content@.len() < usize::MAX,
        forall|i: int| 0 <= i < captures@.len() ==> capture_within(#[trigger] captures@[i], content@.len()),
    ensures
        symbols_view(final(out)@) == symbols_view(old(out)@) + symbols_of_captures(
            content@,
            lines@,
            captures@,
            kind,
            by_indentation,
        ),
{
    let mut i: usize = 0;
    proof {
        assert(captures@.take(0) =~= Seq::<Capture>::empty());
        assert(symbols_view(out@) + Seq::<Symbol>::empty() =~= symbols_view(out@));
    }
    while i < captures.len()
        invariant
            i <= captures@.len(),
            lines.describes(content@),
            content@.len() < usize::MAX,
            forall|i: int|
                0 <= i < captures@.len() ==> capture_within(#[trigger] captures@[i], content@.len()),
            symbols_view(out@) == symbols_view(old(out)@) + symbols_of_captures(
                content@,
                lines@,
                captures@.take(i as int),
                kind,
                by_indentation,
            ),
        decreases captures.len() - i,
    {
        let capture: Capture = captures[i];
        let ghost before = out@;
        proof {
            assert(captures@.take(i + 1).drop_last() =~= captures@.take(i as int));
            assert(captures@.take(i + 1).last() == capture);
        }
        match build_symbol(content, lines, capture, kind, by_indentation) {
            Some(symbol) => {
                out.push(symbol);
                proof {
                    assert(symbols_view(out@) =~= symbols_view(before).push(symbol@));
                    assert(symbols_view(out@) =~= symbols_view(old(out)@) + symbols_of_captures(
                        content@,
                        lines@,
                        captures@.take(i + 1),
                        kind,
                        by_indentation,
                    ));
                }
            },
            None => {},
        }
        i += 1;
    }
    proof {
        assert(captures@.take(captures@.len() as int) =~= captures@);
    }
}

/// `sorted` with `x` put before the first symbol that stands on the same
/// line or a later one.
pub open spec fn insert_by_line(sorted: Seq<Symbol>, x: Symbol) -> Seq<Symbol>
    decreases sorted.len(),
{
    if sorted.len() == 0 || x.line <= sorted[0].line {
        seq![x] + sorted
    } else {
        seq![sorted[0]] + insert_by_line(sorted.drop_first(), x)
    }
}

/// `s` in the order of the lines, symbols of one line keeping the order in
/// which they stand in `s`.
pub open spec fn sort_by_line(s: Seq<Symbol>) -> Seq<Symbol>
    decreases s.len(),
{
    if s.len() == 0 {
        Seq::empty()
    } else {
        insert_by_line(sort_by_line(s.drop_first()), s[0])
    }
}

/// The symbols stand in the order of their lines.
pub open spec fn ordered_by_line(s: Seq<Symbol>) -> bool {
    forall|i: int, j: int| 0 <= i < j < s.len() ==> (#[trigger] s[i]).line <= (#[trigger] s[j]).line
}

proof fn lemma_insert_position(sorted: Seq<Symbol>, x: Symbol, p: int)
    requires
        0 <= p <= sorted.len(),
        forall|j: int| 0 <= j < p ==> (#[trigger] sorted[j]).line < x.line,
        p < sorted.len() ==> x.line <= sorted[p].line,
    ensures
        insert_by_line(sorted, x) == sorted.insert(p, x),
    decreases p,
{
    if p == 0 {
        assert(seq![x] + sorted =~= sorted.insert(0, x));
    } else {
        let rest = sorted.drop_first();
        assert forall|j: int| 0 <= j < p - 1 implies (#[trigger] rest[j]).line < x.line by {
            assert(rest[j] == sorted[j + 1]);
        }
        if p - 1 < rest.len() {
            assert(rest[p - 1] == sorted[p]);
        }
        lemma_insert_position(rest, x, p - 1);
        assert(sorted[0].line < x.line);
        assert(seq![sorted[0]] + rest.insert(p - 1, x) =~= sorted.insert(p, x));
    }
}

proof fn lemma_insert_keeps(sorted: Seq<Symbol>, x: Symbol, holds: spec_fn(Symbol) -> bool)
    requires
        forall|i: int| 0 <= i < sorted.len() ==> holds(#[trigger] sorted[i]),
        holds(x),
    ensures
        insert_by_line(sorted, x).len() == sorted.len() + 1,
        forall|i: int|
            0 <= i < insert_by_line(sorted, x).len() ==> holds(#[trigger] insert_by_line(sorted, x)[i]),
    decreases sorted.len(),
{
    if sorted.len() == 0 || x.line <= sorted[0].line {
    } else {
        let rest = sorted.drop_first();
        assert forall|i: int| 0 <= i < rest.len() implies holds(#[trigger] rest[i]) by {
            assert(rest[i] == sorted[i + 1]);
        }
        lemma_insert_keeps(rest, x, holds);
    }
}

/// Sorting keeps the number of symbols, and whatever holds of each.
pub proof fn lemma_sort_keeps(s: Seq<Symbol>, holds: spec_fn(Symbol) -> bool)
    requires
        forall|i: int| 0 <= i < s.len() ==> holds(#[trigger] s[i]),
    ensures
        sort_by_line(s).len() == s.len(),
        forall|i: int| 0 <= i < sort_by_line(s).len() ==> holds(#[trigger] sort_by_line(s)[i]),
    decreases s.len(),
{
    if s.len() > 0 {
        let rest = s.drop_first();
        assert forall|i: int| 0 <= i < rest.len() implies holds(#[trigger] rest[i]) by {
            assert(rest[i] == s[i + 1]);
        }
        lemma_sort_keeps(rest, holds);
        lemma_insert_keeps(sort_by_line(rest), s[0], holds);
    }
}

proof fn lemma_insert_ordered(sorted: Seq<Symbol>, x: Symbol)
    requires
        ordered_by_line(sorted),
    ensures
        ordered_by_line(insert_by_line(sorted, x)),
        forall|i: int|
            0 <= i < insert_by_line(sorted, x).len() ==> (#[trigger] insert_by_line(sorted, x)[i])
                == x || (sorted.len() > 0 && sorted[0].line <= insert_by_line(sorted, x)[i].line),
    decreases sorted.len(),
{
    let r = insert_by_line(sorted, x);
    if sorted.len() == 0 || x.line <= sorted[0].line {
        assert forall|i: int, j: int| 0 <= i < j < r.len() implies (#[trigger] r[i]).line <= (
        #[trigger] r[j]).line by {
            if i > 0 {
                assert(r[i] == sorted[i - 1]);
            }
            assert(r[j] == sorted[j - 1]);
            if i == 0 && j - 1 > 0 {
                assert(sorted[0].line <= sorted[j - 1].line);
            }
        }
        assert forall|i: int| 0 <= i < r.len() implies (#[trigger] r[i]) == x || (sorted.len() > 0
            && sorted[0].line <= r[i].line) by {
            if i > 0 {
                assert(r[i] == sorted[i - 1]);
                if i - 1 > 0 {
                    assert(sorted[0].line <= sorted[i - 1].line);
                }
            }
        }
    } else {
        let rest = sorted.drop_first();
        assert(ordered_by_line(rest)) by {
            assert forall|i: int, j: int| 0 <= i < j < rest.len() implies (#[trigger] rest[i]).line
                <= (#[trigger] rest[j]).line by {
                assert(rest[i] == sorted[i + 1]);
                assert(rest[j] == sorted[j + 1]);
            }
        }
        lemma_insert_ordered(rest, x);
        let tail = insert_by_line(rest, x);
        assert forall|i: int| 0 <= i < tail.len() implies sorted[0].line <= (#[trigger] tail[i]).line by {
            if tail[i] != x {
                assert(rest[0] == sorted[1]);
                assert(sorted[0].line <= sorted[1].line);
            }
        }
        assert forall|i: int, j: int| 0 <= i < j < r.len() implies (#[trigger] r[i]).line <= (
        #[trigger] r[j]).line by {
            assert(r[j] == tail[j - 1]);
            if i > 0 {
                assert(r[i] == tail[i - 1]);
            }
        }
        assert forall|i: int| 0 <= i < r.len() implies (#[trigger] r[i]) == x || (sorted.len() > 0
            && sorted[0].line <= r[i].line) by {
            if i > 0 {
                assert(r[i] == tail[i - 1]);
            }
        }
    }
}

/// Sorted symbols stand in the order of their lines.
pub proof fn lemma_sort_ordered(s: Seq<Symbol>)
    ensures
        ordered_by_line(sort_by_line(s)),
    decreases s.len(),
{
    if s.len() > 0 {
        lemma_sort_ordered(s.drop_first());
        lemma_insert_ordered(sort_by_line(s.drop_first()), s[0]);
    }
}

/// Puts `symbols` in the order of their lines; symbols of one line keep the
/// order in which they stand.
pub fn sort_symbols(symbols: Vec<FileSymbol>) -> (r: Vec<FileSymbol>)
    ensures
        symbols_view(r@) == sort_by_line(symbols_view(symbols@)),
        ordered_by_line(symbols_view(r@)),
        r@.len() == symbols@.len(),
{
    let ghost all = symbols_view(symbols@);
    let mut work = symbols;
    let mut out: Vec<FileSymbol> = Vec::new();
    proof {
        assert(all.take(all.len() as int) =~= all);
        assert(all.skip(all.len() as int) =~= Seq::<Symbol>::empty());
        assert(symbols_view(out@) =~= Seq::<Symbol>::empty());
    }
    loop
        invariant
            work@.len() <= all.len(),
            symbols_view(work@) == all.take(work@.len() as int),
            symbols_view(out@) == sort_by_line(all.skip(work@.len() as int)),
        ensures
            symbols_view(out@) == sort_by_line(all),
        decreases work@.len(),
    {
        let ghost k = work@.len() as int;
        let ghost work_before = work@;
        match work.pop() {
            None => {
                proof {
                    assert(all.skip(0) =~= all);
                }
                break ;
            },
            Some(x) => {
                let mut p: usize = 0;
                while p < out.len() && out[p].line < x.line
                    invariant
                        p <= out@.len(),
                        forall|j: int| 0 <= j < p ==> (#[trigger] out@[j]).line < x.line,
                    decreases out.len() - p,
                {
                    p += 1;
                }
                let ghost out_before = out@;
                proof {
                    let sorted = symbols_view(out_before);
                    assert forall|j: int| 0 <= j < p implies (#[trigger] sorted[j]).line < x@.line by {
                        assert(sorted[j] == out_before[j]@);
                    }
                    lemma_insert_position(sorted, x@, p as int);
                    assert(symbols_view(work_before)[k - 1] == work_before[k - 1]@);
                    assert(x@ == all[k - 1]);
                    assert(all.skip(k - 1)[0] == all[k - 1]);
                    assert(all.skip(k - 1).drop_first() =~= all.skip(k));
                }
                out.insert(p, x);
                proof {
                    assert(symbols_view(out@) =~= symbols_view(out_before).insert(p as int, x@));
                    assert(symbols_view(work@) =~= all.take(k - 1));
                }
            },
        }
    }
    proof {
        lemma_sort_ordered(all);
        lemma_sort_keeps(all, |s: Symbol| true);
    }
    out
}

} // verus!
