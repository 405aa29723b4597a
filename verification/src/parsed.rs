//! A parsed file: its content, its line index and its symbols.

use vstd::prelude::*;

use crate::body::Body;
use crate::braces::{brace_body, is_brace_block, lemma_brace_block};
use crate::extract::{
    extract_symbols, file_symbols, pattern_table, python_symbols_unsorted, table_symbols,
    SymbolPatterns, INDENT_GROUP, NAME_GROUP, PY_CLASS, PY_DEF,
};
use crate::indented::{
    indented_body, indented_body_lines, is_body_line, lemma_first_nonblank_line,
    lemma_indented_body_is_deeper, lemma_last_body_line,
};
use crate::language::{extension_of, language_of_extension, Language};
use crate::lines::{is_line_of, lemma_line_at_bounds, line_at, FileLines, Line};
use crate::pattern::pattern_captures;
use crate::symbols::{
    declaration_offset, lemma_sort_keeps, ordered_by_line, sort_by_line, symbol_is_placed,
    symbol_of_capture, symbols_of_captures, symbols_view, Capture, FileSymbol, Symbol,
    SymbolKind,
};

verus! {

/// Files larger than this are not parsed.
pub const MAX_SOURCE_BYTES: u64 = 2 * 1024 * 1024;

/// The language in which a file at `path` of `size` bytes is parsed: that of
/// its extension, unless the file is larger than the limit.
pub open spec fn source_language(path: Seq<u8>, size: u64) -> Option<Language> {
    match extension_of(path) {
        Some(ext) => if size > MAX_SOURCE_BYTES {
            None
        } else {
            language_of_extension(ext)
        },
        None => None,
    }
}

/// Tells whether the file at `path`, of `size` bytes, is to be parsed, and
/// in which language.
pub fn language_to_parse(path: &[u8], size: u64) -> (r: Option<Language>)
    ensures
        r == source_language(path@, size),
{
    match Language::from_path(path) {
        Some(language) => if size > MAX_SOURCE_BYTES {
            None
        } else {
            Some(language)
        },
        None => None,
    }
}

/// The extent of a body is what it claims to be. In braces: an opening
/// brace stands just before it, a closing brace at its end, and the braces
/// between them balance. Set off by indentation: it lies in the content,
/// and every line within it is blank or indented more deeply than the
/// declaration.
pub open spec fn body_is_sound(body: Body, content: Seq<u8>, lines: Seq<Line>) -> bool {
    match body {
        Body::Braces { start, end, .. } => is_brace_block(content, start, end),
        Body::Indented { start, end, base_indent, .. } => {
            &&& 0 <= start <= end < content.len()
            &&& forall|k: int|
                0 <= k < lines.len() && start <= (#[trigger] lines[k]).start && lines[k].end - 1
                    <= end ==> is_body_line(lines[k].text, base_indent.len())
        },
        Body::Absent => true,
    }
}

proof fn lemma_indented_body_is_sound(
    lines: FileLines,
    content: Seq<u8>,
    def_line: int,
    base_indent: Seq<u8>,
)
    requires
        lines.describes(content),
        0 <= def_line,
    ensures
        body_is_sound(indented_body(lines@, def_line, base_indent), content, lines@),
{
    lemma_indented_body_is_deeper(lines, def_line, base_indent);
    match indented_body_lines(lines@, def_line, base_indent.len()) {
        Some((first, last)) => {
            lemma_first_nonblank_line(lines@, def_line + 1);
            lemma_last_body_line(lines@, first, base_indent.len());
            assert(is_line_of(content, lines.records@[last]@));
        },
        None => {},
    }
}

proof fn lemma_captured_bodies_are_sound(
    content: Seq<u8>,
    lines: FileLines,
    captures: Seq<Capture>,
    kind: SymbolKind,
    by_indentation: bool,
)
    requires
        lines.describes(content),
    ensures
        forall|i: int|
            0 <= i < symbols_of_captures(content, lines@, captures, kind, by_indentation).len()
                ==> body_is_sound(
                (#[trigger] symbols_of_captures(
                    content,
                    lines@,
                    captures,
                    kind,
                    by_indentation,
                )[i]).body,
                content,
                lines@,
            ),
    decreases captures.len(),
{
    if captures.len() > 0 {
        lemma_captured_bodies_are_sound(
            content,
            lines,
            captures.drop_last(),
            kind,
            by_indentation,
        );
        let all = symbols_of_captures(content, lines@, captures, kind, by_indentation);
        let rest = symbols_of_captures(content, lines@, captures.drop_last(), kind, by_indentation);
        assert forall|i: int| 0 <= i < all.len() implies body_is_sound(
            (#[trigger] all[i]).body,
            content,
            lines@,
        ) by {
            match symbol_of_capture(content, lines@, captures.last(), kind, by_indentation) {
                Some(symbol) => {
                    if i < rest.len() {
                        assert(all[i] == rest[i]);
                    } else {
                        assert(all[i] == symbol);
                        let whole = captures.last().0.unwrap();
                        let offset = declaration_offset(whole, captures.last().1);
                        let line = line_at(lines@, offset);
                        lemma_line_at_bounds(lines@, offset);
                        let indent = crate::text::indent_of(lines@[line].text);
                        if by_indentation {
                            lemma_indented_body_is_sound(lines, content, line, indent);
                        } else {
                            lemma_brace_block(content, lines@[line].end);
                        }
                    }
                },
                None => {
                    assert(all[i] == rest[i]);
                },
            }
        }
    }
}

proof fn lemma_table_bodies_are_sound(
    content: Seq<u8>,
    lines: FileLines,
    table: Seq<(Seq<char>, SymbolKind)>,
)
    requires
        lines.describes(content),
    ensures
        forall|i: int|
            0 <= i < table_symbols(content, lines@, table).len() ==> body_is_sound(
                (#[trigger] table_symbols(content, lines@, table)[i]).body,
                content,
                lines@,
            ),
    decreases table.len(),
{
    if table.len() > 0 {
        lemma_table_bodies_are_sound(content, lines, table.drop_last());
        let captures = pattern_captures(table.last().0, false, content, INDENT_GROUP@, NAME_GROUP@);
        lemma_captured_bodies_are_sound(content, lines, captures, table.last().1, false);
        let all = table_symbols(content, lines@, table);
        let head = table_symbols(content, lines@, table.drop_last());
        let tail = symbols_of_captures(content, lines@, captures, table.last().1, false);
        assert forall|i: int| 0 <= i < all.len() implies body_is_sound(
            (#[trigger] all[i]).body,
            content,
            lines@,
        ) by {
            if i < head.len() {
                assert(all[i] == head[i]);
            } else {
                assert(all[i] == tail[i - head.len()]);
            }
        }
    }
}

/// The body of every symbol of a file is what it claims to be: a block in
/// braces whose braces balance, or lines that are blank or indented more
/// deeply than the declaration.
pub proof fn lemma_file_bodies_are_sound(content: Seq<u8>, lines: FileLines, language: Language)
    requires
        lines.describes(content),
    ensures
        forall|i: int|
            0 <= i < file_symbols(content, lines@, language).len() ==> body_is_sound(
                (#[trigger] file_symbols(content, lines@, language)[i]).body,
                content,
                lines@,
            ),
{
    let sound = |s: Symbol| body_is_sound(s.body, content, lines@);
    if language == Language::Python {
        let defs = pattern_captures(PY_DEF@, false, content, INDENT_GROUP@, NAME_GROUP@);
        let classes = pattern_captures(PY_CLASS@, false, content, INDENT_GROUP@, NAME_GROUP@);
        lemma_captured_bodies_are_sound(content, lines, defs, SymbolKind::Function, true);
        lemma_captured_bodies_are_sound(content, lines, classes, SymbolKind::Class, true);
        let unsorted = python_symbols_unsorted(content, lines@);
        let head = symbols_of_captures(content, lines@, defs, SymbolKind::Function, true);
        let tail = symbols_of_captures(content, lines@, classes, SymbolKind::Class, true);
        assert forall|i: int| 0 <= i < unsorted.len() implies sound(#[trigger] unsorted[i]) by {
            if i < head.len() {
                assert(unsorted[i] == head[i]);
            } else {
                assert(unsorted[i] == tail[i - head.len()]);
            }
        }
        lemma_sort_keeps(unsorted, sound);
    } else {
        let unsorted = table_symbols(content, lines@, pattern_table(language));
        lemma_table_bodies_are_sound(content, lines, pattern_table(language));
        assert forall|i: int| 0 <= i < unsorted.len() implies sound(#[trigger] unsorted[i]) by {}
        lemma_sort_keeps(unsorted, sound);
    }
}

/// A file that has been parsed.
pub struct ParsedFile {
    pub language: Language,
    pub content: Vec<u8>,
    pub lines: FileLines,
    pub symbols: Vec<FileSymbol>,
}

impl ParsedFile {
    /// The line index is that of the content, and the symbols are those of
    /// the content in the language of the file.
    pub open spec fn wf(&self) -> bool {
        &&& self.lines.describes(self.content@)
        &&& symbols_view(self.symbols@) == file_symbols(
            self.content@,
            self.lines@,
            self.language,
        )
    }

    /// The symbols of the file as mathematical values.
    pub open spec fn symbols(&self) -> Seq<Symbol> {
        symbols_view(self.symbols@)
    }

    /// The symbols of a parsed file come in the order of their lines, each
    /// stands on a line of the file, and the body of each is what it claims
    /// to be.
    pub proof fn lemma_symbols(&self)
        requires
            self.wf(),
        ensures
            self.symbols().len() == self.symbols@.len(),
            ordered_by_line(self.symbols()),
            forall|i: int|
                0 <= i < self.symbols@.len() ==> symbol_is_placed(
                    (#[trigger] self.symbols@[i])@,
                    self.lines@,
                ),
            forall|i: int|
                0 <= i < self.symbols@.len() ==> body_is_sound(
                    (#[trigger] self.symbols@[i])@.body,
                    self.content@,
                    self.lines@,
                ),
    {
        crate::extract::lemma_file_symbols_are_placed(self.content@, self.lines@, self.language);
        lemma_file_bodies_are_sound(self.content@, self.lines, self.language);
        assert forall|i: int| 0 <= i < self.symbols@.len() implies symbol_is_placed(
            (#[trigger] self.symbols@[i])@,
            self.lines@,
        ) && body_is_sound(self.symbols@[i]@.body, self.content@, self.lines@) by {
            assert(self.symbols()[i] == self.symbols@[i]@);
        }
    }

    /// Parses `content` as a file in `language`.
    pub fn parse(language: Language, content: Vec<u8>, patterns: &SymbolPatterns) -> (r: ParsedFile)
        requires
            patterns.wf(),
            content@.len() < usize::MAX,
        ensures
            r.wf(),
            r.language == language,
            r.content@ == content@,
    {
        let lines = FileLines::new(content.as_slice());
        let symbols = extract_symbols(content.as_slice(), &lines, language, patterns);
        ParsedFile { language, content, lines, symbols }
    }
}

} // verus!
