//! Symbol extraction: the declaration patterns of each language, and the
//! symbols that they find in a file.

use vstd::prelude::*;

use crate::language::{language_of_extension, Language};
use crate::lines::{FileLines, Line};
use crate::pattern::{pattern_captures, pattern_compiles, InvalidPattern, Pattern};
use crate::symbols::{
    lemma_captured_symbols_are_placed, lemma_sort_keeps, ordered_by_line, sort_by_line,
    sort_symbols, symbol_is_placed, symbols_from_captures, symbols_of_captures, symbols_view,
    Capture, FileSymbol, Symbol, SymbolKind,
};

verus! {

pub const PY_DEF: &'static str =
    r"(?m)^(?P<indent>[ \t]*)(?:async\s+)?def\s+(?P<name>[A-Za-z_][A-Za-z0-9_]*)\s*\(";

pub const PY_CLASS: &'static str = r"(?m)^(?P<indent>[ \t]*)class\s+(?P<name>[A-Za-z_][A-Za-z0-9_]*)";

pub const RUST_FN: &'static str =
    r"(?m)^(?P<indent>[ \t]*)(?:pub(?:\([^)]*\))?\s+)?(?:async\s+)?fn\s+(?P<name>[A-Za-z_][A-Za-z0-9_]*)";

pub const RUST_STRUCT: &'static str =
    r"(?m)^(?P<indent>[ \t]*)(?:pub(?:\([^)]*\))?\s+)?struct\s+(?P<name>[A-Za-z_][A-Za-z0-9_]*)";

pub const RUST_ENUM: &'static str =
    r"(?m)^(?P<indent>[ \t]*)(?:pub(?:\([^)]*\))?\s+)?enum\s+(?P<name>[A-Za-z_][A-Za-z0-9_]*)";

pub const RUST_TRAIT: &'static str =
    r"(?m)^(?P<indent>[ \t]*)(?:pub(?:\([^)]*\))?\s+)?trait\s+(?P<name>[A-Za-z_][A-Za-z0-9_]*)";

pub const RUST_IMPL: &'static str =
    r"(?m)^(?P<indent>[ \t]*)impl(?:<[^>]+>)?\s+(?P<name>[A-Za-z_][A-Za-z0-9_:<>]*)";

pub const JS_FUNCTION: &'static str =
    r"(?m)^(?P<indent>[ \t]*)(?:export\s+)?(?:async\s+)?function\s+(?P<name>[A-Za-z_][A-Za-z0-9_]*)";

pub const JS_CLASS: &'static str =
    r"(?m)^(?P<indent>[ \t]*)(?:export\s+)?class\s+(?P<name>[A-Za-z_][A-Za-z0-9_]*)";

pub const ARROW_FN: &'static str =
    r"(?m)^(?P<indent>[ \t]*)(?:export\s+)?(?:const|let|var)\s+(?P<name>[A-Za-z_][A-Za-z0-9_]*)\s*=\s*(?:async\s+)?\(?[^\n]*=>";

pub const GO_FUNC: &'static str =
    r"(?m)^(?P<indent>[ \t]*)func\s+(?:\([^)]+\)\s*)?(?P<name>[A-Za-z_][A-Za-z0-9_]*)\s*\(";

pub const JAVA_CLASS: &'static str =
    r"(?m)^(?P<indent>[ \t]*)(?:public|protected|private|abstract|final|static|sealed|class|interface|record|enum|[ \t])+[ \t]*(?:class|interface|record|enum)\s+(?P<name>[A-Za-z_][A-Za-z0-9_]*)";

pub const JAVA_METHOD: &'static str =
    r"(?m)^(?P<indent>[ \t]*)(?:public|protected|private|static|final|synchronized|abstract|default|async|override|mutating|class|[ \t])+[A-Za-z0-9_<>,\[\]]+\s+(?P<name>[A-Za-z_][A-Za-z0-9_]*)\s*\(";

pub const GENERIC_FUNC: &'static str =
    r"(?m)^(?P<indent>[ \t]*)(?:pub\s+|export\s+|public\s+|private\s+|protected\s+|static\s+|final\s+|async\s+|fn\s+|function\s+|def\s+)*(?:fn|function)\s+(?P<name>[A-Za-z_][A-Za-z0-9_]*)";

pub const GENERIC_CLASS: &'static str =
    r"(?m)^(?P<indent>[ \t]*)(?:export\s+|public\s+|private\s+|protected\s+|abstract\s+|final\s+)*(?:class|struct|enum|trait)\s+(?P<name>[A-Za-z_][A-Za-z0-9_]*)";

/// The group of a declaration pattern that holds the indentation.
pub const INDENT_GROUP: &'static str = "indent";

/// The group of a declaration pattern that holds the name.
pub const NAME_GROUP: &'static str = "name";

/// The patterns that find declarations in a language whose bodies stand in
/// braces, each with the kind of symbol it finds, in the order in which they
/// are tried.
#[verifier::opaque]
pub open spec fn pattern_table(language: Language) -> Seq<(Seq<char>, SymbolKind)> {
    match language {
        Language::Rust => seq![
            (RUST_FN@, SymbolKind::Function),
            (RUST_STRUCT@, SymbolKind::Struct),
            (RUST_ENUM@, SymbolKind::Enum),
            (RUST_TRAIT@, SymbolKind::Trait),
            (RUST_IMPL@, SymbolKind::Impl),
        ],
        Language::Typescript | Language::Javascript => seq![
            (JS_FUNCTION@, SymbolKind::Function),
            (JS_CLASS@, SymbolKind::Class),
            (ARROW_FN@, SymbolKind::Function),
        ],
        Language::Go => seq![(GO_FUNC@, SymbolKind::Function)],
        Language::Java | Language::Csharp => seq![
            (JAVA_CLASS@, SymbolKind::Class),
            (JAVA_METHOD@, SymbolKind::Method),
        ],
        Language::Generic => seq![
            (GENERIC_FUNC@, SymbolKind::Function),
            (GENERIC_CLASS@, SymbolKind::Type),
        ],
        Language::Python => seq![],
    }
}

/// Every declaration pattern compiles.
pub open spec fn declaration_patterns_compile() -> bool {
    &&& pattern_compiles(PY_DEF@, false)
    &&& pattern_compiles(PY_CLASS@, false)
    &&& pattern_compiles(RUST_FN@, false)
    &&& pattern_compiles(RUST_STRUCT@, false)
    &&& pattern_compiles(RUST_ENUM@, false)
    &&& pattern_compiles(RUST_TRAIT@, false)
    &&& pattern_compiles(RUST_IMPL@, false)
    &&& pattern_compiles(JS_FUNCTION@, false)
    &&& pattern_compiles(JS_CLASS@, false)
    &&& pattern_compiles(ARROW_FN@, false)
    &&& pattern_compiles(GO_FUNC@, false)
    &&& pattern_compiles(JAVA_CLASS@, false)
    &&& pattern_compiles(JAVA_METHOD@, false)
    &&& pattern_compiles(GENERIC_FUNC@, false)
    &&& pattern_compiles(GENERIC_CLASS@, false)
}

/// A compiled declaration pattern with the kind of symbol it finds.
pub struct BracePattern {
    pub pattern: Pattern,
    pub kind: SymbolKind,
}

/// What a list of compiled patterns was compiled from.
pub open spec fn table_view(v: Seq<BracePattern>) -> Seq<(Seq<char>, SymbolKind)> {
    v.map_values(|p: BracePattern| (p.pattern.source(), p.kind))
}

/// Every pattern of the list tells upper from lower case.
pub open spec fn case_sensitive_table(v: Seq<BracePattern>) -> bool {
    forall|i: int| 0 <= i < v.len() ==> !(#[trigger] v[i]).pattern.case_insensitive()
}

/// The declaration patterns of every language, compiled.
pub struct SymbolPatterns {
    pub python_def: Pattern,
    pub python_class: Pattern,
    pub rust: Vec<BracePattern>,
    pub javascript: Vec<BracePattern>,
    pub go: Vec<BracePattern>,
    pub java: Vec<BracePattern>,
    pub generic: Vec<BracePattern>,
    pub python: Vec<BracePattern>,
}

/// Compiles one declaration pattern.
fn brace_pattern(source: &str, kind: SymbolKind) -> (r: Result<BracePattern, InvalidPattern>)
    ensures
        r is Ok <==> pattern_compiles(source@, false),
        r matches Ok(p) ==> p.pattern.source() == source@ && !p.pattern.case_insensitive()
            && p.kind == kind,
{
    match Pattern::new(source, false) {
        Ok(pattern) => Ok(BracePattern { pattern, kind }),
        Err(e) => Err(e),
    }
}

impl SymbolPatterns {
    /// Each list holds the patterns of its language, compiled from the
    /// table, in its order.
    pub open spec fn wf(&self) -> bool {
        &&& self.python_def.source() == PY_DEF@
        &&& !self.python_def.case_insensitive()
        &&& self.python_class.source() == PY_CLASS@
        &&& !self.python_class.case_insensitive()
        &&& table_view(self.rust@) == pattern_table(Language::Rust)
        &&& table_view(self.javascript@) == pattern_table(Language::Javascript)
        &&& table_view(self.go@) == pattern_table(Language::Go)
        &&& table_view(self.java@) == pattern_table(Language::Java)
        &&& table_view(self.generic@) == pattern_table(Language::Generic)
        &&& table_view(self.python@) == pattern_table(Language::Python)
        &&& case_sensitive_table(self.rust@)
        &&& case_sensitive_table(self.javascript@)
        &&& case_sensitive_table(self.go@)
        &&& case_sensitive_table(self.java@)
        &&& case_sensitive_table(self.generic@)
        &&& case_sensitive_table(self.python@)
    }

    /// Compiles the declaration patterns of every language. Fails with the
    /// error of the first pattern that does not compile.
    pub fn new() -> (r: Result<SymbolPatterns, InvalidPattern>)
        ensures
            r is Ok <==> declaration_patterns_compile(),
            r matches Ok(p) ==> p.wf(),
    {
        let python_def = Pattern::new(PY_DEF, false)?;
        let python_class = Pattern::new(PY_CLASS, false)?;
        let mut rust: Vec<BracePattern> = Vec::new();
        rust.push(brace_pattern(RUST_FN, SymbolKind::Function)?);
        rust.push(brace_pattern(RUST_STRUCT, SymbolKind::Struct)?);
        rust.push(brace_pattern(RUST_ENUM, SymbolKind::Enum)?);
        rust.push(brace_pattern(RUST_TRAIT, SymbolKind::Trait)?);
        rust.push(brace_pattern(RUST_IMPL, SymbolKind::Impl)?);
        let mut javascript: Vec<BracePattern> = Vec::new();
        javascript.push(brace_pattern(JS_FUNCTION, SymbolKind::Function)?);
        javascript.push(brace_pattern(JS_CLASS, SymbolKind::Class)?);
        javascript.push(brace_pattern(ARROW_FN, SymbolKind::Function)?);
        let mut go: Vec<BracePattern> = Vec::new();
        go.push(brace_pattern(GO_FUNC, SymbolKind::Function)?);
        let mut java: Vec<BracePattern> = Vec::new();
        java.push(brace_pattern(JAVA_CLASS, SymbolKind::Class)?);
        java.push(brace_pattern(JAVA_METHOD, SymbolKind::Method)?);
        let mut generic: Vec<BracePattern> = Vec::new();
        generic.push(brace_pattern(GENERIC_FUNC, SymbolKind::Function)?);
        generic.push(brace_pattern(GENERIC_CLASS, SymbolKind::Type)?);
        let python: Vec<BracePattern> = Vec::new();
        proof {
            reveal(pattern_table);
            assert(table_view(rust@) =~= pattern_table(Language::Rust));
            assert(table_view(javascript@) =~= pattern_table(Language::Javascript));
            assert(table_view(go@) =~= pattern_table(Language::Go));
            assert(table_view(java@) =~= pattern_table(Language::Java));
            assert(table_view(generic@) =~= pattern_table(Language::Generic));
            assert(table_view(python@) =~= pattern_table(Language::Python));
        }
        Ok(SymbolPatterns { python_def, python_class, rust, javascript, go, java, generic, python })
    }

    /// The compiled patterns of `language`.
    pub fn brace_patterns(&self, language: Language) -> (r: &Vec<BracePattern>)
        requires
            self.wf(),
        ensures
            table_view(r@) == pattern_table(language),
            case_sensitive_table(r@),
    {
        proof {
            reveal(pattern_table);
        }
        match language {
            Language::Rust => &self.rust,
            Language::Typescript | Language::Javascript => &self.javascript,
            Language::Go => &self.go,
            Language::Java | Language::Csharp => &self.java,
            Language::Generic => &self.generic,
            Language::Python => &self.python,
        }
    }
}

/// The symbols that the patterns of `table` find in `content`, pattern after
/// pattern, before they are put in order.
pub open spec fn table_symbols(
    content: Seq<u8>,
    lines: Seq<Line>,
    table: Seq<(Seq<char>, SymbolKind)>,
) -> Seq<Symbol>
    decreases table.len(),
{
    if table.len() == 0 {
        Seq::empty()
    } else {
        table_symbols(content, lines, table.drop_last()) + symbols_of_captures(
            content,
            lines,
            pattern_captures(table.last().0, false, content, INDENT_GROUP@, NAME_GROUP@),
            table.last().1,
            false,
        )
    }
}

/// The symbols of a file whose bodies stand in braces, in the order of
/// their lines.
pub open spec fn brace_symbols(content: Seq<u8>, lines: Seq<Line>, language: Language) -> Seq<
    Symbol,
> {
    sort_by_line(table_symbols(content, lines, pattern_table(language)))
}

/// The symbols of a file whose bodies are set off by indentation, before
/// they are put in order: functions first, then classes.
pub open spec fn python_symbols_unsorted(content: Seq<u8>, lines: Seq<Line>) -> Seq<Symbol> {
    symbols_of_captures(
        content,
        lines,
        pattern_captures(PY_DEF@, false, content, INDENT_GROUP@, NAME_GROUP@),
        SymbolKind::Function,
        true,
    ) + symbols_of_captures(
        content,
        lines,
        pattern_captures(PY_CLASS@, false, content, INDENT_GROUP@, NAME_GROUP@),
        SymbolKind::Class,
        true,
    )
}

/// The symbols of a file whose bodies are set off by indentation, in the
/// order of their lines.
pub open spec fn python_symbols(content: Seq<u8>, lines: Seq<Line>) -> Seq<Symbol> {
    sort_by_line(python_symbols_unsorted(content, lines))
}

/// The symbols of a file in `language`, in the order of their lines.
pub open spec fn file_symbols(content: Seq<u8>, lines: Seq<Line>, language: Language) -> Seq<
    Symbol,
> {
    if language == Language::Python {
        python_symbols(content, lines)
    } else {
        brace_symbols(content, lines, language)
    }
}

proof fn lemma_table_symbols_are_placed(
    content: Seq<u8>,
    lines: Seq<Line>,
    table: Seq<(Seq<char>, SymbolKind)>,
)
    ensures
        forall|i: int|
            0 <= i < table_symbols(content, lines, table).len() ==> symbol_is_placed(
                #[trigger] table_symbols(content, lines, table)[i],
                lines,
            ),
    decreases table.len(),
{
    if table.len() > 0 {
        lemma_table_symbols_are_placed(content, lines, table.drop_last());
        lemma_captured_symbols_are_placed(
            content,
            lines,
            pattern_captures(table.last().0, false, content, INDENT_GROUP@, NAME_GROUP@),
            table.last().1,
            false,
        );
        let all = table_symbols(content, lines, table);
        let head = table_symbols(content, lines, table.drop_last());
        let tail = symbols_of_captures(
            content,
            lines,
            pattern_captures(table.last().0, false, content, INDENT_GROUP@, NAME_GROUP@),
            table.last().1,
            false,
        );
        assert forall|i: int| 0 <= i < all.len() implies symbol_is_placed(#[trigger] all[i], lines) by {
            if i < head.len() {
                assert(all[i] == head[i]);
            } else {
                assert(all[i] == tail[i - head.len()]);
            }
        }
    }
}

/// Every symbol of a file stands on one of its lines, in a column counted
/// from 1, its signature being the text of that line without the white
/// space at its end; and the symbols stand in the order of their lines.
pub proof fn lemma_file_symbols_are_placed(content: Seq<u8>, lines: Seq<Line>, language: Language)
    ensures
        ordered_by_line(file_symbols(content, lines, language)),
        forall|i: int|
            0 <= i < file_symbols(content, lines, language).len() ==> symbol_is_placed(
                #[trigger] file_symbols(content, lines, language)[i],
                lines,
            ),
{
    let placed = |s: Symbol| symbol_is_placed(s, lines);
    if language == Language::Python {
        lemma_captured_symbols_are_placed(
            content,
            lines,
            pattern_captures(PY_DEF@, false, content, INDENT_GROUP@, NAME_GROUP@),
            SymbolKind::Function,
            true,
        );
        lemma_captured_symbols_are_placed(
            content,
            lines,
            pattern_captures(PY_CLASS@, false, content, INDENT_GROUP@, NAME_GROUP@),
            SymbolKind::Class,
            true,
        );
        let unsorted = python_symbols_unsorted(content, lines);
        let head = symbols_of_captures(
            content,
            lines,
            pattern_captures(PY_DEF@, false, content, INDENT_GROUP@, NAME_GROUP@),
            SymbolKind::Function,
            true,
        );
        let tail = symbols_of_captures(
            content,
            lines,
            pattern_captures(PY_CLASS@, false, content, INDENT_GROUP@, NAME_GROUP@),
            SymbolKind::Class,
            true,
        );
        assert forall|i: int| 0 <= i < unsorted.len() implies placed(#[trigger] unsorted[i]) by {
            if i < head.len() {
                assert(unsorted[i] == head[i]);
            } else {
                assert(unsorted[i] == tail[i - head.len()]);
            }
        }
        lemma_sort_keeps(unsorted, placed);
        crate::symbols::lemma_sort_ordered(unsorted);
    } else {
        let unsorted = table_symbols(content, lines, pattern_table(language));
        lemma_table_symbols_are_placed(content, lines, pattern_table(language));
        assert forall|i: int| 0 <= i < unsorted.len() implies placed(#[trigger] unsorted[i]) by {}
        lemma_sort_keeps(unsorted, placed);
        crate::symbols::lemma_sort_ordered(unsorted);
    }
}

/// Finds the symbols of a file whose bodies are set off by indentation.
pub fn parse_python_symbols(content: &[u8], lines: &FileLines, patterns: &SymbolPatterns) -> (r:
    Vec<FileSymbol>)
    requires
        patterns.wf(),
        lines.describes(content@),
        content@.len() < usize::MAX,
    ensures
        symbols_view(r@) == python_symbols(content@, lines@),
{
    let mut symbols: Vec<FileSymbol> = Vec::new();
    let defs = patterns.python_def.captures_all(content, INDENT_GROUP, NAME_GROUP);
    symbols_from_captures(content, lines, &defs, SymbolKind::Function, true, &mut symbols);
    let classes = patterns.python_class.captures_all(content, INDENT_GROUP, NAME_GROUP);
    symbols_from_captures(content, lines, &classes, SymbolKind::Class, true, &mut symbols);
    proof {
        assert(symbols_view(Seq::<FileSymbol>::empty()) =~= Seq::<Symbol>::empty());
        assert(symbols_view(symbols@) =~= python_symbols_unsorted(content@, lines@));
    }
    sort_symbols(symbols)
}

/// Finds the symbols of a file in a language whose bodies stand in braces.
pub fn parse_brace_symbols(
    content: &[u8],
    lines: &FileLines,
    language: Language,
    patterns: &SymbolPatterns,
) -> (r: Vec<FileSymbol>)
    requires
        patterns.wf(),
        lines.describes(content@),
        content@.len() < usize::MAX,
    ensures
        symbols_view(r@) == brace_symbols(content@, lines@, language),
{
    let mut symbols: Vec<FileSymbol> = Vec::new();
    let table = patterns.brace_patterns(language);
    let ghost sources = pattern_table(language);
    let mut i: usize = 0;
    proof {
        assert(symbols_view(symbols@) =~= Seq::<Symbol>::empty());
        assert(sources.take(0) =~= Seq::<(Seq<char>, SymbolKind)>::empty());
    }
    while i < table.len()
        invariant
            i <= table@.len(),
            table_view(table@) == sources,
            case_sensitive_table(table@),
            lines.describes(content@),
            content@.len() < usize::MAX,
            symbols_view(symbols@) == table_symbols(content@, lines@, sources.take(i as int)),
        decreases table.len() - i,
    {
        let entry = &table[i];
        let captures = entry.pattern.captures_all(content, INDENT_GROUP, NAME_GROUP);
        let ghost before = symbols_view(symbols@);
        symbols_from_captures(content, lines, &captures, entry.kind, false, &mut symbols);
        proof {
            let done = sources.take(i + 1);
            assert(done.drop_last() =~= sources.take(i as int));
            assert(done.last() == table_view(table@)[i as int]);
            assert(done.last().0 == entry.pattern.source());
            assert(done.last().1 == entry.kind);
            assert(symbols_view(symbols@) == before + symbols_of_captures(
                content@,
                lines@,
                captures@,
                entry.kind,
                false,
            ));
            assert(table_symbols(content@, lines@, done) == table_symbols(
                content@,
                lines@,
                done.drop_last(),
            ) + symbols_of_captures(
                content@,
                lines@,
                pattern_captures(done.last().0, false, content@, INDENT_GROUP@, NAME_GROUP@),
                done.last().1,
                false,
            ));
        }
        i += 1;
    }
    proof {
        assert(sources.take(table@.len() as int) =~= sources);
    }
    sort_symbols(symbols)
}

/// Finds the symbols of a file in `language`: each stands on a line of the
/// file, the body of each is what it claims to be, and they come in the
/// order of their lines.
pub fn extract_symbols(
    content: &[u8],
    lines: &FileLines,
    language: Language,
    patterns: &SymbolPatterns,
) -> (r: Vec<FileSymbol>)
    requires
        patterns.wf(),
        lines.describes(content@),
        content@.len() < usize::MAX,
    ensures
        symbols_view(r@) == file_symbols(content@, lines@, language),
        ordered_by_line(symbols_view(r@)),
        forall|i: int| 0 <= i < r@.len() ==> symbol_is_placed((#[trigger] r@[i])@, lines@),
        forall|i: int|
            0 <= i < r@.len() ==> crate::parsed::body_is_sound(
                (#[trigger] r@[i])@.body,
                content@,
                lines@,
            ),
{
    proof {
        lemma_file_symbols_are_placed(content@, lines@, language);
        crate::parsed::lemma_file_bodies_are_sound(content@, *lines, language);
    }
    let symbols = match language {
        Language::Python => parse_python_symbols(content, lines, patterns),
        _ => parse_brace_symbols(content, lines, language, patterns),
    };
    proof {
        assert forall|i: int| 0 <= i < symbols@.len() implies symbol_is_placed(
            (#[trigger] symbols@[i])@,
            lines@,
        ) && crate::parsed::body_is_sound(symbols@[i]@.body, content@, lines@) by {
            assert(symbols_view(symbols@)[i] == symbols@[i]@);
        }
    }
    symbols
}

} // verus!
