use serena_mcp::body::BodyStyle;
use serena_mcp::extract::{extract_symbols, SymbolPatterns};
use serena_mcp::find::{collect_symbols_for_file, limit_reached, SymbolMatch, SymbolQuery};
use serena_mcp::language::Language;
use serena_mcp::lines::FileLines;
use serena_mcp::matching::symbol_name_matches;
use serena_mcp::overview::{get_symbols_overview, OverviewTotals};
use serena_mcp::parsed::{language_to_parse, ParsedFile, MAX_SOURCE_BYTES};
use serena_mcp::rename::{apply_rename, rename_symbol, replace_spans};
use serena_mcp::replace::{replace_symbol_body, splice_bytes, EditError, ReplaceMode};
use serena_mcp::symbols::{sort_symbols, FileSymbol, SymbolKind};

fn patterns() -> SymbolPatterns {
    match SymbolPatterns::new() {
        Ok(p) => p,
        Err(e) => panic!("the declaration patterns do not compile: {}", e.cause),
    }
}

fn parse(language: Language, content: &str) -> ParsedFile {
    ParsedFile::parse(language, content.as_bytes().to_vec(), &patterns())
}

fn names(parsed: &ParsedFile) -> Vec<String> {
    parsed.symbols.iter().map(|s| String::from_utf8(s.name.clone()).unwrap()).collect()
}

fn find(parsed: &ParsedFile, query: &SymbolQuery) -> Vec<SymbolMatch> {
    let mut out = Vec::new();
    collect_symbols_for_file(parsed, query, &mut out);
    out
}

#[test]
fn language_is_told_by_extension() {
    assert_eq!(Language::from_path(b"a.py"), Some(Language::Python));
    assert_eq!(Language::from_path(b"/x/y/lib.RS"), Some(Language::Rust));
    assert_eq!(Language::from_path(b"a.tsx"), Some(Language::Typescript));
    assert_eq!(Language::from_path(b"a.mjs"), Some(Language::Javascript));
    assert_eq!(Language::from_path(b"a.go"), Some(Language::Go));
    assert_eq!(Language::from_path(b"a.kts"), Some(Language::Java));
    assert_eq!(Language::from_path(b"a.cs"), Some(Language::Csharp));
    assert_eq!(Language::from_path(b"a.hpp"), Some(Language::Generic));
    assert_eq!(Language::from_path(b"dir.py/a.txt"), None);
    assert_eq!(Language::from_path(b"Makefile"), None);
    assert_eq!(Language::from_path(b".py"), None);
    assert_eq!(Language::from_path(b"a/.rs"), None);
    assert_eq!(Language::from_path(b".."), None);
    assert_eq!(Language::from_path(b"a.b.rs"), Some(Language::Rust));
    assert_eq!(Language::from_path(b"a."), None);
    assert_eq!(Language::from_path(b""), None);
    assert_eq!(Language::from_extension(b"Py"), Some(Language::Python));
    assert_eq!(Language::from_extension(b"mli"), None);
}

#[test]
fn language_names_are_lower_case() {
    assert_eq!(Language::Python.as_str(), "python");
    assert_eq!(Language::Rust.as_str(), "rust");
    assert_eq!(Language::Typescript.as_str(), "typescript");
    assert_eq!(Language::Javascript.as_str(), "javascript");
    assert_eq!(Language::Go.as_str(), "go");
    assert_eq!(Language::Java.as_str(), "java");
    assert_eq!(Language::Csharp.as_str(), "csharp");
    assert_eq!(Language::Generic.as_str(), "generic");
    assert_eq!(SymbolKind::Method.as_str(), "method");
    assert_eq!(SymbolKind::Type.as_str(), "type");
}

#[test]
fn large_files_are_not_parsed() {
    assert_eq!(language_to_parse(b"a.rs", 10), Some(Language::Rust));
    assert_eq!(language_to_parse(b"a.rs", MAX_SOURCE_BYTES), Some(Language::Rust));
    assert_eq!(language_to_parse(b"a.rs", MAX_SOURCE_BYTES + 1), None);
    assert_eq!(language_to_parse(b"a.txt", 10), None);
    assert_eq!(MAX_SOURCE_BYTES, 2097152);
}

#[test]
fn find_symbol_substring_in_python() {
    let parsed = parse(Language::Python, "class Foo:\n    def bar(self):\n        return 1\n");
    let found = find(&parsed, &SymbolQuery::new(b"ba"));
    assert_eq!(found.len(), 1);
    assert_eq!(found[0].name, b"bar".to_vec());
    assert_eq!(found[0].kind, SymbolKind::Function);
    assert_eq!(found[0].kind.as_str(), "function");
    assert_eq!(found[0].line, 2);
    assert_eq!(found[0].column, 5);
    assert_eq!(found[0].language.as_str(), "python");
    assert_eq!(found[0].signature, b"    def bar(self):".to_vec());
    assert_eq!(found[0].body, None);
}

#[test]
fn python_symbols_come_in_line_order() {
    let parsed = parse(
        Language::Python,
        "class A:\n    def f(self):\n        pass\nasync def g():\n    pass\nclass B:\n    x = 1\n",
    );
    assert_eq!(names(&parsed), vec!["A", "f", "g", "B"]);
    let lines: Vec<usize> = parsed.symbols.iter().map(|s| s.line).collect();
    assert_eq!(lines, vec![1, 2, 4, 6]);
    assert_eq!(parsed.symbols[1].kind, SymbolKind::Function);
    assert_eq!(parsed.symbols[3].kind, SymbolKind::Class);
}

#[test]
fn symbol_positions_are_in_bounds() {
    let sources = [
        (Language::Rust, "pub fn a()\n{\n}\n\n   struct B;  \nimpl<T> C<T>\n{\n    fn d(&self)\n    {\n    }\n}\n"),
        (Language::Python, "def a():\n  pass\n\n\nclass B:   \n    def c(self):\n        pass"),
        (Language::Javascript, "export function a() {}\nclass B {}\nconst c = (x) => x;\n"),
        (Language::Go, "func (r *R) A(x int) {\n}\nfunc B() {}\n"),
        (Language::Java, "public class A {\n    private static int b(int x) {\n        return x;\n    }\n}\n"),
        (Language::Generic, "function a()\nstruct B\n"),
    ];
    let patterns = patterns();
    for (language, source) in sources {
        let lines = FileLines::new(source.as_bytes());
        let symbols = extract_symbols(source.as_bytes(), &lines, language, &patterns);
        assert!(!symbols.is_empty());
        let mut last = 0;
        for symbol in symbols.iter() {
            assert!(1 <= symbol.line && symbol.line <= lines.len());
            assert!(symbol.column >= 1);
            let text = std::str::from_utf8(lines.text(symbol.line - 1)).unwrap();
            assert_eq!(symbol.signature, text.trim_end().as_bytes().to_vec());
            assert!(last <= symbol.line);
            last = symbol.line;
        }
    }
}

#[test]
fn rust_symbols_have_their_kinds() {
    let parsed = parse(
        Language::Rust,
        "pub struct S;\npub(crate) enum E\n{\n}\ntrait T\n{\n}\nimpl T for S\n{\n}\nasync fn run()\n{\n}\n",
    );
    let kinds: Vec<&str> = parsed.symbols.iter().map(|s| s.kind.as_str()).collect();
    assert_eq!(kinds, vec!["struct", "enum", "trait", "impl", "function"]);
    assert_eq!(names(&parsed), vec!["S", "E", "T", "T", "run"]);
}

#[test]
fn brace_on_the_declaration_line_is_not_seen() {
    let parsed = parse(Language::Rust, "fn greet() {\n    println!(\"hi\");\n}\n");
    assert_eq!(names(&parsed), vec!["greet"]);
    assert!(matches!(parsed.symbols[0].body, BodyStyle::Absent));
}

#[test]
fn body_in_braces_is_well_formed() {
    let source = "fn a()\n{\n    let s = \"}\";\n    if x\n    {\n        y\n    }\n}\n";
    let parsed = parse(Language::Rust, source);
    match &parsed.symbols[0].body {
        BodyStyle::Braces { start, end, .. } => {
            let bytes = source.as_bytes();
            assert_eq!(bytes[*start - 1], b'{');
            assert_eq!(bytes[*end], b'}');
            assert_eq!(*end, source.len() - 2);
        }
        _ => panic!("a body in braces was expected"),
    }
}

#[test]
fn bodies_of_extracted_symbols_are_well_formed() {
    let sources = [
        (Language::Rust, "fn a()\n{\n    if x\n    {\n        \"}\";\n    }\n}\nfn b()\n{}\nstruct C;\n"),
        (Language::Javascript, "function f()\n{\n  return `{`;\n}\nclass K\n{\n  m() { }\n}\n"),
        (Language::Python, "class A:\n    def f(self):\n        x = 1\n\n        return x\n    y = 2\nz = 3\n"),
    ];
    let patterns = patterns();
    for (language, source) in sources {
        let bytes = source.as_bytes();
        let lines = FileLines::new(bytes);
        let symbols = extract_symbols(bytes, &lines, language, &patterns);
        let mut bodies = 0;
        for symbol in symbols.iter() {
            match &symbol.body {
                BodyStyle::Braces { start, end, .. } => {
                    bodies += 1;
                    assert_eq!(bytes[*start - 1], b'{');
                    assert_eq!(bytes[*end], b'}');
                    // the block found from the opening brace is the same
                    assert_eq!(
                        serena_mcp::braces::find_brace_block(bytes, *start - 1),
                        Some((*start, *end))
                    );
                }
                BodyStyle::Indented { start, end, base_indent, .. } => {
                    bodies += 1;
                    assert!(*start <= *end && *end < bytes.len());
                    for i in 0..lines.len() {
                        let (from, to) = lines.bounds(i);
                        if *start <= from && to - 1 <= *end {
                            let text = lines.text(i);
                            let blank = std::str::from_utf8(text).unwrap().trim().is_empty();
                            let indent = serena_mcp::text::leading_whitespace(text).len();
                            assert!(blank || indent > base_indent.len());
                        }
                    }
                }
                BodyStyle::Absent => {}
            }
        }
        assert!(bodies >= 2);
    }
}

#[test]
fn declaration_after_a_blank_line_stands_on_its_own_line() {
    let parsed = parse(Language::Python, "x = 1\n\ndef f():\n    return 1\n");
    assert_eq!(names(&parsed), vec!["f"]);
    assert_eq!(parsed.symbols[0].line, 3);
    assert_eq!(parsed.symbols[0].column, 1);
    assert_eq!(parsed.symbols[0].signature, b"def f():".to_vec());
    let done = replace_symbol_body(&parsed, b"f", b"pass", None, true, None, None).unwrap();
    assert_eq!(done.content, b"x = 1\n\ndef f():\n    pass\n".to_vec());
}

#[test]
fn function_after_an_empty_first_line() {
    let source = "\nfn a()\n{\n}\n";
    let parsed = parse(Language::Rust, source);
    assert_eq!(parsed.symbols.len(), 1);
    let symbol = &parsed.symbols[0];
    assert_eq!(symbol.name, b"a".to_vec());
    assert_eq!(symbol.kind.as_str(), "function");
    assert_eq!(symbol.line, 2);
    assert_eq!(symbol.column, 1);
    assert_eq!(symbol.signature, b"fn a()".to_vec());
    match &symbol.body {
        BodyStyle::Braces { start, end, base_indent, .. } => {
            assert_eq!((*start, *end), (9, 10));
            assert_eq!(base_indent, &Vec::<u8>::new());
        }
        _ => panic!("a body in braces was expected"),
    }
}

#[test]
fn java_declarations_stand_on_their_own_line() {
    let source = "package p;\n\npublic class A\n{\n\n    private int b(int x)\n    {\n        return x;\n    }\n}\n";
    let parsed = parse(Language::Java, source);
    assert_eq!(names(&parsed), vec!["A", "b"]);
    assert_eq!(parsed.symbols[0].line, 3);
    assert_eq!(parsed.symbols[0].column, 1);
    assert_eq!(parsed.symbols[0].signature, b"public class A".to_vec());
    assert_eq!(parsed.symbols[0].kind, SymbolKind::Class);
    assert_eq!(parsed.symbols[1].line, 6);
    assert_eq!(parsed.symbols[1].column, 5);
    assert_eq!(parsed.symbols[1].signature, b"    private int b(int x)".to_vec());
    assert_eq!(parsed.symbols[1].kind, SymbolKind::Method);
    assert!(matches!(parsed.symbols[1].body, BodyStyle::Braces { .. }));
}

#[test]
fn column_points_at_the_first_byte_that_is_no_indentation() {
    let parsed = parse(Language::Python, "class A:\n\n\t  def f(self):\n\t    pass\n");
    assert_eq!(names(&parsed), vec!["A", "f"]);
    assert_eq!(parsed.symbols[1].line, 3);
    assert_eq!(parsed.symbols[1].column, 4);
    assert_eq!(parsed.symbols[1].signature, b"\t  def f(self):".to_vec());
    assert!(matches!(parsed.symbols[1].body, BodyStyle::Indented { .. }));
}

#[test]
fn bytes_that_are_not_text_hold_no_symbols() {
    let parsed = ParsedFile::parse(Language::Rust, b"fn a()\n{\n}\n\xff\n".to_vec(), &patterns());
    assert!(parsed.symbols.is_empty());
}

#[test]
fn sorting_symbols_keeps_the_order_within_a_line() {
    let make = |name: &str, line: usize| FileSymbol {
        name: name.as_bytes().to_vec(),
        kind: SymbolKind::Function,
        signature: Vec::new(),
        line,
        column: 1,
        body: BodyStyle::Absent,
    };
    let sorted = sort_symbols(vec![
        make("c", 3),
        make("a1", 1),
        make("b", 2),
        make("a2", 1),
        make("c2", 3),
        make("a3", 1),
    ]);
    let got: Vec<String> =
        sorted.iter().map(|s| String::from_utf8(s.name.clone()).unwrap()).collect();
    assert_eq!(got, vec!["a1", "a2", "a3", "b", "c", "c2"]);
}

#[test]
fn name_matching_follows_its_two_switches() {
    assert!(symbol_name_matches(b"fooBar", b"oBa", true, true));
    assert!(!symbol_name_matches(b"fooBar", b"oba", true, true));
    assert!(symbol_name_matches(b"fooBar", b"OBA", true, false));
    assert!(symbol_name_matches(b"fooBar", b"fooBar", false, true));
    assert!(!symbol_name_matches(b"fooBar", b"foobar", false, true));
    assert!(symbol_name_matches(b"fooBar", b"FOOBAR", false, false));
    assert!(!symbol_name_matches(b"fooBar", b"foo", false, false));
    assert!(symbol_name_matches(b"fooBar", b"", true, true));
    assert!(symbol_name_matches("\u{c9}t\u{e9}".as_bytes(), "\u{e9}T\u{c9}".as_bytes(), false, false));
}

#[test]
fn find_symbol_defaults() {
    let q = SymbolQuery::new(b"x");
    assert!(q.match_substring);
    assert!(!q.case_sensitive);
    assert!(!q.include_body);
    assert!(q.kinds.is_none());
    assert_eq!(q.max_results, 50);
}

#[test]
fn find_symbol_filters_by_kind_and_includes_bodies() {
    let parsed = parse(
        Language::Python,
        "class Foo:\n    def foo_method(self):\n        return 1\n\ndef foo():\n    return 2\n",
    );
    let mut query = SymbolQuery::new(b"FOO");
    query.include_body = true;
    let all = find(&parsed, &query);
    assert_eq!(all.len(), 3);
    query.restrict_kinds(&vec![b"Function".to_vec()]);
    let functions = find(&parsed, &query);
    assert_eq!(functions.len(), 2);
    assert_eq!(functions[0].name, b"foo_method".to_vec());
    assert_eq!(functions[0].body, Some(b"        return 1".to_vec()));
    assert_eq!(functions[1].line, 5);
    assert_eq!(functions[1].name, b"foo".to_vec());
    assert_eq!(functions[1].body, Some(b"    return 2".to_vec()));
    query.restrict_kinds(&vec![b"nothing".to_vec()]);
    assert!(find(&parsed, &query).is_empty());
    query.restrict_kinds(&Vec::new());
    assert!(find(&parsed, &query).is_empty());
}

#[test]
fn find_symbol_exact_and_case_sensitive() {
    let parsed = parse(Language::Python, "def foo():\n    pass\ndef Foo():\n    pass\ndef foobar():\n    pass\n");
    let mut query = SymbolQuery::new(b"foo");
    query.match_substring = false;
    assert_eq!(find(&parsed, &query).len(), 2);
    query.case_sensitive = true;
    let found = find(&parsed, &query);
    assert_eq!(found.len(), 1);
    assert_eq!(found[0].line, 1);
}

#[test]
fn find_symbol_stops_at_the_limit() {
    let parsed = parse(Language::Python, "def a1():\n    pass\ndef a2():\n    pass\ndef a3():\n    pass\n");
    let mut query = SymbolQuery::new(b"a");
    query.max_results = 2;
    let mut out = Vec::new();
    collect_symbols_for_file(&parsed, &query, &mut out);
    assert_eq!(out.len(), 2);
    assert!(limit_reached(out.len(), query.max_results));
    collect_symbols_for_file(&parsed, &query, &mut out);
    assert_eq!(out.len(), 2);
    query.max_results = 4;
    collect_symbols_for_file(&parsed, &query, &mut out);
    assert_eq!(out.len(), 4);
    assert_eq!(out[2].name, b"a1".to_vec());
    assert_eq!(out[3].name, b"a2".to_vec());
    query.max_results = 0;
    let mut none = Vec::new();
    collect_symbols_for_file(&parsed, &query, &mut none);
    assert!(none.is_empty());
    assert!(limit_reached(0, 0));
    assert!(!limit_reached(1, 2));
}

#[test]
fn overview_names_symbols_with_their_lines() {
    let parsed = parse(Language::Python, "class A:\n    def f(self):\n        pass\ndef g():\n    pass\n");
    let all = get_symbols_overview(&parsed, None);
    assert_eq!(all.language, Language::Python);
    assert_eq!(all.symbol_count, 3);
    assert_eq!(all.symbols.len(), 3);
    assert_eq!(all.symbols[1].name, b"f".to_vec());
    assert_eq!(all.symbols[1].line, 2);
    assert_eq!(all.symbols[1].signature, b"    def f(self):".to_vec());
    let top = get_symbols_overview(&parsed, Some(2));
    assert_eq!(top.symbol_count, 3);
    assert_eq!(top.symbols.len(), 2);
    let more = get_symbols_overview(&parsed, Some(5));
    assert_eq!(more.symbols.len(), 3);
}

#[test]
fn overview_totals_count_files_and_symbols() {
    let mut totals = OverviewTotals::new();
    assert!(totals.takes_more(1));
    assert!(!totals.takes_more(0));
    totals.record(3);
    totals.record(4);
    assert_eq!(totals.files_summarised, 2);
    assert_eq!(totals.total_symbols, 7);
    assert!(!totals.takes_more(2));
    totals.record(usize::MAX);
    assert_eq!(totals.total_symbols, usize::MAX);
}

#[test]
fn replace_symbol_body_in_braces() {
    let parsed = parse(Language::Rust, "fn greet()\n{\n    println!(\"hi\");\n}\n");
    let done = replace_symbol_body(&parsed, b"greet", b"println!(\"bye\");", None, true, None, None)
        .unwrap();
    assert_eq!(done.content, b"fn greet()\n{\n    println!(\"bye\");\n}\n".to_vec());
    assert_eq!(done.mode, ReplaceMode::SymbolBody { index: 0, occurrence: 1 });
}

#[test]
fn replace_symbol_body_refuses_a_brace_on_the_declaration_line() {
    let parsed = parse(Language::Rust, "fn greet() {\n    println!(\"hi\");\n}\n");
    let r = replace_symbol_body(&parsed, b"greet", b"println!(\"bye\");", None, true, None, None);
    assert_eq!(r.err(), Some(EditError::NoBody { index: 0 }));
}

#[test]
fn replace_symbol_body_indented() {
    let parsed = parse(Language::Python, "def f():\n    return 1\n");
    let done = replace_symbol_body(&parsed, b"f", b"return 2", None, true, None, None).unwrap();
    assert_eq!(done.content, b"def f():\n    return 2\n".to_vec());
    let parsed = parse(Language::Python, "def f():\n    return 1");
    let done = replace_symbol_body(&parsed, b"f", b"return 2", None, true, None, None).unwrap();
    assert_eq!(done.content, b"def f():\n    return 2\n".to_vec());
}

#[test]
fn replace_symbol_body_keeps_what_follows() {
    let parsed = parse(
        Language::Python,
        "class A:\n    def f(self):\n        return 1\n    def g(self):\n        return 2\n",
    );
    let done = replace_symbol_body(&parsed, b"f", b"x = 1\nreturn x", None, true, None, None).unwrap();
    assert_eq!(
        done.content,
        b"class A:\n    def f(self):\n        x = 1\n        return x\n    def g(self):\n        return 2\n"
            .to_vec()
    );
    let empty = replace_symbol_body(&parsed, b"g", b"", None, true, None, None).unwrap();
    assert_eq!(
        empty.content,
        b"class A:\n    def f(self):\n        return 1\n    def g(self):\n        pass\n".to_vec()
    );
}

#[test]
fn replace_line_range() {
    let parsed = parse(Language::Python, "a\nb\nc\nd\n");
    let done = replace_symbol_body(&parsed, b"", b"X\nY", None, true, Some(2), Some(3)).unwrap();
    assert_eq!(done.content, b"a\nX\nY\nd\n".to_vec());
    assert_eq!(done.mode, ReplaceMode::LineRange { start_line: 2, end_line: 3 });
    let whole = replace_symbol_body(&parsed, b"", b"Z\n", None, true, Some(1), Some(4)).unwrap();
    assert_eq!(whole.content, b"Z\n".to_vec());
    let parsed = parse(Language::Python, "a\nb");
    let last = replace_symbol_body(&parsed, b"", b"c", None, true, Some(2), Some(2)).unwrap();
    assert_eq!(last.content, b"a\nc\n".to_vec());
}

#[test]
fn replace_line_range_errors() {
    let parsed = parse(Language::Python, "a\nb\nc\n");
    let run = |start, end| {
        replace_symbol_body(&parsed, b"", b"x", None, true, Some(start), Some(end)).err()
    };
    assert_eq!(run(3, 2), Some(EditError::LineRangeReversed));
    assert_eq!(run(4, 4), Some(EditError::StartLineOutside));
    assert_eq!(run(0, 2), Some(EditError::StartLineOutside));
    assert_eq!(run(2, 4), Some(EditError::EndLineOutside));
    assert_eq!(run(1, 3), None);
    let empty = parse(Language::Python, "");
    let r = replace_symbol_body(&empty, b"", b"x", None, true, Some(1), Some(1));
    assert_eq!(r.err(), Some(EditError::StartLineOutside));
}

#[test]
fn replace_needs_both_ends_of_a_range() {
    let parsed = parse(Language::Python, "def f():\n    return 1\n");
    let done = replace_symbol_body(&parsed, b"f", b"return 2", None, true, Some(1), None).unwrap();
    assert_eq!(done.mode, ReplaceMode::SymbolBody { index: 0, occurrence: 1 });
}

#[test]
fn replace_symbol_body_errors() {
    let parsed = parse(
        Language::Python,
        "def f():\n    return 1\ndef f():\n    return 2\ndef g(): pass\nx = 1\ndef F():\n    return 3\n",
    );
    let run = |name: &[u8], occurrence, case_sensitive| {
        replace_symbol_body(&parsed, name, b"pass", occurrence, case_sensitive, None, None)
    };
    assert_eq!(run(b"h", None, true).err(), Some(EditError::SymbolNotFound));
    assert_eq!(run(b"", None, true).err(), Some(EditError::AmbiguousSymbol));
    assert_eq!(run(b"f", None, true).err(), Some(EditError::AmbiguousSymbol));
    assert_eq!(
        run(b"f", Some(0), true).err(),
        Some(EditError::OccurrenceOutOfBounds { requested: 0, available: 2 })
    );
    assert_eq!(
        run(b"f", Some(3), true).err(),
        Some(EditError::OccurrenceOutOfBounds { requested: 3, available: 2 })
    );
    assert_eq!(run(b"g", None, true).err(), Some(EditError::NoBody { index: 2 }));
    let second = run(b"f", Some(2), true).unwrap();
    assert_eq!(second.mode, ReplaceMode::SymbolBody { index: 1, occurrence: 2 });
    assert_eq!(
        second.content,
        b"def f():\n    return 1\ndef f():\n    pass\ndef g(): pass\nx = 1\ndef F():\n    return 3\n"
            .to_vec()
    );
    let third = run(b"f", Some(3), false).unwrap();
    assert_eq!(third.mode, ReplaceMode::SymbolBody { index: 3, occurrence: 3 });
    let upper = run(b"F", None, true).unwrap();
    assert_eq!(upper.mode, ReplaceMode::SymbolBody { index: 3, occurrence: 1 });
}

#[test]
fn replace_symbol_body_finds_the_symbol_by_part_of_its_name() {
    let parsed = parse(Language::Python, "def compute_total():\n    return 1\ndef other():\n    return 2\n");
    let done = replace_symbol_body(&parsed, b"total", b"return 0", None, true, None, None).unwrap();
    assert_eq!(done.mode, ReplaceMode::SymbolBody { index: 0, occurrence: 1 });
    assert_eq!(
        done.content,
        b"def compute_total():\n    return 0\ndef other():\n    return 2\n".to_vec()
    );
    let r = replace_symbol_body(&parsed, b"o", b"pass", None, true, None, None);
    assert_eq!(r.err(), Some(EditError::AmbiguousSymbol));
    let r = replace_symbol_body(&parsed, b"TOTAL", b"pass", None, true, None, None);
    assert_eq!(r.err(), Some(EditError::SymbolNotFound));
    let done = replace_symbol_body(&parsed, b"TOTAL", b"pass", None, false, None, None).unwrap();
    assert_eq!(done.mode, ReplaceMode::SymbolBody { index: 0, occurrence: 1 });
}

#[test]
fn replacing_an_unindented_body_by_itself_changes_nothing() {
    let source = "fn a()\n{\nx;\n\ny;\n}\n";
    let parsed = parse(Language::Rust, source);
    let mut query = SymbolQuery::new(b"a");
    query.include_body = true;
    let found = find(&parsed, &query);
    let body = found[0].body.clone().unwrap();
    assert_eq!(body, b"x;\n\ny;".to_vec());
    let done = replace_symbol_body(&parsed, b"a", &body, None, true, None, None).unwrap();
    assert_eq!(done.content, source.as_bytes().to_vec());
}

#[test]
fn replacing_a_body_by_itself_only_trims_its_lines() {
    let source = "fn a()\n{\nx;  \n\ny; \t\n}\n";
    let parsed = parse(Language::Rust, source);
    let mut query = SymbolQuery::new(b"a");
    query.include_body = true;
    let body = find(&parsed, &query)[0].body.clone().unwrap();
    assert_eq!(body, b"x;  \n\ny; \t".to_vec());
    let once = replace_symbol_body(&parsed, b"a", &body, None, true, None, None).unwrap();
    assert_eq!(once.content, b"fn a()\n{\nx;\n\ny;\n}\n".to_vec());
    let parsed = ParsedFile::parse(Language::Rust, once.content.clone(), &patterns());
    let body = find(&parsed, &query)[0].body.clone().unwrap();
    assert_eq!(body, b"x;\n\ny;".to_vec());
    let again = replace_symbol_body(&parsed, b"a", &body, None, true, None, None).unwrap();
    assert_eq!(again.content, once.content);
}

#[test]
fn replacing_an_indented_body_by_itself_indents_it_again() {
    let parsed = parse(Language::Python, "def f():\n    return 1\n");
    let mut query = SymbolQuery::new(b"f");
    query.include_body = true;
    let body = find(&parsed, &query)[0].body.clone().unwrap();
    assert_eq!(body, b"    return 1".to_vec());
    let done = replace_symbol_body(&parsed, b"f", &body, None, true, None, None).unwrap();
    assert_eq!(done.content, b"def f():\n        return 1\n".to_vec());
}

#[test]
fn splice_replaces_a_range() {
    assert_eq!(splice_bytes(b"abcdef", 2, 4, b"XYZ"), b"abXYZef".to_vec());
    assert_eq!(splice_bytes(b"abc", 0, 0, b"X"), b"Xabc".to_vec());
    assert_eq!(splice_bytes(b"abc", 3, 3, b"X"), b"abcX".to_vec());
    assert_eq!(splice_bytes(b"abc", 0, 3, b""), b"".to_vec());
}

#[test]
fn rename_symbol_word_boundary() {
    let done = rename_symbol(b"const foo = 1;\nconst foobar = 2;\n", "foo", b"qux", true, None)
        .unwrap();
    assert_eq!(done.replacements, 1);
    assert_eq!(done.content, b"const qux = 1;\nconst foobar = 2;\n".to_vec());
}

#[test]
fn rename_replaces_every_whole_word() {
    let done = rename_symbol(b"a(b, a.a) + ab - _a a", "a", b"xyz", true, None).unwrap();
    assert_eq!(done.replacements, 4);
    assert_eq!(done.content, b"xyz(b, xyz.xyz) + ab - _a xyz".to_vec());
}

#[test]
fn rename_twice_replaces_nothing_the_second_time() {
    let first = rename_symbol(b"foo + foo", "foo", b"bar", true, None).unwrap();
    assert_eq!(first.replacements, 2);
    let second = rename_symbol(&first.content, "foo", b"bar", true, None).unwrap();
    assert_eq!(second.replacements, 0);
    assert_eq!(second.content, first.content);
}

#[test]
fn rename_to_the_same_name_changes_nothing() {
    let content = b"foo(foo) foobar";
    let done = rename_symbol(content, "foo", b"foo", true, None).unwrap();
    assert_eq!(done.replacements, 2);
    assert_eq!(done.content, content.to_vec());
}

#[test]
fn rename_to_a_name_that_holds_the_old_one_is_found_again() {
    let first = rename_symbol(b"a", "a", b"a a", true, None).unwrap();
    assert_eq!(first.content, b"a a".to_vec());
    let second = rename_symbol(&first.content, "a", b"a a", true, None).unwrap();
    assert_eq!(second.replacements, 2);
}

#[test]
fn rename_only_one_occurrence() {
    let content = b"x = x + x";
    let second = rename_symbol(content, "x", b"y", true, Some(2)).unwrap();
    assert_eq!(second.replacements, 1);
    assert_eq!(second.content, b"x = y + x".to_vec());
    let none = rename_symbol(content, "x", b"y", true, Some(4)).unwrap();
    assert_eq!(none.replacements, 0);
    assert_eq!(none.content, content.to_vec());
    let zero = rename_symbol(content, "x", b"y", true, Some(0)).unwrap();
    assert_eq!(zero.replacements, 0);
    assert_eq!(zero.content, content.to_vec());
}

#[test]
fn rename_ignoring_case() {
    let done = rename_symbol(b"Foo foo FOO fool", "foo", b"bar", false, None).unwrap();
    assert_eq!(done.replacements, 3);
    assert_eq!(done.content, b"bar bar bar fool".to_vec());
    let strict = rename_symbol(b"Foo foo FOO fool", "foo", b"bar", true, None).unwrap();
    assert_eq!(strict.replacements, 1);
}

#[test]
fn rename_takes_the_old_name_literally() {
    let done = rename_symbol(b"a.b axb a.b", "a.b", b"c", true, None).unwrap();
    assert_eq!(done.replacements, 2);
    assert_eq!(done.content, b"c axb c".to_vec());
}

#[test]
fn rename_takes_the_new_name_literally() {
    let done = rename_symbol(b"foo(foo)", "foo", b"$foo$1", true, None).unwrap();
    assert_eq!(done.content, b"$foo$1($foo$1)".to_vec());
}

#[test]
fn rename_in_bytes_that_are_not_text_finds_nothing() {
    let done = rename_symbol(b"foo \xff foo", "foo", b"bar", true, None).unwrap();
    assert_eq!(done.replacements, 0);
    assert_eq!(done.content, b"foo \xff foo".to_vec());
}

#[test]
fn replace_spans_splices_each_span() {
    let spans = vec![(0, 1), (2, 2), (3, 5)];
    assert_eq!(replace_spans(b"abcde", &spans, b"--"), b"--b--c--".to_vec());
    assert_eq!(replace_spans(b"abcde", &Vec::new(), b"--"), b"abcde".to_vec());
    let (content, count) = apply_rename(b"abcde", &spans, b"X", Some(3));
    assert_eq!((content, count), (b"abcX".to_vec(), 1));
    let (content, count) = apply_rename(b"abcde", &spans, b"X", None);
    assert_eq!((content, count), (b"XbXcX".to_vec(), 3));
}
