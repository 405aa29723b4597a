use serena_mcp::pattern::Pattern;
use serena_mcp::rename::compile_word_pattern;
use serena_mcp::search::{
    is_hidden_path, literal_positions, line_offset_of, scan_file_for_references,
    search_in_file, MatchInfo, SearchOptions,
};

fn literal(content: &str, pattern: &str, options: SearchOptions) -> Vec<MatchInfo> {
    let mut out = Vec::new();
    search_in_file(content.as_bytes(), pattern, options, &mut out).unwrap();
    out
}

fn places(hits: &[MatchInfo]) -> Vec<(usize, usize)> {
    hits.iter().map(|h| (h.line, h.column)).collect()
}

fn lines_of(text: &str) -> Vec<Vec<u8>> {
    text.lines().map(|l| l.as_bytes().to_vec()).collect()
}

#[test]
fn search_defaults() {
    let o = SearchOptions::new();
    assert!(!o.regex);
    assert!(o.case_sensitive);
    assert_eq!(o.context_lines, 2);
    assert_eq!(o.max_results, 50);
}

#[test]
fn search_pattern_with_context() {
    let content = "one\ntwo\nthree\nfour  \n  // TODO: fix  \nsix\nseven\n";
    let mut options = SearchOptions::new();
    options.context_lines = 1;
    let hits = literal(content, "TODO", options);
    assert_eq!(hits.len(), 1);
    assert_eq!(hits[0].line, 5);
    assert_eq!(hits[0].column, 6);
    assert_eq!(hits[0].preview, b"  // TODO: fix".to_vec());
    let context: Vec<(usize, Vec<u8>)> =
        hits[0].context.iter().map(|c| (c.line, c.text.clone())).collect();
    assert_eq!(context, vec![(4, b"four".to_vec()), (6, b"six".to_vec())]);
}

#[test]
fn context_stops_at_the_ends_of_the_file() {
    let lines = lines_of("a\nb\nc\nd");
    let first = MatchInfo::new(0, 1, b"a", &lines, 2);
    let got: Vec<usize> = first.context.iter().map(|c| c.line).collect();
    assert_eq!(got, vec![2, 3]);
    assert_eq!(first.line, 1);
    let last = MatchInfo::new(3, 1, b"d", &lines, 2);
    let got: Vec<usize> = last.context.iter().map(|c| c.line).collect();
    assert_eq!(got, vec![2, 3]);
    let middle = MatchInfo::new(1, 7, b"b  ", &lines, usize::MAX);
    let got: Vec<usize> = middle.context.iter().map(|c| c.line).collect();
    assert_eq!(got, vec![1, 3, 4]);
    assert_eq!(middle.preview, b"b".to_vec());
    assert_eq!(middle.column, 7);
    let none = MatchInfo::new(1, 1, b"b", &lines, 0);
    assert!(none.context.is_empty());
    let single = lines_of("only");
    assert!(MatchInfo::new(0, 1, b"only", &single, 3).context.is_empty());
}

#[test]
fn literal_hits_do_not_overlap() {
    assert_eq!(literal_positions(b"aaaa", b"aa"), vec![0, 2]);
    assert_eq!(literal_positions(b"aaaaa", b"aa"), vec![0, 2]);
    assert_eq!(literal_positions(b"abcabcab", b"abc"), vec![0, 3]);
    assert_eq!(literal_positions(b"abc", b"x"), Vec::<usize>::new());
    assert_eq!(literal_positions(b"", b"x"), Vec::<usize>::new());
    let hits = literal("aaaa\nbaab aa", "aa", SearchOptions::new());
    assert_eq!(places(&hits), vec![(1, 1), (1, 3), (2, 2), (2, 6)]);
}

#[test]
fn literal_search_counts_every_occurrence_up_to_the_limit() {
    let content = "x x x\nxx\n\nyxy\n";
    let text_count: usize = content.lines().map(|l| l.matches("x").count()).sum();
    assert_eq!(text_count, 6);
    let mut options = SearchOptions::new();
    assert_eq!(literal(content, "x", options).len(), 6);
    options.max_results = 6;
    assert_eq!(literal(content, "x", options).len(), 6);
    options.max_results = 4;
    let capped = literal(content, "x", options);
    assert_eq!(places(&capped), vec![(1, 1), (1, 3), (1, 5), (2, 1)]);
    options.max_results = 7;
    assert_eq!(literal(content, "x", options).len(), 6);
    options.max_results = 0;
    assert!(literal(content, "x", options).is_empty());
}

#[test]
fn search_adds_to_what_was_found_before() {
    let mut options = SearchOptions::new();
    options.max_results = 3;
    let mut out = Vec::new();
    search_in_file(b"a a", "a", options, &mut out).unwrap();
    assert_eq!(out.len(), 2);
    search_in_file(b"b\na a a", "a", options, &mut out).unwrap();
    assert_eq!(places(&out), vec![(1, 1), (1, 3), (2, 1)]);
    search_in_file(b"a", "a", options, &mut out).unwrap();
    assert_eq!(out.len(), 3);
}

#[test]
fn columns_count_characters() {
    let hits = literal("h\u{e9}\u{e9} x\n\u{4e16}\u{754c}x", "x", SearchOptions::new());
    assert_eq!(places(&hits), vec![(1, 5), (2, 3)]);
}

#[test]
fn literal_search_ignoring_case() {
    let mut options = SearchOptions::new();
    options.case_sensitive = false;
    let hits = literal("Todo tODO\nnone\nTODO", "todo", options);
    assert_eq!(places(&hits), vec![(1, 1), (1, 6), (3, 1)]);
    options.case_sensitive = true;
    assert_eq!(places(&literal("Todo tODO\nnone\nTODO", "TODO", options)), vec![(3, 1)]);
    options.case_sensitive = false;
    let upper = literal("stra\u{df}e STRASSE", "STRA\u{df}E", options);
    assert_eq!(places(&upper), vec![(1, 1)]);
}

#[test]
fn column_is_counted_in_the_line_as_given_when_case_is_ignored() {
    let mut options = SearchOptions::new();
    options.case_sensitive = false;
    options.context_lines = 0;
    let hits = literal("\u{130}\u{130}\u{130}x\n", "X", options);
    assert_eq!(places(&hits), vec![(1, 4)]);
    assert_eq!(hits[0].preview, "\u{130}\u{130}\u{130}x".as_bytes().to_vec());
    let hits = literal("a\u{130}b\u{130}B", "b", options);
    assert_eq!(places(&hits), vec![(1, 3), (1, 5)]);
    let hits = literal("\u{130}", "i", options);
    assert_eq!(places(&hits), vec![(1, 1)]);
    assert_eq!(line_offset_of("\u{130}\u{130}x".as_bytes(), 6), 4);
    assert_eq!(line_offset_of("\u{130}\u{130}x".as_bytes(), 4), 2);
    assert_eq!(line_offset_of("\u{130}\u{130}x".as_bytes(), 0), 0);
    assert_eq!(line_offset_of("\u{130}\u{130}x".as_bytes(), 7), 5);
    assert_eq!(line_offset_of(b"abc", 2), 2);
    assert_eq!(line_offset_of(b"abc", 9), 3);
}

#[test]
fn literal_with_a_pattern_sign_is_taken_literally() {
    let hits = literal("a.c abc a.c", "a.c", SearchOptions::new());
    assert_eq!(places(&hits), vec![(1, 1), (1, 9)]);
}

#[test]
fn empty_literal_fills_the_results_with_the_first_line() {
    let mut options = SearchOptions::new();
    options.max_results = 3;
    let hits = literal("ab\ncd", "", options);
    assert_eq!(places(&hits), vec![(1, 1), (1, 1), (1, 1)]);
    assert!(literal("", "", options).is_empty());
}

#[test]
fn lines_end_at_carriage_return_line_feed() {
    let hits = literal("a\r\nb\r\n", "\r", SearchOptions::new());
    assert!(hits.is_empty());
    let hits = literal("a\n\nb", "\n", SearchOptions::new());
    assert!(hits.is_empty());
}

#[test]
fn regex_search_reports_each_match() {
    let mut options = SearchOptions::new();
    options.regex = true;
    let hits = literal("ab12 cd345\nnone\n9", "[0-9]+", options);
    assert_eq!(places(&hits), vec![(1, 3), (1, 8), (3, 1)]);
    options.case_sensitive = false;
    let hits = literal("Foo fOO", "foo", options);
    assert_eq!(places(&hits), vec![(1, 1), (1, 5)]);
    options.case_sensitive = true;
    assert!(literal("Foo fOO", "foo", options).is_empty());
    options.max_results = 1;
    assert_eq!(places(&literal("a a a", "a", options)), vec![(1, 1)]);
}

#[test]
fn regex_with_empty_matches() {
    let mut options = SearchOptions::new();
    options.regex = true;
    let hits = literal("ab", "x*", options);
    assert_eq!(places(&hits), vec![(1, 1), (1, 2), (1, 3)]);
}

#[test]
fn regex_that_does_not_compile_fails_the_search() {
    let mut options = SearchOptions::new();
    options.regex = true;
    let mut out = Vec::new();
    assert!(search_in_file(b"abc", "(", options, &mut out).is_err());
    assert!(out.is_empty());
    options.regex = false;
    assert!(search_in_file(b"a(b", "(", options, &mut out).is_ok());
    assert_eq!(out.len(), 1);
    options.regex = true;
    options.max_results = 1;
    assert!(search_in_file(b"abc", "(", options, &mut out).is_ok());
    assert_eq!(out.len(), 1);
}

#[test]
fn references_are_whole_words() {
    let pattern: Pattern = compile_word_pattern("foo", false).unwrap();
    let mut out = Vec::new();
    scan_file_for_references(b"foo(x)\nfoobar\n  y = Foo + foo;\n", &pattern, 1, 50, &mut out);
    assert_eq!(places(&out), vec![(1, 1), (3, 7), (3, 13)]);
    assert_eq!(out[1].preview, b"  y = Foo + foo;".to_vec());
    let context: Vec<usize> = out[1].context.iter().map(|c| c.line).collect();
    assert_eq!(context, vec![2]);
    let strict = compile_word_pattern("foo", true).unwrap();
    let mut out = Vec::new();
    scan_file_for_references(b"Foo foo", &strict, 0, 50, &mut out);
    assert_eq!(places(&out), vec![(1, 5)]);
    let mut capped = Vec::new();
    scan_file_for_references(b"foo foo foo\nfoo", &strict, 0, 2, &mut capped);
    assert_eq!(places(&capped), vec![(1, 1), (1, 5)]);
    scan_file_for_references(b"foo", &strict, 0, 2, &mut capped);
    assert_eq!(capped.len(), 2);
}

#[test]
fn hidden_paths_have_a_name_that_begins_with_a_dot() {
    let path = |names: &[&str]| names.iter().map(|n| n.as_bytes().to_vec()).collect::<Vec<_>>();
    assert!(is_hidden_path(&path(&["a", ".git", "config"])));
    assert!(is_hidden_path(&path(&[".hidden"])));
    assert!(is_hidden_path(&path(&["a", "b", ".c"])));
    assert!(!is_hidden_path(&path(&["a", "b.c", "d."])));
    assert!(!is_hidden_path(&path(&[])));
    assert!(!is_hidden_path(&path(&["", "a"])));
}
