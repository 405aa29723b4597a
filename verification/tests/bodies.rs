use serena_mcp::body::{extract_body, BodyStyle};
use serena_mcp::braces::{compute_inner_indent, find_brace_block, locate_brace_body, skip_string};
use serena_mcp::format::{format_brace_body, format_indented_body};
use serena_mcp::indented::{derive_indent_unit, locate_python_body};
use serena_mcp::lines::FileLines;

#[test]
fn skip_string_ends_after_the_closing_quote() {
    assert_eq!(skip_string(b"\"ab\" x", 0), 4);
    assert_eq!(skip_string(b"x 'a' y", 2), 5);
    assert_eq!(skip_string(b"`a`", 0), 3);
}

#[test]
fn skip_string_lets_a_backslash_take_the_next_byte() {
    assert_eq!(skip_string(b"\"a\\\"b\" x", 0), 6);
    assert_eq!(skip_string(b"'\\''", 0), 4);
}

#[test]
fn skip_string_without_end_gives_the_length() {
    assert_eq!(skip_string(b"\"abc", 0), 4);
    assert_eq!(skip_string(b"\"abc\\", 0), 5);
    assert_eq!(skip_string(b"\"", 0), 1);
    assert_eq!(skip_string(b"\"a'", 0), 3);
}

#[test]
fn brace_block_is_found_after_the_start() {
    let content = b"fn f()\n{\n    x;\n}\n";
    assert_eq!(find_brace_block(content, 7), Some((8, 16)));
    assert_eq!(content[7], b'{');
    assert_eq!(content[16], b'}');
}

#[test]
fn brace_block_counts_nested_braces() {
    let content = b"{ a { b } { c { d } } }";
    assert_eq!(find_brace_block(content, 0), Some((1, 22)));
    assert_eq!(find_brace_block(content, 1), Some((5, 8)));
}

#[test]
fn brace_block_skips_braces_in_strings() {
    let content = b"x \"{\" { '}' `{` \"\\\"}\" }";
    let found = find_brace_block(content, 0);
    assert_eq!(found, Some((7, content.len() - 1)));
}

#[test]
fn semicolon_before_any_brace_means_no_body() {
    assert_eq!(find_brace_block(b"fn f(); { }", 0), None);
    assert_eq!(find_brace_block(b"a \";\" { b }", 0), Some((7, 10)));
}

#[test]
fn unclosed_block_means_no_body() {
    assert_eq!(find_brace_block(b"{ { }", 0), None);
    assert_eq!(find_brace_block(b"no braces", 0), None);
    assert_eq!(find_brace_block(b"{ }", 3), None);
    assert_eq!(find_brace_block(b"{ \"unclosed }", 0), None);
}

#[test]
fn empty_block_has_equal_ends() {
    assert_eq!(find_brace_block(b"{}", 0), Some((1, 1)));
}

#[test]
fn inner_indent_is_that_of_the_first_line_with_text() {
    let content = b"{\n\n    a;\n  b;\n}";
    assert_eq!(compute_inner_indent(content, 1, 16, b""), b"    ".to_vec());
    let tabbed = b"{\n\tx\n}";
    assert_eq!(compute_inner_indent(tabbed, 1, 5, b"  "), b"\t".to_vec());
}

#[test]
fn inner_indent_of_an_unindented_body_is_empty() {
    let content = b"{\nx;\n    y;\n}";
    assert_eq!(compute_inner_indent(content, 1, 12, b"  "), b"".to_vec());
}

#[test]
fn inner_indent_of_an_empty_body_is_four_blanks_more() {
    assert_eq!(compute_inner_indent(b"{}", 1, 1, b"  "), b"      ".to_vec());
    assert_eq!(compute_inner_indent(b"{\n \n}", 1, 4, b"\t"), b"\t    ".to_vec());
}

#[test]
fn brace_body_has_start_end_and_indents() {
    let content = b"  fn f()\n  {\n      x;\n  }\n";
    match locate_brace_body(content, 9, b"  ") {
        BodyStyle::Braces { start, end, base_indent, inner_indent } => {
            assert_eq!(start, 12);
            assert_eq!(content[start - 1], b'{');
            assert_eq!(content[end], b'}');
            assert_eq!(base_indent, b"  ".to_vec());
            assert_eq!(inner_indent, b"      ".to_vec());
        }
        _ => panic!("a body in braces was expected"),
    }
    assert!(matches!(locate_brace_body(b"int f();\n", 0, b""), BodyStyle::Absent));
}

#[test]
fn indent_unit_is_what_the_body_adds() {
    assert_eq!(derive_indent_unit(b"      ", b"  "), b"    ".to_vec());
    assert_eq!(derive_indent_unit(b"\t\t", b"\t"), b"\t".to_vec());
    assert_eq!(derive_indent_unit(b"  ", b"    "), b"  ".to_vec());
    assert_eq!(derive_indent_unit(b"", b""), b"    ".to_vec());
    assert_eq!(derive_indent_unit(b"", b"  "), b"    ".to_vec());
}

#[test]
fn python_body_runs_to_the_next_dedent() {
    let content = b"def f():\n    a = 1\n\n    return a\n\ndef g():\n    pass\n";
    let lines = FileLines::new(content);
    match locate_python_body(&lines, 0, b"") {
        BodyStyle::Indented { start, end, base_indent, indent_unit } => {
            assert_eq!(start, 9);
            // the blank line after the body belongs to it
            assert_eq!(end, 33);
            assert_eq!(&content[start..=end], b"    a = 1\n\n    return a\n\n");
            assert_eq!(base_indent, b"".to_vec());
            assert_eq!(indent_unit, b"    ".to_vec());
        }
        _ => panic!("an indented body was expected"),
    }
}

#[test]
fn python_body_skips_blank_lines_before_it() {
    let content = b"class A:\n\n\n  x = 1\n";
    let lines = FileLines::new(content);
    match locate_python_body(&lines, 0, b"") {
        BodyStyle::Indented { start, end, indent_unit, .. } => {
            assert_eq!(start, 11);
            assert_eq!(end, content.len() - 1);
            assert_eq!(indent_unit, b"  ".to_vec());
        }
        _ => panic!("an indented body was expected"),
    }
}

#[test]
fn python_body_is_absent_without_deeper_lines() {
    let content = b"def f(): pass\nx = 1\n";
    let lines = FileLines::new(content);
    assert!(matches!(locate_python_body(&lines, 0, b""), BodyStyle::Absent));
    assert!(matches!(locate_python_body(&lines, 1, b""), BodyStyle::Absent));
    assert!(matches!(locate_python_body(&lines, 7, b""), BodyStyle::Absent));
    let nested = b"    def f():\n    x = 1\n";
    let lines = FileLines::new(nested);
    assert!(matches!(locate_python_body(&lines, 0, b"    "), BodyStyle::Absent));
}

#[test]
fn python_body_at_end_of_file_without_newline() {
    let content = b"def f():\n    return 1";
    let lines = FileLines::new(content);
    match locate_python_body(&lines, 0, b"") {
        BodyStyle::Indented { start, end, .. } => {
            assert_eq!(start, 9);
            assert_eq!(end, content.len() - 1);
        }
        _ => panic!("an indented body was expected"),
    }
}

#[test]
fn extract_body_trims_line_feeds_only() {
    let content = b"{\n    x;\n}";
    let braces = BodyStyle::Braces {
        start: 1,
        end: 9,
        base_indent: Vec::new(),
        inner_indent: b"    ".to_vec(),
    };
    assert_eq!(extract_body(content, &braces), Some(b"    x;".to_vec()));
    let indented = BodyStyle::Indented {
        start: 2,
        end: 8,
        base_indent: Vec::new(),
        indent_unit: b"    ".to_vec(),
    };
    assert_eq!(extract_body(content, &indented), Some(b"    x;".to_vec()));
    assert_eq!(extract_body(content, &BodyStyle::Absent), None);
}

#[test]
fn extract_body_refuses_empty_or_outlying_extents() {
    let content = b"{}";
    let empty = BodyStyle::Braces {
        start: 1,
        end: 1,
        base_indent: Vec::new(),
        inner_indent: Vec::new(),
    };
    assert_eq!(extract_body(content, &empty), None);
    let outside = BodyStyle::Braces {
        start: 1,
        end: 3,
        base_indent: Vec::new(),
        inner_indent: Vec::new(),
    };
    assert_eq!(extract_body(content, &outside), None);
    let beyond = BodyStyle::Indented {
        start: 0,
        end: 2,
        base_indent: Vec::new(),
        indent_unit: Vec::new(),
    };
    assert_eq!(extract_body(content, &beyond), None);
}

#[test]
fn brace_body_is_laid_out_between_the_braces() {
    assert_eq!(
        format_brace_body(b"println!(\"bye\");\n", b"", b"    "),
        b"\n    println!(\"bye\");\n".to_vec()
    );
    assert_eq!(
        format_brace_body(b"\n\na;  \n\n  b;\t\n\n", b"  ", b"      "),
        b"\n      a;\n      \n        b;\n  ".to_vec()
    );
}

#[test]
fn empty_brace_body_leaves_the_closing_indent() {
    assert_eq!(format_brace_body(b"", b"  ", b"    "), b"\n  ".to_vec());
    assert_eq!(format_brace_body(b"\n\n", b"", b"    "), b"\n".to_vec());
}

#[test]
fn indented_body_is_prefixed_line_by_line() {
    assert_eq!(format_indented_body(b"return 2\n", b"", b"    "), b"    return 2\n".to_vec());
    assert_eq!(
        format_indented_body(b"a = 1  \n\nreturn a", b"  ", b"  "),
        b"    a = 1\n    \n    return a\n".to_vec()
    );
}

#[test]
fn empty_indented_body_becomes_pass() {
    assert_eq!(format_indented_body(b"", b"  ", b"    "), b"      pass\n".to_vec());
    assert_eq!(format_indented_body(b"\n", b"", b"\t"), b"\tpass\n".to_vec());
}
