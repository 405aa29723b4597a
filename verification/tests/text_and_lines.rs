use serena_mcp::lines::FileLines;
use serena_mcp::text::{
    bytes_contain, count_chars, ensure_trailing_newline, find_bytes, is_blank_text,
    leading_whitespace, split_lines, starts_with, trim_end, trim_newlines,
};

fn rebuild(lines: &FileLines, final_newline: bool) -> Vec<u8> {
    let mut out = Vec::new();
    for i in 0..lines.len() {
        out.extend_from_slice(lines.text(i));
        if i + 1 < lines.len() || final_newline {
            out.push(b'\n');
        }
    }
    out
}

#[test]
fn line_index_of_empty_content_has_no_lines() {
    let lines = FileLines::new(b"");
    assert_eq!(lines.len(), 0);
    assert_eq!(lines.line_index(0), 0);
    assert_eq!(lines.line_index(17), 0);
}

#[test]
fn line_index_records_cover_the_content() {
    let lines = FileLines::new(b"ab\ncd\n\nlast");
    assert_eq!(lines.len(), 4);
    assert_eq!(lines.bounds(0), (0, 3));
    assert_eq!(lines.bounds(1), (3, 6));
    assert_eq!(lines.bounds(2), (6, 7));
    assert_eq!(lines.bounds(3), (7, 11));
    assert_eq!(lines.text(0), b"ab");
    assert_eq!(lines.text(1), b"cd");
    assert_eq!(lines.text(2), b"");
    assert_eq!(lines.text(3), b"last");
}

#[test]
fn line_index_last_record_ends_at_file_length() {
    let with_newline = FileLines::new(b"one\ntwo\n");
    assert_eq!(with_newline.len(), 2);
    assert_eq!(with_newline.bounds(1), (4, 8));
    let without = FileLines::new(b"one\ntwo");
    assert_eq!(without.len(), 2);
    assert_eq!(without.bounds(1), (4, 7));
}

#[test]
fn line_index_keeps_carriage_returns_in_the_text() {
    let lines = FileLines::new(b"a\r\nb");
    assert_eq!(lines.text(0), b"a\r");
    assert_eq!(lines.text(1), b"b");
}

#[test]
fn line_of_offset_is_the_last_line_starting_at_or_before_it() {
    let lines = FileLines::new(b"ab\ncd\n\nlast");
    assert_eq!(lines.line_index(0), 0);
    assert_eq!(lines.line_index(2), 0);
    assert_eq!(lines.line_index(3), 1);
    assert_eq!(lines.line_index(5), 1);
    assert_eq!(lines.line_index(6), 2);
    assert_eq!(lines.line_index(7), 3);
    assert_eq!(lines.line_index(10), 3);
    assert_eq!(lines.line_index(1000), 3);
}

#[test]
fn line_index_round_trip_on_samples() {
    let samples: Vec<&[u8]> = vec![
        b"",
        b"\n",
        b"a",
        b"a\n",
        b"a\nb",
        b"a\n\n\nb\n",
        b"\n\nx",
        "h\u{e9}llo\nw\u{f6}rld\n".as_bytes(),
        b"a\r\nb\r\n",
    ];
    for content in samples {
        let lines = FileLines::new(content);
        let ends = content.last() == Some(&b'\n');
        assert_eq!(rebuild(&lines, ends), content.to_vec());
    }
}

#[test]
fn leading_whitespace_takes_blanks_and_tabs_only() {
    assert_eq!(leading_whitespace(b"  \tx y"), b"  \t");
    assert_eq!(leading_whitespace(b"x  "), b"");
    assert_eq!(leading_whitespace(b"   "), b"   ");
    assert_eq!(leading_whitespace(b""), b"");
    assert_eq!(leading_whitespace(b"\n  x"), b"");
}

#[test]
fn trim_end_removes_ascii_white_space() {
    assert_eq!(trim_end(b"abc  \t\r\n"), b"abc");
    assert_eq!(trim_end(b"  abc"), b"  abc");
    assert_eq!(trim_end(b" \t "), b"");
    assert_eq!(trim_end(b""), b"");
    assert_eq!(trim_end(b"a\x0b\x0c"), b"a");
}

#[test]
fn trim_end_agrees_with_std_on_unicode_white_space() {
    let samples = [
        "x\u{85}",
        "x\u{a0}",
        "x\u{1680}",
        "x\u{2000}\u{2001}\u{200a}",
        "x\u{2028}\u{2029}",
        "x\u{202f}\u{205f}\u{3000} ",
        "x\u{200b}",
        "x\u{2060}",
        "\u{e9}\u{a0}",
        "\u{3000}",
        "a\u{2003}b\u{2003}",
        "\u{4e00}",
    ];
    for s in samples {
        assert_eq!(trim_end(s.as_bytes()), s.trim_end().as_bytes(), "{:?}", s);
        assert_eq!(is_blank_text(s.as_bytes()), s.trim().is_empty(), "{:?}", s);
    }
}

#[test]
fn blank_text_holds_only_white_space() {
    assert!(is_blank_text(b""));
    assert!(is_blank_text(b" \t\r\n"));
    assert!(!is_blank_text(b" x "));
}

#[test]
fn trim_newlines_strips_line_feeds_on_both_sides_only() {
    assert_eq!(trim_newlines(b"\n\n  a\nb  \n\n"), b"  a\nb  ");
    assert_eq!(trim_newlines(b"\n\n"), b"");
    assert_eq!(trim_newlines(b""), b"");
    assert_eq!(trim_newlines(b" \n"), b" ");
    assert_eq!(trim_newlines(b"a"), b"a");
}

#[test]
fn split_lines_agrees_with_std() {
    let samples = [
        "",
        "a",
        "a\n",
        "a\nb",
        "a\r\nb\r\n",
        "a\rb\n",
        "\n\n",
        "x\r",
        "\r\n",
        "one\n\ntwo\r\n\r\nthree",
    ];
    for s in samples {
        let ours = split_lines(s.as_bytes());
        let theirs: Vec<Vec<u8>> = s.lines().map(|l| l.as_bytes().to_vec()).collect();
        assert_eq!(ours, theirs, "{:?}", s);
    }
}

#[test]
fn count_chars_counts_characters_not_bytes() {
    let s = "h\u{e9}llo \u{4e16}\u{754c}!";
    assert_eq!(count_chars(s.as_bytes(), s.len()), s.chars().count());
    assert_eq!(count_chars(s.as_bytes(), 3), 2);
    assert_eq!(count_chars(s.as_bytes(), 0), 0);
    assert_eq!(count_chars(s.as_bytes(), 1000), s.chars().count());
    assert_eq!(count_chars(b"abc", 2), 2);
}

#[test]
fn find_bytes_gives_the_first_place() {
    assert_eq!(find_bytes(b"abcabc", b"bc", 0), Some(1));
    assert_eq!(find_bytes(b"abcabc", b"bc", 2), Some(4));
    assert_eq!(find_bytes(b"abcabc", b"bc", 5), None);
    assert_eq!(find_bytes(b"abcabc", b"x", 0), None);
    assert_eq!(find_bytes(b"abc", b"", 0), Some(0));
    assert_eq!(find_bytes(b"abc", b"", 3), Some(3));
    assert_eq!(find_bytes(b"abc", b"", 4), None);
    assert_eq!(find_bytes(b"ab", b"abc", 0), None);
    assert!(bytes_contain(b"hello", b"ell"));
    assert!(!bytes_contain(b"hello", b"elo"));
    assert!(starts_with(b"~/x", b"~/"));
    assert!(!starts_with(b"~", b"~/"));
}

#[test]
fn ensure_trailing_newline_adds_one_when_missing() {
    assert_eq!(ensure_trailing_newline(b"abc"), b"abc\n".to_vec());
    assert_eq!(ensure_trailing_newline(b"abc\n"), b"abc\n".to_vec());
    assert_eq!(ensure_trailing_newline(b""), b"\n".to_vec());
}
