//! Regular expressions, as the `regex` crate provides them.
//!
//! The calls into the crate are not proved: each states what the crate's
//! documentation promises of it. What a pattern matches in a text is given a
//! name, so that callers can say exactly what they do with it.

use vstd::prelude::*;
use vstd::string::StringSliceAdditionalSpecFns;
use vstd::utf8::{decode_utf8, encode_utf8_decode_utf8, valid_utf8};

use crate::unicode::as_text;

verus! {

#[verifier::external_type_specification]
#[verifier::external_body]
pub struct ExRegex(regex::Regex);

#[verifier::external_type_specification]
#[verifier::external_body]
pub struct ExRegexError(regex::Error);

/// Whether `source` compiles as a regular expression.
pub uninterp spec fn pattern_compiles(source: Seq<char>, case_insensitive: bool) -> bool;

/// The matches of `source` in `text`, each as the byte offsets where it
/// starts and ends, in the order in which they are found.
pub uninterp spec fn text_matches(
    source: Seq<char>,
    case_insensitive: bool,
    text: Seq<char>,
) -> Seq<(usize, usize)>;

/// The matches of `source` in `text` with two of their named groups: for
/// each match the span of the whole match, of the group `first` and of the
/// group `second`, a group that took no part being `None`.
pub uninterp spec fn text_captures(
    source: Seq<char>,
    case_insensitive: bool,
    text: Seq<char>,
    first: Seq<char>,
    second: Seq<char>,
) -> Seq<(Option<(usize, usize)>, Option<(usize, usize)>, Option<(usize, usize)>)>;

/// The matches of `source` in the text that `haystack` holds. A haystack
/// that is not UTF-8 has none.
pub closed spec fn pattern_matches(
    source: Seq<char>,
    case_insensitive: bool,
    haystack: Seq<u8>,
) -> Seq<(usize, usize)> {
    if valid_utf8(haystack) {
        text_matches(source, case_insensitive, decode_utf8(haystack))
    } else {
        Seq::empty()
    }
}

/// The matches of `source`, with two of their named groups, in the text
/// that `haystack` holds. A haystack that is not UTF-8 has none.
pub closed spec fn pattern_captures(
    source: Seq<char>,
    case_insensitive: bool,
    haystack: Seq<u8>,
    first: Seq<char>,
    second: Seq<char>,
) -> Seq<(Option<(usize, usize)>, Option<(usize, usize)>, Option<(usize, usize)>)> {
    if valid_utf8(haystack) {
        text_captures(source, case_insensitive, decode_utf8(haystack), first, second)
    } else {
        Seq::empty()
    }
}

/// The characters that have a meaning of their own in a pattern.
pub open spec fn is_meta_char(c: char) -> bool {
    c == '\\' || c == '.' || c == '+' || c == '*' || c == '?' || c == '(' || c == ')' || c == '|'
        || c == '[' || c == ']' || c == '{' || c == '}' || c == '^' || c == '$' || c == '#' || c
        == '&' || c == '-' || c == '~'
}

/// `text` with a backslash before each character that has a meaning of its
/// own in a pattern.
pub open spec fn escaped(text: Seq<char>) -> Seq<char>
    decreases text.len(),
{
    if text.len() == 0 {
        Seq::empty()
    } else if is_meta_char(text.last()) {
        escaped(text.drop_last()).push('\\').push(text.last())
    } else {
        escaped(text.drop_last()).push(text.last())
    }
}

/// A span lies within a text of `len` bytes.
pub open spec fn span_within(span: (usize, usize), len: nat) -> bool {
    span.0 <= span.1 <= len
}

/// Spans lie within a text of `len` bytes, follow one another and do not
/// overlap.
pub open spec fn spans_ordered(spans: Seq<(usize, usize)>, len: nat) -> bool {
    &&& forall|i: int| 0 <= i < spans.len() ==> span_within(#[trigger] spans[i], len)
    &&& forall|i: int, j: int|
        0 <= i < j < spans.len() ==> (#[trigger] spans[i]).1 <= (#[trigger] spans[j]).0
}

/// A group, where it took part, lies within a text of `len` bytes.
pub open spec fn group_within(group: Option<(usize, usize)>, len: nat) -> bool {
    group matches Some(span) ==> span_within(span, len)
}

/// A pattern that does not compile, with what the compiler said of it.
#[derive(Debug)]
pub struct InvalidPattern {
    pub cause: regex::Error,
}

/// A compiled pattern, with the text and the flag it was compiled from.
pub struct Pattern {
    source: String,
    case_insensitive: bool,
    regex: regex::Regex,
}

impl Pattern {
    /// The text this pattern was compiled from.
    pub closed spec fn source(&self) -> Seq<char> {
        self.source@
    }

    /// Whether this pattern ignores case.
    pub closed spec fn case_insensitive(&self) -> bool {
        self.case_insensitive
    }

    /// Compiles `source`, a regular expression. Whether that succeeds
    /// depends on the source and the flag alone.
    pub fn new(source: &str, case_insensitive: bool) -> (r: Result<Pattern, InvalidPattern>)
        ensures
            r is Ok <==> pattern_compiles(source@, case_insensitive),
            r matches Ok(p) ==> p.source() == source@ && p.case_insensitive() == case_insensitive,
    {
        match Pattern::compile(source, case_insensitive) {
            Ok(pattern) => Ok(pattern),
            Err(cause) => Err(InvalidPattern { cause }),
        }
    }

    /// `regex::RegexBuilder::new(source).case_insensitive(..).build()`:
    /// compiles `source`. Whether that succeeds depends on the source and the
    /// flag alone; the pattern that comes back remembers both.
    #[verifier::external_body]
    fn compile(source: &str, case_insensitive: bool) -> (r: Result<
        Pattern,
        regex::Error,
    >)
        ensures
            r is Ok <==> pattern_compiles(source@, case_insensitive),
            r matches Ok(p) ==> p.source() == source@ && p.case_insensitive() == case_insensitive,
    {
        let regex = regex::RegexBuilder::new(source).case_insensitive(case_insensitive).build()?;
        Ok(Pattern { source: source.to_string(), case_insensitive, regex })
    }

    /// `regex::Regex::find_iter`: the successive matches in `text`, which lie
    /// within it and do not overlap.
    #[verifier::external_body]
    fn find_in_text(&self, text: &str) -> (r: Vec<(usize, usize)>)
        ensures
            r@ == text_matches(self.source(), self.case_insensitive(), text@),
            spans_ordered(r@, text.spec_bytes().len()),
    {
        self.regex.find_iter(text).map(|m| (m.start(), m.end())).collect()
    }

    /// `regex::Regex::captures_iter`, with `Captures::get(0)` and
    /// `Captures::name` on each item: the successive matches in `text` with
    /// the spans of the groups named `first` and `second`. Every span lies
    /// within the text.
    #[verifier::external_body]
    fn captures_in_text(&self, text: &str, first: &str, second: &str) -> (r: Vec<
        (Option<(usize, usize)>, Option<(usize, usize)>, Option<(usize, usize)>),
    >)
        ensures
            r@ == text_captures(self.source(), self.case_insensitive(), text@, first@, second@),
            forall|i: int|
                0 <= i < r@.len() ==> {
                    &&& group_within((#[trigger] r@[i]).0, text.spec_bytes().len())
                    &&& group_within(r@[i].1, text.spec_bytes().len())
                    &&& group_within(r@[i].2, text.spec_bytes().len())
                },
    {
        self.regex.captures_iter(text).map(
            |c|
                (
                    c.get(0).map(|m| (m.start(), m.end())),
                    c.name(first).map(|m| (m.start(), m.end())),
                    c.name(second).map(|m| (m.start(), m.end())),
                ),
        ).collect()
    }

    /// Finds the matches of the pattern in the text that `haystack` holds:
    /// they lie within it, follow one another and do not overlap. Bytes that
    /// are not UTF-8 hold no match.
    pub fn find_all(&self, haystack: &[u8]) -> (r: Vec<(usize, usize)>)
        ensures
            r@ == pattern_matches(self.source(), self.case_insensitive(), haystack@),
            spans_ordered(r@, haystack@.len()),
    {
        match as_text(haystack) {
            Some(text) => {
                proof {
                    encode_utf8_decode_utf8(text@);
                }
                self.find_in_text(text)
            },
            None => Vec::new(),
        }
    }

    /// Finds the matches of the pattern in the text that `haystack` holds,
    /// with the spans of the groups named `first` and `second`. Every span
    /// lies within the haystack. Bytes that are not UTF-8 hold no match.
    pub fn captures_all(&self, haystack: &[u8], first: &str, second: &str) -> (r: Vec<
        (Option<(usize, usize)>, Option<(usize, usize)>, Option<(usize, usize)>),
    >)
        ensures
            r@ == pattern_captures(
                self.source(),
                self.case_insensitive(),
                haystack@,
                first@,
                second@,
            ),
            forall|i: int|
                0 <= i < r@.len() ==> {
                    &&& group_within((#[trigger] r@[i]).0, haystack@.len())
                    &&& group_within(r@[i].1, haystack@.len())
                    &&& group_within(r@[i].2, haystack@.len())
                },
    {
        match as_text(haystack) {
            Some(text) => {
                proof {
                    encode_utf8_decode_utf8(text@);
                }
                self.captures_in_text(text, first, second)
            },
            None => Vec::new(),
        }
    }
}

/// `regex::escape`: `text` with a backslash before each character that has a
/// meaning of its own in a pattern.
#[verifier::external_body]
pub(crate) fn escape(text: &str) -> (r: String)
    ensures
        r@ == escaped(text@),
{
    regex::escape(text)
}

} // verus!
