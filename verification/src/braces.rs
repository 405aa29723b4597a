//! Bodies in braces: finding the block that follows a declaration.
//!
//! The scan knows three kinds of string literal, delimited by `"`, `'` and
//! a backtick, in which a backslash takes the byte after it along. It is no
//! parser: comments and raw strings are read as code.

use vstd::prelude::*;
use vstd::slice::{slice_subrange, slice_to_vec};

use crate::body::{Body, BodyStyle};
use crate::text::{
    indent_of, is_blank, is_blank_text, leading_whitespace, lines_of, split_lines, texts_of, SPACE,
};

verus! {

pub const OPEN_BRACE: u8 = 0x7B;

pub const CLOSE_BRACE: u8 = 0x7D;

pub const SEMICOLON: u8 = 0x3B;

pub const DOUBLE_QUOTE: u8 = 0x22;

pub const SINGLE_QUOTE: u8 = 0x27;

pub const BACKTICK: u8 = 0x60;

pub const BACKSLASH: u8 = 0x5C;

/// A byte that opens a string literal.
pub open spec fn is_quote(b: u8) -> bool {
    b == DOUBLE_QUOTE || b == SINGLE_QUOTE || b == BACKTICK
}

/// Where the string literal ends whose inside is read from offset `i` on:
/// the offset just after the first `quote` that no backslash takes along, or
/// the length of `s` when there is none.
pub open spec fn string_end(s: Seq<u8>, quote: u8, i: int) -> int
    decreases s.len() - i + 1,
{
    if i < 0 || i >= s.len() {
        s.len() as int
    } else if s[i] == BACKSLASH {
        string_end(s, quote, i + 2)
    } else if s[i] == quote {
        i + 1
    } else {
        string_end(s, quote, i + 1)
    }
}

/// Where the string literal ends that opens at `index`.
pub open spec fn after_string(s: Seq<u8>, index: int) -> int {
    string_end(s, s[index], index + 1)
}

pub proof fn lemma_string_end_bounds(s: Seq<u8>, quote: u8, i: int)
    requires
        0 <= i <= s.len(),
    ensures
        i <= string_end(s, quote, i) <= s.len(),
    decreases s.len() - i,
{
    if i < s.len() {
        if s[i] == BACKSLASH {
            if i + 2 <= s.len() {
                lemma_string_end_bounds(s, quote, i + 2);
            } else {
                assert(string_end(s, quote, i + 2) == s.len());
            }
        } else if s[i] != quote {
            lemma_string_end_bounds(s, quote, i + 1);
        }
    }
}

/// Skips the string literal that opens at `index` and returns the offset
/// just after it, or the length of `bytes` when it is not closed.
pub fn skip_string(bytes: &[u8], index: usize) -> (r: usize)
    requires
        index < bytes@.len(),
    ensures
        r == after_string(bytes@, index as int),
        index < r <= bytes@.len(),
{
    let n: usize = bytes.len();
    let quote: u8 = bytes[index];
    let mut i: usize = index + 1;
    while i < n
        invariant
            n == bytes@.len(),
            index < i <= n,
            string_end(bytes@, quote, i as int) == after_string(bytes@, index as int),
        decreases n - i,
    {
        let b: u8 = bytes[i];
        if b == BACKSLASH {
            if n - i < 2 {
                assert(string_end(bytes@, quote, i + 2) == n);
                return n;
            }
            i += 2;
        } else if b == quote {
            return i + 1;
        } else {
            i += 1;
        }
    }
    n
}

/// The offset of the closing brace that ends the block in which the scan
/// stands at `cursor`, `depth` blocks deep: braces inside string literals do
/// not count. `None` when the text ends first.
pub open spec fn matching_close(s: Seq<u8>, cursor: int, depth: nat) -> Option<int>
    decreases s.len() - cursor,
{
    if cursor < 0 || cursor >= s.len() {
        None
    } else if s[cursor] == OPEN_BRACE {
        matching_close(s, cursor + 1, depth + 1)
    } else if s[cursor] == CLOSE_BRACE {
        if depth <= 1 {
            Some(cursor)
        } else {
            matching_close(s, cursor + 1, (depth - 1) as nat)
        }
    } else if is_quote(s[cursor]) {
        proof {
            lemma_string_end_bounds(s, s[cursor], cursor + 1);
        }
        matching_close(s, after_string(s, cursor), depth)
    } else {
        matching_close(s, cursor + 1, depth)
    }
}

/// The block that follows offset `index`: the offset just after the first
/// opening brace that stands outside a string literal, and the offset of the
/// closing brace that matches it. `None` when a semicolon comes first, or no
/// brace opens, or the block is not closed.
pub open spec fn brace_block(s: Seq<u8>, index: int) -> Option<(int, int)>
    decreases s.len() - index,
{
    if index < 0 || index >= s.len() {
        None
    } else if s[index] == OPEN_BRACE {
        match matching_close(s, index + 1, 1) {
            Some(close) => Some((index + 1, close)),
            None => None,
        }
    } else if s[index] == SEMICOLON {
        None
    } else if is_quote(s[index]) {
        proof {
            lemma_string_end_bounds(s, s[index], index + 1);
        }
        brace_block(s, after_string(s, index))
    } else {
        brace_block(s, index + 1)
    }
}

/// What is left open when `t` has been read from `cursor` on, `depth`
/// blocks being open there: braces inside string literals do not count.
/// `None` when a brace closes a block that was never opened.
pub open spec fn open_blocks(t: Seq<u8>, cursor: int, depth: nat) -> Option<nat>
    decreases t.len() - cursor,
{
    if cursor < 0 || cursor >= t.len() {
        Some(depth)
    } else if t[cursor] == OPEN_BRACE {
        open_blocks(t, cursor + 1, depth + 1)
    } else if t[cursor] == CLOSE_BRACE {
        if depth == 0 {
            None
        } else {
            open_blocks(t, cursor + 1, (depth - 1) as nat)
        }
    } else if is_quote(t[cursor]) {
        proof {
            lemma_string_end_bounds(t, t[cursor], cursor + 1);
        }
        open_blocks(t, after_string(t, cursor), depth)
    } else {
        open_blocks(t, cursor + 1, depth)
    }
}

/// The braces of `t` balance: read from its start, every closing brace
/// closes a block that is open, and none is left open at its end.
pub open spec fn balanced(t: Seq<u8>) -> bool {
    open_blocks(t, 0, 0) == Some(0nat)
}

/// The extent from `start` to `end` is a block in braces of `content`: an
/// opening brace stands just before it, a closing brace at its end, and the
/// braces between them balance.
pub open spec fn is_brace_block(content: Seq<u8>, start: int, end: int) -> bool {
    &&& 0 < start <= end < content.len()
    &&& content[start - 1] == OPEN_BRACE
    &&& content[end] == CLOSE_BRACE
    &&& balanced(content.subrange(start, end))
}

pub proof fn lemma_matching_close(s: Seq<u8>, cursor: int, depth: nat)
    requires
        0 <= cursor,
    ensures
        matching_close(s, cursor, depth) matches Some(close) ==> cursor <= close < s.len()
            && s[close] == CLOSE_BRACE,
    decreases s.len() - cursor,
{
    if cursor < s.len() {
        if s[cursor] == OPEN_BRACE {
            lemma_matching_close(s, cursor + 1, depth + 1);
        } else if s[cursor] == CLOSE_BRACE {
            if depth > 1 {
                lemma_matching_close(s, cursor + 1, (depth - 1) as nat);
            }
        } else if is_quote(s[cursor]) {
            lemma_string_end_bounds(s, s[cursor], cursor + 1);
            lemma_matching_close(s, after_string(s, cursor), depth);
        } else {
            lemma_matching_close(s, cursor + 1, depth);
        }
    }
}

/// A string literal that ends within the first `end` bytes ends at the same
/// place when only the bytes from `start` to `end` are read.
proof fn lemma_string_end_in_range(s: Seq<u8>, start: int, end: int, quote: u8, i: int)
    requires
        0 <= start <= i,
        start <= end <= s.len(),
        string_end(s, quote, i) <= end,
    ensures
        string_end(s.subrange(start, end), quote, i - start) == string_end(s, quote, i) - start,
    decreases s.len() - i + 1,
{
    let t = s.subrange(start, end);
    if i < s.len() {
        if i + 1 <= s.len() {
            lemma_string_end_bounds(s, quote, i + 1);
        }
        if i + 2 <= s.len() {
            lemma_string_end_bounds(s, quote, i + 2);
        } else {
            assert(string_end(s, quote, i + 2) == s.len());
        }
        assert(i < end);
        assert(t[i - start] == s[i]);
        if s[i] == BACKSLASH {
            if i + 2 <= s.len() {
                lemma_string_end_in_range(s, start, end, quote, i + 2);
            } else {
                assert(string_end(t, quote, i + 2 - start) == t.len());
            }
        } else if s[i] != quote {
            lemma_string_end_in_range(s, start, end, quote, i + 1);
        }
    }
}

/// When the block that is open at `cursor` closes at `end`, the braces
/// from `cursor` to `end` close all but one of the blocks open there.
proof fn lemma_close_balances(s: Seq<u8>, start: int, cursor: int, depth: nat, end: int)
    requires
        0 <= start <= cursor,
        depth >= 1,
        matching_close(s, cursor, depth) == Some(end),
    ensures
        cursor <= end < s.len(),
        open_blocks(s.subrange(start, end), cursor - start, (depth - 1) as nat) == Some(0nat),
    decreases s.len() - cursor,
{
    lemma_matching_close(s, cursor, depth);
    let t = s.subrange(start, end);
    if cursor == end {
        if s[cursor] == OPEN_BRACE {
            lemma_matching_close(s, cursor + 1, depth + 1);
        } else if s[cursor] == CLOSE_BRACE {
            if depth > 1 {
                lemma_matching_close(s, cursor + 1, (depth - 1) as nat);
            }
        } else if is_quote(s[cursor]) {
            lemma_string_end_bounds(s, s[cursor], cursor + 1);
            lemma_matching_close(s, after_string(s, cursor), depth);
        } else {
            lemma_matching_close(s, cursor + 1, depth);
        }
    } else {
        assert(t[cursor - start] == s[cursor]);
        if s[cursor] == OPEN_BRACE {
            lemma_close_balances(s, start, cursor + 1, depth + 1, end);
        } else if s[cursor] == CLOSE_BRACE {
            lemma_close_balances(s, start, cursor + 1, (depth - 1) as nat, end);
        } else if is_quote(s[cursor]) {
            lemma_string_end_bounds(s, s[cursor], cursor + 1);
            let next = after_string(s, cursor);
            lemma_matching_close(s, next, depth);
            lemma_string_end_in_range(s, start, end, s[cursor], cursor + 1);
            lemma_close_balances(s, start, next, depth, end);
        } else {
            lemma_close_balances(s, start, cursor + 1, depth, end);
        }
    }
}

/// The block that follows an offset is a block in braces: it opens after
/// that offset with an opening brace, ends at a closing brace, and the
/// braces between the two balance.
pub proof fn lemma_brace_block(s: Seq<u8>, index: int)
    requires
        0 <= index,
    ensures
        brace_block(s, index) matches Some((start, end)) ==> index < start && is_brace_block(
            s,
            start,
            end,
        ),
    decreases s.len() - index,
{
    if index < s.len() {
        if s[index] == OPEN_BRACE {
            match matching_close(s, index + 1, 1) {
                Some(close) => {
                    lemma_matching_close(s, index + 1, 1);
                    lemma_close_balances(s, index + 1, index + 1, 1, close);
                    assert(open_blocks(s.subrange(index + 1, close), 0, 0) == Some(0nat));
                },
                None => {},
            }
        } else if s[index] == SEMICOLON {
        } else if is_quote(s[index]) {
            lemma_string_end_bounds(s, s[index], index + 1);
            lemma_brace_block(s, after_string(s, index));
        } else {
            lemma_brace_block(s, index + 1);
        }
    }
}

/// Finds the closing brace of the block that opened just before `from`.
fn find_close(bytes: &[u8], from: usize) -> (r: Option<usize>)
    requires
        0 < from <= bytes@.len(),
    ensures
        match r {
            Some(close) => matching_close(bytes@, from as int, 1) == Some(close as int) && from
                <= close < bytes@.len() && bytes@[close as int] == CLOSE_BRACE,
            None => matching_close(bytes@, from as int, 1) is None,
        },
{
    let n: usize = bytes.len();
    let mut depth: usize = 1;
    let mut cursor: usize = from;
    while cursor < n
        invariant
            n == bytes@.len(),
            0 < from <= cursor <= n,
            1 <= depth <= cursor - from + 1,
            matching_close(bytes@, cursor as int, depth as nat) == matching_close(
                bytes@,
                from as int,
                1,
            ),
        decreases n - cursor,
    {
        let b: u8 = bytes[cursor];
        if b == OPEN_BRACE {
            depth += 1;
            cursor += 1;
        } else if b == CLOSE_BRACE {
            depth -= 1;
            if depth == 0 {
                return Some(cursor);
            }
            cursor += 1;
        } else if b == DOUBLE_QUOTE || b == SINGLE_QUOTE || b == BACKTICK {
            cursor = skip_string(bytes, cursor);
        } else {
            cursor += 1;
        }
    }
    None
}

/// Finds the block in braces that follows offset `index`: the offset just
/// after its opening brace and the offset of its closing brace.
pub fn find_brace_block(content: &[u8], index: usize) -> (r: Option<(usize, usize)>)
    ensures
        match r {
            Some((start, end)) => brace_block(content@, index as int) == Some(
                (start as int, end as int),
            ) && index < start <= end < content@.len() && content@[start - 1] == OPEN_BRACE
                && content@[end as int] == CLOSE_BRACE,
            None => brace_block(content@, index as int) is None,
        },
{
    let n: usize = content.len();
    let mut i: usize = index;
    while i < n
        invariant
            n == content@.len(),
            index <= i,
            brace_block(content@, i as int) == brace_block(content@, index as int),
        decreases n - i,
    {
        let b: u8 = content[i];
        if b == OPEN_BRACE {
            return match find_close(content, i + 1) {
                Some(close) => Some((i + 1, close)),
                None => None,
            };
        } else if b == SEMICOLON {
            return None;
        } else if b == DOUBLE_QUOTE || b == SINGLE_QUOTE || b == BACKTICK {
            i = skip_string(content, i);
        } else {
            i += 1;
        }
    }
    None
}

/// The first of `lines` that holds more than white space.
pub open spec fn first_nonblank(lines: Seq<Seq<u8>>) -> Option<Seq<u8>>
    decreases lines.len(),
{
    if lines.len() == 0 {
        None
    } else if !is_blank(lines[0]) {
        Some(lines[0])
    } else {
        first_nonblank(lines.drop_first())
    }
}

/// The indentation to assume of a body that shows none: four blanks more
/// than the declaration.
pub open spec fn default_inner_indent(base_indent: Seq<u8>) -> Seq<u8> {
    base_indent + seq![SPACE, SPACE, SPACE, SPACE]
}

/// The indentation of a body: that of its first line that holds more than
/// white space, or the default when it has no such line.
pub open spec fn inner_indent_of(body: Seq<u8>, base_indent: Seq<u8>) -> Seq<u8> {
    match first_nonblank(lines_of(body)) {
        Some(line) => indent_of(line),
        None => default_inner_indent(base_indent),
    }
}

/// The indentation of the body that lies between `start` and `end`.
pub fn compute_inner_indent(content: &[u8], start: usize, end: usize, base_indent: &[u8]) -> (r:
    Vec<u8>)
    requires
        start <= end <= content@.len(),
    ensures
        r@ == inner_indent_of(content@.subrange(start as int, end as int), base_indent@),
{
    let lines = split_lines(slice_subrange(content, start, end));
    let mut i: usize = 0;
    proof {
        assert(texts_of(lines@).skip(0) =~= texts_of(lines@));
    }
    while i < lines.len()
        invariant
            i <= lines@.len(),
            start <= end <= content@.len(),
            texts_of(lines@) == lines_of(content@.subrange(start as int, end as int)),
            first_nonblank(texts_of(lines@)) == first_nonblank(texts_of(lines@).skip(i as int)),
        decreases lines.len() - i,
    {
        let line = lines[i].as_slice();
        proof {
            let rest = texts_of(lines@).skip(i as int);
            assert(rest[0] == line@);
            assert(rest.drop_first() =~= texts_of(lines@).skip(i + 1));
        }
        if !is_blank_text(line) {
            return slice_to_vec(leading_whitespace(line));
        }
        i += 1;
    }
    let mut indent = slice_to_vec(base_indent);
    indent.push(SPACE);
    indent.push(SPACE);
    indent.push(SPACE);
    indent.push(SPACE);
    proof {
        assert(indent@ =~= default_inner_indent(base_indent@));
    }
    indent
}

/// The body in braces that follows offset `search_start`, for a declaration
/// indented by `indent`.
pub open spec fn brace_body(content: Seq<u8>, search_start: int, indent: Seq<u8>) -> Body {
    match brace_block(content, search_start) {
        Some((start, end)) => Body::Braces {
            start,
            end,
            base_indent: indent,
            inner_indent: inner_indent_of(content.subrange(start, end), indent),
        },
        None => Body::Absent,
    }
}

/// Locates the body in braces that follows offset `search_start`, for a
/// declaration indented by `indent`. What is found is a block in braces
/// that opens after `search_start`.
pub fn locate_brace_body(content: &[u8], search_start: usize, indent: &[u8]) -> (r: BodyStyle)
    ensures
        r@ == brace_body(content@, search_start as int, indent@),
        r@ matches Body::Braces { start, end, .. } ==> search_start < start && is_brace_block(
            content@,
            start,
            end,
        ),
{
    proof {
        lemma_brace_block(content@, search_start as int);
    }
    match find_brace_block(content, search_start) {
        Some((start, end)) => {
            let inner_indent = compute_inner_indent(content, start, end, indent);
            BodyStyle::Braces { start, end, base_indent: slice_to_vec(indent), inner_indent }
        },
        None => BodyStyle::Absent,
    }
}

} // verus!
