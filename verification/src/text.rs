//! Byte-level text helpers shared by the rest of the crate.
//!
//! Text is held as UTF-8 bytes; offsets are byte offsets.

use vstd::prelude::*;
use vstd::string::StringSliceAdditionalSpecFns;

verus! {

pub const NEWLINE: u8 = 0x0A;

pub const CARRIAGE_RETURN: u8 = 0x0D;

pub const SPACE: u8 = 0x20;

pub const TAB: u8 = 0x09;

/// A blank or a tab: the bytes that count as indentation.
pub open spec fn is_indent_byte(b: u8) -> bool {
    b == SPACE || b == TAB
}

/// Number of indentation bytes at the start of `s`.
pub open spec fn indent_width(s: Seq<u8>) -> nat
    decreases s.len(),
{
    if s.len() > 0 && is_indent_byte(s[0]) {
        1 + indent_width(s.drop_first())
    } else {
        0
    }
}

/// The indentation at the start of `s`.
pub open spec fn indent_of(s: Seq<u8>) -> Seq<u8> {
    s.take(indent_width(s) as int)
}

/// `n` is the indentation width of `s` when the first `n` bytes are
/// indentation and the byte after them, if any, is not.
pub proof fn lemma_indent_width(s: Seq<u8>, n: int)
    requires
        0 <= n <= s.len(),
        forall|i: int| 0 <= i < n ==> is_indent_byte(#[trigger] s[i]),
        n < s.len() ==> !is_indent_byte(s[n]),
    ensures
        indent_width(s) == n,
    decreases n,
{
    if n > 0 {
        let t = s.drop_first();
        assert forall|i: int| 0 <= i < n - 1 implies is_indent_byte(#[trigger] t[i]) by {
            assert(t[i] == s[i + 1]);
        }
        if n - 1 < t.len() {
            assert(t[n - 1] == s[n]);
        }
        lemma_indent_width(t, n - 1);
    }
}

pub proof fn lemma_indent_width_bounds(s: Seq<u8>)
    ensures
        indent_width(s) <= s.len(),
        forall|i: int| 0 <= i < indent_width(s) ==> is_indent_byte(#[trigger] s[i]),
        indent_width(s) < s.len() ==> !is_indent_byte(s[indent_width(s) as int]),
    decreases s.len(),
{
    if s.len() > 0 && is_indent_byte(s[0]) {
        let t = s.drop_first();
        lemma_indent_width_bounds(t);
        assert forall|i: int| 0 <= i < indent_width(s) implies is_indent_byte(#[trigger] s[i]) by {
            if i > 0 {
                assert(s[i] == t[i - 1]);
            }
        }
        if indent_width(s) < s.len() {
            assert(s[indent_width(s) as int] == t[indent_width(t) as int]);
        }
    }
}

/// The leading blanks and tabs of `s`.
pub fn leading_whitespace(s: &[u8]) -> (r: &[u8])
    ensures
        r@ == indent_of(s@),
{
    let mut end: usize = 0;
    while end < s.len() && (s[end] == SPACE || s[end] == TAB)
        invariant
            end <= s.len(),
            forall|i: int| 0 <= i < end ==> is_indent_byte(#[trigger] s@[i]),
        decreases s.len() - end,
    {
        end += 1;
    }
    proof {
        lemma_indent_width(s@, end as int);
    }
    vstd::slice::slice_subrange(s, 0, end)
}

/// Whether `a` and `b` hold the same bytes.
pub fn bytes_eq(a: &[u8], b: &[u8]) -> (r: bool)
    ensures
        r == (a@ == b@),
{
    if a.len() != b.len() {
        return false;
    }
    let mut i: usize = 0;
    while i < a.len()
        invariant
            a@.len() == b@.len(),
            i <= a@.len(),
            forall|j: int| 0 <= j < i ==> a@[j] == b@[j],
        decreases a.len() - i,
    {
        if a[i] != b[i] {
            return false;
        }
        i += 1;
    }
    assert(a@ =~= b@);
    true
}

/// `s` with every leading `b` removed.
pub open spec fn strip_leading(s: Seq<u8>, b: u8) -> Seq<u8>
    decreases s.len(),
{
    if s.len() > 0 && s[0] == b {
        strip_leading(s.drop_first(), b)
    } else {
        s
    }
}

/// `s` with every trailing `b` removed.
pub open spec fn strip_trailing(s: Seq<u8>, b: u8) -> Seq<u8>
    decreases s.len(),
{
    if s.len() > 0 && s.last() == b {
        strip_trailing(s.drop_last(), b)
    } else {
        s
    }
}

/// `s` without the line feeds at its start and at its end.
pub open spec fn trim_newlines_of(s: Seq<u8>) -> Seq<u8> {
    strip_trailing(strip_leading(s, NEWLINE), NEWLINE)
}

/// `s` without the line feeds at its start and at its end.
pub fn trim_newlines(s: &[u8]) -> (r: &[u8])
    ensures
        r@ == trim_newlines_of(s@),
{
    let n: usize = s.len();
    let mut a: usize = 0;
    proof {
        assert(s@.skip(0) =~= s@);
    }
    while a < n && s[a] == NEWLINE
        invariant
            n == s@.len(),
            a <= n,
            strip_leading(s@, NEWLINE) == strip_leading(s@.skip(a as int), NEWLINE),
        decreases n - a,
    {
        proof {
            assert(s@.skip(a as int).drop_first() =~= s@.skip(a + 1));
        }
        a += 1;
    }
    let ghost t = s@.skip(a as int);
    assert(strip_leading(s@, NEWLINE) == t);
    let mut b: usize = n;
    proof {
        assert(t.take(t.len() as int) =~= t);
    }
    while b > a && s[b - 1] == NEWLINE
        invariant
            n == s@.len(),
            a <= b <= n,
            t == s@.skip(a as int),
            strip_trailing(t, NEWLINE) == strip_trailing(t.take(b - a), NEWLINE),
        decreases b,
    {
        proof {
            assert(t.take(b - a).last() == s@[b - 1]);
            assert(t.take(b - a).drop_last() =~= t.take(b - a - 1));
        }
        b -= 1;
    }
    proof {
        let u = t.take(b - a);
        if u.len() > 0 {
            assert(u.last() == s@[b - 1]);
        }
        assert(strip_trailing(u, NEWLINE) == u);
        assert(u =~= s@.subrange(a as int, b as int));
    }
    vstd::slice::slice_subrange(s, a, b)
}

/// A white-space character that takes one byte: tab, line feed, vertical
/// tab, form feed, carriage return or blank.
pub open spec fn is_space_byte(b: u8) -> bool {
    (0x09 <= b <= 0x0D) || b == 0x20
}

/// A white-space character that takes two bytes: U+0085 or U+00A0.
pub open spec fn is_space_pair(a: u8, b: u8) -> bool {
    a == 0xC2 && (b == 0x85 || b == 0xA0)
}

/// A white-space character that takes three bytes: U+1680, U+2000 to
/// U+200A, U+2028, U+2029, U+202F, U+205F or U+3000.
pub open spec fn is_space_triple(a: u8, b: u8, c: u8) -> bool {
    ||| a == 0xE1 && b == 0x9A && c == 0x80
    ||| a == 0xE2 && b == 0x80 && ((0x80 <= c <= 0x8A) || c == 0xA8 || c == 0xA9 || c == 0xAF)
    ||| a == 0xE2 && b == 0x81 && c == 0x9F
    ||| a == 0xE3 && b == 0x80 && c == 0x80
}

/// Number of bytes of the white-space character that `s` ends with; 0 when
/// it ends with none.
pub open spec fn trailing_space_len(s: Seq<u8>) -> int {
    let n = s.len() as int;
    if n >= 1 && is_space_byte(s[n - 1]) {
        1
    } else if n >= 2 && is_space_pair(s[n - 2], s[n - 1]) {
        2
    } else if n >= 3 && is_space_triple(s[n - 3], s[n - 2], s[n - 1]) {
        3
    } else {
        0
    }
}

/// Length of `s` once the white space at its end is removed.
pub open spec fn trimmed_len(s: Seq<u8>) -> int
    decreases s.len(),
{
    let k = trailing_space_len(s);
    if k == 0 {
        s.len() as int
    } else {
        trimmed_len(s.take(s.len() - k))
    }
}

/// `s` without the white space at its end.
pub open spec fn trim_end_of(s: Seq<u8>) -> Seq<u8> {
    s.take(trimmed_len(s))
}

/// `s` holds nothing but white space.
pub open spec fn is_blank(s: Seq<u8>) -> bool {
    trimmed_len(s) == 0
}

pub proof fn lemma_trimmed_len_bounds(s: Seq<u8>)
    ensures
        0 <= trimmed_len(s) <= s.len(),
        trailing_space_len(trim_end_of(s)) == 0,
    decreases s.len(),
{
    let k = trailing_space_len(s);
    if k == 0 {
        assert(s.take(s.len() as int) =~= s);
    } else {
        let t = s.take(s.len() - k);
        lemma_trimmed_len_bounds(t);
        assert(t.take(trimmed_len(t)) =~= s.take(trimmed_len(t)));
    }
}

/// Number of bytes of the white-space character that ends the first `end`
/// bytes of `s`.
fn trailing_space(s: &[u8], end: usize) -> (k: usize)
    requires
        end <= s@.len(),
    ensures
        k == trailing_space_len(s@.take(end as int)),
        k <= end,
{
    let ghost t = s@.take(end as int);
    if end >= 1 {
        let c: u8 = s[end - 1];
        assert(c == t[end - 1]);
        if (0x09 <= c && c <= 0x0D) || c == 0x20 {
            return 1;
        }
        if end >= 2 {
            let b: u8 = s[end - 2];
            assert(b == t[end - 2]);
            if b == 0xC2 && (c == 0x85 || c == 0xA0) {
                return 2;
            }
            if end >= 3 {
                let a: u8 = s[end - 3];
                assert(a == t[end - 3]);
                if (a == 0xE1 && b == 0x9A && c == 0x80) || (a == 0xE2 && b == 0x80 && ((0x80 <= c
                    && c <= 0x8A) || c == 0xA8 || c == 0xA9 || c == 0xAF)) || (a == 0xE2 && b
                    == 0x81 && c == 0x9F) || (a == 0xE3 && b == 0x80 && c == 0x80) {
                    return 3;
                }
            }
        }
    }
    0
}

/// `s` without the white space at its end.
pub fn trim_end(s: &[u8]) -> (r: &[u8])
    ensures
        r@ == trim_end_of(s@),
{
    let mut end: usize = s.len();
    proof {
        assert(s@.take(end as int) =~= s@);
    }
    loop
        invariant
            end <= s@.len(),
            trimmed_len(s@) == trimmed_len(s@.take(end as int)),
        ensures
            end <= s@.len(),
            trimmed_len(s@) == end,
        decreases end,
    {
        let k: usize = trailing_space(s, end);
        if k == 0 {
            break ;
        }
        proof {
            assert(s@.take(end as int).take(end - k) =~= s@.take(end - k));
        }
        end -= k;
    }
    vstd::slice::slice_subrange(s, 0, end)
}

/// Whether `s` holds nothing but white space.
pub fn is_blank_text(s: &[u8]) -> (r: bool)
    ensures
        r == is_blank(s@),
{
    let t = trim_end(s);
    proof {
        lemma_trimmed_len_bounds(s@);
    }
    t.len() == 0
}

/// `s` ends with the byte `b`.
pub open spec fn ends_with_byte(s: Seq<u8>, b: u8) -> bool {
    s.len() > 0 && s.last() == b
}

/// `body`, followed by a line feed unless it ends with one.
pub open spec fn with_trailing_newline(body: Seq<u8>) -> Seq<u8> {
    if ends_with_byte(body, NEWLINE) {
        body
    } else {
        body.push(NEWLINE)
    }
}

/// Appends a line feed to `body` unless it ends with one.
pub fn ensure_trailing_newline(body: &[u8]) -> (r: Vec<u8>)
    ensures
        r@ == with_trailing_newline(body@),
{
    let mut owned = vstd::slice::slice_to_vec(body);
    let n: usize = body.len();
    if n > 0 && body[n - 1] == NEWLINE {
        owned
    } else {
        owned.push(NEWLINE);
        owned
    }
}

/// Offset of the first line feed of `s`, or its length when it has none.
pub open spec fn first_newline(s: Seq<u8>) -> nat
    decreases s.len(),
{
    if s.len() == 0 || s[0] == NEWLINE {
        0
    } else {
        1 + first_newline(s.drop_first())
    }
}

/// `s` without the carriage return at its end, if it has one.
pub open spec fn strip_cr(s: Seq<u8>) -> Seq<u8> {
    if s.len() > 0 && s.last() == CARRIAGE_RETURN {
        s.drop_last()
    } else {
        s
    }
}

/// The lines of `s`. A line ends at a line feed, or at a carriage return
/// followed by a line feed, neither of which belongs to it; what follows the
/// last line feed is a line too unless it is empty.
pub open spec fn lines_of(s: Seq<u8>) -> Seq<Seq<u8>>
    decreases s.len(),
{
    if s.len() == 0 {
        Seq::empty()
    } else {
        let n = first_newline(s);
        if n >= s.len() {
            seq![s]
        } else {
            seq![strip_cr(s.take(n as int))] + lines_of(s.skip(n as int + 1))
        }
    }
}

pub proof fn lemma_first_newline(s: Seq<u8>, n: int)
    requires
        0 <= n <= s.len(),
        forall|i: int| 0 <= i < n ==> #[trigger] s[i] != NEWLINE,
        n < s.len() ==> s[n] == NEWLINE,
    ensures
        first_newline(s) == n,
    decreases n,
{
    if n > 0 {
        let t = s.drop_first();
        assert forall|i: int| 0 <= i < n - 1 implies #[trigger] t[i] != NEWLINE by {
            assert(t[i] == s[i + 1]);
        }
        if n - 1 < t.len() {
            assert(t[n - 1] == s[n]);
        }
        lemma_first_newline(t, n - 1);
    }
}

/// The texts that a vector of byte strings holds.
pub open spec fn texts_of(v: Seq<Vec<u8>>) -> Seq<Seq<u8>> {
    v.map_values(|t: Vec<u8>| t@)
}

/// Splits `s` into its lines.
pub fn split_lines(s: &[u8]) -> (r: Vec<Vec<u8>>)
    ensures
        texts_of(r@) == lines_of(s@),
        forall|i: int| 0 <= i < r@.len() ==> (#[trigger] r@[i])@.len() <= s@.len(),
{
    let mut out: Vec<Vec<u8>> = Vec::new();
    let n: usize = s.len();
    let mut offset: usize = 0;
    proof {
        assert(s@.skip(0) =~= s@);
        assert(texts_of(out@) =~= Seq::<Seq<u8>>::empty());
    }
    while offset < n
        invariant
            n == s@.len(),
            offset <= n,
            lines_of(s@) == texts_of(out@) + lines_of(s@.skip(offset as int)),
            forall|i: int| 0 <= i < out@.len() ==> (#[trigger] out@[i])@.len() <= n,
        decreases n - offset,
    {
        let ghost rest = s@.skip(offset as int);
        let mut cur: usize = offset;
        while cur < n && s[cur] != NEWLINE
            invariant
                n == s@.len(),
                offset <= cur <= n,
                forall|j: int| offset <= j < cur ==> s@[j] != NEWLINE,
            decreases n - cur,
        {
            cur += 1;
        }
        proof {
            assert forall|i: int| 0 <= i < cur - offset implies #[trigger] rest[i] != NEWLINE by {
                assert(rest[i] == s@[offset + i]);
            }
            lemma_first_newline(rest, cur - offset);
        }
        let ghost before = out@;
        if cur == n {
            let piece = vstd::slice::slice_to_vec(vstd::slice::slice_subrange(s, offset, n));
            out.push(piece);
            proof {
                assert(piece@ =~= rest);
                assert(s@.skip(n as int) =~= Seq::<u8>::empty());
                assert(texts_of(out@) =~= texts_of(before) + seq![rest]);
            }
            offset = n;
        } else {
            let stop: usize = if cur > offset && s[cur - 1] == CARRIAGE_RETURN {
                cur - 1
            } else {
                cur
            };
            let piece = vstd::slice::slice_to_vec(vstd::slice::slice_subrange(s, offset, stop));
            out.push(piece);
            proof {
                let line = rest.take(cur - offset);
                if line.len() > 0 {
                    assert(line.last() == s@[cur - 1]);
                }
                assert(piece@ =~= strip_cr(line));
                assert(rest.skip(cur - offset + 1) =~= s@.skip(cur + 1));
                assert(texts_of(out@) =~= texts_of(before) + seq![strip_cr(line)]);
            }
            offset = cur + 1;
        }
    }
    proof {
        assert(s@.skip(n as int) =~= Seq::<u8>::empty());
    }
    out
}

/// A byte that continues a character begun by an earlier byte.
pub open spec fn is_continuation(b: u8) -> bool {
    0x80 <= b < 0xC0
}

/// Number of characters that begin in `s`: its bytes but for those that
/// continue a character.
pub open spec fn char_count(s: Seq<u8>) -> nat
    decreases s.len(),
{
    if s.len() == 0 {
        0
    } else if is_continuation(s.last()) {
        char_count(s.drop_last())
    } else {
        char_count(s.drop_last()) + 1
    }
}

pub proof fn lemma_char_count_bound(s: Seq<u8>)
    ensures
        char_count(s) <= s.len(),
    decreases s.len(),
{
    if s.len() > 0 {
        lemma_char_count_bound(s.drop_last());
    }
}

/// Counts the characters that begin in the first `upto` bytes of `s`, or in
/// all of it when it is shorter.
pub fn count_chars(s: &[u8], upto: usize) -> (r: usize)
    ensures
        r == char_count(s@.take(if upto <= s@.len() { upto as int } else { s@.len() as int })),
{
    let stop: usize = if upto <= s.len() {
        upto
    } else {
        s.len()
    };
    let mut count: usize = 0;
    let mut i: usize = 0;
    proof {
        assert(s@.take(0) =~= Seq::<u8>::empty());
    }
    while i < stop
        invariant
            i <= stop <= s@.len(),
            count == char_count(s@.take(i as int)),
            count <= i,
        decreases stop - i,
    {
        proof {
            assert(s@.take(i + 1).drop_last() =~= s@.take(i as int));
            assert(s@.take(i + 1).last() == s@[i as int]);
        }
        let b: u8 = s[i];
        if !(0x80 <= b && b < 0xC0) {
            count += 1;
        }
        i += 1;
    }
    count
}

/// `needle` stands in `h` at offset `i`.
pub open spec fn occurs_at(h: Seq<u8>, needle: Seq<u8>, i: int) -> bool {
    0 <= i && i + needle.len() <= h.len() && h.subrange(i, i + needle.len()) == needle
}

/// Offset of the first place at or after `from` where `needle` stands in
/// `h`.
pub open spec fn first_occurrence(h: Seq<u8>, needle: Seq<u8>, from: int) -> Option<int>
    decreases h.len() - from + 1,
{
    if from < 0 || from + needle.len() > h.len() {
        None
    } else if occurs_at(h, needle, from) {
        Some(from)
    } else {
        first_occurrence(h, needle, from + 1)
    }
}

/// `needle` stands somewhere in `h`.
pub open spec fn contains_bytes(h: Seq<u8>, needle: Seq<u8>) -> bool {
    first_occurrence(h, needle, 0) is Some
}

pub proof fn lemma_first_occurrence(h: Seq<u8>, needle: Seq<u8>, from: int)
    requires
        0 <= from,
    ensures
        match first_occurrence(h, needle, from) {
            Some(i) => from <= i && occurs_at(h, needle, i) && forall|j: int|
                from <= j < i ==> !occurs_at(h, needle, j),
            None => forall|j: int| from <= j ==> !occurs_at(h, needle, j),
        },
    decreases h.len() - from + 1,
{
    if from + needle.len() > h.len() {
    } else if occurs_at(h, needle, from) {
    } else {
        lemma_first_occurrence(h, needle, from + 1);
    }
}

/// Whether `needle` stands in `h` at offset `at`.
fn matches_at(h: &[u8], needle: &[u8], at: usize) -> (r: bool)
    requires
        at + needle@.len() <= h@.len(),
    ensures
        r == occurs_at(h@, needle@, at as int),
{
    let n: usize = h.len();
    let m: usize = needle.len();
    let mut k: usize = 0;
    while k < m
        invariant
            n == h@.len(),
            m == needle@.len(),
            k <= m,
            at + m <= n,
            forall|j: int| 0 <= j < k ==> h@[at + j] == needle@[j],
        decreases m - k,
    {
        if h[at + k] != needle[k] {
            proof {
                assert(h@.subrange(at as int, at + m)[k as int] == h@[at + k]);
            }
            return false;
        }
        k += 1;
    }
    proof {
        assert(h@.subrange(at as int, at + m) =~= needle@);
    }
    true
}

/// Finds the first place at or after `from` where `needle` stands in `h`.
pub fn find_bytes(h: &[u8], needle: &[u8], from: usize) -> (r: Option<usize>)
    ensures
        match r {
            Some(i) => first_occurrence(h@, needle@, from as int) == Some(i as int),
            None => first_occurrence(h@, needle@, from as int) is None,
        },
{
    let n: usize = h.len();
    let m: usize = needle.len();
    if m > n || from > n - m {
        return None;
    }
    let mut i: usize = from;
    loop
        invariant
            n == h@.len(),
            m == needle@.len(),
            m <= n,
            from <= i <= n - m,
            first_occurrence(h@, needle@, from as int) == first_occurrence(h@, needle@, i as int),
        decreases n - m - i,
    {
        if matches_at(h, needle, i) {
            return Some(i);
        }
        if i == n - m {
            assert(first_occurrence(h@, needle@, i + 1) is None);
            return None;
        }
        i += 1;
    }
}

/// Whether `needle` stands somewhere in `h`.
pub fn bytes_contain(h: &[u8], needle: &[u8]) -> (r: bool)
    ensures
        r == contains_bytes(h@, needle@),
{
    find_bytes(h, needle, 0).is_some()
}

/// `s` begins with `prefix`.
pub open spec fn has_prefix(s: Seq<u8>, prefix: Seq<u8>) -> bool {
    prefix.len() <= s.len() && s.take(prefix.len() as int) == prefix
}

/// Whether `s` begins with `prefix`.
pub fn starts_with(s: &[u8], prefix: &[u8]) -> (r: bool)
    ensures
        r == has_prefix(s@, prefix@),
{
    if prefix.len() > s.len() {
        return false;
    }
    let r = matches_at(s, prefix, 0);
    proof {
        assert(s@.subrange(0, prefix@.len() as int) =~= s@.take(prefix@.len() as int));
    }
    r
}

/// Whether `bytes` holds exactly the text `literal`.
pub fn is_text(bytes: &[u8], literal: &str) -> (r: bool)
    ensures
        r == (bytes@ == literal.spec_bytes()),
{
    bytes_eq(bytes, literal.as_bytes())
}

/// Offset of the last `b` in `s`, or -1 when it holds none.
pub open spec fn last_position(s: Seq<u8>, b: u8) -> int
    decreases s.len(),
{
    if s.len() == 0 {
        -1
    } else if s.last() == b {
        s.len() - 1
    } else {
        last_position(s.drop_last(), b)
    }
}

pub proof fn lemma_last_position_bounds(s: Seq<u8>, b: u8)
    ensures
        -1 <= last_position(s, b) < s.len(),
        last_position(s, b) >= 0 ==> s[last_position(s, b)] == b,
    decreases s.len(),
{
    if s.len() > 0 && s.last() != b {
        lemma_last_position_bounds(s.drop_last(), b);
    }
}

/// Finds the last `b` in `s`.
pub fn last_index_of(s: &[u8], b: u8) -> (r: Option<usize>)
    ensures
        match r {
            Some(i) => last_position(s@, b) == i,
            None => last_position(s@, b) == -1,
        },
{
    let mut i: usize = s.len();
    proof {
        assert(s@.take(i as int) =~= s@);
    }
    while i > 0
        invariant
            i <= s@.len(),
            last_position(s@, b) == last_position(s@.take(i as int), b),
        decreases i,
    {
        proof {
            assert(s@.take(i as int).last() == s@[i - 1]);
            assert(s@.take(i as int).drop_last() =~= s@.take(i - 1));
        }
        if s[i - 1] == b {
            return Some(i - 1);
        }
        i -= 1;
    }
    None
}

} // verus!
