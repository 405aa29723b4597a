//! Replacing a body by its own text: what becomes of the file.
//!
//! A replacement lays the new body out afresh: it puts the indentation of
//! the body before every line, strips white space from the end of every
//! line, and ends the body with a line feed. A body that is indented
//! therefore comes out indented once more. What follows shows that a body in
//! braces that is not indented comes back with its lines trimmed and
//! nothing else changed, and that doing the same again changes nothing more.

use vstd::prelude::*;

use crate::body::Body;
use crate::braces::{first_nonblank, inner_indent_of};
use crate::format::{brace_body_text, indented_lines};
use crate::replace::{body_replaced, splice};
use crate::text::{
    first_newline, indent_of, indent_width, is_blank, is_indent_byte, is_space_byte,
    lemma_first_newline, lemma_trimmed_len_bounds, lines_of, strip_cr, strip_leading,
    strip_trailing, trailing_space_len, trim_end_of, trim_newlines_of, trimmed_len,
    with_trailing_newline, CARRIAGE_RETURN, NEWLINE,
};

verus! {

/// `t` holds no carriage return.
pub open spec fn no_carriage_return(t: Seq<u8>) -> bool {
    forall|i: int| 0 <= i < t.len() ==> #[trigger] t[i] != CARRIAGE_RETURN
}

/// No line of `t` ends with white space.
pub open spec fn lines_are_trimmed(t: Seq<u8>) -> bool {
    forall|i: int|
        0 <= i < lines_of(t).len() ==> trim_end_of(#[trigger] lines_of(t)[i]) == lines_of(t)[i]
}

proof fn lemma_first_newline_found(t: Seq<u8>)
    ensures
        first_newline(t) <= t.len(),
        first_newline(t) < t.len() ==> t[first_newline(t) as int] == NEWLINE,
        forall|i: int| 0 <= i < first_newline(t) ==> #[trigger] t[i] != NEWLINE,
    decreases t.len(),
{
    if t.len() > 0 && t[0] != NEWLINE {
        let rest = t.drop_first();
        lemma_first_newline_found(rest);
        if first_newline(t) < t.len() {
            assert(t[first_newline(t) as int] == rest[first_newline(rest) as int]);
        }
        assert forall|i: int| 0 <= i < first_newline(t) implies #[trigger] t[i] != NEWLINE by {
            if i > 0 {
                assert(t[i] == rest[i - 1]);
            }
        }
    }
}

/// A body that begins, after a line feed, with a line that is neither
/// blank nor indented shows no indentation.
proof fn lemma_unindented_body(text: Seq<u8>)
    requires
        text.len() > 0,
        text[0] != NEWLINE,
        !is_indent_byte(text[0]),
        no_carriage_return(text),
        !is_blank(lines_of(text)[0]),
    ensures
        inner_indent_of(seq![NEWLINE] + text + seq![NEWLINE], Seq::empty()) == Seq::<u8>::empty(),
{
    let between = seq![NEWLINE] + text + seq![NEWLINE];
    let rest = text + seq![NEWLINE];
    // the first line is empty
    assert(between[0] == NEWLINE);
    assert(first_newline(between) == 0);
    assert(between.take(0) =~= Seq::<u8>::empty());
    assert(between.skip(1) =~= rest);
    assert(strip_cr(Seq::<u8>::empty()) == Seq::<u8>::empty());
    assert(lines_of(between) == seq![Seq::<u8>::empty()] + lines_of(rest));
    assert(trimmed_len(Seq::<u8>::empty()) == 0);
    // the second is the first line of the text
    lemma_first_newline_found(text);
    let n = first_newline(text) as int;
    assert(n >= 1);
    let line = text.take(n);
    assert(first_newline(rest) == n) by {
        assert forall|i: int| 0 <= i < n implies #[trigger] rest[i] != NEWLINE by {
            assert(rest[i] == text[i]);
        }
        if n < text.len() {
            assert(rest[n] == text[n]);
        } else {
            assert(rest[n] == NEWLINE);
        }
        lemma_first_newline(rest, n);
    }
    assert(rest.take(n) =~= line);
    assert(strip_cr(line) == line) by {
        assert(line.last() == text[n - 1]);
    }
    assert(lines_of(rest)[0] == line);
    assert(lines_of(text)[0] == line) by {
        if n >= text.len() {
            assert(line =~= text);
        }
    }
    assert(!is_blank(line));
    assert(indent_width(line) == 0) by {
        assert(line[0] == text[0]);
    }
    assert(indent_of(line) =~= Seq::<u8>::empty());
    let lines = lines_of(between);
    assert(lines[0] == Seq::<u8>::empty());
    assert(lines.drop_first() =~= lines_of(rest));
    assert(first_nonblank(lines) == first_nonblank(lines_of(rest)));
    assert(first_nonblank(lines_of(rest)) == Some(line));
}

proof fn lemma_indented_lines_cons(first: Seq<u8>, rest: Seq<Seq<u8>>, indent: Seq<u8>)
    requires
        rest.len() > 0,
    ensures
        indented_lines(seq![first] + rest, indent) == indent + trim_end_of(first) + seq![NEWLINE]
            + indented_lines(rest, indent),
    decreases rest.len(),
{
    let all = seq![first] + rest;
    assert(all.last() == rest.last());
    if rest.len() == 1 {
        assert(all.drop_last() =~= seq![first]);
        assert(indented_lines(seq![first], indent) == indent + trim_end_of(first));
        assert(indented_lines(rest, indent) == indent + trim_end_of(rest[0]));
        assert(indented_lines(all, indent) =~= indent + trim_end_of(first) + seq![NEWLINE]
            + indented_lines(rest, indent));
    } else {
        assert(all.drop_last() =~= seq![first] + rest.drop_last());
        lemma_indented_lines_cons(first, rest.drop_last(), indent);
        assert(indented_lines(all, indent) =~= indent + trim_end_of(first) + seq![NEWLINE]
            + indented_lines(rest, indent));
    }
}

/// The lines of a text, joined by line feeds, give the text back, where it
/// is not empty, does not end with a line feed, holds no carriage return,
/// and no line of it ends with white space.
pub proof fn lemma_lines_join(t: Seq<u8>)
    requires
        t.len() > 0,
        t.last() != NEWLINE,
        no_carriage_return(t),
        lines_are_trimmed(t),
    ensures
        indented_lines(lines_of(t), Seq::empty()) == t,
    decreases t.len(),
{
    let none = Seq::<u8>::empty();
    let n = first_newline(t) as int;
    lemma_first_newline_found(t);
    if n >= t.len() {
        assert(lines_of(t) =~= seq![t]);
        assert(lines_of(t)[0] == t);
        assert(none + trim_end_of(t) =~= t);
    } else {
        let head = t.take(n);
        let rest = t.skip(n + 1);
        assert(n != t.len() - 1);
        assert(rest.len() > 0);
        assert(rest.last() == t.last());
        assert(no_carriage_return(rest)) by {
            assert forall|i: int| 0 <= i < rest.len() implies #[trigger] rest[i]
                != CARRIAGE_RETURN by {
                assert(rest[i] == t[n + 1 + i]);
            }
        }
        assert(strip_cr(head) == head) by {
            if head.len() > 0 {
                assert(head.last() == t[n - 1]);
            }
        }
        let tail = lines_of(rest);
        assert(lines_of(t) == seq![head] + tail);
        assert(lines_are_trimmed(rest)) by {
            assert forall|i: int| 0 <= i < tail.len() implies trim_end_of(#[trigger] tail[i])
                == tail[i] by {
                assert(lines_of(t)[i + 1] == tail[i]);
            }
        }
        lemma_lines_join(rest);
        assert(tail.len() > 0);
        lemma_indented_lines_cons(head, tail, none);
        assert(lines_of(t)[0] == head);
        assert(trim_end_of(head) == head);
        assert(none + head + seq![NEWLINE] + rest =~= t);
    }
}

/// The first line of a text that begins with no line feed and holds no
/// carriage return is not empty and begins as the text does.
proof fn lemma_first_line(text: Seq<u8>)
    requires
        text.len() > 0,
        text[0] != NEWLINE,
        no_carriage_return(text),
    ensures
        lines_of(text).len() > 0,
        lines_of(text)[0].len() > 0,
        lines_of(text)[0][0] == text[0],
{
    lemma_first_newline_found(text);
    let n = first_newline(text) as int;
    assert(n >= 1);
    let line = text.take(n);
    assert(strip_cr(line) == line) by {
        assert(line.last() == text[n - 1]);
    }
    if n >= text.len() {
        assert(line =~= text);
    }
    assert(lines_of(text)[0] == line);
}

/// No line of a text holds a line feed, nor a carriage return where the
/// text holds none.
proof fn lemma_lines_of_bytes(t: Seq<u8>)
    requires
        no_carriage_return(t),
    ensures
        forall|i: int, j: int|
            0 <= i < lines_of(t).len() && 0 <= j < lines_of(t)[i].len() ==> (
            #[trigger] lines_of(t)[i][j]) != NEWLINE && lines_of(t)[i][j] != CARRIAGE_RETURN,
    decreases t.len(),
{
    if t.len() > 0 {
        lemma_first_newline_found(t);
        let n = first_newline(t) as int;
        if n >= t.len() {
            assert(lines_of(t) =~= seq![t]);
        } else {
            let head = t.take(n);
            let rest = t.skip(n + 1);
            assert(no_carriage_return(rest)) by {
                assert forall|i: int| 0 <= i < rest.len() implies #[trigger] rest[i]
                    != CARRIAGE_RETURN by {
                    assert(rest[i] == t[n + 1 + i]);
                }
            }
            lemma_lines_of_bytes(rest);
            let first = strip_cr(head);
            let tail = lines_of(rest);
            assert(lines_of(t) == seq![first] + tail);
            assert forall|i: int, j: int|
                0 <= i < lines_of(t).len() && 0 <= j < lines_of(t)[i].len() implies (
            #[trigger] lines_of(t)[i][j]) != NEWLINE && lines_of(t)[i][j] != CARRIAGE_RETURN by {
                if i == 0 {
                    assert(lines_of(t)[0] == first);
                    assert(first[j] == t[j]);
                } else {
                    assert(lines_of(t)[i] == tail[i - 1]);
                    assert(tail[i - 1][j] != NEWLINE);
                }
            }
        }
    }
}

/// Trimming what is trimmed changes nothing.
proof fn lemma_trim_idempotent(s: Seq<u8>)
    ensures
        trim_end_of(trim_end_of(s)) == trim_end_of(s),
        trim_end_of(s).len() <= s.len(),
        !is_blank(s) ==> trim_end_of(s).len() > 0 && trim_end_of(s)[0] == s[0] && !is_space_byte(
            trim_end_of(s).last(),
        ),
        forall|j: int| 0 <= j < trim_end_of(s).len() ==> (#[trigger] trim_end_of(s)[j]) == s[j],
{
    lemma_trimmed_len_bounds(s);
    let t = trim_end_of(s);
    assert(trailing_space_len(t) == 0);
    assert(trimmed_len(t) == t.len());
    assert(t.take(t.len() as int) =~= t);
}

/// The lines of a text, each without the white space at its end.
pub open spec fn trimmed_lines(lines: Seq<Seq<u8>>) -> Seq<Seq<u8>> {
    lines.map_values(|line: Seq<u8>| trim_end_of(line))
}

/// Laying out lines gives the same as laying out the trimmed lines.
proof fn lemma_indented_lines_of_trimmed(lines: Seq<Seq<u8>>, indent: Seq<u8>)
    ensures
        indented_lines(trimmed_lines(lines), indent) == indented_lines(lines, indent),
    decreases lines.len(),
{
    let trimmed = trimmed_lines(lines);
    if lines.len() > 0 {
        lemma_trim_idempotent(lines.last());
        assert(trimmed.last() == trim_end_of(lines.last()));
        if lines.len() == 1 {
            lemma_trim_idempotent(lines[0]);
            assert(trimmed[0] == trim_end_of(lines[0]));
        } else {
            assert(trimmed.drop_last() =~= trimmed_lines(lines.drop_last()));
            lemma_indented_lines_of_trimmed(lines.drop_last(), indent);
        }
    }
}

/// Lines that are joined by line feeds are found again when the text is
/// split, provided that they hold no line feed and no carriage return, end
/// with no white space, and the last of them is not empty.
proof fn lemma_split_joined(lines: Seq<Seq<u8>>)
    requires
        lines.len() >= 1,
        forall|i: int, j: int|
            0 <= i < lines.len() && 0 <= j < lines[i].len() ==> (#[trigger] lines[i][j]) != NEWLINE
                && lines[i][j] != CARRIAGE_RETURN,
        forall|i: int| 0 <= i < lines.len() ==> trim_end_of(#[trigger] lines[i]) == lines[i],
        lines.last().len() > 0,
    ensures
        lines_of(indented_lines(lines, Seq::empty())) == lines,
        indented_lines(lines, Seq::empty()).len() > 0,
        indented_lines(lines, Seq::empty()).last() == lines.last().last(),
        lines[0].len() > 0 ==> indented_lines(lines, Seq::empty())[0] == lines[0][0],
        no_carriage_return(indented_lines(lines, Seq::empty())),
    decreases lines.len(),
{
    let none = Seq::<u8>::empty();
    let a = lines[0];
    let rest = lines.drop_first();
    let joined = indented_lines(lines, none);
    assert(trim_end_of(a) == a);
    assert forall|j: int| 0 <= j < a.len() implies #[trigger] a[j] != NEWLINE by {
        assert(lines[0][j] != NEWLINE);
    }
    if lines.len() == 1 {
        assert(joined =~= a);
        lemma_first_newline(a, a.len() as int);
        assert(lines_of(a) =~= seq![a]);
        assert(lines =~= seq![a]);
        assert forall|j: int| 0 <= j < a.len() implies #[trigger] a[j] != CARRIAGE_RETURN by {
            assert(lines[0][j] != CARRIAGE_RETURN);
        }
    } else {
        assert(lines =~= seq![a] + rest);
        assert forall|i: int, j: int|
            0 <= i < rest.len() && 0 <= j < rest[i].len() implies (#[trigger] rest[i][j])
                != NEWLINE && rest[i][j] != CARRIAGE_RETURN by {
            assert(rest[i] == lines[i + 1]);
            assert(lines[i + 1][j] != NEWLINE);
        }
        assert forall|i: int| 0 <= i < rest.len() implies trim_end_of(#[trigger] rest[i])
            == rest[i] by {
            assert(rest[i] == lines[i + 1]);
        }
        assert(rest.last() == lines.last());
        lemma_split_joined(rest);
        lemma_indented_lines_cons(a, rest, none);
        let tail = indented_lines(rest, none);
        assert(joined =~= a + seq![NEWLINE] + tail);
        let n = a.len() as int;
        assert forall|j: int| 0 <= j < n implies #[trigger] joined[j] != NEWLINE by {
            assert(joined[j] == a[j]);
        }
        assert(joined[n] == NEWLINE);
        lemma_first_newline(joined, n);
        assert(joined.take(n) =~= a);
        assert(strip_cr(a) == a) by {
            if a.len() > 0 {
                assert(lines[0][a.len() - 1] != CARRIAGE_RETURN);
            }
        }
        assert(joined.skip(n + 1) =~= tail);
        assert(lines_of(joined) == seq![a] + lines_of(tail));
        assert(joined.last() == tail.last());
        assert(no_carriage_return(joined)) by {
            assert forall|j: int| 0 <= j < joined.len() implies #[trigger] joined[j]
                != CARRIAGE_RETURN by {
                if j < n {
                    assert(joined[j] == a[j]);
                    assert(lines[0][j] != CARRIAGE_RETURN);
                } else if j > n {
                    assert(joined[j] == tail[j - n - 1]);
                }
            }
        }
    }
}

/// The first and the last line of `text` hold more than white space.
pub open spec fn ends_are_not_blank(text: Seq<u8>) -> bool {
    lines_of(text).len() > 0 && !is_blank(lines_of(text)[0]) && !is_blank(lines_of(text).last())
}

/// `text` with the white space at the end of each line removed.
pub open spec fn tidied(text: Seq<u8>) -> Seq<u8> {
    indented_lines(lines_of(text), Seq::empty())
}

/// A body in braces that is replaced by its own text comes back with the
/// white space at the end of its lines removed and nothing else changed;
/// and replacing what has come back by its own text changes nothing more.
/// This holds of a body that is not indented, under a declaration that is
/// not indented, which stands on lines of its own between the braces, whose
/// first and last line are not blank, and which holds no carriage return.
pub proof fn lemma_replace_body_round_trip(content: Seq<u8>, start: int, end: int, text: Seq<u8>)
    requires
        0 <= start < end <= content.len(),
        content.subrange(start, end) == seq![NEWLINE] + text + seq![NEWLINE],
        text.len() > 0,
        text[0] != NEWLINE,
        !is_indent_byte(text[0]),
        text.last() != NEWLINE,
        no_carriage_return(text),
        ends_are_not_blank(text),
    ensures
        ({
            let body = Body::Braces {
                start,
                end,
                base_indent: Seq::empty(),
                inner_indent: inner_indent_of(content.subrange(start, end), Seq::empty()),
            };
            let between = seq![NEWLINE] + tidied(text) + seq![NEWLINE];
            let once = splice(content, start, end, between);
            let again = Body::Braces {
                start,
                end: start + between.len(),
                base_indent: Seq::empty(),
                inner_indent: inner_indent_of(between, Seq::empty()),
            };
            &&& body.text_in(content) == Some(text)
            &&& body_replaced(content, body, text) == Some(once)
            &&& again.text_in(once) == Some(tidied(text))
            &&& body_replaced(once, again, tidied(text)) == Some(once)
        }),
{
    let none = Seq::<u8>::empty();
    let between = content.subrange(start, end);
    // the first round
    lemma_unindented_body(text);
    assert(between[0] == NEWLINE);
    assert(between.drop_first() =~= text + seq![NEWLINE]);
    assert((text + seq![NEWLINE])[0] == text[0]);
    assert(strip_leading(text + seq![NEWLINE], NEWLINE) == text + seq![NEWLINE]);
    assert(strip_leading(between, NEWLINE) == text + seq![NEWLINE]);
    assert((text + seq![NEWLINE]).drop_last() =~= text);
    assert(strip_trailing(text, NEWLINE) == text);
    assert(strip_trailing(text + seq![NEWLINE], NEWLINE) == text);
    assert(trim_newlines_of(between) == text);
    let given = with_trailing_newline(text);
    assert(given =~= text + seq![NEWLINE]);
    assert(strip_leading(given, NEWLINE) == given);
    assert(trim_newlines_of(given) == text);
    let tidy = tidied(text);
    let new_between = seq![NEWLINE] + tidy + seq![NEWLINE];
    assert(brace_body_text(given, none, none) =~= new_between);
    let once = splice(content, start, end, new_between);
    // what has come back
    let lines = lines_of(text);
    let trimmed = trimmed_lines(lines);
    lemma_lines_of_bytes(text);
    lemma_first_line(text);
    lemma_indented_lines_of_trimmed(lines, none);
    assert(trimmed[0] == trim_end_of(lines[0]));
    assert(trimmed.last() == trim_end_of(lines.last()));
    lemma_trim_idempotent(lines[0]);
    lemma_trim_idempotent(lines.last());
    assert forall|i: int, j: int| 0 <= i < trimmed.len() && 0 <= j < trimmed[i].len() implies (
    #[trigger] trimmed[i][j]) != NEWLINE && trimmed[i][j] != CARRIAGE_RETURN by {
        lemma_trim_idempotent(lines[i]);
        assert(trimmed[i] == trim_end_of(lines[i]));
        assert(trimmed[i][j] == lines[i][j]);
        assert(lines_of(text)[i][j] != NEWLINE);
    }
    assert forall|i: int| 0 <= i < trimmed.len() implies trim_end_of(#[trigger] trimmed[i])
        == trimmed[i] by {
        lemma_trim_idempotent(lines[i]);
        assert(trimmed[i] == trim_end_of(lines[i]));
    }
    lemma_split_joined(trimmed);
    assert(tidy == indented_lines(trimmed, none));
    assert(lines_of(tidy) == trimmed);
    assert(tidy[0] == text[0]);
    assert(tidy.last() != NEWLINE);
    assert(lines_are_trimmed(tidy));
    // the second round
    let stop = start + new_between.len();
    assert(once.subrange(start, stop) =~= new_between);
    lemma_replace_body_by_itself(once, start, stop, tidy);
}

/// A body in braces is given back unchanged when it is replaced by its own
/// text, provided that it needs no laying out: the declaration is not
/// indented, the body stands on lines of its own between the braces, its
/// first line is not indented, no line of it ends with white space, and it
/// holds no carriage return.
pub proof fn lemma_replace_body_by_itself(content: Seq<u8>, start: int, end: int, text: Seq<u8>)
    requires
        0 <= start < end <= content.len(),
        content.subrange(start, end) == seq![NEWLINE] + text + seq![NEWLINE],
        text.len() > 0,
        text[0] != NEWLINE,
        !is_indent_byte(text[0]),
        text.last() != NEWLINE,
        no_carriage_return(text),
        lines_are_trimmed(text),
    ensures
        ({
            let body = Body::Braces {
                start,
                end,
                base_indent: Seq::empty(),
                inner_indent: inner_indent_of(content.subrange(start, end), Seq::empty()),
            };
            &&& body.text_in(content) == Some(text)
            &&& body_replaced(content, body, text) == Some(content)
        }),
{
    let none = Seq::<u8>::empty();
    let between = content.subrange(start, end);
    lemma_first_line(text);
    assert(!is_blank(lines_of(text)[0])) by {
        let line = lines_of(text)[0];
        assert(trim_end_of(line) == line);
        assert(line.take(trimmed_len(line)).len() == line.len());
    }
    lemma_unindented_body(text);
    // what is extracted
    assert(between[0] == NEWLINE);
    assert(between.drop_first() =~= text + seq![NEWLINE]);
    assert((text + seq![NEWLINE])[0] == text[0]);
    assert(strip_leading(text + seq![NEWLINE], NEWLINE) == text + seq![NEWLINE]);
    assert(strip_leading(between, NEWLINE) == text + seq![NEWLINE]);
    assert((text + seq![NEWLINE]).drop_last() =~= text);
    assert(strip_trailing(text, NEWLINE) == text);
    assert(strip_trailing(text + seq![NEWLINE], NEWLINE) == text);
    assert(trim_newlines_of(between) == text);
    // what is put in its place
    let given = with_trailing_newline(text);
    assert(given =~= text + seq![NEWLINE]);
    assert(strip_leading(given, NEWLINE) == given);
    assert(trim_newlines_of(given) == text);
    lemma_lines_join(text);
    assert(brace_body_text(given, none, none) =~= between);
    assert(splice(content, start, end, between) =~= content);
}

} // verus!
