//! Bodies set off by indentation: the lines under a declaration that are
//! indented more deeply than it.

use vstd::prelude::*;
use vstd::slice::{slice_subrange, slice_to_vec};

use crate::body::{Body, BodyStyle};
use crate::lines::{FileLines, Line};
use crate::text::{
    indent_of, indent_width, is_blank, is_blank_text, leading_whitespace,
    lemma_indent_width_bounds, SPACE,
};

verus! {

/// What a body adds to the indentation of its declaration: the part of
/// `inner` beyond the length of `base`; all of `inner` when it is no longer
/// than `base`; four blanks when it is empty.
pub open spec fn indent_unit_of(inner: Seq<u8>, base: Seq<u8>) -> Seq<u8> {
    if inner.len() > base.len() {
        inner.skip(base.len() as int)
    } else if inner.len() > 0 {
        inner
    } else {
        seq![SPACE, SPACE, SPACE, SPACE]
    }
}

/// Works out what a body indented by `inner_indent` adds to a declaration
/// indented by `base_indent`.
pub fn derive_indent_unit(inner_indent: &[u8], base_indent: &[u8]) -> (r: Vec<u8>)
    ensures
        r@ == indent_unit_of(inner_indent@, base_indent@),
{
    if inner_indent.len() > base_indent.len() {
        let unit = slice_to_vec(
            slice_subrange(inner_indent, base_indent.len(), inner_indent.len()),
        );
        proof {
            assert(unit@ =~= inner_indent@.skip(base_indent@.len() as int));
        }
        unit
    } else if inner_indent.len() > 0 {
        slice_to_vec(inner_indent)
    } else {
        let mut unit: Vec<u8> = Vec::new();
        unit.push(SPACE);
        unit.push(SPACE);
        unit.push(SPACE);
        unit.push(SPACE);
        proof {
            assert(unit@ =~= seq![SPACE, SPACE, SPACE, SPACE]);
        }
        unit
    }
}

/// A line that may belong to a body under a declaration whose indentation
/// is `base_len` bytes wide: it is blank, or indented more deeply.
pub open spec fn is_body_line(text: Seq<u8>, base_len: nat) -> bool {
    is_blank(text) || indent_width(text) > base_len
}

/// The first line at or after `from` that is not blank.
pub open spec fn first_nonblank_line(lines: Seq<Line>, from: int) -> Option<int>
    decreases lines.len() - from,
{
    if from < 0 || from >= lines.len() {
        None
    } else if !is_blank(lines[from].text) {
        Some(from)
    } else {
        first_nonblank_line(lines, from + 1)
    }
}

/// The last line of the run of body lines that holds line `from`.
pub open spec fn last_body_line(lines: Seq<Line>, from: int, base_len: nat) -> int
    decreases lines.len() - from,
{
    if 0 <= from && from + 1 < lines.len() && is_body_line(lines[from + 1].text, base_len) {
        last_body_line(lines, from + 1, base_len)
    } else {
        from
    }
}

/// The first and the last line of the body under the declaration on line
/// `def_line`. The body begins with the first line after the declaration
/// that is not blank, if that line is indented more deeply than `base_len`
/// bytes, and goes on as long as lines are blank or indented more deeply.
pub open spec fn indented_body_lines(lines: Seq<Line>, def_line: int, base_len: nat) -> Option<
    (int, int),
> {
    match first_nonblank_line(lines, def_line + 1) {
        Some(first) => if indent_width(lines[first].text) > base_len {
            Some((first, last_body_line(lines, first, base_len)))
        } else {
            None
        },
        None => None,
    }
}

/// The body under the declaration on line `def_line`, which is indented by
/// `base_indent`.
pub open spec fn indented_body(lines: Seq<Line>, def_line: int, base_indent: Seq<u8>) -> Body {
    match indented_body_lines(lines, def_line, base_indent.len()) {
        Some((first, last)) => Body::Indented {
            start: lines[first].start,
            end: lines[last].end - 1,
            base_indent,
            indent_unit: indent_unit_of(indent_of(lines[first].text), base_indent),
        },
        None => Body::Absent,
    }
}

pub proof fn lemma_first_nonblank_line(lines: Seq<Line>, from: int)
    requires
        0 <= from,
    ensures
        first_nonblank_line(lines, from) matches Some(first) ==> from <= first < lines.len()
            && !is_blank(lines[first].text),
    decreases lines.len() - from,
{
    if from < lines.len() && is_blank(lines[from].text) {
        lemma_first_nonblank_line(lines, from + 1);
    }
}

pub proof fn lemma_last_body_line(lines: Seq<Line>, from: int, base_len: nat)
    requires
        0 <= from < lines.len(),
        is_body_line(lines[from].text, base_len),
    ensures
        from <= last_body_line(lines, from, base_len) < lines.len(),
        forall|k: int|
            from <= k <= last_body_line(lines, from, base_len) ==> is_body_line(
                #[trigger] lines[k].text,
                base_len,
            ),
    decreases lines.len() - from,
{
    if from + 1 < lines.len() && is_body_line(lines[from + 1].text, base_len) {
        lemma_last_body_line(lines, from + 1, base_len);
    }
}

/// Every line that lies within a body set off by indentation is blank or
/// indented more deeply than the declaration.
pub proof fn lemma_indented_body_is_deeper(lines: FileLines, def_line: int, base_indent: Seq<u8>)
    requires
        lines.wf(),
        0 <= def_line,
    ensures
        indented_body(lines@, def_line, base_indent) matches Body::Indented { start, end, .. }
            ==> 0 <= start <= end && forall|k: int|
            0 <= k < lines@.len() && start <= (#[trigger] lines@[k]).start && lines@[k].end - 1
                <= end ==> is_body_line(lines@[k].text, base_indent.len()),
{
    let base_len = base_indent.len();
    match indented_body_lines(lines@, def_line, base_len) {
        Some((first, last)) => {
            lemma_first_nonblank_line(lines@, def_line + 1);
            lemma_last_body_line(lines@, first, base_len);
            let start = lines@[first].start;
            let end = lines@[last].end - 1;
            assert(lines.records@[last].start < lines.records@[last].end);
            if first < last {
                lines.lemma_starts_increase(first, last);
            }
            assert forall|k: int|
                0 <= k < lines@.len() && start <= (#[trigger] lines@[k]).start && lines@[k].end - 1
                    <= end implies is_body_line(lines@[k].text, base_len) by {
                if k < first {
                    lines.lemma_starts_increase(k, first);
                }
                if k > last {
                    lines.lemma_starts_increase(last, k);
                    assert(lines.records@[k].start < lines.records@[k].end);
                }
            }
        },
        None => {},
    }
}

/// Locates the body under the declaration on line `def_line`, which is
/// indented by `base_indent`.
pub fn locate_python_body(lines: &FileLines, def_line: usize, base_indent: &[u8]) -> (r: BodyStyle)
    requires
        lines.wf(),
    ensures
        r@ == indented_body(lines@, def_line as int, base_indent@),
        r@ matches Body::Indented { start, end, .. } ==> 0 <= start <= end && forall|k: int|
            0 <= k < lines@.len() && start <= (#[trigger] lines@[k]).start && lines@[k].end - 1
                <= end ==> is_body_line(lines@[k].text, base_indent@.len()),
{
    proof {
        lemma_indented_body_is_deeper(*lines, def_line as int, base_indent@);
    }
    let n: usize = lines.len();
    let base_len: usize = base_indent.len();
    if def_line >= n {
        return BodyStyle::Absent;
    }
    let mut first: usize = def_line + 1;
    loop
        invariant
            n == lines@.len(),
            def_line < first <= n,
            first_nonblank_line(lines@, def_line + 1) == first_nonblank_line(lines@, first as int),
        ensures
            first < n,
            !is_blank(lines@[first as int].text),
            first_nonblank_line(lines@, def_line + 1) == Some(first as int),
        decreases n - first,
    {
        if first >= n {
            return BodyStyle::Absent;
        }
        if !is_blank_text(lines.text(first)) {
            break ;
        }
        first += 1;
    }
    let inner_indent = leading_whitespace(lines.text(first));
    proof {
        lemma_indent_width_bounds(lines@[first as int].text);
    }
    if inner_indent.len() <= base_len {
        return BodyStyle::Absent;
    }
    let mut last: usize = first;
    loop
        invariant
            n == lines@.len(),
            base_len == base_indent@.len(),
            first <= last < n,
            last_body_line(lines@, first as int, base_len as nat) == last_body_line(
                lines@,
                last as int,
                base_len as nat,
            ),
        ensures
            first <= last < n,
            last_body_line(lines@, first as int, base_len as nat) == last,
        decreases n - last,
    {
        if last + 1 >= n {
            break ;
        }
        let text = lines.text(last + 1);
        proof {
            lemma_indent_width_bounds(text@);
        }
        if !is_blank_text(text) && leading_whitespace(text).len() <= base_len {
            break ;
        }
        last += 1;
    }
    let start: usize = lines.bounds(first).0;
    let end: usize = lines.bounds(last).1;
    proof {
        assert(lines.records@[last as int].start < lines.records@[last as int].end);
    }
    let indent_unit = derive_indent_unit(inner_indent, base_indent);
    BodyStyle::Indented {
        start,
        end: end - 1,
        base_indent: slice_to_vec(base_indent),
        indent_unit,
    }
}

} // verus!
