//! Laying out a replacement body so that it fits the code around it.

use vstd::prelude::*;
use vstd::slice::slice_to_vec;
use vstd::string::StringSliceAdditionalSpecFns;

use crate::text::{
    lines_of, split_lines, texts_of, trim_end, trim_end_of, trim_newlines, trim_newlines_of,
    NEWLINE,
};

verus! {

/// `lines`, each without the white space at its end and with `indent`
/// before it, joined by line feeds. A line that holds nothing but white
/// space becomes the bare indentation.
pub open spec fn indented_lines(lines: Seq<Seq<u8>>, indent: Seq<u8>) -> Seq<u8>
    decreases lines.len(),
{
    if lines.len() == 0 {
        Seq::empty()
    } else if lines.len() == 1 {
        indent + trim_end_of(lines[0])
    } else {
        indented_lines(lines.drop_last(), indent) + seq![NEWLINE] + indent + trim_end_of(
            lines.last(),
        )
    }
}

/// What goes between the braces for `body`: a line feed, the lines of the
/// body indented by `inner_indent`, a line feed, and the indentation of the
/// closing brace. Line feeds around the body are dropped first; an empty
/// body leaves a line feed and the indentation of the closing brace.
pub open spec fn brace_body_text(body: Seq<u8>, base_indent: Seq<u8>, inner_indent: Seq<u8>) -> Seq<
    u8,
> {
    let trimmed = trim_newlines_of(body);
    if trimmed.len() == 0 {
        seq![NEWLINE] + base_indent
    } else {
        seq![NEWLINE] + indented_lines(lines_of(trimmed), inner_indent) + seq![NEWLINE]
            + base_indent
    }
}

/// What replaces an indented body for `body`: its lines indented by
/// `base_indent` and `indent_unit`, ending in a line feed. Line feeds around
/// the body are dropped first; an empty body becomes the statement `pass`.
pub open spec fn indented_body_text(body: Seq<u8>, base_indent: Seq<u8>, indent_unit: Seq<u8>) -> Seq<
    u8,
> {
    let trimmed = trim_newlines_of(body);
    let indent = base_indent + indent_unit;
    if trimmed.len() == 0 {
        indent + "pass".spec_bytes() + seq![NEWLINE]
    } else {
        indented_lines(lines_of(trimmed), indent) + seq![NEWLINE]
    }
}

/// Appends the lines of `text` to `out`, each indented by `indent` and
/// without the white space at its end, joined by line feeds.
fn push_indented_lines(out: &mut Vec<u8>, text: &[u8], indent: &[u8])
    ensures
        final(out)@ == old(out)@ + indented_lines(lines_of(text@), indent@),
{
    let lines = split_lines(text);
    let ghost all = texts_of(lines@);
    let ghost start = out@;
    let mut i: usize = 0;
    proof {
        assert(all.take(0) =~= Seq::<Seq<u8>>::empty());
        assert(start + Seq::<u8>::empty() =~= start);
    }
    while i < lines.len()
        invariant
            i <= lines@.len(),
            all == texts_of(lines@),
            out@ == start + indented_lines(all.take(i as int), indent@),
        decreases lines.len() - i,
    {
        let line = trim_end(lines[i].as_slice());
        let ghost before = out@;
        if i > 0 {
            out.push(NEWLINE);
        }
        out.extend_from_slice(indent);
        out.extend_from_slice(line);
        proof {
            let done = all.take(i + 1);
            assert(done.drop_last() =~= all.take(i as int));
            assert(done.last() == lines@[i as int]@);
            if i == 0 {
                assert(done[0] == lines@[0]@);
                assert(out@ =~= start + indented_lines(done, indent@));
            } else {
                assert(out@ =~= start + indented_lines(done, indent@));
            }
        }
        i += 1;
    }
    proof {
        assert(all.take(lines@.len() as int) =~= all);
    }
}

/// Lays out `body` as the inside of a block in braces.
pub fn format_brace_body(body: &[u8], base_indent: &[u8], inner_indent: &[u8]) -> (r: Vec<u8>)
    ensures
        r@ == brace_body_text(body@, base_indent@, inner_indent@),
{
    let trimmed = trim_newlines(body);
    let mut out: Vec<u8> = Vec::new();
    out.push(NEWLINE);
    if trimmed.len() == 0 {
        out.extend_from_slice(base_indent);
        proof {
            assert(out@ =~= seq![NEWLINE] + base_indent@);
        }
    } else {
        push_indented_lines(&mut out, trimmed, inner_indent);
        out.push(NEWLINE);
        out.extend_from_slice(base_indent);
        proof {
            assert(out@ =~= seq![NEWLINE] + indented_lines(lines_of(trimmed@), inner_indent@)
                + seq![NEWLINE] + base_indent@);
        }
    }
    out
}

/// Lays out `body` as a block set off by indentation.
pub fn format_indented_body(body: &[u8], base_indent: &[u8], indent_unit: &[u8]) -> (r: Vec<u8>)
    ensures
        r@ == indented_body_text(body@, base_indent@, indent_unit@),
{
    let trimmed = trim_newlines(body);
    let mut indent = slice_to_vec(base_indent);
    indent.extend_from_slice(indent_unit);
    assert(indent@ =~= base_indent@ + indent_unit@);
    let mut out: Vec<u8> = Vec::new();
    if trimmed.len() == 0 {
        out.extend_from_slice(indent.as_slice());
        out.extend_from_slice("pass".as_bytes());
        out.push(NEWLINE);
        proof {
            assert(out@ =~= indent@ + "pass".spec_bytes() + seq![NEWLINE]);
        }
    } else {
        push_indented_lines(&mut out, trimmed, indent.as_slice());
        out.push(NEWLINE);
        proof {
            assert(out@ =~= indented_lines(lines_of(trimmed@), indent@) + seq![NEWLINE]);
        }
    }
    out
}

} // verus!
