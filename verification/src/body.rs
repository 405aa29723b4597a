//! Where the body of a symbol lies in its file.

use vstd::prelude::*;
use vstd::slice::{slice_subrange, slice_to_vec};

use crate::text::{trim_newlines, trim_newlines_of};

verus! {

/// The extent of a body as a mathematical value.
pub enum Body {
    Braces { start: int, end: int, base_indent: Seq<u8>, inner_indent: Seq<u8> },
    Indented { start: int, end: int, base_indent: Seq<u8>, indent_unit: Seq<u8> },
    Absent,
}

/// The extent of a symbol's body.
pub enum BodyStyle {
    /// A body in braces. `start` is the offset just after the opening brace
    /// and `end` the offset of the closing one. `base_indent` is the
    /// indentation of the declaration, `inner_indent` that of the body.
    Braces { start: usize, end: usize, base_indent: Vec<u8>, inner_indent: Vec<u8> },
    /// A body set off by indentation. `start` is the offset of the first
    /// byte of its first line and `end` that of the last byte of its last
    /// line. `base_indent` is the indentation of the declaration and
    /// `indent_unit` what the body adds to it.
    Indented { start: usize, end: usize, base_indent: Vec<u8>, indent_unit: Vec<u8> },
    /// No body that could be replaced.
    Absent,
}

impl View for BodyStyle {
    type V = Body;

    open spec fn view(&self) -> Body {
        match self {
            BodyStyle::Braces { start, end, base_indent, inner_indent } => Body::Braces {
                start: *start as int,
                end: *end as int,
                base_indent: base_indent@,
                inner_indent: inner_indent@,
            },
            BodyStyle::Indented { start, end, base_indent, indent_unit } => Body::Indented {
                start: *start as int,
                end: *end as int,
                base_indent: base_indent@,
                indent_unit: indent_unit@,
            },
            BodyStyle::Absent => Body::Absent,
        }
    }
}

impl Body {
    /// The bytes of `content` that the body takes: from `start` up to, for
    /// braces, the closing brace, and, for indentation, the last byte
    /// included. `None` where there is no body or the extent does not lie in
    /// the content.
    pub open spec fn range_in(self, content: Seq<u8>) -> Option<(int, int)> {
        match self {
            Body::Braces { start, end, .. } => if 0 <= start < end <= content.len() {
                Some((start, end))
            } else {
                None
            },
            Body::Indented { start, end, .. } => if 0 <= start <= end < content.len() {
                Some((start, end + 1))
            } else {
                None
            },
            Body::Absent => None,
        }
    }

    /// The text of the body in `content`, without the line feeds around it.
    pub open spec fn text_in(self, content: Seq<u8>) -> Option<Seq<u8>> {
        match self.range_in(content) {
            Some((from, to)) => Some(trim_newlines_of(content.subrange(from, to))),
            None => None,
        }
    }
}

/// The text of a body in `content`, without the line feeds around it. There
/// is none for a symbol without a body, for an empty body in braces, and for
/// an extent that does not lie in the content.
pub fn extract_body(content: &[u8], body: &BodyStyle) -> (r: Option<Vec<u8>>)
    ensures
        match r {
            Some(text) => body@.text_in(content@) == Some(text@),
            None => body@.text_in(content@) is None,
        },
{
    match body {
        BodyStyle::Braces { start, end, .. } => {
            if *start >= *end || *end > content.len() {
                None
            } else {
                Some(slice_to_vec(trim_newlines(slice_subrange(content, *start, *end))))
            }
        },
        BodyStyle::Indented { start, end, .. } => {
            if *start > *end || *end >= content.len() {
                None
            } else {
                Some(slice_to_vec(trim_newlines(slice_subrange(content, *start, *end + 1))))
            }
        },
        BodyStyle::Absent => None,
    }
}

} // verus!
