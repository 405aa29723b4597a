//! The rules of the plain file tools: what of a file is shown, which
//! entries of a directory are listed, and what is written.

use vstd::prelude::*;
use vstd::slice::slice_to_vec;

use crate::excerpt::{excerpt_of, truncate_text};
use crate::text::{ends_with_byte, NEWLINE};

verus! {

/// What is shown of a file: all of it, or, when a limit is set and the file
/// is longer, its beginning with an ellipsis.
pub open spec fn shown_content(content: Seq<u8>, max_bytes: Option<usize>) -> (Seq<u8>, bool) {
    match max_bytes {
        Some(limit) => (excerpt_of(content, limit as nat), content.len() > limit),
        None => (content, false),
    }
}

/// Makes what is shown of a file, and tells whether it was cut short.
pub fn read_file(content: &[u8], max_bytes: Option<usize>) -> (r: (Vec<u8>, bool))
    ensures
        (r.0@, r.1) == shown_content(content@, max_bytes),
{
    match max_bytes {
        Some(limit) => truncate_text(content, limit),
        None => (slice_to_vec(content), false),
    }
}

/// What kind of thing an entry of a directory is.
#[derive(Clone, Copy, Debug, PartialEq, Eq, Structural)]
pub enum EntryType {
    Directory,
    File,
    Symlink,
    Other,
}

impl EntryType {
    /// The label of the kind as a mathematical value.
    pub open spec fn label(self) -> Seq<char> {
        match self {
            EntryType::Directory => "directory"@,
            EntryType::File => "file"@,
            EntryType::Symlink => "symlink"@,
            EntryType::Other => "other"@,
        }
    }

    /// The label of the kind.
    pub fn as_str(&self) -> (r: &'static str)
        ensures
            r@ == self.label(),
    {
        match self {
            EntryType::Directory => "directory",
            EntryType::File => "file",
            EntryType::Symlink => "symlink",
            EntryType::Other => "other",
        }
    }

    /// The kind of an entry: a directory before a file, a file before a
    /// link.
    pub fn of(is_dir: bool, is_file: bool, is_symlink: bool) -> (r: EntryType)
        ensures
            r == if is_dir {
                EntryType::Directory
            } else if is_file {
                EntryType::File
            } else if is_symlink {
                EntryType::Symlink
            } else {
                EntryType::Other
            },
    {
        if is_dir {
            EntryType::Directory
        } else if is_file {
            EntryType::File
        } else if is_symlink {
            EntryType::Symlink
        } else {
            EntryType::Other
        }
    }
}

/// Whether an entry called `name` is listed: one whose name begins with a
/// dot only when hidden entries are asked for.
pub fn list_dir(name: &[u8], include_hidden: bool) -> (r: bool)
    ensures
        r == (include_hidden || !(name@.len() > 0 && name@[0] == 0x2E)),
{
    include_hidden || !(name.len() > 0 && name[0] == 0x2E)
}

/// What is written for `content`: the content, with a line feed at its end
/// when one is asked for and it has none.
pub open spec fn written_content(content: Seq<u8>, ensure_trailing_newline: bool) -> Seq<u8> {
    if ensure_trailing_newline && !ends_with_byte(content, NEWLINE) {
        content.push(NEWLINE)
    } else {
        content
    }
}

/// How a file is written.
#[derive(Clone, Copy, Debug, PartialEq, Eq, Structural)]
pub enum WriteOperation {
    Append,
    Overwrite,
}

impl WriteOperation {
    /// The label of the operation as a mathematical value.
    pub open spec fn label(self) -> Seq<char> {
        match self {
            WriteOperation::Append => "append"@,
            WriteOperation::Overwrite => "overwrite"@,
        }
    }

    /// The label of the operation.
    pub fn as_str(&self) -> (r: &'static str)
        ensures
            r@ == self.label(),
    {
        match self {
            WriteOperation::Append => "append",
            WriteOperation::Overwrite => "overwrite",
        }
    }
}

/// Makes what is written for `content`, and tells how it is written.
pub fn write_file(content: Vec<u8>, append: bool, ensure_trailing_newline: bool) -> (r: (
    Vec<u8>,
    WriteOperation,
))
    ensures
        r.0@ == written_content(content@, ensure_trailing_newline),
        r.1 == if append {
            WriteOperation::Append
        } else {
            WriteOperation::Overwrite
        },
{
    let mut out = content;
    let n: usize = out.len();
    if ensure_trailing_newline && !(n > 0 && out[n - 1] == NEWLINE) {
        out.push(NEWLINE);
    }
    let operation = if append {
        WriteOperation::Append
    } else {
        WriteOperation::Overwrite
    };
    (out, operation)
}

} // verus!
