//! The line index of a file: where each line starts and ends, and its text.

use vstd::prelude::*;
use vstd::slice::{slice_subrange, slice_to_vec};

use crate::text::NEWLINE;

verus! {

/// One line as a mathematical value: the offset of its first byte, the offset
/// one past its terminator, and its text without the terminator.
pub struct Line {
    pub start: int,
    pub end: int,
    pub text: Seq<u8>,
}

/// One line of a file.
pub struct LineRecord {
    pub start: usize,
    pub end: usize,
    pub text: Vec<u8>,
}

impl View for LineRecord {
    type V = Line;

    open spec fn view(&self) -> Line {
        Line { start: self.start as int, end: self.end as int, text: self.text@ }
    }
}

/// `line` is one whole line of `content`: it starts where a line starts, holds
/// no line feed in its text, and ends after its line feed or, lacking one, at
/// the end of the content.
pub open spec fn is_line_of(content: Seq<u8>, line: Line) -> bool {
    &&& 0 <= line.start < line.end <= content.len()
    &&& line.start + line.text.len() <= line.end
    &&& line.text == content.subrange(line.start, line.start + line.text.len())
    &&& forall|j: int| 0 <= j < line.text.len() ==> #[trigger] line.text[j] != NEWLINE
    &&& {
        ||| line.text.len() == line.end - line.start - 1 && content[line.end - 1] == NEWLINE
        ||| line.text.len() == line.end - line.start && line.end == content.len()
    }
}

/// The lines of a file, in order, with the offsets at which they start.
pub struct FileLines {
    pub records: Vec<LineRecord>,
    pub starts: Vec<usize>,
}

impl View for FileLines {
    type V = Seq<Line>;

    open spec fn view(&self) -> Seq<Line> {
        Seq::new(self.records@.len(), |i: int| self.records@[i]@)
    }
}

/// What is rebuilt from the first `count` of `lines`: each text followed by a
/// line feed.
pub open spec fn joined_lines(lines: Seq<Line>, count: int) -> Seq<u8>
    decreases count,
{
    if count <= 0 {
        Seq::empty()
    } else {
        joined_lines(lines, count - 1) + lines[count - 1].text + seq![NEWLINE]
    }
}

/// What is rebuilt from all of `lines`: each text followed by a line feed,
/// but for the last one when `final_newline` is false.
pub open spec fn rebuilt_content(lines: Seq<Line>, final_newline: bool) -> Seq<u8> {
    if lines.len() == 0 {
        Seq::empty()
    } else if final_newline {
        joined_lines(lines, lines.len() as int)
    } else {
        joined_lines(lines, lines.len() - 1) + lines.last().text
    }
}

/// The line that holds byte `offset`: the last of `lines` that starts at or
/// before it, or the first when none does.
pub open spec fn line_at(lines: Seq<Line>, offset: int) -> int
    decreases lines.len(),
{
    if lines.len() <= 1 {
        0
    } else if lines.last().start <= offset {
        lines.len() - 1
    } else {
        line_at(lines.drop_last(), offset)
    }
}

pub proof fn lemma_line_at_bounds(lines: Seq<Line>, offset: int)
    ensures
        0 <= line_at(lines, offset),
        lines.len() > 0 ==> line_at(lines, offset) < lines.len(),
    decreases lines.len(),
{
    if lines.len() > 1 && lines.last().start > offset {
        lemma_line_at_bounds(lines.drop_last(), offset);
    }
}

/// With starts that grow, the line that starts at or before `offset` while
/// the next one starts after it is the line that holds `offset`.
pub proof fn lemma_line_at(lines: Seq<Line>, offset: int, i: int)
    requires
        0 <= i < lines.len(),
        forall|a: int, b: int|
            0 <= a < b < lines.len() ==> (#[trigger] lines[a]).start < (#[trigger] lines[b]).start,
        lines[i].start <= offset,
        i + 1 < lines.len() ==> offset < lines[i + 1].start,
    ensures
        line_at(lines, offset) == i,
    decreases lines.len(),
{
    if lines.len() > 1 {
        if lines.last().start <= offset {
            if i + 1 < lines.len() {
                if i + 1 < lines.len() - 1 {
                    assert(lines[i + 1].start < lines[lines.len() - 1].start);
                }
            }
        } else {
            let rest = lines.drop_last();
            assert forall|a: int, b: int| 0 <= a < b < rest.len() implies (#[trigger] rest[a]).start
                < (#[trigger] rest[b]).start by {
                assert(rest[a] == lines[a]);
                assert(rest[b] == lines[b]);
            }
            assert(rest[i] == lines[i]);
            if i + 1 < rest.len() {
                assert(rest[i + 1] == lines[i + 1]);
            }
            lemma_line_at(rest, offset, i);
        }
    }
}

pub open spec fn ends_with_newline(content: Seq<u8>) -> bool {
    content.len() > 0 && content.last() == NEWLINE
}

impl FileLines {
    /// The records follow one another without a gap, none is empty, and
    /// `starts` repeats where each begins.
    pub open spec fn wf(&self) -> bool {
        &&& self.starts@.len() == self.records@.len()
        &&& forall|i: int|
            0 <= i < self.records@.len() ==> (#[trigger] self.starts@[i]) == self.records@[i].start
        &&& forall|i: int|
            0 <= i < self.records@.len() ==> (#[trigger] self.records@[i]).start
                < self.records@[i].end
        &&& forall|i: int, j: int|
            0 <= i && j == i + 1 && j < self.records@.len() ==> (#[trigger] self.records@[i]).end
                == (#[trigger] self.records@[j]).start
    }

    /// This is the line index of `content`: the records cover it from its
    /// first byte to its last, each being one whole line.
    pub open spec fn describes(&self, content: Seq<u8>) -> bool {
        &&& self.wf()
        &&& (self.records@.len() == 0 <==> content.len() == 0)
        &&& self.records@.len() > 0 ==> self.records@[0].start == 0 && self.records@.last().end
            == content.len()
        &&& forall|i: int|
            0 <= i < self.records@.len() ==> is_line_of(content, (#[trigger] self.records@[i])@)
    }

    /// With a line index, starts grow strictly.
    pub proof fn lemma_starts_increase(&self, i: int, j: int)
        requires
            self.wf(),
            0 <= i < j < self.records@.len(),
        ensures
            self.starts@[i] < self.starts@[j],
            self.records@[i].end <= self.records@[j].start,
        decreases j - i,
    {
        if i + 1 < j {
            self.lemma_starts_increase(i, j - 1);
        }
        assert(self.records@[j - 1].end == self.records@[j].start);
        assert(self.records@[j - 1].start < self.records@[j - 1].end);
    }

    /// Builds the line index of `content`.
    pub fn new(content: &[u8]) -> (r: FileLines)
        ensures
            r.describes(content@),
    {
        let mut records: Vec<LineRecord> = Vec::new();
        let mut starts: Vec<usize> = Vec::new();
        let n: usize = content.len();
        let mut offset: usize = 0;
        while offset < n
            invariant
                n == content@.len(),
                offset <= n,
                starts@.len() == records@.len(),
                (records@.len() == 0) <==> (offset == 0),
                records@.len() > 0 ==> records@[0].start == 0 && records@.last().end == offset,
                forall|i: int| 0 <= i < records@.len() ==> (#[trigger] starts@[i]) == records@[i].start,
                forall|i: int|
                    0 <= i < records@.len() ==> (#[trigger] records@[i]).start < records@[i].end,
                forall|i: int, j: int|
                    0 <= i && j == i + 1 && j < records@.len() ==> (#[trigger] records@[i]).end
                        == (#[trigger] records@[j]).start,
                forall|i: int|
                    0 <= i < records@.len() ==> is_line_of(content@, (#[trigger] records@[i])@),
            decreases n - offset,
        {
            let mut cur: usize = offset;
            while cur < n && content[cur] != NEWLINE
                invariant
                    n == content@.len(),
                    offset <= cur <= n,
                    forall|j: int| offset <= j < cur ==> content@[j] != NEWLINE,
                decreases n - cur,
            {
                cur += 1;
            }
            let end: usize = if cur < n {
                cur + 1
            } else {
                n
            };
            let text = slice_to_vec(slice_subrange(content, offset, cur));
            let record = LineRecord { start: offset, end, text };
            proof {
                assert(record@.text == content@.subrange(offset as int, cur as int));
                assert forall|j: int| 0 <= j < record@.text.len() implies #[trigger] record@.text[j]
                    != NEWLINE by {
                    assert(record@.text[j] == content@[offset + j]);
                }
                assert(is_line_of(content@, record@));
            }
            let ghost before = records@;
            records.push(record);
            starts.push(offset);
            proof {
                assert forall|i: int, j: int|
                    0 <= i && j == i + 1 && j < records@.len() implies (#[trigger] records@[i]).end
                        == (#[trigger] records@[j]).start by {
                    if j < before.len() {
                        assert(records@[i] == before[i]);
                        assert(records@[j] == before[j]);
                    } else {
                        assert(records@[i] == before.last());
                    }
                }
            }
            offset = end;
        }
        FileLines { records, starts }
    }

    /// Number of lines.
    pub fn len(&self) -> (n: usize)
        ensures
            n == self@.len(),
    {
        self.records.len()
    }

    /// The line that holds byte `offset`: the last one that starts at or
    /// before it. Without lines the answer is 0.
    pub fn line_index(&self, offset: usize) -> (i: usize)
        requires
            self.wf(),
            self@.len() > 0 ==> self@[0].start == 0,
        ensures
            i == line_at(self@, offset as int),
            self@.len() == 0 ==> i == 0,
            self@.len() > 0 ==> i < self@.len() && self@[i as int].start <= offset && (i + 1
                < self@.len() ==> offset < self@[i + 1].start),
    {
        let n: usize = self.starts.len();
        if n == 0 {
            return 0;
        }
        let mut lo: usize = 0;
        let mut hi: usize = n;
        // starts[lo] <= offset, and every start from hi on is past offset
        while lo + 1 < hi
            invariant
                self.wf(),
                n == self.starts@.len(),
                0 <= lo < hi <= n,
                self.starts@[lo as int] <= offset,
                hi < n ==> offset < self.starts@[hi as int],
            decreases hi - lo,
        {
            let mid: usize = lo + (hi - lo) / 2;
            if self.starts[mid] <= offset {
                lo = mid;
            } else {
                hi = mid;
            }
        }
        proof {
            assert(self@[lo as int].start == self.starts@[lo as int]);
            if lo + 1 < n {
                assert(self@[lo + 1].start == self.starts@[lo + 1]);
            }
            assert forall|a: int, b: int| 0 <= a < b < self@.len() implies (#[trigger] self@[a]).start
                < (#[trigger] self@[b]).start by {
                self.lemma_starts_increase(a, b);
            }
            lemma_line_at(self@, offset as int, lo as int);
        }
        lo
    }

    /// The text of line `index`, without its line feed.
    pub fn text(&self, index: usize) -> (t: &[u8])
        requires
            index < self@.len(),
        ensures
            t@ == self@[index as int].text,
    {
        self.records[index].text.as_slice()
    }

    /// Where line `index` starts, and the offset one past its terminator.
    pub fn bounds(&self, index: usize) -> (b: (usize, usize))
        requires
            index < self@.len(),
        ensures
            b.0 == self@[index as int].start,
            b.1 == self@[index as int].end,
    {
        let record = &self.records[index];
        (record.start, record.end)
    }
}

/// The first `count` lines of an index of `content` rebuild the content up
/// to where line `count` starts.
proof fn lemma_joined_prefix(lines: FileLines, content: Seq<u8>, count: int)
    requires
        lines.describes(content),
        0 <= count <= lines@.len(),
        count == lines@.len() ==> ends_with_newline(content),
    ensures
        count > 0 ==> joined_lines(lines@, count) == content.take(lines@[count - 1].end),
        count == 0 ==> joined_lines(lines@, count) == Seq::<u8>::empty(),
    decreases count,
{
    if count > 0 {
        lemma_joined_prefix(lines, content, count - 1);
        let line = lines@[count - 1];
        assert(line == lines.records@[count - 1]@);
        assert(is_line_of(content, line));
        let before = joined_lines(lines@, count - 1);
        assert(before == content.take(line.start)) by {
            if count > 1 {
                assert(lines@[count - 2] == lines.records@[count - 2]@);
                assert(lines.records@[count - 2].end == lines.records@[count - 1].start);
            } else {
                assert(content.take(0) =~= Seq::<u8>::empty());
            }
        }
        assert(line.text.len() == line.end - line.start - 1 && content[line.end - 1] == NEWLINE)
            by {
            if count < lines@.len() {
                assert(lines.records@[count - 1].end == lines.records@[count].start);
                assert(is_line_of(content, lines.records@[count]@));
            } else {
                assert(lines.records@.last() == lines.records@[count - 1]);
                if line.text.len() == line.end - line.start {
                    assert(line.text[line.text.len() - 1] == content[line.end - 1]);
                }
            }
        }
        assert(content.take(line.start) + line.text + seq![NEWLINE] =~= content.take(line.end));
    }
}

/// Joining the texts of a line index with line feeds gives the content
/// back. The last text is followed by a line feed exactly when the content
/// ends with one.
pub proof fn lemma_line_index_round_trip(lines: FileLines, content: Seq<u8>)
    requires
        lines.describes(content),
    ensures
        rebuilt_content(lines@, ends_with_newline(content)) == content,
{
    let n = lines@.len() as int;
    if n == 0 {
        assert(content =~= Seq::<u8>::empty());
    } else {
        let last = lines@[n - 1];
        assert(last == lines.records@[n - 1]@);
        assert(is_line_of(content, last));
        if ends_with_newline(content) {
            lemma_joined_prefix(lines, content, n);
            assert(content.take(content.len() as int) =~= content);
        } else {
            lemma_joined_prefix(lines, content, n - 1);
            assert(joined_lines(lines@, n - 1) == content.take(last.start)) by {
                if n > 1 {
                    assert(lines@[n - 2] == lines.records@[n - 2]@);
                    assert(lines.records@[n - 2].end == lines.records@[n - 1].start);
                } else {
                    assert(content.take(0) =~= Seq::<u8>::empty());
                }
            }
            assert(last.text.len() == last.end - last.start);
            assert(content.take(last.start) + last.text =~= content);
        }
    }
}

} // verus!
