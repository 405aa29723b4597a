//! Searching the lines of a file for a literal text or a regular
//! expression, and reporting each hit with the lines around it.

use vstd::prelude::*;
use vstd::slice::slice_to_vec;
use vstd::string::StringSliceAdditionalSpecFns;

use crate::capped::{
    capped, concat_all, is_prefix, lemma_capped_at_limit, lemma_capped_below_limit,
    lemma_concat_partial_prefix, lemma_concat_step,
};
use crate::pattern::{pattern_compiles, pattern_matches, InvalidPattern, Pattern};
use crate::text::{
    char_count, count_chars, find_bytes, first_occurrence, is_continuation,
    lemma_char_count_bound,
    lemma_first_occurrence, lines_of, split_lines, texts_of, trim_end, trim_end_of,
};
use crate::unicode::{lowercase, to_lowercase};

verus! {

/// How many lines around a hit are shown when nothing else is asked for.
pub const DEFAULT_CONTEXT_LINES: usize = 2;

/// A line shown beside a hit.
pub struct ContextLine {
    /// The number of the line, counted from 1.
    pub line: usize,
    /// The text of the line, without the white space at its end.
    pub text: Vec<u8>,
}

/// A hit as a mathematical value.
pub struct Hit {
    pub line: int,
    pub column: int,
    pub preview: Seq<u8>,
    pub context: Seq<(int, Seq<u8>)>,
}

/// One hit of a search.
pub struct MatchInfo {
    /// The number of the line, counted from 1.
    pub line: usize,
    /// The column at which the hit begins, counted from 1 in characters.
    pub column: usize,
    /// The text of the line, without the white space at its end.
    pub preview: Vec<u8>,
    /// The lines around the hit.
    pub context: Vec<ContextLine>,
}

/// The lines that a vector of context lines holds.
pub open spec fn context_view(v: Seq<ContextLine>) -> Seq<(int, Seq<u8>)> {
    v.map_values(|c: ContextLine| (c.line as int, c.text@))
}

impl View for MatchInfo {
    type V = Hit;

    open spec fn view(&self) -> Hit {
        Hit {
            line: self.line as int,
            column: self.column as int,
            preview: self.preview@,
            context: context_view(self.context@),
        }
    }
}

/// The hits that a vector holds.
pub open spec fn hits_view(v: Seq<MatchInfo>) -> Seq<Hit> {
    v.map_values(|m: MatchInfo| m@)
}

/// The lines with index from `from` up to `to`, but for the one with index
/// `skip`: each with its number, counted from 1, and its text without the
/// white space at its end.
pub open spec fn context_entries(lines: Seq<Seq<u8>>, from: int, to: int, skip: int) -> Seq<
    (int, Seq<u8>),
>
    decreases to - from,
{
    if to <= from {
        Seq::empty()
    } else if to - 1 == skip {
        context_entries(lines, from, to - 1, skip)
    } else {
        context_entries(lines, from, to - 1, skip).push((to, trim_end_of(lines[to - 1])))
    }
}

/// The lines shown around a hit on the line with index `line_idx`: up to
/// `context_lines` before it and as many after it, as far as the file has
/// them.
pub open spec fn context_of(lines: Seq<Seq<u8>>, line_idx: int, context_lines: int) -> Seq<
    (int, Seq<u8>),
> {
    let from = if line_idx - context_lines < 0 {
        0
    } else {
        line_idx - context_lines
    };
    let to = if line_idx + context_lines + 1 > lines.len() {
        lines.len() as int
    } else {
        line_idx + context_lines + 1
    };
    context_entries(lines, from, to, line_idx)
}

impl MatchInfo {
    /// Describes a hit at `column` of `line`, the line with index `line_idx`
    /// among `lines`, with `context_lines` lines on either side.
    pub fn new(
        line_idx: usize,
        column: usize,
        line: &[u8],
        lines: &Vec<Vec<u8>>,
        context_lines: usize,
    ) -> (r: MatchInfo)
        requires
            line_idx < lines@.len(),
        ensures
            r@ == (Hit {
                line: line_idx + 1,
                column: column as int,
                preview: trim_end_of(line@),
                context: context_of(texts_of(lines@), line_idx as int, context_lines as int),
            }),
    {
        let n: usize = lines.len();
        let from: usize = if context_lines > line_idx {
            0
        } else {
            line_idx - context_lines
        };
        let to: usize = if context_lines >= n - line_idx {
            n
        } else {
            line_idx + context_lines + 1
        };
        let mut context: Vec<ContextLine> = Vec::new();
        let mut idx: usize = from;
        let ghost all = texts_of(lines@);
        proof {
            assert(context_view(context@) =~= context_entries(
                all,
                from as int,
                from as int,
                line_idx as int,
            ));
        }
        while idx < to
            invariant
                from <= idx <= to <= n,
                n == lines@.len(),
                all == texts_of(lines@),
                context_view(context@) == context_entries(
                    all,
                    from as int,
                    idx as int,
                    line_idx as int,
                ),
            decreases to - idx,
        {
            if idx != line_idx {
                let text = slice_to_vec(trim_end(lines[idx].as_slice()));
                let ghost before = context@;
                context.push(ContextLine { line: idx + 1, text });
                proof {
                    assert(all[idx as int] == lines@[idx as int]@);
                    assert(context_view(context@) =~= context_view(before).push(
                        (idx + 1, trim_end_of(all[idx as int])),
                    ));
                }
            }
            idx += 1;
        }
        MatchInfo {
            line: line_idx + 1,
            column,
            preview: slice_to_vec(trim_end(line)),
            context,
        }
    }
}

/// The hit that begins at byte `offset` of the line with index `i`. Its
/// column is one more than the number of characters that begin before the
/// offset, or in the whole line when the offset lies beyond it.
pub open spec fn hit_at(lines: Seq<Seq<u8>>, i: int, offset: int, context_lines: nat) -> Hit {
    let line = lines[i];
    let upto = if offset <= line.len() {
        offset
    } else {
        line.len() as int
    };
    Hit {
        line: i + 1,
        column: char_count(line.take(upto)) as int + 1,
        preview: trim_end_of(line),
        context: context_of(lines, i, context_lines as int),
    }
}

/// The hits on the line with index `i` that begin at `offsets`.
pub open spec fn line_hits(lines: Seq<Seq<u8>>, i: int, offsets: Seq<int>, context_lines: nat) -> Seq<
    Hit,
> {
    offsets.map_values(|offset: int| hit_at(lines, i, offset, context_lines))
}

/// The places where `needle`, which is not empty, stands in `h` at or after
/// `from`, each found after the end of the one before.
pub open spec fn literal_offsets(h: Seq<u8>, needle: Seq<u8>, from: int) -> Seq<int>
    decreases h.len() - from + 1,
{
    if needle.len() == 0 || from < 0 {
        Seq::empty()
    } else {
        proof {
            lemma_first_occurrence(h, needle, from);
        }
        match first_occurrence(h, needle, from) {
            Some(p) => seq![p] + literal_offsets(h, needle, p + needle.len()),
            None => Seq::empty(),
        }
    }
}

/// The offsets that a vector holds.
pub open spec fn offsets_view(v: Seq<usize>) -> Seq<int> {
    v.map_values(|o: usize| o as int)
}

/// The offsets at which spans begin.
pub open spec fn starts_of(spans: Seq<(usize, usize)>) -> Seq<int> {
    spans.map_values(|s: (usize, usize)| s.0 as int)
}

/// Finds the places where `needle`, which is not empty, stands in `h`, each
/// after the end of the one before.
pub fn literal_positions(h: &[u8], needle: &[u8]) -> (r: Vec<usize>)
    requires
        needle@.len() > 0,
    ensures
        offsets_view(r@) == literal_offsets(h@, needle@, 0),
{
    let mut out: Vec<usize> = Vec::new();
    let mut from: usize = 0;
    let n: usize = h.len();
    proof {
        assert(offsets_view(out@) + literal_offsets(h@, needle@, 0) =~= literal_offsets(
            h@,
            needle@,
            0,
        ));
    }
    loop
        invariant
            needle@.len() > 0,
            n == h@.len(),
            from <= h@.len(),
            literal_offsets(h@, needle@, 0) == offsets_view(out@) + literal_offsets(
                h@,
                needle@,
                from as int,
            ),
        ensures
            offsets_view(out@) == literal_offsets(h@, needle@, 0),
        decreases h@.len() - from,
    {
        proof {
            lemma_first_occurrence(h@, needle@, from as int);
        }
        match find_bytes(h, needle, from) {
            Some(p) => {
                assert(crate::text::occurs_at(h@, needle@, p as int));
                let ghost before = out@;
                out.push(p);
                proof {
                    assert(offsets_view(out@) =~= offsets_view(before).push(p as int));
                    assert(offsets_view(before) + (seq![p as int] + literal_offsets(
                        h@,
                        needle@,
                        p + needle@.len(),
                    )) =~= offsets_view(out@) + literal_offsets(h@, needle@, p + needle@.len()));
                }
                from = p + needle.len();
            },
            None => {
                proof {
                    assert(offsets_view(out@) + Seq::<int>::empty() =~= offsets_view(out@));
                }
                break ;
            },
        }
    }
    out
}

/// Number of bytes at the start of `t` that continue a character.
pub open spec fn continuation_run(t: Seq<u8>) -> nat
    decreases t.len(),
{
    if t.len() > 0 && is_continuation(t[0]) {
        1 + continuation_run(t.drop_first())
    } else {
        0
    }
}

/// Number of bytes of the first character of `s`: its first byte and the
/// bytes that continue it.
pub open spec fn first_char_len(s: Seq<u8>) -> nat {
    1 + continuation_run(s.drop_first())
}

pub proof fn lemma_continuation_run(t: Seq<u8>, k: int)
    requires
        0 <= k <= t.len(),
        forall|i: int| 0 <= i < k ==> is_continuation(#[trigger] t[i]),
        k < t.len() ==> !is_continuation(t[k]),
    ensures
        continuation_run(t) == k,
    decreases k,
{
    if k > 0 {
        let rest = t.drop_first();
        assert forall|i: int| 0 <= i < k - 1 implies is_continuation(#[trigger] rest[i]) by {
            assert(rest[i] == t[i + 1]);
        }
        if k - 1 < rest.len() {
            assert(rest[k - 1] == t[k]);
        }
        lemma_continuation_run(rest, k - 1);
    }
}

pub proof fn lemma_continuation_run_bound(t: Seq<u8>)
    ensures
        continuation_run(t) <= t.len(),
    decreases t.len(),
{
    if t.len() > 0 && is_continuation(t[0]) {
        lemma_continuation_run_bound(t.drop_first());
    }
}

/// Where in `line` the character begins in which offset `p` of the
/// lower-case form of the line falls; the length of the line when `p` lies
/// beyond that form. The lower-case form of a line is that of its
/// characters one after another, so the characters of the line are gone
/// through, each taking up as many bytes of `p` as its lower-case form has.
pub open spec fn line_offset(line: Seq<u8>, p: int) -> int
    decreases line.len(),
{
    if line.len() == 0 {
        0
    } else {
        proof {
            lemma_continuation_run_bound(line.drop_first());
        }
        let n = first_char_len(line) as int;
        let w = lowercase(line.take(n)).len();
        if w <= p {
            n + line_offset(line.skip(n), p - w)
        } else {
            0
        }
    }
}

/// Finds where in `line` the character begins in which offset `p` of the
/// lower-case form of the line falls.
pub fn line_offset_of(line: &[u8], p: usize) -> (r: usize)
    ensures
        r == line_offset(line@, p as int),
        r <= line@.len(),
{
    let len: usize = line.len();
    let mut pos: usize = 0;
    let mut rest: usize = p;
    proof {
        assert(line@.skip(0) =~= line@);
    }
    loop
        invariant
            len == line@.len(),
            pos <= len,
            line_offset(line@, p as int) == pos + line_offset(
                line@.skip(pos as int),
                rest as int,
            ),
        ensures
            pos <= len,
            line_offset(line@, p as int) == pos,
        decreases len - pos,
    {
        if pos >= len {
            break ;
        }
        let mut n: usize = 1;
        while pos + n < len && 0x80 <= line[pos + n] && line[pos + n] < 0xC0
            invariant
                len == line@.len(),
                pos < len,
                1 <= n <= len - pos,
                forall|i: int| 1 <= i < n ==> is_continuation(#[trigger] line@[pos + i]),
            decreases len - pos - n,
        {
            n += 1;
        }
        let ghost here = line@.skip(pos as int);
        proof {
            let tail = here.drop_first();
            assert forall|i: int| 0 <= i < n - 1 implies is_continuation(#[trigger] tail[i]) by {
                assert(tail[i] == line@[pos + (i + 1)]);
            }
            if n - 1 < tail.len() {
                assert(tail[n - 1] == line@[pos + n]);
            }
            lemma_continuation_run(tail, n - 1);
            assert(first_char_len(here) == n);
            assert(here.take(n as int) =~= line@.subrange(pos as int, pos + n));
            assert(here.skip(n as int) =~= line@.skip(pos + n));
        }
        let lower = to_lowercase(vstd::slice::slice_subrange(line, pos, pos + n));
        let w: usize = lower.len();
        if w <= rest {
            rest -= w;
            pos += n;
        } else {
            break ;
        }
    }
    pos
}

/// The places in a line at which the hits begin that were found at
/// `lowered` in its lower-case form.
pub open spec fn line_offsets(line: Seq<u8>, lowered: Seq<int>) -> Seq<int> {
    lowered.map_values(|p: int| line_offset(line, p))
}

/// What a search looks for, as a mathematical value.
pub enum Needle {
    /// The matches of the pattern `source`.
    Regex { source: Seq<char>, case_insensitive: bool },
    /// The places where `needle` stands. With `fold_case` the needle is in
    /// lower case and lines are searched in lower case.
    Literal { needle: Seq<u8>, fold_case: bool },
}

/// What a search looks for.
pub enum Matcher<'a> {
    /// The matches of a pattern.
    Regex(&'a Pattern),
    /// The places where `needle` stands. With `fold_case` the needle is in
    /// lower case and lines are searched in lower case.
    Literal { needle: Vec<u8>, fold_case: bool },
}

impl<'a> View for Matcher<'a> {
    type V = Needle;

    open spec fn view(&self) -> Needle {
        match self {
            Matcher::Regex(p) => Needle::Regex {
                source: p.source(),
                case_insensitive: p.case_insensitive(),
            },
            Matcher::Literal { needle, fold_case } => Needle::Literal {
                needle: needle@,
                fold_case: *fold_case,
            },
        }
    }
}

impl Needle {
    /// The offsets in `line` at which hits begin. Where case is ignored, a
    /// literal is looked for in the lower-case form of the line, and a hit
    /// begins where the character of the line begins in which it was found.
    /// An empty literal has none here: see `is_endless`.
    pub open spec fn offsets_in(self, line: Seq<u8>) -> Seq<int> {
        match self {
            Needle::Regex { source, case_insensitive } => starts_of(
                pattern_matches(source, case_insensitive, line),
            ),
            Needle::Literal { needle, fold_case } => if fold_case {
                line_offsets(line, literal_offsets(lowercase(line), needle, 0))
            } else {
                literal_offsets(line, needle, 0)
            },
        }
    }

    /// An empty literal stands at the start of the first line without end:
    /// searching for it fills the results with that hit.
    pub open spec fn is_endless(self) -> bool {
        self matches Needle::Literal { needle, .. } && needle.len() == 0
    }
}

impl<'a> Matcher<'a> {
    /// Finds the offsets at which hits begin in `line`.
    pub fn offsets(&self, line: &[u8]) -> (r: Vec<usize>)
        requires
            !self@.is_endless(),
        ensures
            offsets_view(r@) == self@.offsets_in(line@),
    {
        match self {
            Matcher::Regex(p) => {
                let spans = p.find_all(line);
                let mut out: Vec<usize> = Vec::new();
                let mut i: usize = 0;
                while i < spans.len()
                    invariant
                        i <= spans@.len(),
                        offsets_view(out@) == starts_of(spans@).take(i as int),
                    decreases spans.len() - i,
                {
                    let ghost before = out@;
                    out.push(spans[i].0);
                    proof {
                        assert(offsets_view(out@) =~= offsets_view(before).push(
                            spans@[i as int].0 as int,
                        ));
                        assert(offsets_view(out@) =~= starts_of(spans@).take(i + 1));
                    }
                    i += 1;
                }
                proof {
                    assert(starts_of(spans@).take(spans@.len() as int) =~= starts_of(spans@));
                }
                out
            },
            Matcher::Literal { needle, fold_case } => {
                if *fold_case {
                    let lowered = to_lowercase(line);
                    let found = literal_positions(lowered.as_slice(), needle.as_slice());
                    let ghost wanted = line_offsets(line@, offsets_view(found@));
                    let mut out: Vec<usize> = Vec::new();
                    let mut i: usize = 0;
                    while i < found.len()
                        invariant
                            i <= found@.len(),
                            wanted == line_offsets(line@, offsets_view(found@)),
                            offsets_view(out@) == wanted.take(i as int),
                        decreases found.len() - i,
                    {
                        let at = line_offset_of(line, found[i]);
                        let ghost before = out@;
                        out.push(at);
                        proof {
                            assert(offsets_view(found@)[i as int] == found@[i as int] as int);
                            assert(offsets_view(out@) =~= offsets_view(before).push(at as int));
                            assert(offsets_view(out@) =~= wanted.take(i + 1));
                        }
                        i += 1;
                    }
                    proof {
                        assert(wanted.take(found@.len() as int) =~= wanted);
                    }
                    out
                } else {
                    literal_positions(line, needle.as_slice())
                }
            },
        }
    }
}

/// The literal that a search for `pattern` looks for: the pattern itself,
/// or its lower-case form when case is ignored.
pub open spec fn literal_needle(pattern: Seq<u8>, case_sensitive: bool) -> Needle {
    Needle::Literal {
        needle: if case_sensitive {
            pattern
        } else {
            lowercase(pattern)
        },
        fold_case: !case_sensitive,
    }
}

/// Makes the literal that a search for `pattern` looks for.
pub fn literal_matcher<'a>(pattern: &[u8], case_sensitive: bool) -> (r: Matcher<'a>)
    ensures
        r@ == literal_needle(pattern@, case_sensitive),
{
    if case_sensitive {
        Matcher::Literal { needle: slice_to_vec(pattern), fold_case: false }
    } else {
        Matcher::Literal { needle: to_lowercase(pattern), fold_case: true }
    }
}

/// Adds to `out` the hits on the line with index `i` that begin at
/// `offsets`, as long as there are fewer than `max_results`.
pub fn push_line_hits(
    lines: &Vec<Vec<u8>>,
    i: usize,
    offsets: &Vec<usize>,
    context_lines: usize,
    max_results: usize,
    out: &mut Vec<MatchInfo>,
)
    requires
        i < lines@.len(),
        lines@[i as int]@.len() < usize::MAX,
        old(out)@.len() < max_results,
    ensures
        hits_view(final(out)@) == capped(
            hits_view(old(out)@),
            line_hits(texts_of(lines@), i as int, offsets_view(offsets@), context_lines as nat),
            max_results as nat,
        ),
        final(out)@.len() <= max_results,
        final(out)@.len() < max_results ==> hits_view(final(out)@) == hits_view(old(out)@)
            + line_hits(texts_of(lines@), i as int, offsets_view(offsets@), context_lines as nat),
{
    let line = lines[i].as_slice();
    let ghost start = hits_view(out@);
    let ghost all = line_hits(
        texts_of(lines@),
        i as int,
        offsets_view(offsets@),
        context_lines as nat,
    );
    let mut j: usize = 0;
    proof {
        assert(start + all.take(0) =~= start);
        assert(hits_view(out@).len() == out@.len());
    }
    while j < offsets.len()
        invariant
            j <= offsets@.len(),
            i < lines@.len(),
            line@ == lines@[i as int]@,
            line@.len() < usize::MAX,
            start == hits_view(old(out)@),
            start.len() < max_results,
            all == line_hits(
                texts_of(lines@),
                i as int,
                offsets_view(offsets@),
                context_lines as nat,
            ),
            hits_view(out@) == start + all.take(j as int),
            out@.len() == start.len() + j,
            out@.len() <= max_results,
        decreases offsets.len() - j,
    {
        if out.len() >= max_results {
            proof {
                assert(is_prefix(all.take(j as int), all)) by {
                    assert(all.take(all.take(j as int).len() as int) =~= all.take(j as int));
                }
                lemma_capped_at_limit(start, all.take(j as int), all, max_results as nat);
            }
            return ;
        }
        let offset: usize = offsets[j];
        let chars: usize = count_chars(line, offset);
        proof {
            let upto = if offset <= line@.len() {
                offset as int
            } else {
                line@.len() as int
            };
            lemma_char_count_bound(line@.take(upto));
        }
        let hit = MatchInfo::new(i, chars + 1, line, lines, context_lines);
        let ghost before = out@;
        out.push(hit);
        proof {
            assert(texts_of(lines@)[i as int] == line@);
            assert(offsets_view(offsets@)[j as int] == offset as int);
            assert(hit@ == hit_at(texts_of(lines@), i as int, offset as int, context_lines as nat));
            assert(all[j as int] == hit@);
            assert(hits_view(out@) =~= hits_view(before).push(hit@));
            assert(all.take(j + 1) =~= all.take(j as int).push(all[j as int]));
            assert(hits_view(out@) =~= start + all.take(j + 1));
        }
        j += 1;
    }
    proof {
        assert(all.take(offsets@.len() as int) =~= all);
        lemma_capped_below_limit(start, all, max_results as nat);
    }
}

/// The hits that a search finds in `lines`, in the order of the lines and,
/// within a line, of the offsets. For an empty literal, `room` times the
/// hit at the start of the first line.
pub open spec fn found_hits(
    lines: Seq<Seq<u8>>,
    needle: Needle,
    context_lines: nat,
    room: nat,
) -> Seq<Hit> {
    if needle.is_endless() {
        if lines.len() == 0 {
            Seq::empty()
        } else {
            Seq::new(room, |k: int| hit_at(lines, 0, 0, context_lines))
        }
    } else {
        concat_all(
            Seq::new(
                lines.len(),
                |i: int| line_hits(lines, i, needle.offsets_in(lines[i]), context_lines),
            ),
        )
    }
}

/// How many more results fit below `max` when there are `count`.
pub open spec fn room_left(count: nat, max: nat) -> nat {
    if count >= max {
        0
    } else {
        (max - count) as nat
    }
}

/// Adds to `out` the hits that `matcher` finds in `lines`, as long as there
/// are fewer than `max_results`.
pub fn search_lines(
    lines: &Vec<Vec<u8>>,
    matcher: &Matcher<'_>,
    context_lines: usize,
    max_results: usize,
    out: &mut Vec<MatchInfo>,
)
    requires
        forall|i: int| 0 <= i < lines@.len() ==> (#[trigger] lines@[i])@.len() < usize::MAX,
    ensures
        hits_view(final(out)@) == capped(
            hits_view(old(out)@),
            found_hits(
                texts_of(lines@),
                matcher@,
                context_lines as nat,
                room_left(old(out)@.len(), max_results as nat),
            ),
            max_results as nat,
        ),
{
    if out.len() >= max_results {
        return ;
    }
    let ghost start = hits_view(out@);
    let ghost all = texts_of(lines@);
    proof {
        assert(start.len() == out@.len());
    }
    let endless = match matcher {
        Matcher::Literal { needle, .. } => needle.len() == 0,
        Matcher::Regex(_) => false,
    };
    if endless {
        if lines.len() == 0 {
            proof {
                assert(start + Seq::<Hit>::empty() =~= start);
            }
            return ;
        }
        let ghost room = room_left(start.len(), max_results as nat);
        let ghost found = Seq::new(room, |k: int| hit_at(all, 0, 0, context_lines as nat));
        proof {
            assert(start + found.take(0) =~= start);
            assert(char_count(all[0].take(0)) == 0);
        }
        while out.len() < max_results
            invariant
                lines@.len() > 0,
                all == texts_of(lines@),
                start == hits_view(old(out)@),
                start.len() < max_results,
                room == max_results - start.len(),
                found == Seq::new(room, |k: int| hit_at(all, 0, 0, context_lines as nat)),
                start.len() <= out@.len() <= max_results,
                hits_view(out@) == start + found.take(out@.len() - start.len()),
                char_count(all[0].take(0)) == 0,
            decreases max_results - out.len(),
        {
            let hit = MatchInfo::new(0, 1, lines[0].as_slice(), lines, context_lines);
            let ghost before = out@;
            out.push(hit);
            proof {
                let k = before.len() - start.len();
                assert(all[0] == lines@[0]@);
                assert(hit@ == found[k]);
                assert(hits_view(out@) =~= hits_view(before).push(hit@));
                assert(found.take(k + 1) =~= found.take(k).push(found[k]));
                assert(hits_view(out@) =~= start + found.take(k + 1));
            }
        }
        proof {
            assert(found.take(room as int) =~= found);
        }
        return ;
    }
    let ghost parts = Seq::new(
        all.len(),
        |i: int| line_hits(all, i, matcher@.offsets_in(all[i]), context_lines as nat),
    );
    let mut i: usize = 0;
    proof {
        assert(parts.take(0) =~= Seq::<Seq<Hit>>::empty());
        assert(start + Seq::<Hit>::empty() =~= start);
    }
    while i < lines.len()
        invariant
            i <= lines@.len(),
            !matcher@.is_endless(),
            forall|i: int| 0 <= i < lines@.len() ==> (#[trigger] lines@[i])@.len() < usize::MAX,
            all == texts_of(lines@),
            start == hits_view(old(out)@),
            start.len() < max_results,
            parts == Seq::new(
                all.len(),
                |i: int| line_hits(all, i, matcher@.offsets_in(all[i]), context_lines as nat),
            ),
            hits_view(out@) == start + concat_all(parts.take(i as int)),
            out@.len() < max_results,
        decreases lines.len() - i,
    {
        let offsets = matcher.offsets(lines[i].as_slice());
        let ghost before = hits_view(out@);
        push_line_hits(lines, i, &offsets, context_lines, max_results, out);
        proof {
            assert(all[i as int] == lines@[i as int]@);
            assert(parts[i as int] == line_hits(
                all,
                i as int,
                offsets_view(offsets@),
                context_lines as nat,
            ));
            lemma_concat_step(parts, i as int);
        }
        if out.len() >= max_results {
            proof {
                // the limit was reached within this line
                let part = parts[i as int];
                let head = concat_all(parts.take(i as int));
                assert(hits_view(out@).len() == out@.len());
                let taken = if before.len() + part.len() <= max_results {
                    part.len() as int
                } else {
                    max_results - before.len()
                };
                assert(hits_view(out@) =~= before + part.take(taken)) by {
                    assert(part.take(part.len() as int) =~= part);
                }
                lemma_concat_partial_prefix(parts, i as int, taken);
                assert(hits_view(out@) =~= start + (head + part.take(taken)));
                lemma_capped_at_limit(
                    start,
                    head + part.take(taken),
                    concat_all(parts),
                    max_results as nat,
                );
            }
            return ;
        }
        proof {
            assert(hits_view(out@) =~= start + concat_all(parts.take(i + 1)));
        }
        i += 1;
    }
    proof {
        assert(hits_view(out@).len() == out@.len());
        assert(parts.take(parts.len() as int) =~= parts);
        lemma_capped_below_limit(start, concat_all(parts), max_results as nat);
    }
}

/// How a file is searched.
#[derive(Clone, Copy, Debug)]
pub struct SearchOptions {
    /// Whether the pattern is a regular expression, or a literal text.
    pub regex: bool,
    pub case_sensitive: bool,
    /// How many lines are shown on either side of a hit.
    pub context_lines: usize,
    pub max_results: usize,
}

impl SearchOptions {
    /// The usual settings: a literal text, case counts, two lines of
    /// context, at most 50 results.
    pub fn new() -> (r: SearchOptions)
        ensures
            !r.regex,
            r.case_sensitive,
            r.context_lines == DEFAULT_CONTEXT_LINES,
            r.max_results == crate::find::DEFAULT_MAX_RESULTS,
    {
        SearchOptions {
            regex: false,
            case_sensitive: true,
            context_lines: DEFAULT_CONTEXT_LINES,
            max_results: crate::find::DEFAULT_MAX_RESULTS,
        }
    }
}

/// What a search for `pattern` looks for under `options`.
pub open spec fn needle_for(pattern: Seq<char>, options: SearchOptions) -> Needle {
    if options.regex {
        Needle::Regex { source: pattern, case_insensitive: !options.case_sensitive }
    } else {
        literal_needle(vstd::utf8::encode_utf8(pattern), options.case_sensitive)
    }
}

/// Whether a search can be made at all: a regular expression must compile.
/// The question does not arise where the results are full already.
pub open spec fn search_fails(pattern: Seq<char>, options: SearchOptions, count: nat) -> bool {
    count < options.max_results && options.regex && !pattern_compiles(
        pattern,
        !options.case_sensitive,
    )
}

/// Adds to `matches` the hits of the regular expression `pattern` in the
/// lines of `content`, as long as there are fewer than `max_results`.
pub fn scan_file_for_references(
    content: &[u8],
    pattern: &Pattern,
    context_lines: usize,
    max_results: usize,
    matches: &mut Vec<MatchInfo>,
)
    requires
        content@.len() < usize::MAX,
    ensures
        hits_view(final(matches)@) == capped(
            hits_view(old(matches)@),
            found_hits(
                lines_of(content@),
                Needle::Regex {
                    source: pattern.source(),
                    case_insensitive: pattern.case_insensitive(),
                },
                context_lines as nat,
                room_left(old(matches)@.len(), max_results as nat),
            ),
            max_results as nat,
        ),
{
    if matches.len() >= max_results {
        return ;
    }
    let lines = split_lines(content);
    let matcher = Matcher::Regex(pattern);
    search_lines(&lines, &matcher, context_lines, max_results, matches);
}

/// Adds to `matches` the hits of `pattern` in the lines of `content`, as
/// long as there are fewer than `options.max_results`. A regular expression
/// that does not compile fails the search, unless the results were full
/// already.
pub fn search_in_file(
    content: &[u8],
    pattern: &str,
    options: SearchOptions,
    matches: &mut Vec<MatchInfo>,
) -> (r: Result<(), InvalidPattern>)
    requires
        content@.len() < usize::MAX,
    ensures
        r is Err <==> search_fails(pattern@, options, old(matches)@.len()),
        r is Err ==> final(matches)@ == old(matches)@,
        r is Ok ==> hits_view(final(matches)@) == capped(
            hits_view(old(matches)@),
            found_hits(
                lines_of(content@),
                needle_for(pattern@, options),
                options.context_lines as nat,
                room_left(old(matches)@.len(), options.max_results as nat),
            ),
            options.max_results as nat,
        ),
{
    if matches.len() >= options.max_results {
        return Ok(());
    }
    let lines = split_lines(content);
    if options.regex {
        let compiled = match Pattern::new(pattern, !options.case_sensitive) {
            Ok(compiled) => compiled,
            Err(e) => { return Err(e); },
        };
        let matcher = Matcher::Regex(&compiled);
        search_lines(&lines, &matcher, options.context_lines, options.max_results, matches);
    } else {
        let matcher = literal_matcher(pattern.as_bytes(), options.case_sensitive);
        search_lines(&lines, &matcher, options.context_lines, options.max_results, matches);
    }
    Ok(())
}

/// Whether one of the names of a path begins with a dot. `components` are
/// the names that make up the path, without its root and without `.` and
/// `..`.
pub open spec fn has_hidden_component(components: Seq<Seq<u8>>) -> bool
    decreases components.len(),
{
    components.len() > 0 && ((components.last().len() > 0 && components.last()[0] == 0x2E)
        || has_hidden_component(components.drop_last()))
}

/// Whether a path is hidden: one of the names that make it up begins with
/// a dot.
pub fn is_hidden_path(components: &Vec<Vec<u8>>) -> (r: bool)
    ensures
        r == has_hidden_component(texts_of(components@)),
{
    let ghost all = texts_of(components@);
    let mut i: usize = components.len();
    proof {
        assert(all.take(i as int) =~= all);
    }
    while i > 0
        invariant
            i <= components@.len(),
            all == texts_of(components@),
            has_hidden_component(all) == has_hidden_component(all.take(i as int)),
        decreases i,
    {
        proof {
            assert(all.take(i as int).last() == components@[i - 1]@);
            assert(all.take(i as int).drop_last() =~= all.take(i - 1));
        }
        let name = &components[i - 1];
        if name.len() > 0 && name[0] == 0x2E {
            return true;
        }
        i -= 1;
    }
    false
}

/// Number of places where `needle` stands in the first `count` of `lines`,
/// each place being looked for after the end of the one before.
pub open spec fn occurrence_count(lines: Seq<Seq<u8>>, needle: Seq<u8>, count: int) -> nat
    decreases count,
{
    if count <= 0 {
        0
    } else {
        occurrence_count(lines, needle, count - 1) + literal_offsets(
            lines[count - 1],
            needle,
            0,
        ).len()
    }
}

proof fn lemma_literal_hits_upto(lines: Seq<Seq<u8>>, needle: Seq<u8>, context_lines: nat, k: int)
    requires
        0 <= k <= lines.len(),
    ensures
        concat_all(
            Seq::new(
                lines.len(),
                |i: int|
                    line_hits(
                        lines,
                        i,
                        (Needle::Literal { needle, fold_case: false }).offsets_in(lines[i]),
                        context_lines,
                    ),
            ).take(k),
        ).len() == occurrence_count(lines, needle, k),
    decreases k,
{
    let parts = Seq::new(
        lines.len(),
        |i: int|
            line_hits(
                lines,
                i,
                (Needle::Literal { needle, fold_case: false }).offsets_in(lines[i]),
                context_lines,
            ),
    );
    if k == 0 {
        assert(parts.take(0) =~= Seq::<Seq<Hit>>::empty());
    } else {
        lemma_literal_hits_upto(lines, needle, context_lines, k - 1);
        lemma_concat_step(parts, k - 1);
    }
}

/// A search for a literal text that is not empty, in which case counts,
/// gives as many hits as there are places where the text stands in the
/// lines, each place being looked for after the end of the one before; but
/// no more than the limit allows. The limit is reached exactly when the
/// number of results equals it.
pub proof fn lemma_literal_search_count(
    old_hits: Seq<Hit>,
    lines: Seq<Seq<u8>>,
    needle: Seq<u8>,
    context_lines: nat,
    max_results: nat,
)
    requires
        needle.len() > 0,
        old_hits.len() <= max_results,
    ensures
        ({
            let found = found_hits(
                lines,
                literal_needle(needle, true),
                context_lines,
                room_left(old_hits.len(), max_results),
            );
            let all = old_hits.len() + occurrence_count(lines, needle, lines.len() as int);
            let result = capped(old_hits, found, max_results);
            &&& found.len() == occurrence_count(lines, needle, lines.len() as int)
            &&& result.len() == if all <= max_results {
                all
            } else {
                max_results
            }
            &&& (result.len() >= max_results <==> result.len() == max_results)
        }),
{
    lemma_literal_hits_upto(lines, needle, context_lines, lines.len() as int);
    let parts = Seq::new(
        lines.len(),
        |i: int|
            line_hits(
                lines,
                i,
                (Needle::Literal { needle, fold_case: false }).offsets_in(lines[i]),
                context_lines,
            ),
    );
    assert(parts.take(lines.len() as int) =~= parts);
    let found = found_hits(
        lines,
        literal_needle(needle, true),
        context_lines,
        room_left(old_hits.len(), max_results),
    );
    assert(found == concat_all(parts));
    crate::capped::lemma_capped_len(old_hits, found, max_results);
}

} // verus!
