//! Renaming an identifier within one file, at word boundaries.

use vstd::prelude::*;
use vstd::slice::slice_subrange;
use vstd::string::StringExecFns;

use crate::pattern::{
    escape, escaped, pattern_compiles, pattern_matches, span_within, spans_ordered,
    InvalidPattern, Pattern,
};

verus! {

/// The assertion that a pattern stands at a word boundary.
pub const WORD_BOUNDARY: &'static str = "\\b";

/// The pattern that finds `name` as a whole word: the name, with what has a
/// meaning of its own in a pattern escaped, between two word boundaries.
pub open spec fn word_pattern(name: Seq<char>) -> Seq<char> {
    WORD_BOUNDARY@ + escaped(name) + WORD_BOUNDARY@
}

/// Compiles the pattern that finds `name` as a whole word.
pub fn compile_word_pattern(name: &str, case_sensitive: bool) -> (r: Result<
    Pattern,
    InvalidPattern,
>)
    ensures
        r is Ok <==> pattern_compiles(word_pattern(name@), !case_sensitive),
        r matches Ok(p) ==> p.source() == word_pattern(name@) && p.case_insensitive()
            == !case_sensitive,
{
    let mut source = String::from_str(WORD_BOUNDARY);
    let quoted = escape(name);
    source.append(quoted.as_str());
    source.append(WORD_BOUNDARY);
    Pattern::new(source.as_str(), !case_sensitive)
}

/// `content` with each of `spans` replaced by `replacement`.
pub open spec fn splice_all(content: Seq<u8>, spans: Seq<(usize, usize)>, replacement: Seq<u8>) -> Seq<
    u8,
>
    decreases spans.len(),
{
    if spans.len() == 0 {
        content
    } else {
        splice_all(content.take(spans.last().0 as int), spans.drop_last(), replacement)
            + replacement + content.skip(spans.last().1 as int)
    }
}

/// What lies beyond the last span is kept as it is.
proof fn lemma_splice_all_extend(
    content: Seq<u8>,
    spans: Seq<(usize, usize)>,
    replacement: Seq<u8>,
    a: int,
    b: int,
)
    requires
        spans_ordered(spans, content.len()),
        spans.len() > 0 ==> spans.last().1 <= a,
        0 <= a <= b <= content.len(),
    ensures
        splice_all(content.take(b), spans, replacement) == splice_all(
            content.take(a),
            spans,
            replacement,
        ) + content.subrange(a, b),
{
    if spans.len() == 0 {
        assert(content.take(b) =~= content.take(a) + content.subrange(a, b));
    } else {
        let last = spans.last();
        assert(span_within(last, content.len()));
        assert(content.take(b).take(last.0 as int) =~= content.take(a).take(last.0 as int));
        assert(content.take(b).skip(last.1 as int) =~= content.take(a).skip(last.1 as int)
            + content.subrange(a, b));
        let head = splice_all(content.take(a).take(last.0 as int), spans.drop_last(), replacement);
        assert(head + replacement + (content.take(a).skip(last.1 as int) + content.subrange(a, b))
            =~= (head + replacement + content.take(a).skip(last.1 as int)) + content.subrange(
            a,
            b,
        ));
    }
}

/// Replaces each of `spans` in `content` by `replacement`.
pub fn replace_spans(content: &[u8], spans: &Vec<(usize, usize)>, replacement: &[u8]) -> (r: Vec<
    u8,
>)
    requires
        spans_ordered(spans@, content@.len()),
    ensures
        r@ == splice_all(content@, spans@, replacement@),
{
    let mut out: Vec<u8> = Vec::new();
    let mut last: usize = 0;
    let mut i: usize = 0;
    proof {
        assert(spans@.take(0) =~= Seq::<(usize, usize)>::empty());
        assert(content@.take(0) =~= Seq::<u8>::empty());
    }
    while i < spans.len()
        invariant
            i <= spans@.len(),
            last <= content@.len(),
            spans_ordered(spans@, content@.len()),
            i > 0 ==> last == spans@[i - 1].1,
            i == 0 ==> last == 0,
            out@ == splice_all(content@.take(last as int), spans@.take(i as int), replacement@),
        decreases spans.len() - i,
    {
        let span = spans[i];
        proof {
            assert(span_within(spans@[i as int], content@.len()));
            if i > 0 {
                assert(spans@[i - 1].1 <= spans@[i as int].0);
            }
            let done = spans@.take(i as int);
            assert(spans_ordered(done, content@.len())) by {
                assert forall|k: int| 0 <= k < done.len() implies span_within(
                    #[trigger] done[k],
                    content@.len(),
                ) by {
                    assert(done[k] == spans@[k]);
                }
                assert forall|k: int, j: int| 0 <= k < j < done.len() implies (#[trigger] done[k]).1
                    <= (#[trigger] done[j]).0 by {
                    assert(done[k] == spans@[k]);
                    assert(done[j] == spans@[j]);
                }
            }
            if i > 0 {
                assert(done.last() == spans@[i - 1]);
            }
            lemma_splice_all_extend(content@, done, replacement@, last as int, span.0 as int);
            let next = spans@.take(i + 1);
            assert(next.last() == span);
            assert(next.drop_last() =~= done);
            assert(content@.take(span.1 as int).take(span.0 as int) =~= content@.take(
                span.0 as int,
            ));
            assert(content@.take(span.1 as int).skip(span.1 as int) =~= Seq::<u8>::empty());
        }
        out.extend_from_slice(slice_subrange(content, last, span.0));
        out.extend_from_slice(replacement);
        proof {
            assert(out@ =~= splice_all(
                content@.take(span.1 as int),
                spans@.take(i + 1),
                replacement@,
            ));
        }
        last = span.1;
        i += 1;
    }
    proof {
        assert(spans@.take(spans@.len() as int) =~= spans@);
        lemma_splice_all_extend(
            content@,
            spans@,
            replacement@,
            last as int,
            content@.len() as int,
        );
        assert(content@.take(content@.len() as int) =~= content@);
    }
    out.extend_from_slice(slice_subrange(content, last, content.len()));
    out
}

/// What a renaming gives when `spans` are the places where the old name
/// stands: the new content and the number of replacements. With an
/// `occurrence`, only that one of the spans, counted from 1, is replaced, and
/// none when there is no such span; without, all are.
pub open spec fn renamed(
    content: Seq<u8>,
    spans: Seq<(usize, usize)>,
    new_name: Seq<u8>,
    occurrence: Option<usize>,
) -> (Seq<u8>, nat) {
    match occurrence {
        Some(n) => if 1 <= n <= spans.len() {
            (splice_all(content, seq![spans[n - 1]], new_name), 1)
        } else {
            (content, 0)
        },
        None => (splice_all(content, spans, new_name), spans.len()),
    }
}

/// Replaces the old name by `new_name` at `spans`, the places where it
/// stands in `content`, and counts the replacements.
pub fn apply_rename(
    content: &[u8],
    spans: &Vec<(usize, usize)>,
    new_name: &[u8],
    occurrence: Option<usize>,
) -> (r: (Vec<u8>, usize))
    requires
        spans_ordered(spans@, content@.len()),
    ensures
        (r.0@, r.1 as nat) == renamed(content@, spans@, new_name@, occurrence),
{
    match occurrence {
        Some(n) => {
            if 1 <= n && n <= spans.len() {
                let mut one: Vec<(usize, usize)> = Vec::new();
                one.push(spans[n - 1]);
                proof {
                    assert(one@ =~= seq![spans@[n - 1]]);
                    assert(span_within(spans@[n - 1], content@.len()));
                }
                (replace_spans(content, &one, new_name), 1)
            } else {
                (vstd::slice::slice_to_vec(content), 0)
            }
        },
        None => (replace_spans(content, spans, new_name), spans.len()),
    }
}

/// A renaming that was made.
pub struct Renamed {
    /// The content after the renaming.
    pub content: Vec<u8>,
    /// How many times the old name was replaced.
    pub replacements: usize,
}

/// Renames `old_name` to `new_name` in `content`, wherever it stands as a
/// whole word; with an `occurrence`, only there. Fails when the pattern for
/// the old name does not compile.
pub fn rename_symbol(
    content: &[u8],
    old_name: &str,
    new_name: &[u8],
    case_sensitive: bool,
    occurrence: Option<usize>,
) -> (r: Result<Renamed, InvalidPattern>)
    ensures
        r is Ok <==> pattern_compiles(word_pattern(old_name@), !case_sensitive),
        r matches Ok(done) ==> (done.content@, done.replacements as nat) == renamed(
            content@,
            pattern_matches(word_pattern(old_name@), !case_sensitive, content@),
            new_name@,
            occurrence,
        ),
{
    let pattern = match compile_word_pattern(old_name, case_sensitive) {
        Ok(pattern) => pattern,
        Err(e) => { return Err(e); },
    };
    let spans = pattern.find_all(content);
    let (new_content, replacements) = apply_rename(content, &spans, new_name, occurrence);
    Ok(Renamed { content: new_content, replacements })
}

/// Replacing spans by the text they hold leaves the content as it is.
pub proof fn lemma_rename_to_same_text(
    content: Seq<u8>,
    spans: Seq<(usize, usize)>,
    replacement: Seq<u8>,
)
    requires
        spans_ordered(spans, content.len()),
        forall|i: int|
            0 <= i < spans.len() ==> content.subrange(
                (#[trigger] spans[i]).0 as int,
                spans[i].1 as int,
            ) == replacement,
    ensures
        splice_all(content, spans, replacement) == content,
    decreases spans.len(),
{
    if spans.len() > 0 {
        let last = spans.last();
        let head = content.take(last.0 as int);
        let rest = spans.drop_last();
        assert(span_within(last, content.len()));
        assert(spans_ordered(rest, head.len())) by {
            assert forall|k: int| 0 <= k < rest.len() implies span_within(
                #[trigger] rest[k],
                head.len(),
            ) by {
                assert(rest[k] == spans[k]);
                assert(span_within(spans[k], content.len()));
                assert(spans[k].1 <= spans[spans.len() - 1].0);
            }
            assert forall|k: int, j: int| 0 <= k < j < rest.len() implies (#[trigger] rest[k]).1 <= (
            #[trigger] rest[j]).0 by {
                assert(rest[k] == spans[k]);
                assert(rest[j] == spans[j]);
            }
        }
        assert forall|i: int| 0 <= i < rest.len() implies head.subrange(
            (#[trigger] rest[i]).0 as int,
            rest[i].1 as int,
        ) == replacement by {
            assert(rest[i] == spans[i]);
            assert(spans[i].1 <= spans[spans.len() - 1].0);
            assert(span_within(spans[i], content.len()));
            assert(head.subrange(rest[i].0 as int, rest[i].1 as int) =~= content.subrange(
                spans[i].0 as int,
                spans[i].1 as int,
            ));
        }
        lemma_rename_to_same_text(head, rest, replacement);
        assert(content.subrange(last.0 as int, last.1 as int) == replacement);
        assert(head + content.subrange(last.0 as int, last.1 as int) + content.skip(
            last.1 as int,
        ) =~= content);
    }
}

/// Renaming to the text that stands at every place where the old name was
/// found leaves the content as it is, with or without an occurrence.
pub proof fn lemma_rename_to_same_name(
    content: Seq<u8>,
    spans: Seq<(usize, usize)>,
    new_name: Seq<u8>,
    occurrence: Option<usize>,
)
    requires
        spans_ordered(spans, content.len()),
        forall|i: int|
            0 <= i < spans.len() ==> content.subrange(
                (#[trigger] spans[i]).0 as int,
                spans[i].1 as int,
            ) == new_name,
    ensures
        renamed(content, spans, new_name, occurrence).0 == content,
{
    match occurrence {
        Some(n) => {
            if 1 <= n <= spans.len() {
                let one = seq![spans[n - 1]];
                assert(span_within(spans[n - 1], content.len()));
                assert(spans_ordered(one, content.len()));
                assert(content.subrange(one[0].0 as int, one[0].1 as int) == new_name);
                lemma_rename_to_same_text(content, one, new_name);
            }
        },
        None => {
            lemma_rename_to_same_text(content, spans, new_name);
        },
    }
}

/// Where the old name is found nowhere, as after a renaming that left no
/// whole word of it, renaming replaces nothing and leaves the content as it
/// is.
pub proof fn lemma_rename_without_match(
    content: Seq<u8>,
    new_name: Seq<u8>,
    occurrence: Option<usize>,
)
    ensures
        renamed(content, Seq::empty(), new_name, occurrence) == (content, 0nat),
{
}

} // verus!
