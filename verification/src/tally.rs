//! Tallies: how often each name was seen, with a few samples, and the names
//! seen most often.

use vstd::prelude::*;
use vstd::slice::slice_to_vec;

use crate::text::{bytes_eq, texts_of};

verus! {

/// A tally as a mathematical value.
pub struct Count {
    pub name: Seq<u8>,
    pub count: nat,
    pub samples: Seq<Seq<u8>>,
}

/// How often a name was seen, with the first few things seen under it.
pub struct Tally {
    pub name: Vec<u8>,
    pub count: usize,
    pub samples: Vec<Vec<u8>>,
}

impl View for Tally {
    type V = Count;

    open spec fn view(&self) -> Count {
        Count { name: self.name@, count: self.count as nat, samples: texts_of(self.samples@) }
    }
}

/// The tallies that a vector holds.
pub open spec fn counts_view(v: Seq<Tally>) -> Seq<Count> {
    v.map_values(|t: Tally| t@)
}

/// Where `name` stands among `counts`, or their number when it does not.
pub open spec fn position_of(counts: Seq<Count>, name: Seq<u8>) -> int
    decreases counts.len(),
{
    if counts.len() == 0 {
        0
    } else if counts[0].name == name {
        0
    } else {
        1 + position_of(counts.drop_first(), name)
    }
}

/// `count` seen once more, `sample` being kept as long as there are fewer
/// than `max_samples`.
pub open spec fn seen_again(count: Count, sample: Option<Seq<u8>>, max_samples: nat) -> Count {
    Count {
        name: count.name,
        count: count.count + 1,
        samples: match sample {
            Some(s) => if count.samples.len() < max_samples {
                count.samples.push(s)
            } else {
                count.samples
            },
            None => count.samples,
        },
    }
}

/// `counts` after `name` was seen once more: its tally grows by one, a new
/// name being put at the end.
pub open spec fn seen(
    counts: Seq<Count>,
    name: Seq<u8>,
    sample: Option<Seq<u8>>,
    max_samples: nat,
) -> Seq<Count> {
    let at = position_of(counts, name);
    if at < counts.len() {
        counts.update(at, seen_again(counts[at], sample, max_samples))
    } else {
        counts.push(
            seen_again(Count { name, count: 0, samples: Seq::empty() }, sample, max_samples),
        )
    }
}

proof fn lemma_position_is(counts: Seq<Count>, name: Seq<u8>, at: int)
    requires
        0 <= at <= counts.len(),
        forall|i: int| 0 <= i < at ==> (#[trigger] counts[i]).name != name,
        at < counts.len() ==> counts[at].name == name,
    ensures
        position_of(counts, name) == at,
    decreases counts.len(),
{
    if at > 0 {
        let rest = counts.drop_first();
        assert(counts[0].name != name);
        assert forall|i: int| 0 <= i < at - 1 implies (#[trigger] rest[i]).name != name by {
            assert(rest[i] == counts[i + 1]);
        }
        if at - 1 < rest.len() {
            assert(rest[at - 1] == counts[at]);
        }
        lemma_position_is(rest, name, at - 1);
    }
}

/// Every tally is at most `bound`.
pub open spec fn counts_below(counts: Seq<Count>, bound: nat) -> bool {
    forall|i: int| 0 <= i < counts.len() ==> (#[trigger] counts[i]).count <= bound
}

proof fn lemma_position_bounds(counts: Seq<Count>, name: Seq<u8>)
    ensures
        0 <= position_of(counts, name) <= counts.len(),
    decreases counts.len(),
{
    if counts.len() > 0 && counts[0].name != name {
        lemma_position_bounds(counts.drop_first(), name);
    }
}

/// Every tally keeps at most `max` samples, and no more than it counts.
pub open spec fn samples_below(counts: Seq<Count>, max: nat) -> bool {
    forall|i: int|
        0 <= i < counts.len() ==> (#[trigger] counts[i]).samples.len() <= max
            && counts[i].samples.len() <= counts[i].count
}

/// Whether every tally is at most `bound`, and keeps at most `max_samples`
/// samples and no more than it counts.
pub fn tallies_are_sound(tallies: &Vec<Tally>, bound: usize, max_samples: usize) -> (r: bool)
    ensures
        r == (counts_below(counts_view(tallies@), bound as nat) && samples_below(
            counts_view(tallies@),
            max_samples as nat,
        )),
{
    let ghost counts = counts_view(tallies@);
    let mut i: usize = 0;
    while i < tallies.len()
        invariant
            i <= tallies@.len(),
            counts == counts_view(tallies@),
            forall|k: int|
                0 <= k < i ==> (#[trigger] counts[k]).count <= bound && counts[k].samples.len()
                    <= max_samples && counts[k].samples.len() <= counts[k].count,
        decreases tallies.len() - i,
    {
        let tally = &tallies[i];
        proof {
            assert(counts[i as int] == tally@);
            assert(counts[i as int].samples.len() == tally.samples@.len());
        }
        if tally.count > bound || tally.samples.len() > max_samples || tally.samples.len()
            > tally.count {
            return false;
        }
        i += 1;
    }
    true
}

/// Seeing a name once more keeps the samples of every tally within their
/// limit.
pub proof fn lemma_seen_samples(
    counts: Seq<Count>,
    name: Seq<u8>,
    sample: Option<Seq<u8>>,
    max_samples: nat,
)
    requires
        samples_below(counts, max_samples),
    ensures
        samples_below(seen(counts, name, sample, max_samples), max_samples),
{
    let after = seen(counts, name, sample, max_samples);
    let at = position_of(counts, name);
    lemma_position_bounds(counts, name);
    assert forall|i: int| 0 <= i < after.len() implies (#[trigger] after[i]).samples.len()
        <= max_samples && after[i].samples.len() <= after[i].count by {
        if at < counts.len() {
            if i != at {
                assert(after[i] == counts[i]);
            } else {
                assert(counts[at].samples.len() <= max_samples);
            }
        } else {
            if i < counts.len() {
                assert(after[i] == counts[i]);
            }
        }
    }
}

/// Seeing a name once more raises no tally by more than one.
pub proof fn lemma_seen_below(
    counts: Seq<Count>,
    name: Seq<u8>,
    sample: Option<Seq<u8>>,
    max_samples: nat,
    bound: nat,
)
    requires
        counts_below(counts, bound),
    ensures
        counts_below(seen(counts, name, sample, max_samples), bound + 1),
{
    let after = seen(counts, name, sample, max_samples);
    let at = position_of(counts, name);
    lemma_position_bounds(counts, name);
    assert forall|i: int| 0 <= i < after.len() implies (#[trigger] after[i]).count <= bound + 1 by {
        if at < counts.len() {
            if i != at {
                assert(after[i] == counts[i]);
            } else {
                assert(counts[at].count <= bound);
            }
        } else {
            if i < counts.len() {
                assert(after[i] == counts[i]);
            }
        }
    }
}

/// Counts `name` once more in `tallies`, keeping `sample` where fewer than
/// `max_samples` are kept under that name.
pub fn count_name(tallies: &mut Vec<Tally>, name: &[u8], sample: Option<&[u8]>, max_samples: usize)
    requires
        counts_below(counts_view(old(tallies)@), (usize::MAX - 1) as nat),
    ensures
        counts_view(final(tallies)@) == seen(
            counts_view(old(tallies)@),
            name@,
            match sample {
                Some(s) => Some(s@),
                None => None,
            },
            max_samples as nat,
        ),
{
    let ghost counts = counts_view(tallies@);
    let ghost sample_view = match sample {
        Some(s) => Some(s@),
        None => None,
    };
    let mut at: usize = 0;
    while at < tallies.len() && !bytes_eq(tallies[at].name.as_slice(), name)
        invariant
            at <= tallies@.len(),
            counts == counts_view(tallies@),
            forall|i: int| 0 <= i < at ==> (#[trigger] counts[i]).name != name@,
        decreases tallies.len() - at,
    {
        proof {
            assert(counts[at as int] == tallies@[at as int]@);
        }
        at += 1;
    }
    proof {
        if at < tallies@.len() {
            assert(counts[at as int] == tallies@[at as int]@);
        }
        lemma_position_is(counts, name@, at as int);
    }
    let mut entry = if at < tallies.len() {
        tallies.remove(at)
    } else {
        Tally { name: slice_to_vec(name), count: 0, samples: Vec::new() }
    };
    let ghost before = entry@;
    proof {
        if at < counts.len() {
            assert(before == counts[at as int]);
            assert(before.count <= usize::MAX - 1);
        } else {
            assert(before.samples =~= Seq::<Seq<u8>>::empty());
        }
    }
    entry.count = entry.count + 1;
    match sample {
        Some(s) => {
            if entry.samples.len() < max_samples {
                let ghost kept = entry.samples@;
                entry.samples.push(slice_to_vec(s));
                proof {
                    assert(texts_of(entry.samples@) =~= texts_of(kept).push(s@));
                }
            }
        },
        None => {},
    }
    assert(entry@ == seen_again(before, sample_view, max_samples as nat));
    let ghost middle = tallies@;
    tallies.insert(at, entry);
    proof {
        let result = counts_view(tallies@);
        let wanted = seen(counts, name@, sample_view, max_samples as nat);
        assert(result =~= wanted) by {
            assert(result.len() == wanted.len());
            assert forall|i: int| 0 <= i < result.len() implies result[i] == wanted[i] by {
                if i < at {
                    assert(tallies@[i] == middle[i]);
                } else if i > at {
                    assert(tallies@[i] == middle[i - 1]);
                }
            }
        }
    }
}

/// `sorted` with `x` put before the first tally that is not greater.
pub open spec fn insert_by_count(sorted: Seq<Count>, x: Count) -> Seq<Count>
    decreases sorted.len(),
{
    if sorted.len() == 0 || sorted[0].count <= x.count {
        seq![x] + sorted
    } else {
        seq![sorted[0]] + insert_by_count(sorted.drop_first(), x)
    }
}

/// `s` with the greatest tallies first, equal tallies keeping the order in
/// which they stand in `s`.
pub open spec fn sort_by_count(s: Seq<Count>) -> Seq<Count>
    decreases s.len(),
{
    if s.len() == 0 {
        Seq::empty()
    } else {
        insert_by_count(sort_by_count(s.drop_first()), s[0])
    }
}

/// The `limit` greatest of `s`, greatest first.
pub open spec fn top_counts(s: Seq<Count>, limit: nat) -> Seq<Count> {
    let sorted = sort_by_count(s);
    if limit < sorted.len() {
        sorted.take(limit as int)
    } else {
        sorted
    }
}

/// The tallies stand greatest first.
pub open spec fn descending(s: Seq<Count>) -> bool {
    forall|i: int, j: int| 0 <= i < j < s.len() ==> (#[trigger] s[i]).count >= (#[trigger] s[j]).count
}

proof fn lemma_insert_by_count_position(sorted: Seq<Count>, x: Count, p: int)
    requires
        0 <= p <= sorted.len(),
        forall|j: int| 0 <= j < p ==> (#[trigger] sorted[j]).count > x.count,
        p < sorted.len() ==> sorted[p].count <= x.count,
    ensures
        insert_by_count(sorted, x) == sorted.insert(p, x),
    decreases p,
{
    if p == 0 {
        assert(seq![x] + sorted =~= sorted.insert(0, x));
    } else {
        let rest = sorted.drop_first();
        assert forall|j: int| 0 <= j < p - 1 implies (#[trigger] rest[j]).count > x.count by {
            assert(rest[j] == sorted[j + 1]);
        }
        if p - 1 < rest.len() {
            assert(rest[p - 1] == sorted[p]);
        }
        lemma_insert_by_count_position(rest, x, p - 1);
        assert(sorted[0].count > x.count);
        assert(seq![sorted[0]] + rest.insert(p - 1, x) =~= sorted.insert(p, x));
    }
}

proof fn lemma_insert_by_count_descending(sorted: Seq<Count>, x: Count)
    requires
        descending(sorted),
    ensures
        descending(insert_by_count(sorted, x)),
        insert_by_count(sorted, x).len() == sorted.len() + 1,
        forall|i: int|
            0 <= i < insert_by_count(sorted, x).len() ==> (#[trigger] insert_by_count(sorted, x)[i])
                == x || (sorted.len() > 0 && sorted[0].count >= insert_by_count(
                sorted,
                x,
            )[i].count),
    decreases sorted.len(),
{
    let r = insert_by_count(sorted, x);
    if sorted.len() == 0 || sorted[0].count <= x.count {
        assert forall|i: int, j: int| 0 <= i < j < r.len() implies (#[trigger] r[i]).count >= (
        #[trigger] r[j]).count by {
            if i > 0 {
                assert(r[i] == sorted[i - 1]);
            }
            assert(r[j] == sorted[j - 1]);
            if i == 0 && j - 1 > 0 {
                assert(sorted[0].count >= sorted[j - 1].count);
            }
        }
        assert forall|i: int| 0 <= i < r.len() implies (#[trigger] r[i]) == x || (sorted.len() > 0
            && sorted[0].count >= r[i].count) by {
            if i > 0 {
                assert(r[i] == sorted[i - 1]);
                if i - 1 > 0 {
                    assert(sorted[0].count >= sorted[i - 1].count);
                }
            }
        }
    } else {
        let rest = sorted.drop_first();
        assert(descending(rest)) by {
            assert forall|i: int, j: int| 0 <= i < j < rest.len() implies (#[trigger] rest[i]).count
                >= (#[trigger] rest[j]).count by {
                assert(rest[i] == sorted[i + 1]);
                assert(rest[j] == sorted[j + 1]);
            }
        }
        lemma_insert_by_count_descending(rest, x);
        let tail = insert_by_count(rest, x);
        assert forall|i: int| 0 <= i < tail.len() implies sorted[0].count >= (#[trigger] tail[i]).count by {
            if tail[i] != x {
                assert(rest[0] == sorted[1]);
                assert(sorted[0].count >= sorted[1].count);
            }
        }
        assert forall|i: int, j: int| 0 <= i < j < r.len() implies (#[trigger] r[i]).count >= (
        #[trigger] r[j]).count by {
            assert(r[j] == tail[j - 1]);
            if i > 0 {
                assert(r[i] == tail[i - 1]);
            }
        }
        assert forall|i: int| 0 <= i < r.len() implies (#[trigger] r[i]) == x || (sorted.len() > 0
            && sorted[0].count >= r[i].count) by {
            if i > 0 {
                assert(r[i] == tail[i - 1]);
            }
        }
    }
}

proof fn lemma_insert_by_count_keeps(sorted: Seq<Count>, x: Count, holds: spec_fn(Count) -> bool)
    requires
        forall|i: int| 0 <= i < sorted.len() ==> holds(#[trigger] sorted[i]),
        holds(x),
    ensures
        forall|i: int|
            0 <= i < insert_by_count(sorted, x).len() ==> holds(
                #[trigger] insert_by_count(sorted, x)[i],
            ),
    decreases sorted.len(),
{
    let r = insert_by_count(sorted, x);
    if sorted.len() == 0 || sorted[0].count <= x.count {
        assert forall|i: int| 0 <= i < r.len() implies holds(#[trigger] r[i]) by {
            if i > 0 {
                assert(r[i] == sorted[i - 1]);
            }
        }
    } else {
        let rest = sorted.drop_first();
        assert forall|i: int| 0 <= i < rest.len() implies holds(#[trigger] rest[i]) by {
            assert(rest[i] == sorted[i + 1]);
        }
        lemma_insert_by_count_keeps(rest, x, holds);
        let tail = insert_by_count(rest, x);
        assert forall|i: int| 0 <= i < r.len() implies holds(#[trigger] r[i]) by {
            if i > 0 {
                assert(r[i] == tail[i - 1]);
            }
        }
    }
}

proof fn lemma_sort_by_count_keeps(s: Seq<Count>, holds: spec_fn(Count) -> bool)
    requires
        forall|i: int| 0 <= i < s.len() ==> holds(#[trigger] s[i]),
    ensures
        forall|i: int| 0 <= i < sort_by_count(s).len() ==> holds(#[trigger] sort_by_count(s)[i]),
    decreases s.len(),
{
    if s.len() > 0 {
        let rest = s.drop_first();
        assert forall|i: int| 0 <= i < rest.len() implies holds(#[trigger] rest[i]) by {
            assert(rest[i] == s[i + 1]);
        }
        lemma_sort_by_count_keeps(rest, holds);
        lemma_insert_by_count_keeps(sort_by_count(rest), s[0], holds);
    }
}

/// What holds of every tally holds of the greatest of them.
pub proof fn lemma_top_counts_keep(s: Seq<Count>, limit: nat, holds: spec_fn(Count) -> bool)
    requires
        forall|i: int| 0 <= i < s.len() ==> holds(#[trigger] s[i]),
    ensures
        forall|i: int|
            0 <= i < top_counts(s, limit).len() ==> holds(#[trigger] top_counts(s, limit)[i]),
{
    lemma_sort_by_count_keeps(s, holds);
    let sorted = sort_by_count(s);
    let top = top_counts(s, limit);
    assert forall|i: int| 0 <= i < top.len() implies holds(#[trigger] top[i]) by {
        assert(top[i] == sorted[i]);
    }
}

/// Sorted tallies stand greatest first, and there are as many as before.
pub proof fn lemma_sort_by_count(s: Seq<Count>)
    ensures
        descending(sort_by_count(s)),
        sort_by_count(s).len() == s.len(),
    decreases s.len(),
{
    if s.len() > 0 {
        lemma_sort_by_count(s.drop_first());
        lemma_insert_by_count_descending(sort_by_count(s.drop_first()), s[0]);
    }
}

/// Picks the `limit` greatest of `tallies`, greatest first; equal tallies
/// keep their order.
pub fn top_tallies(tallies: Vec<Tally>, limit: usize) -> (r: Vec<Tally>)
    ensures
        counts_view(r@) == top_counts(counts_view(tallies@), limit as nat),
        descending(counts_view(r@)),
        r@.len() <= limit,
        r@.len() <= tallies@.len(),
{
    let ghost all = counts_view(tallies@);
    let mut work = tallies;
    let mut out: Vec<Tally> = Vec::new();
    proof {
        assert(all.take(all.len() as int) =~= all);
        assert(all.skip(all.len() as int) =~= Seq::<Count>::empty());
        assert(counts_view(out@) =~= Seq::<Count>::empty());
    }
    loop
        invariant
            work@.len() <= all.len(),
            counts_view(work@) == all.take(work@.len() as int),
            counts_view(out@) == sort_by_count(all.skip(work@.len() as int)),
        ensures
            counts_view(out@) == sort_by_count(all),
        decreases work@.len(),
    {
        let ghost k = work@.len() as int;
        let ghost work_before = work@;
        match work.pop() {
            None => {
                proof {
                    assert(all.skip(0) =~= all);
                }
                break ;
            },
            Some(x) => {
                let mut p: usize = 0;
                while p < out.len() && out[p].count > x.count
                    invariant
                        p <= out@.len(),
                        forall|j: int| 0 <= j < p ==> (#[trigger] out@[j]).count > x.count,
                    decreases out.len() - p,
                {
                    p += 1;
                }
                let ghost out_before = out@;
                proof {
                    let sorted = counts_view(out_before);
                    assert forall|j: int| 0 <= j < p implies (#[trigger] sorted[j]).count
                        > x@.count by {
                        assert(sorted[j] == out_before[j]@);
                    }
                    lemma_insert_by_count_position(sorted, x@, p as int);
                    assert(counts_view(work_before)[k - 1] == work_before[k - 1]@);
                    assert(x@ == all[k - 1]);
                    assert(all.skip(k - 1)[0] == all[k - 1]);
                    assert(all.skip(k - 1).drop_first() =~= all.skip(k));
                }
                out.insert(p, x);
                proof {
                    assert(counts_view(out@) =~= counts_view(out_before).insert(p as int, x@));
                    assert(counts_view(work@) =~= all.take(k - 1));
                }
            },
        }
    }
    proof {
        lemma_sort_by_count(all);
        assert(counts_view(out@).len() == out@.len());
    }
    if limit < out.len() {
        let ghost sorted = out@;
        out.truncate(limit);
        proof {
            assert(counts_view(out@) =~= counts_view(sorted).take(limit as int));
            let r = counts_view(out@);
            assert forall|i: int, j: int| 0 <= i < j < r.len() implies (#[trigger] r[i]).count >= (
            #[trigger] r[j]).count by {
                assert(r[i] == counts_view(sorted)[i]);
                assert(r[j] == counts_view(sorted)[j]);
            }
        }
    }
    out
}

} // verus!
