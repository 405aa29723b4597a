//! Results that are gathered piece by piece, up to a limit.

use vstd::prelude::*;

verus! {

/// The pieces of `parts` one after another.
pub open spec fn concat_all<T>(parts: Seq<Seq<T>>) -> Seq<T>
    decreases parts.len(),
{
    if parts.len() == 0 {
        Seq::empty()
    } else {
        concat_all(parts.drop_last()) + parts.last()
    }
}

/// `a` is the beginning of `b`.
pub open spec fn is_prefix<T>(a: Seq<T>, b: Seq<T>) -> bool {
    a.len() <= b.len() && b.take(a.len() as int) == a
}

/// `old`, followed by those of `found` for which there is room below `max`
/// results. Where `old` has reached `max`, nothing is added.
pub open spec fn capped<T>(old: Seq<T>, found: Seq<T>, max: nat) -> Seq<T> {
    if old.len() >= max {
        old
    } else if old.len() + found.len() <= max {
        old + found
    } else {
        old + found.take(max - old.len())
    }
}

pub proof fn lemma_concat_step<T>(parts: Seq<Seq<T>>, i: int)
    requires
        0 <= i < parts.len(),
    ensures
        concat_all(parts.take(i + 1)) == concat_all(parts.take(i)) + parts[i],
{
    assert(parts.take(i + 1).drop_last() =~= parts.take(i));
    assert(parts.take(i + 1).last() == parts[i]);
}

pub proof fn lemma_prefix_extend<T>(a: Seq<T>, b: Seq<T>, c: Seq<T>)
    requires
        is_prefix(a, b),
    ensures
        is_prefix(a, b + c),
{
    assert((b + c).take(a.len() as int) =~= b.take(a.len() as int));
}

/// What the first pieces give is the beginning of what all give.
pub proof fn lemma_concat_prefix<T>(parts: Seq<Seq<T>>, i: int)
    requires
        0 <= i <= parts.len(),
    ensures
        is_prefix(concat_all(parts.take(i)), concat_all(parts)),
    decreases parts.len(),
{
    if i == parts.len() {
        assert(parts.take(i) =~= parts);
        assert(concat_all(parts).take(concat_all(parts).len() as int) =~= concat_all(parts));
    } else {
        let rest = parts.drop_last();
        lemma_concat_prefix(rest, i);
        assert(rest.take(i) =~= parts.take(i));
        lemma_prefix_extend(concat_all(parts.take(i)), concat_all(rest), parts.last());
    }
}

/// The first pieces and the beginning of the next give the beginning of
/// what all give.
pub proof fn lemma_concat_partial_prefix<T>(parts: Seq<Seq<T>>, i: int, j: int)
    requires
        0 <= i < parts.len(),
        0 <= j <= parts[i].len(),
    ensures
        is_prefix(concat_all(parts.take(i)) + parts[i].take(j), concat_all(parts)),
{
    lemma_concat_step(parts, i);
    lemma_concat_prefix(parts, i + 1);
    let a = concat_all(parts.take(i));
    let whole = concat_all(parts.take(i + 1));
    let all = concat_all(parts);
    assert(whole.take(a.len() + j) =~= a + parts[i].take(j));
    assert(all.take(a.len() + j) =~= all.take(whole.len() as int).take(a.len() + j));
}

/// Where the limit was reached with the beginning of what was to be found,
/// the result is what the limit allows.
pub proof fn lemma_capped_at_limit<T>(old: Seq<T>, some: Seq<T>, found: Seq<T>, max: nat)
    requires
        old.len() < max,
        is_prefix(some, found),
        old.len() + some.len() == max,
    ensures
        capped(old, found, max) == old + some,
{
    if old.len() + found.len() <= max {
        assert(found.take(found.len() as int) =~= found);
    }
}

/// Where all was found below the limit, the result is all of it.
pub proof fn lemma_capped_below_limit<T>(old: Seq<T>, found: Seq<T>, max: nat)
    requires
        old.len() + found.len() <= max,
    ensures
        capped(old, found, max) == old + found,
{
    if old.len() >= max {
        assert(old + found =~= old);
    }
}

/// A capped result is never longer than the limit, unless it was so
/// before.
pub proof fn lemma_capped_len<T>(old: Seq<T>, found: Seq<T>, max: nat)
    ensures
        old.len() <= max ==> capped(old, found, max).len() <= max,
        capped(old, found, max).len() >= old.len(),
        old.len() < max ==> capped(old, found, max).len() == if old.len() + found.len() <= max {
            old.len() + found.len()
        } else {
            max
        },
{
}

} // verus!
