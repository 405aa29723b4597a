//! The rules of the store of notes: which notes answer a filter, which note
//! a write changes, and in which order notes are listed.
//!
//! Notes are told apart by their place in the store: what is handed back
//! are places, counted from 0.

use vstd::prelude::*;

use crate::text::{bytes_contain, bytes_eq, contains_bytes, texts_of};
use crate::unicode::{lowercase, to_lowercase};

verus! {

/// The namespace of a note that names none.
pub const DEFAULT_NAMESPACE: &'static str = "default";

/// How many notes are read when no limit is set.
pub const DEFAULT_READ_LIMIT: usize = 20;

/// How many notes are listed when no limit is set.
pub const DEFAULT_LIST_LIMIT: usize = 50;

/// A note as a mathematical value.
pub struct Note {
    pub id: Seq<u8>,
    pub namespace: Seq<u8>,
    pub content: Seq<u8>,
    pub tags: Seq<Seq<u8>>,
    pub metadata: Option<Seq<Seq<u8>>>,
    pub created_at: Seq<u8>,
    pub updated_at: Option<Seq<u8>>,
}

/// A note, as far as the rules of the store look at it.
pub struct MemoryEntry {
    pub id: Vec<u8>,
    pub namespace: Vec<u8>,
    pub content: Vec<u8>,
    pub tags: Vec<Vec<u8>>,
    /// The values of the metadata, each written out as text; `None` when
    /// the metadata is no object.
    pub metadata: Option<Vec<Vec<u8>>>,
    pub created_at: Vec<u8>,
    pub updated_at: Option<Vec<u8>>,
}

impl View for MemoryEntry {
    type V = Note;

    open spec fn view(&self) -> Note {
        Note {
            id: self.id@,
            namespace: self.namespace@,
            content: self.content@,
            tags: texts_of(self.tags@),
            metadata: match self.metadata {
                Some(values) => Some(texts_of(values@)),
                None => None,
            },
            created_at: self.created_at@,
            updated_at: match self.updated_at {
                Some(at) => Some(at@),
                None => None,
            },
        }
    }
}

/// The notes that a vector holds.
pub open spec fn notes_view(v: Seq<MemoryEntry>) -> Seq<Note> {
    v.map_values(|e: MemoryEntry| e@)
}

/// What is asked of notes, as a mathematical value.
pub struct Wanted {
    pub id: Option<Seq<u8>>,
    pub namespace: Option<Seq<u8>>,
    pub tag: Option<Seq<u8>>,
    pub query: Option<Seq<u8>>,
}

/// What is asked of notes.
pub struct MemoryFilter {
    pub id: Option<Vec<u8>>,
    pub namespace: Option<Vec<u8>>,
    pub tag: Option<Vec<u8>>,
    /// A text that the content, or a value of the metadata, must hold,
    /// whatever the case.
    pub query: Option<Vec<u8>>,
}

/// The text that an optional byte string holds.
pub open spec fn optional_text(v: Option<Vec<u8>>) -> Option<Seq<u8>> {
    match v {
        Some(text) => Some(text@),
        None => None,
    }
}

impl View for MemoryFilter {
    type V = Wanted;

    open spec fn view(&self) -> Wanted {
        Wanted {
            id: optional_text(self.id),
            namespace: optional_text(self.namespace),
            tag: optional_text(self.tag),
            query: optional_text(self.query),
        }
    }
}

/// One of `texts` is `text`.
pub open spec fn holds_tag(texts: Seq<Seq<u8>>, text: Seq<u8>) -> bool
    decreases texts.len(),
{
    texts.len() > 0 && (texts.last() == text || holds_tag(texts.drop_last(), text))
}

/// One of `texts`, in lower case, holds `needle`.
pub open spec fn one_contains(texts: Seq<Seq<u8>>, needle: Seq<u8>) -> bool
    decreases texts.len(),
{
    texts.len() > 0 && (contains_bytes(lowercase(texts.last()), needle) || one_contains(
        texts.drop_last(),
        needle,
    ))
}

/// Whether a note answers what is asked: it has the id, the namespace and
/// the tag that are asked for, and its content, or a value of its
/// metadata, holds the query, whatever the case.
pub open spec fn note_matches(note: Note, wanted: Wanted) -> bool {
    &&& wanted.id matches Some(id) ==> note.id == id
    &&& wanted.namespace matches Some(namespace) ==> note.namespace == namespace
    &&& wanted.tag matches Some(tag) ==> holds_tag(note.tags, tag)
    &&& wanted.query matches Some(query) ==> {
        ||| contains_bytes(lowercase(note.content), lowercase(query))
        ||| note.metadata matches Some(values) && one_contains(values, lowercase(query))
    }
}

/// Whether one of `texts` is `text`.
fn tags_hold(texts: &Vec<Vec<u8>>, text: &[u8]) -> (r: bool)
    ensures
        r == holds_tag(texts_of(texts@), text@),
{
    let ghost all = texts_of(texts@);
    let mut i: usize = texts.len();
    proof {
        assert(all.take(i as int) =~= all);
    }
    while i > 0
        invariant
            i <= texts@.len(),
            all == texts_of(texts@),
            holds_tag(all, text@) == holds_tag(all.take(i as int), text@),
        decreases i,
    {
        proof {
            assert(all.take(i as int).last() == texts@[i - 1]@);
            assert(all.take(i as int).drop_last() =~= all.take(i - 1));
        }
        if bytes_eq(texts[i - 1].as_slice(), text) {
            return true;
        }
        i -= 1;
    }
    false
}

/// Whether one of `texts`, in lower case, holds `needle`.
fn values_contain(texts: &Vec<Vec<u8>>, needle: &[u8]) -> (r: bool)
    ensures
        r == one_contains(texts_of(texts@), needle@),
{
    let ghost all = texts_of(texts@);
    let mut i: usize = texts.len();
    proof {
        assert(all.take(i as int) =~= all);
    }
    while i > 0
        invariant
            i <= texts@.len(),
            all == texts_of(texts@),
            one_contains(all, needle@) == one_contains(all.take(i as int), needle@),
        decreases i,
    {
        proof {
            assert(all.take(i as int).last() == texts@[i - 1]@);
            assert(all.take(i as int).drop_last() =~= all.take(i - 1));
        }
        let lower = to_lowercase(texts[i - 1].as_slice());
        if bytes_contain(lower.as_slice(), needle) {
            return true;
        }
        i -= 1;
    }
    false
}

impl MemoryEntry {
    /// Whether the note answers `filter`.
    pub fn matches(&self, filter: &MemoryFilter) -> (r: bool)
        ensures
            r == note_matches(self@, filter@),
    {
        match &filter.id {
            Some(id) => {
                if !bytes_eq(self.id.as_slice(), id.as_slice()) {
                    return false;
                }
            },
            None => {},
        }
        match &filter.namespace {
            Some(namespace) => {
                if !bytes_eq(self.namespace.as_slice(), namespace.as_slice()) {
                    return false;
                }
            },
            None => {},
        }
        match &filter.tag {
            Some(tag) => {
                if !tags_hold(&self.tags, tag.as_slice()) {
                    return false;
                }
            },
            None => {},
        }
        match &filter.query {
            Some(query) => {
                let needle = to_lowercase(query.as_slice());
                let content = to_lowercase(self.content.as_slice());
                let content_match = bytes_contain(content.as_slice(), needle.as_slice());
                let metadata_match = match &self.metadata {
                    Some(values) => values_contain(values, needle.as_slice()),
                    None => false,
                };
                if !content_match && !metadata_match {
                    return false;
                }
            },
            None => {},
        }
        true
    }
}

/// The places of those of the first `count` of `notes` that satisfy
/// `keep`, in order.
pub open spec fn places_where(notes: Seq<Note>, keep: spec_fn(Note) -> bool, count: int) -> Seq<
    usize,
>
    decreases count,
{
    if count <= 0 {
        Seq::empty()
    } else if keep(notes[count - 1]) {
        places_where(notes, keep, count - 1).push((count - 1) as usize)
    } else {
        places_where(notes, keep, count - 1)
    }
}

/// The first `limit` of `places`, or all of them when there are fewer.
pub open spec fn at_most(places: Seq<usize>, limit: nat) -> Seq<usize> {
    if limit < places.len() {
        places.take(limit as int)
    } else {
        places
    }
}

proof fn lemma_places_prefix(notes: Seq<Note>, keep: spec_fn(Note) -> bool, i: int, n: int)
    requires
        0 <= i <= n,
    ensures
        places_where(notes, keep, i).len() <= places_where(notes, keep, n).len(),
        places_where(notes, keep, n).take(places_where(notes, keep, i).len() as int)
            == places_where(notes, keep, i),
    decreases n - i,
{
    if i == n {
        let p = places_where(notes, keep, n);
        assert(p.take(p.len() as int) =~= p);
    } else {
        lemma_places_prefix(notes, keep, i, n - 1);
        let small = places_where(notes, keep, i);
        let mid = places_where(notes, keep, n - 1);
        let big = places_where(notes, keep, n);
        assert(big.take(small.len() as int) =~= mid.take(small.len() as int));
    }
}

/// Finds the places of the notes that answer `filter`, up to `limit` of
/// them, in the order of the store.
pub fn read_memory(entries: &Vec<MemoryEntry>, filter: &MemoryFilter, limit: usize) -> (r: Vec<
    usize,
>)
    ensures
        r@ == at_most(
            places_where(
                notes_view(entries@),
                |n: Note| note_matches(n, filter@),
                entries@.len() as int,
            ),
            limit as nat,
        ),
        forall|k: int| 0 <= k < r@.len() ==> (#[trigger] r@[k]) < entries@.len(),
{
    let ghost notes = notes_view(entries@);
    let ghost keep = |n: Note| note_matches(n, filter@);
    let mut found: Vec<usize> = Vec::new();
    let mut i: usize = 0;
    while i < entries.len() && found.len() < limit
        invariant
            i <= entries@.len(),
            notes == notes_view(entries@),
            keep == (|n: Note| note_matches(n, filter@)),
            found@ == places_where(notes, keep, i as int),
            found@.len() <= limit,
            forall|k: int| 0 <= k < found@.len() ==> (#[trigger] found@[k]) < entries@.len(),
        decreases entries.len() - i,
    {
        proof {
            assert(notes[i as int] == entries@[i as int]@);
        }
        if entries[i].matches(filter) {
            found.push(i);
        }
        i += 1;
    }
    proof {
        lemma_places_prefix(notes, keep, i as int, entries@.len() as int);
        let all = places_where(notes, keep, entries@.len() as int);
        if i < entries@.len() {
            assert(found@.len() == limit);
            if all.len() == limit {
                assert(all.take(limit as int) =~= all);
            }
        }
    }
    found
}

/// What a write does to the store.
#[derive(Clone, Copy, Debug, PartialEq, Eq, Structural)]
pub enum WriteAction {
    /// The note at this place is changed.
    Updated(usize),
    /// A new note is put at the end.
    Created,
}

/// The place of the first of the first `count` of `notes` that has the
/// `id`.
pub open spec fn place_of_id(notes: Seq<Note>, id: Seq<u8>, count: int) -> Option<int>
    decreases count,
{
    if count <= 0 {
        None
    } else {
        match place_of_id(notes, id, count - 1) {
            Some(at) => Some(at),
            None => if notes[count - 1].id == id {
                Some(count - 1)
            } else {
                None
            },
        }
    }
}

/// What a write with this `id` does: it changes the first note that has
/// the id, and makes a new note when there is none or no id is given.
pub open spec fn write_action(notes: Seq<Note>, id: Option<Seq<u8>>) -> WriteAction {
    match id {
        Some(id) => match place_of_id(notes, id, notes.len() as int) {
            Some(at) => WriteAction::Updated(at as usize),
            None => WriteAction::Created,
        },
        None => WriteAction::Created,
    }
}

/// Tells what a write with this `id` does to the store.
pub fn write_memory(entries: &Vec<MemoryEntry>, id: Option<&[u8]>) -> (r: WriteAction)
    ensures
        r == write_action(
            notes_view(entries@),
            match id {
                Some(id) => Some(id@),
                None => None,
            },
        ),
        r matches WriteAction::Updated(at) ==> at < entries@.len(),
{
    let wanted = match id {
        Some(wanted) => wanted,
        None => { return WriteAction::Created; },
    };
    let ghost notes = notes_view(entries@);
    let mut i: usize = 0;
    while i < entries.len()
        invariant
            i <= entries@.len(),
            id == Some(wanted),
            notes == notes_view(entries@),
            place_of_id(notes, wanted@, i as int) is None,
        decreases entries.len() - i,
    {
        proof {
            assert(notes[i as int] == entries@[i as int]@);
        }
        if bytes_eq(entries[i].id.as_slice(), wanted) {
            proof {
                assert(place_of_id(notes, wanted@, i + 1) == Some(i as int));
                lemma_place_found(notes, wanted@, i + 1, entries@.len() as int);
                assert(notes.len() == entries@.len());
            }
            return WriteAction::Updated(i);
        }
        i += 1;
    }
    WriteAction::Created
}

proof fn lemma_place_found(notes: Seq<Note>, id: Seq<u8>, i: int, n: int)
    requires
        0 < i <= n,
        place_of_id(notes, id, i) is Some,
    ensures
        place_of_id(notes, id, n) == place_of_id(notes, id, i),
    decreases n - i,
{
    if i < n {
        lemma_place_found(notes, id, i, n - 1);
    }
}

/// What is left of the store when the notes with `id` are deleted: the
/// places of the others, in order; and whether any note was deleted.
pub fn delete_memory(entries: &Vec<MemoryEntry>, id: &[u8]) -> (r: (Vec<usize>, bool))
    ensures
        r.0@ == places_where(notes_view(entries@), |n: Note| n.id != id@, entries@.len() as int),
        r.1 == (r.0@.len() != entries@.len()),
        forall|k: int| 0 <= k < r.0@.len() ==> (#[trigger] r.0@[k]) < entries@.len(),
{
    let ghost notes = notes_view(entries@);
    let ghost keep = |n: Note| n.id != id@;
    let mut kept: Vec<usize> = Vec::new();
    let mut i: usize = 0;
    while i < entries.len()
        invariant
            i <= entries@.len(),
            notes == notes_view(entries@),
            keep == (|n: Note| n.id != id@),
            kept@ == places_where(notes, keep, i as int),
            kept@.len() <= i,
            forall|k: int| 0 <= k < kept@.len() ==> (#[trigger] kept@[k]) < entries@.len(),
        decreases entries.len() - i,
    {
        proof {
            assert(notes[i as int] == entries@[i as int]@);
        }
        if !bytes_eq(entries[i].id.as_slice(), id) {
            kept.push(i);
        }
        i += 1;
    }
    let removed = kept.len() != entries.len();
    (kept, removed)
}

/// `a` comes before `b` in the order of the bytes; a text comes before
/// those that it begins.
pub open spec fn text_before(a: Seq<u8>, b: Seq<u8>) -> bool
    decreases a.len(),
{
    if b.len() == 0 {
        false
    } else if a.len() == 0 {
        true
    } else if a[0] != b[0] {
        a[0] < b[0]
    } else {
        text_before(a.drop_first(), b.drop_first())
    }
}

/// Whether `a` comes before `b` in the order of the bytes.
pub fn bytes_before(a: &[u8], b: &[u8]) -> (r: bool)
    ensures
        r == text_before(a@, b@),
{
    let mut i: usize = 0;
    proof {
        assert(a@.skip(0) =~= a@);
        assert(b@.skip(0) =~= b@);
    }
    loop
        invariant
            i <= a@.len(),
            i <= b@.len(),
            text_before(a@, b@) == text_before(a@.skip(i as int), b@.skip(i as int)),
        decreases a@.len() - i,
    {
        if i >= b.len() {
            return false;
        }
        if i >= a.len() {
            return true;
        }
        proof {
            assert(a@.skip(i as int)[0] == a@[i as int]);
            assert(b@.skip(i as int)[0] == b@[i as int]);
            assert(a@.skip(i as int).drop_first() =~= a@.skip(i + 1));
            assert(b@.skip(i as int).drop_first() =~= b@.skip(i + 1));
        }
        if a[i] != b[i] {
            return a[i] < b[i];
        }
        i += 1;
    }
}

/// `sorted` with the place `x` put before the first place whose note was
/// not made later than that of `x`.
pub open spec fn insert_newest(notes: Seq<Note>, sorted: Seq<usize>, x: usize) -> Seq<usize>
    decreases sorted.len(),
{
    if sorted.len() == 0 || !text_before(
        notes[x as int].created_at,
        notes[sorted[0] as int].created_at,
    ) {
        seq![x] + sorted
    } else {
        seq![sorted[0]] + insert_newest(notes, sorted.drop_first(), x)
    }
}

/// `places` with the notes made last first; notes made at the same time
/// keep their order.
pub open spec fn newest_first(notes: Seq<Note>, places: Seq<usize>) -> Seq<usize>
    decreases places.len(),
{
    if places.len() == 0 {
        Seq::empty()
    } else {
        insert_newest(notes, newest_first(notes, places.drop_first()), places[0])
    }
}

/// The part of `places` that a page shows: `limit` places after the first
/// `offset`, as far as there are any.
pub open spec fn page_of(places: Seq<usize>, offset: nat, limit: nat) -> Seq<usize> {
    if offset >= places.len() {
        Seq::empty()
    } else if offset + limit >= places.len() {
        places.skip(offset as int)
    } else {
        places.subrange(offset as int, (offset + limit) as int)
    }
}

proof fn lemma_insert_newest_position(notes: Seq<Note>, sorted: Seq<usize>, x: usize, p: int)
    requires
        0 <= p <= sorted.len(),
        forall|j: int|
            0 <= j < p ==> text_before(
                notes[x as int].created_at,
                notes[(#[trigger] sorted[j]) as int].created_at,
            ),
        p < sorted.len() ==> !text_before(
            notes[x as int].created_at,
            notes[sorted[p] as int].created_at,
        ),
    ensures
        insert_newest(notes, sorted, x) == sorted.insert(p, x),
    decreases p,
{
    if p == 0 {
        assert(seq![x] + sorted =~= sorted.insert(0, x));
    } else {
        let rest = sorted.drop_first();
        assert forall|j: int| 0 <= j < p - 1 implies text_before(
            notes[x as int].created_at,
            notes[(#[trigger] rest[j]) as int].created_at,
        ) by {
            assert(rest[j] == sorted[j + 1]);
        }
        if p - 1 < rest.len() {
            assert(rest[p - 1] == sorted[p]);
        }
        lemma_insert_newest_position(notes, rest, x, p - 1);
        assert(text_before(notes[x as int].created_at, notes[sorted[0] as int].created_at));
        assert(seq![sorted[0]] + rest.insert(p - 1, x) =~= sorted.insert(p, x));
    }
}

/// Lists the places of the notes of `namespace`, or of all notes when none
/// is named: those made last first, `limit` of them after the first
/// `offset`.
pub fn list_memories(
    entries: &Vec<MemoryEntry>,
    namespace: Option<&[u8]>,
    offset: usize,
    limit: usize,
) -> (r: Vec<usize>)
    ensures
        r@ == page_of(
            newest_first(
                notes_view(entries@),
                places_where(
                    notes_view(entries@),
                    |n: Note|
                        match namespace {
                            Some(name) => n.namespace == name@,
                            None => true,
                        },
                    entries@.len() as int,
                ),
            ),
            offset as nat,
            limit as nat,
        ),
{
    let ghost notes = notes_view(entries@);
    let ghost keep = |n: Note|
        match namespace {
            Some(name) => n.namespace == name@,
            None => true,
        };
    let mut kept: Vec<usize> = Vec::new();
    let mut i: usize = 0;
    while i < entries.len()
        invariant
            i <= entries@.len(),
            notes == notes_view(entries@),
            keep == (|n: Note|
                match namespace {
                    Some(name) => n.namespace == name@,
                    None => true,
                }),
            kept@ == places_where(notes, keep, i as int),
            forall|k: int| 0 <= k < kept@.len() ==> (#[trigger] kept@[k]) < entries@.len(),
        decreases entries.len() - i,
    {
        proof {
            assert(notes[i as int] == entries@[i as int]@);
        }
        let wanted = match namespace {
            Some(name) => bytes_eq(entries[i].namespace.as_slice(), name),
            None => true,
        };
        if wanted {
            kept.push(i);
        }
        i += 1;
    }
    let ghost all = kept@;
    let mut sorted: Vec<usize> = Vec::new();
    proof {
        assert(all.take(all.len() as int) =~= all);
        assert(all.skip(all.len() as int) =~= Seq::<usize>::empty());
    }
    loop
        invariant
            notes == notes_view(entries@),
            kept@.len() <= all.len(),
            kept@ == all.take(kept@.len() as int),
            forall|k: int| 0 <= k < all.len() ==> (#[trigger] all[k]) < entries@.len(),
            forall|k: int| 0 <= k < sorted@.len() ==> (#[trigger] sorted@[k]) < entries@.len(),
            sorted@ == newest_first(notes, all.skip(kept@.len() as int)),
        ensures
            sorted@ == newest_first(notes, all),
        decreases kept@.len(),
    {
        let ghost k = kept@.len() as int;
        match kept.pop() {
            None => {
                proof {
                    assert(all.skip(0) =~= all);
                }
                break ;
            },
            Some(x) => {
                proof {
                    assert(x == all[k - 1]);
                }
                let mut p: usize = 0;
                while p < sorted.len() && bytes_before(
                    entries[x].created_at.as_slice(),
                    entries[sorted[p]].created_at.as_slice(),
                )
                    invariant
                        p <= sorted@.len(),
                        x < entries@.len(),
                        notes == notes_view(entries@),
                        forall|k: int|
                            0 <= k < sorted@.len() ==> (#[trigger] sorted@[k]) < entries@.len(),
                        forall|j: int|
                            0 <= j < p ==> text_before(
                                notes[x as int].created_at,
                                notes[(#[trigger] sorted@[j]) as int].created_at,
                            ),
                    decreases sorted.len() - p,
                {
                    proof {
                        assert(notes[x as int] == entries@[x as int]@);
                        assert(notes[sorted@[p as int] as int] == entries@[sorted@[p as int] as int]@);
                    }
                    p += 1;
                }
                proof {
                    assert(notes[x as int] == entries@[x as int]@);
                    if p < sorted@.len() {
                        assert(notes[sorted@[p as int] as int] == entries@[sorted@[p as int] as int]@);
                    }
                    lemma_insert_newest_position(notes, sorted@, x, p as int);
                    assert(all.skip(k - 1)[0] == all[k - 1]);
                    assert(all.skip(k - 1).drop_first() =~= all.skip(k));
                    assert(kept@ =~= all.take(k - 1));
                }
                sorted.insert(p, x);
            },
        }
    }
    let n: usize = sorted.len();
    let mut page: Vec<usize> = Vec::new();
    if offset >= n {
        return page;
    }
    let end: usize = if limit >= n - offset {
        n
    } else {
        offset + limit
    };
    let mut j: usize = offset;
    while j < end
        invariant
            offset <= j <= end <= n,
            n == sorted@.len(),
            page@ == sorted@.subrange(offset as int, j as int),
        decreases end - j,
    {
        page.push(sorted[j]);
        proof {
            assert(page@ =~= sorted@.subrange(offset as int, j + 1));
        }
        j += 1;
    }
    proof {
        if offset + limit >= n {
            assert(sorted@.subrange(offset as int, n as int) =~= sorted@.skip(offset as int));
        }
    }
    page
}

} // verus!
