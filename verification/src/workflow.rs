//! What is remembered of projects between requests: the summary of each
//! project that was looked at, under the path of its root.

use vstd::prelude::*;
use vstd::slice::slice_to_vec;

use crate::summary::ProjectSummary;
use crate::text::bytes_eq;

verus! {

/// A summary with the time at which it was stored.
pub struct StoredSummary {
    pub summary: ProjectSummary,
    pub updated_at: Vec<u8>,
}

/// The summary stored for one project.
pub struct ProjectEntry {
    /// The path of the root of the project.
    pub key: Vec<u8>,
    pub stored: StoredSummary,
}

/// The summaries stored, each under the root of its project.
pub struct WorkflowState {
    pub projects: Vec<ProjectEntry>,
}

/// One of `entries` is stored under `key`.
pub open spec fn has_key(entries: Seq<ProjectEntry>, key: Seq<u8>) -> bool {
    exists|i: int| 0 <= i < entries.len() && (#[trigger] entries[i]).key@ == key
}

/// Where among `entries` the one stored under `key` stands.
pub open spec fn index_of_key(entries: Seq<ProjectEntry>, key: Seq<u8>) -> int {
    choose|i: int| 0 <= i < entries.len() && (#[trigger] entries[i]).key@ == key
}

/// No two of `entries` are stored under the same key.
pub open spec fn distinct_keys(entries: Seq<ProjectEntry>) -> bool {
    forall|i: int, j: int|
        0 <= i < j < entries.len() ==> (#[trigger] entries[i]).key@ != (#[trigger] entries[j]).key@
}

impl View for WorkflowState {
    type V = Map<Seq<u8>, StoredSummary>;

    open spec fn view(&self) -> Map<Seq<u8>, StoredSummary> {
        Map::new(
            |key: Seq<u8>| has_key(self.projects@, key),
            |key: Seq<u8>| self.projects@[index_of_key(self.projects@, key)].stored,
        )
    }
}

/// What is done when a summary of a project is asked for.
pub enum OnboardingPlan<'a> {
    /// The summary that is stored is handed out.
    Cached(&'a StoredSummary),
    /// The project is walked and a new summary made and stored.
    Collect,
}

impl WorkflowState {
    /// No project is stored twice.
    pub open spec fn wf(&self) -> bool {
        distinct_keys(self.projects@)
    }

    /// Nothing stored.
    pub fn new() -> (r: WorkflowState)
        ensures
            r.wf(),
            r@ == Map::<Seq<u8>, StoredSummary>::empty(),
    {
        let r = WorkflowState { projects: Vec::new() };
        proof {
            assert(r@ =~= Map::<Seq<u8>, StoredSummary>::empty());
        }
        r
    }

    /// Where the entry of `key` stands, if there is one.
    fn find(&self, key: &[u8]) -> (r: Option<usize>)
        requires
            self.wf(),
        ensures
            match r {
                Some(i) => i < self.projects@.len() && self.projects@[i as int].key@ == key@
                    && self@.contains_key(key@) && self@[key@] == self.projects@[i as int].stored,
                None => !has_key(self.projects@, key@) && !self@.contains_key(key@),
            },
    {
        let mut i: usize = 0;
        while i < self.projects.len()
            invariant
                self.wf(),
                i <= self.projects@.len(),
                forall|j: int| 0 <= j < i ==> (#[trigger] self.projects@[j]).key@ != key@,
            decreases self.projects.len() - i,
        {
            if bytes_eq(self.projects[i].key.as_slice(), key) {
                proof {
                    let at = index_of_key(self.projects@, key@);
                    assert(self.projects@[i as int].key@ == key@);
                    assert(has_key(self.projects@, key@));
                    if at < i {
                        assert(self.projects@[at].key@ != self.projects@[i as int].key@);
                    } else if at > i {
                        assert(self.projects@[i as int].key@ != self.projects@[at].key@);
                    }
                }
                return Some(i);
            }
            i += 1;
        }
        None
    }

    /// The summary stored for the project at `key`.
    pub fn get(&self, key: &[u8]) -> (r: Option<&StoredSummary>)
        requires
            self.wf(),
        ensures
            match r {
                Some(stored) => self@.contains_key(key@) && *stored == self@[key@],
                None => !self@.contains_key(key@),
            },
    {
        match self.find(key) {
            Some(i) => Some(&self.projects[i].stored),
            None => None,
        }
    }

    /// Stores `stored` for the project at `key`, in place of what was stored
    /// for it before.
    pub fn insert(&mut self, key: Vec<u8>, stored: StoredSummary)
        requires
            old(self).wf(),
        ensures
            final(self).wf(),
            final(self)@ == old(self)@.insert(key@, stored),
    {
        let ghost before = self.projects@;
        let found = self.find(key.as_slice());
        match found {
            Some(i) => {
                let _ = self.projects.remove(i);
            },
            None => {},
        }
        let ghost middle = self.projects@;
        proof {
            // what is left holds every other entry, and none under the key
            assert forall|j: int| 0 <= j < middle.len() implies (#[trigger] middle[j]).key@
                != key@ by {
                match found {
                    Some(i) => {
                        if j < i {
                            assert(middle[j] == before[j]);
                            assert(before[j].key@ != before[i as int].key@);
                        } else {
                            assert(middle[j] == before[j + 1]);
                            assert(before[i as int].key@ != before[j + 1].key@);
                        }
                    },
                    None => {
                        assert(middle[j] == before[j]);
                    },
                }
            }
            assert(distinct_keys(middle)) by {
                assert forall|a: int, b: int| 0 <= a < b < middle.len() implies (
                #[trigger] middle[a]).key@ != (#[trigger] middle[b]).key@ by {
                    match found {
                        Some(i) => {
                            let a0 = if a < i { a } else { a + 1 };
                            let b0 = if b < i { b } else { b + 1 };
                            assert(middle[a] == before[a0]);
                            assert(middle[b] == before[b0]);
                        },
                        None => {},
                    }
                }
            }
        }
        self.projects.push(ProjectEntry { key, stored });
        proof {
            let after = self.projects@;
            let last = after.len() - 1;
            assert(after[last].key@ == key@);
            assert(distinct_keys(after)) by {
                assert forall|a: int, b: int| 0 <= a < b < after.len() implies (
                #[trigger] after[a]).key@ != (#[trigger] after[b]).key@ by {
                    assert(after[a] == middle[a]);
                    if b < last {
                        assert(after[b] == middle[b]);
                    }
                }
            }
            let wanted = old(self)@.insert(key@, stored);
            assert forall|q: Seq<u8>| self@.contains_key(q) <==> wanted.contains_key(q) by {
                if has_key(after, q) {
                    let j = index_of_key(after, q);
                    if j < last {
                        assert(after[j] == middle[j]);
                        match found {
                            Some(i) => {
                                let j0 = if j < i { j } else { j + 1 };
                                assert(middle[j] == before[j0]);
                                assert(before[j0].key@ == q);
                            },
                            None => {
                                assert(before[j].key@ == q);
                            },
                        }
                    }
                }
                if q == key@ {
                    assert(after[last].key@ == q);
                } else if has_key(before, q) {
                    let m = index_of_key(before, q);
                    match found {
                        Some(i) => {
                            assert(m != i);
                            let m1 = if m < i { m } else { m - 1 };
                            assert(middle[m1] == before[m]);
                            assert(after[m1] == middle[m1]);
                            assert(after[m1].key@ == q);
                        },
                        None => {
                            assert(after[m] == middle[m]);
                            assert(after[m].key@ == q);
                        },
                    }
                }
            }
            assert forall|q: Seq<u8>| wanted.contains_key(q) implies self@[q] == wanted[q] by {
                assert(has_key(after, q));
                let j = index_of_key(after, q);
                if q == key@ {
                    if j < last {
                        assert(after[j].key@ != after[last].key@);
                    }
                } else {
                    assert(j < last);
                    assert(after[j] == middle[j]);
                    let m = index_of_key(before, q);
                    let j0 = match found {
                        Some(i) => if j < i { j } else { j + 1 },
                        None => j,
                    };
                    assert(middle[j] == before[j0]);
                    assert(before[j0].key@ == q);
                    assert(has_key(before, q));
                    if m < j0 {
                        assert(before[m].key@ != before[j0].key@);
                    } else if m > j0 {
                        assert(before[j0].key@ != before[m].key@);
                    }
                }
            }
            assert(self@ =~= wanted);
        }
    }

    /// Decides what to do when the summary of the project at `key` is asked
    /// for: what is stored is handed out, unless nothing is stored or a new
    /// summary is demanded.
    pub fn plan_onboarding(&self, key: &[u8], refresh: bool) -> (r: OnboardingPlan<'_>)
        requires
            self.wf(),
        ensures
            match r {
                OnboardingPlan::Cached(stored) => !refresh && self@.contains_key(key@) && *stored
                    == self@[key@],
                OnboardingPlan::Collect => refresh || !self@.contains_key(key@),
            },
    {
        if refresh {
            return OnboardingPlan::Collect;
        }
        match self.get(key) {
            Some(stored) => OnboardingPlan::Cached(stored),
            None => OnboardingPlan::Collect,
        }
    }

    /// Tells whether a summary is stored for the project at `key`, and when
    /// it was stored.
    pub fn check_onboarding_performed(&self, key: &[u8]) -> (r: Option<&Vec<u8>>)
        requires
            self.wf(),
        ensures
            match r {
                Some(updated_at) => self@.contains_key(key@) && *updated_at
                    == self@[key@].updated_at,
                None => !self@.contains_key(key@),
            },
    {
        match self.get(key) {
            Some(stored) => Some(&stored.updated_at),
            None => None,
        }
    }
}

/// What is stored after each of `records` was stored in turn, starting
/// with nothing.
pub open spec fn stored_after(records: Seq<(Seq<u8>, StoredSummary)>) -> Map<
    Seq<u8>,
    StoredSummary,
>
    decreases records.len(),
{
    if records.len() == 0 {
        Map::empty()
    } else {
        stored_after(records.drop_last()).insert(records.last().0, records.last().1)
    }
}

/// A summary is stored for a project exactly when one was stored for it
/// before; and what is stored is what was stored last.
pub proof fn lemma_stored_exactly_when_recorded(
    records: Seq<(Seq<u8>, StoredSummary)>,
    key: Seq<u8>,
)
    ensures
        stored_after(records).contains_key(key) <==> exists|i: int|
            0 <= i < records.len() && (#[trigger] records[i]).0 == key,
        records.len() > 0 && records.last().0 == key ==> stored_after(records)[key]
            == records.last().1,
    decreases records.len(),
{
    if records.len() > 0 {
        let rest = records.drop_last();
        lemma_stored_exactly_when_recorded(rest, key);
        if stored_after(records).contains_key(key) {
            if records.last().0 == key {
                assert(records[records.len() - 1].0 == key);
            } else {
                let i = choose|i: int| 0 <= i < rest.len() && (#[trigger] rest[i]).0 == key;
                assert(records[i].0 == key);
            }
        }
        if exists|i: int| 0 <= i < records.len() && (#[trigger] records[i]).0 == key {
            let i = choose|i: int| 0 <= i < records.len() && (#[trigger] records[i]).0 == key;
            if i < rest.len() {
                assert(rest[i].0 == key);
            }
        }
    }
}

/// Storing a summary for other projects leaves what is stored for this one
/// as it is: as long as no new summary is stored for it, the same one is
/// found.
pub proof fn lemma_stored_survives(
    state: Map<Seq<u8>, StoredSummary>,
    key: Seq<u8>,
    other: Seq<u8>,
    stored: StoredSummary,
)
    requires
        other != key,
    ensures
        state.insert(other, stored).contains_key(key) == state.contains_key(key),
        state.contains_key(key) ==> state.insert(other, stored)[key] == state[key],
        state.insert(key, stored).contains_key(key),
        state.insert(key, stored)[key] == stored,
{
}

} // verus!
