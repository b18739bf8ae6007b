//! The registry: projections by their id, and the ranking of what they
//! say of a resource.

use crate::order::{sort, sorted, Ranked};
use crate::projection::{
    ask_name, ask_score, gives_name, gives_score, Confidence, Projection, Resource,
};
use crate::text::{
    chars_of, is_lex_less, lemma_lex_asymmetric, lemma_lex_le_transitive, lemma_lex_total, lex_le,
};
use std::sync::Arc;
use vstd::prelude::*;

verus! {

/// What one projection says of a resource.
#[derive(Debug, Clone)]
pub struct ProjectionInfo {
    pub id: String,
    pub name: String,
    pub confidence: Confidence,
}

/// The order of a ranking, on the scores and ids of two projections: the
/// higher score stands first, and of two equal scores the id that comes
/// first.
pub open spec fn ranks_before(a_score: nat, a_id: Seq<char>, b_score: nat, b_id: Seq<char>) -> bool {
    if a_score != b_score {
        a_score > b_score
    } else {
        lex_le(a_id, b_id)
    }
}

impl Ranked for ProjectionInfo {
    open spec fn precedes(&self, other: &Self) -> bool {
        ranks_before(self.confidence.value(), self.id@, other.confidence.value(), other.id@)
    }

    fn goes_before(&self, other: &Self) -> (b: bool) {
        let mine = self.confidence.permille();
        let theirs = other.confidence.permille();
        if mine != theirs {
            mine > theirs
        } else {
            !is_lex_less(&chars_of(other.id.as_str()), &chars_of(self.id.as_str()))
        }
    }

    proof fn precedes_total(a: &Self, b: &Self) {
        lemma_lex_asymmetric(a.id@, b.id@);
    }

    proof fn precedes_transitive(a: &Self, b: &Self, c: &Self) {
        if a.confidence.value() == b.confidence.value() && b.confidence.value()
            == c.confidence.value() {
            lemma_lex_le_transitive(a.id@, b.id@, c.id@);
        }
    }
}

/// Whether the candidate applies to the resource at all.
pub open spec fn applies(c: ProjectionInfo) -> bool {
    c.confidence.value() > 0
}

/// Whether `i` is the best of the candidates: it applies, and it stands
/// before every other candidate that applies.
pub open spec fn is_best(c: Seq<ProjectionInfo>, i: int) -> bool {
    &&& 0 <= i < c.len()
    &&& applies(c[i])
    &&& forall|j: int| 0 <= j < c.len() && applies(#[trigger] c[j]) ==> c[i].precedes(&c[j])
}

/// The best candidate is determined by the scores and the ids alone:
/// among candidates with different ids there is at most one best, in
/// whatever order they stand.
pub proof fn lemma_best_is_unique(c: Seq<ProjectionInfo>, i: int, j: int)
    requires
        distinct_candidates(c),
        is_best(c, i),
        is_best(c, j),
    ensures
        i == j,
{
    assert(c[i].precedes(&c[j]));
    assert(c[j].precedes(&c[i]));
    if c[i].id@ != c[j].id@ {
        lemma_lex_total(c[i].id@, c[j].id@);
    }
}

/// Picks the best candidate: the highest score above zero and, among equal
/// scores, the id that comes first. Where no candidate applies there is
/// no best one, which is no error.
pub fn best_candidate(candidates: &Vec<ProjectionInfo>) -> (r: Option<usize>)
    ensures
        match r {
            Some(i) => is_best(candidates@, i as int),
            None => forall|j: int| 0 <= j < candidates@.len() ==> !applies(#[trigger] candidates@[j]),
        },
{
    let mut best: Option<usize> = None;
    let mut i: usize = 0;
    while i < candidates.len()
        invariant
            i <= candidates.len(),
            match best {
                Some(b) => is_best(candidates@.take(i as int), b as int),
                None => forall|j: int| 0 <= j < i ==> !applies(#[trigger] candidates@[j]),
            },
        decreases candidates.len() - i,
    {
        let ghost seen = candidates@.take(i as int);
        let ghost next = candidates@.take(i + 1);
        if candidates[i].confidence.is_match() {
            match best {
                Some(b) => {
                    if candidates[b].goes_before(&candidates[i]) {
                        proof {
                            assert forall|j: int| 0 <= j < next.len() && applies(
                                #[trigger] next[j],
                            ) implies next[b as int].precedes(&next[j]) by {
                                if j < i {
                                    assert(seen[j] == next[j]);
                                }
                            }
                        }
                    } else {
                        proof {
                            ProjectionInfo::precedes_total(&candidates@[b as int], &candidates@[i as int]);
                            assert forall|j: int| 0 <= j < next.len() && applies(
                                #[trigger] next[j],
                            ) implies next[i as int].precedes(&next[j]) by {
                                if j < i {
                                    assert(seen[j] == next[j]);
                                    assert(seen[b as int].precedes(&seen[j]));
                                    ProjectionInfo::precedes_transitive(
                                        &candidates@[i as int],
                                        &candidates@[b as int],
                                        &candidates@[j],
                                    );
                                } else {
                                    ProjectionInfo::precedes_total(&next[j], &next[j]);
                                }
                            }
                        }
                        best = Some(i);
                    }
                },
                None => {
                    proof {
                        assert forall|j: int| 0 <= j < next.len() && applies(
                            #[trigger] next[j],
                        ) implies next[i as int].precedes(&next[j]) by {
                            ProjectionInfo::precedes_total(&next[j], &next[j]);
                        }
                    }
                    best = Some(i);
                },
            }
        } else {
            proof {
                match best {
                    Some(b) => {
                        assert forall|j: int| 0 <= j < next.len() && applies(
                            #[trigger] next[j],
                        ) implies next[b as int].precedes(&next[j]) by {
                            assert(seen[j] == next[j]);
                        }
                    },
                    None => {},
                }
            }
        }
        i += 1;
    }
    proof {
        assert(candidates@.take(i as int) =~= candidates@);
    }
    best
}

/// No two candidates have the same id.
pub open spec fn distinct_candidates(c: Seq<ProjectionInfo>) -> bool {
    forall|a: int, b: int| 0 <= a < b < c.len() ==> (#[trigger] c[a]).id@ != (#[trigger] c[b]).id@
}

/// Candidates keep their different ids in whatever order they are put.
pub proof fn lemma_permutation_keeps_distinct(a: Seq<ProjectionInfo>, b: Seq<ProjectionInfo>)
    requires
        distinct_candidates(a),
        a.to_multiset() == b.to_multiset(),
    ensures
        distinct_candidates(b),
{
    broadcast use vstd::seq_lib::group_to_multiset_ensures;

    assert(a.no_duplicates()) by {
        assert forall|i: int, j: int| 0 <= i < a.len() && 0 <= j < a.len() && i != j implies a[i]
            != a[j] by {
            if i < j {
                assert(a[i].id@ != a[j].id@);
            } else {
                assert(a[j].id@ != a[i].id@);
            }
        }
    }
    a.lemma_multiset_has_no_duplicates();
    b.lemma_multiset_has_no_duplicates_conv();
    assert forall|i: int, j: int| 0 <= i < j < b.len() implies (#[trigger] b[i]).id@ != (
    #[trigger] b[j]).id@ by {
        assert(b[i] != b[j]);
        assert(b.contains(b[i]) && b.contains(b[j]));
        assert(a.to_multiset().count(b[i]) > 0 && a.to_multiset().count(b[j]) > 0);
        assert(a.contains(b[i]) && a.contains(b[j]));
        let x = choose|x: int| 0 <= x < a.len() && a[x] == b[i];
        let y = choose|y: int| 0 <= y < a.len() && a[y] == b[j];
        if x < y {
            assert(a[x].id@ != a[y].id@);
        } else if y < x {
            assert(a[y].id@ != a[x].id@);
        }
    }
}

/// The candidates that apply, in their order.
pub open spec fn matching(c: Seq<ProjectionInfo>) -> Seq<ProjectionInfo> {
    c.filter(|x: ProjectionInfo| applies(x))
}

/// Ranks the candidates: those that apply, the higher score first and,
/// among equal scores, the id that comes first.
pub fn rank(candidates: &Vec<ProjectionInfo>) -> (out: Vec<ProjectionInfo>)
    ensures
        sorted(out@),
        out@.to_multiset() == matching(candidates@).to_multiset(),
        out@.len() == matching(candidates@).len(),
        forall|i: int| 0 <= i < out@.len() ==> applies(#[trigger] out@[i]),
        distinct_candidates(candidates@) ==> distinct_candidates(out@),
{
    let mut kept: Vec<ProjectionInfo> = Vec::new();
    let mut i: usize = 0;
    proof {
        reveal(Seq::filter);
        assert(candidates@.take(0) =~= Seq::<ProjectionInfo>::empty());
    }
    while i < candidates.len()
        invariant
            i <= candidates.len(),
            kept@ == matching(candidates@.take(i as int)),
            forall|k: int|
                0 <= k < kept@.len() ==> exists|w: int|
                    0 <= w < i && candidates@[w] == #[trigger] kept@[k],
            distinct_candidates(candidates@) ==> distinct_candidates(kept@),
        decreases candidates.len() - i,
    {
        proof {
            reveal(Seq::filter);
            assert(candidates@.take(i + 1).drop_last() =~= candidates@.take(i as int));
            if distinct_candidates(candidates@) {
                assert forall|k: int| 0 <= k < kept@.len() implies (#[trigger] kept@[k]).id@
                    != candidates@[i as int].id@ by {
                    let w = choose|w: int| 0 <= w < i && candidates@[w] == kept@[k];
                    assert(candidates@[w].id@ != candidates@[i as int].id@);
                }
            }
        }
        let ghost kept_before = kept@;
        let c = &candidates[i];
        if c.confidence.is_match() {
            kept.push(
                ProjectionInfo { id: c.id.clone(), name: c.name.clone(), confidence: c.confidence },
            );
            proof {
                assert(kept@[kept@.len() - 1] == candidates@[i as int]);
                assert forall|k: int| 0 <= k < kept@.len() implies exists|w: int|
                    0 <= w < i + 1 && candidates@[w] == #[trigger] kept@[k] by {
                    if k < kept_before.len() {
                        assert(kept@[k] == kept_before[k]);
                        let w = choose|w: int| 0 <= w < i && candidates@[w] == kept_before[k];
                        assert(0 <= w < i + 1 && candidates@[w] == kept@[k]);
                    } else {
                        assert(candidates@[i as int] == kept@[k]);
                    }
                }
                if distinct_candidates(candidates@) {
                    assert forall|x: int, y: int| 0 <= x < y < kept@.len() implies (
                    #[trigger] kept@[x]).id@ != (#[trigger] kept@[y]).id@ by {
                        assert(kept@[x] == kept_before[x]);
                        if y < kept_before.len() {
                            assert(kept@[y] == kept_before[y]);
                        }
                    }
                }
            }
        }
        i += 1;
    }
    proof {
        assert(candidates@.take(i as int) =~= candidates@);
    }
    let out = sort(kept);
    proof {
        if distinct_candidates(candidates@) {
            lemma_permutation_keeps_distinct(matching(candidates@), out@);
        }
        let m = matching(candidates@);
        assert forall|k: int| 0 <= k < out@.len() implies applies(#[trigger] out@[k]) by {
            broadcast use vstd::seq_lib::group_to_multiset_ensures;

            assert(out@.contains(out@[k]));
            assert(out@.to_multiset().count(out@[k]) > 0);
            assert(m.contains(out@[k]));
            let w = choose|w: int| 0 <= w < m.len() && m[w] == out@[k];
            candidates@.lemma_filter_pred(|x: ProjectionInfo| applies(x), w);
        }
    }
    out
}

/// A ranking is determined by what it holds: two sorted sequences of the
/// same candidates, none of which shares its id with another, are the
/// same sequence. So the answer does not depend on the order in which the
/// projections were registered or asked.
pub proof fn lemma_ranking_is_unique(a: Seq<ProjectionInfo>, b: Seq<ProjectionInfo>)
    requires
        sorted(a),
        sorted(b),
        a.to_multiset() == b.to_multiset(),
        distinct_candidates(a),
    ensures
        a == b,
    decreases a.len(),
{
    broadcast use vstd::seq_lib::group_to_multiset_ensures;

    vstd::seq_lib::to_multiset_len(a);
    vstd::seq_lib::to_multiset_len(b);
    if a.len() > 0 {
        assert(a.contains(a[0]));
        assert(b.to_multiset().count(a[0]) > 0);
        assert(b.contains(a[0]));
        let k = choose|k: int| 0 <= k < b.len() && b[k] == a[0];
        assert(b.contains(b[0]));
        assert(a.to_multiset().count(b[0]) > 0);
        assert(a.contains(b[0]));
        let m = choose|m: int| 0 <= m < a.len() && a[m] == b[0];
        if m > 0 {
            assert(a[0].precedes(&a[m]));
            if k > 0 {
                assert(b[0].precedes(&b[k]));
            } else {
                ProjectionInfo::precedes_total(&b[0], &b[0]);
            }
            if a[0].id@ != a[m].id@ {
                lemma_lex_total(a[0].id@, a[m].id@);
            }
            assert(false);
        }
        assert(a[0] == b[0]);
        let ra = a.remove(0);
        let rb = b.remove(0);
        assert(ra.to_multiset() == rb.to_multiset());
        assert forall|i: int, j: int| 0 <= i < j < ra.len() implies (#[trigger] ra[i]).precedes(
            #[trigger] &ra[j],
        ) by {
            assert(ra[i] == a[i + 1] && ra[j] == a[j + 1]);
        }
        assert forall|i: int, j: int| 0 <= i < j < rb.len() implies (#[trigger] rb[i]).precedes(
            #[trigger] &rb[j],
        ) by {
            assert(rb[i] == b[i + 1] && rb[j] == b[j + 1]);
        }
        assert forall|i: int, j: int| 0 <= i < j < ra.len() implies (#[trigger] ra[i]).id@ != (
        #[trigger] ra[j]).id@ by {
            assert(ra[i] == a[i + 1] && ra[j] == a[j + 1]);
        }
        lemma_ranking_is_unique(ra, rb);
        assert forall|i: int| 0 <= i < a.len() implies a[i] == b[i] by {
            if i > 0 {
                assert(ra[i - 1] == a[i] && rb[i - 1] == b[i]);
            }
        }
        assert(a =~= b);
    } else {
        assert(a =~= b);
    }
}

/// A projection under the id it was registered with.
pub struct Registered<P> {
    pub id: String,
    pub projection: P,
}

impl<P> Registered<P> {
    /// The entry of `projection` under `id`.
    pub fn new(id: String, projection: P) -> (r: Registered<P>)
        ensures
            r.id == id,
            r.projection == projection,
    {
        Registered { id, projection }
    }
}

/// An entry of the registry.
pub type Slot = Registered<Arc<dyn Projection>>;

/// No two entries have the same id.
pub open spec fn distinct_ids(s: Seq<Slot>) -> bool {
    forall|i: int, j: int| 0 <= i < j < s.len() ==> (#[trigger] s[i]).id@ != (#[trigger] s[j]).id@
}

/// Whether `info` is what the entry says of the resource: it carries the
/// entry's id, and the name and the score are answers of the entry's
/// projection.
pub open spec fn says(entry: &Slot, resource: &Resource, info: &ProjectionInfo) -> bool {
    &&& info.id@ == entry.id@
    &&& gives_name::<dyn Projection>(&*entry.projection, info.name@)
    &&& gives_score::<dyn Projection>(&*entry.projection, resource, info.confidence)
}

/// Whether the candidates are what the entries say of the resource, one
/// candidate for each entry and in the same order.
pub open spec fn answers(entries: Seq<Slot>, resource: &Resource, c: Seq<ProjectionInfo>) -> bool {
    &&& c.len() == entries.len()
    &&& forall|i: int| 0 <= i < c.len() ==> says(&entries[i], resource, &#[trigger] c[i])
}

/// The registered projections, each under its id. No id is held twice:
/// registering under an id that is taken replaces what was there.
pub struct ProjectionRegistry {
    entries: Vec<Slot>,
}

impl ProjectionRegistry {
    #[verifier::type_invariant]
    spec fn well_formed(&self) -> bool {
        distinct_ids(self.entries@)
    }

    /// The entries, in the order in which their ids were first registered.
    pub closed spec fn entries(&self) -> Seq<Slot> {
        self.entries@
    }

    /// Whether a projection is registered under `id`.
    pub open spec fn has(&self, id: Seq<char>) -> bool {
        exists|i: int| 0 <= i < self.entries().len() && (#[trigger] self.entries()[i]).id@ == id
    }

    /// Where the entry with the given id stands.
    pub open spec fn index_of(&self, id: Seq<char>) -> int {
        choose|i: int| 0 <= i < self.entries().len() && (#[trigger] self.entries()[i]).id@ == id
    }

    /// The entry that is registered under `id`.
    pub open spec fn entry(&self, id: Seq<char>) -> Slot {
        self.entries()[self.index_of(id)]
    }

    /// An empty registry.
    pub fn new() -> (r: ProjectionRegistry)
        ensures
            r.entries() == Seq::<Slot>::empty(),
    {
        ProjectionRegistry { entries: Vec::new() }
    }

    /// The index of the entry with the given id.
    fn find(&self, id: &str) -> (r: Option<usize>)
        ensures
            distinct_ids(self.entries()),
            match r {
                Some(i) => i < self.entries().len() && self.entries()[i as int].id@ == id@
                    && self.index_of(id@) == i,
                None => !self.has(id@),
            },
    {
        proof {
            use_type_invariant(self);
        }
        let mut i: usize = 0;
        while i < self.entries.len()
            invariant
                i <= self.entries.len(),
                distinct_ids(self.entries@),
                forall|k: int| 0 <= k < i ==> self.entries@[k].id@ != id@,
            decreases self.entries.len() - i,
        {
            if self.entries[i].id.as_str().eq(id) {
                return Some(i);
            }
            i += 1;
        }
        None
    }

    /// The projection registered under `id`, if there is one.
    pub fn get(&self, id: &str) -> (r: Option<&Arc<dyn Projection>>)
        ensures
            self.has(id@) ==> r == Some(&self.entry(id@).projection),
            !self.has(id@) ==> r is None,
    {
        match self.find(id) {
            Some(i) => Some(&self.entries[i].projection),
            None => None,
        }
    }

    /// Whether `after` is `before` with `projection` put under `id`: the
    /// id now leads to that projection, and every other id leads where it
    /// led before.
    pub open spec fn put(
        before: &ProjectionRegistry,
        after: &ProjectionRegistry,
        id: Seq<char>,
        projection: &Arc<dyn Projection>,
    ) -> bool {
        &&& after.has(id)
        &&& after.entry(id).projection == *projection
        &&& forall|other: Seq<char>|
            other != id ==> (after.has(other) == before.has(other)) && (before.has(other)
                ==> after.entry(other) == before.entry(other))
    }

    /// Puts an entry into the registry. What was registered under its id
    /// before is no longer in the registry; no other id is touched.
    pub fn put_entry(&mut self, entry: Slot)
        ensures
            ProjectionRegistry::put(old(self), final(self), entry.id@, &entry.projection),
            old(self).has(entry.id@) ==> final(self).entries().len() == old(self).entries().len(),
            !old(self).has(entry.id@) ==> final(self).entries().len() == old(
                self,
            ).entries().len() + 1,
    {
        let ghost before = self.entries@;
        let ghost key = entry.id@;
        let found = self.find(entry.id.as_str());
        let mut taken = ProjectionRegistry::new();
        core::mem::swap(self, &mut taken);
        let mut entries = taken.entries;
        match found {
            Some(i) => {
                proof {
                    let after = before.update(i as int, entry);
                    assert(distinct_ids(after)) by {
                        assert forall|a: int, b: int| 0 <= a < b < after.len() implies (
                        #[trigger] after[a]).id@ != (#[trigger] after[b]).id@ by {
                            assert(after[a].id@ == before[a].id@);
                            assert(after[b].id@ == before[b].id@);
                        }
                    }
                }
                entries.set(i, entry);
                *self = ProjectionRegistry { entries };
                proof {
                    let after = self.entries@;
                    assert(after[i as int].id@ == key);
                    assert forall|other: Seq<char>| other != key implies (self.has(other) == old(
                        self,
                    ).has(other)) && (old(self).has(other) ==> self.entry(other) == old(
                        self,
                    ).entry(other)) by {
                        if old(self).has(other) {
                            let w = old(self).index_of(other);
                            assert(after[w].id@ == other);
                            let v = self.index_of(other);
                            assert(before[v].id@ == other);
                            assert(v == w);
                        }
                        if self.has(other) {
                            let v = self.index_of(other);
                            assert(before[v].id@ == other);
                        }
                    }
                    let at = self.index_of(key);
                    assert(at == i);
                }
            },
            None => {
                proof {
                    let after = before.push(entry);
                    assert(distinct_ids(after)) by {
                        assert forall|a: int, b: int| 0 <= a < b < after.len() implies (
                        #[trigger] after[a]).id@ != (#[trigger] after[b]).id@ by {
                            assert(after[a] == before[a]);
                            if b < before.len() {
                                assert(after[b] == before[b]);
                            }
                        }
                    }
                }
                entries.push(entry);
                *self = ProjectionRegistry { entries };
                proof {
                    let after = self.entries@;
                    let n = before.len() as int;
                    assert(after[n].id@ == key);
                    assert forall|other: Seq<char>| other != key implies (self.has(other) == old(
                        self,
                    ).has(other)) && (old(self).has(other) ==> self.entry(other) == old(
                        self,
                    ).entry(other)) by {
                        if old(self).has(other) {
                            let w = old(self).index_of(other);
                            assert(after[w].id@ == other);
                            let v = self.index_of(other);
                            assert(v < n);
                            assert(before[v].id@ == other);
                            assert(v == w);
                        }
                        if self.has(other) {
                            let v = self.index_of(other);
                            assert(v < n);
                            assert(before[v].id@ == other);
                        }
                    }
                    let at = self.index_of(key);
                    assert(at == n);
                }
            },
        }
    }

    /// Puts `projection` under `id`. What was registered under that id
    /// before is no longer in the registry; no other id is touched.
    pub fn insert(&mut self, id: String, projection: Arc<dyn Projection>)
        ensures
            ProjectionRegistry::put(old(self), final(self), id@, &projection),
            old(self).has(id@) ==> final(self).entries().len() == old(self).entries().len(),
            !old(self).has(id@) ==> final(self).entries().len() == old(self).entries().len() + 1,
    {
        let entry = Registered::new(id, projection);
        self.put_entry(entry);
    }

    /// Registers a projection under the id that it gives. A projection
    /// that was registered under that id before is replaced.
    pub fn register(&mut self, projection: Arc<dyn Projection>)
        ensures
            exists|id: Seq<char>| ProjectionRegistry::put(old(self), final(self), id, &projection),
    {
        let id = projection.id().to_owned();
        let entry = Registered::new(id, projection);
        self.put_entry(entry);
    }

    /// Asks every registered projection what it says of the resource: one
    /// candidate for each entry, in the order of the entries, under the
    /// entry's id and with the name and the score that the entry's
    /// projection answered.
    pub fn candidates_for(&self, resource: &Resource) -> (c: Vec<ProjectionInfo>)
        ensures
            distinct_ids(self.entries()),
            answers(self.entries(), resource, c@),
            c@.len() == self.entries().len(),
            forall|i: int| 0 <= i < c@.len() ==> (#[trigger] c@[i]).id@ == self.entries()[i].id@,
    {
        proof {
            use_type_invariant(self);
        }
        let mut c: Vec<ProjectionInfo> = Vec::new();
        let mut i: usize = 0;
        while i < self.entries.len()
            invariant
                i <= self.entries.len(),
                c@.len() == i,
                forall|k: int| 0 <= k < i ==> says(&self.entries@[k], resource, &#[trigger] c@[k]),
            decreases self.entries.len() - i,
        {
            let entry = &self.entries[i];
            let name = ask_name::<dyn Projection>(&*entry.projection);
            let confidence = ask_score::<dyn Projection>(&*entry.projection, resource);
            let info = ProjectionInfo { id: entry.id.clone(), name, confidence };
            assert(says(entry, resource, &info));
            c.push(info);
            i += 1;
        }
        c
    }

    /// The projection of the best candidate, where the candidates are what
    /// the entries said, one by one: the entry at the place of the best
    /// candidate, and none where no candidate applies.
    pub fn pick(&self, candidates: &Vec<ProjectionInfo>) -> (r: Option<&Arc<dyn Projection>>)
        ensures
            match r {
                Some(p) => exists|i: int|
                    is_best(candidates@, i) && i < self.entries().len() && *p == (
                    #[trigger] self.entries()[i]).projection,
                None => candidates@.len() == self.entries().len() ==> forall|j: int|
                    0 <= j < candidates@.len() ==> !applies(#[trigger] candidates@[j]),
            },
    {
        match best_candidate(candidates) {
            Some(i) => {
                if i < self.entries.len() {
                    assert(is_best(candidates@, i as int) && self.entries()[i as int].projection
                        == self.entries@[i as int].projection);
                    Some(&self.entries[i].projection)
                } else {
                    None
                }
            },
            None => None,
        }
    }

    /// The projection that handles the resource best: every registered
    /// projection is asked for its score, and the result is the entry with
    /// the highest score above zero and, among equal scores, the id that
    /// comes first. There is none where no projection applies.
    pub fn best_for(&self, resource: &Resource) -> (r: Option<&Arc<dyn Projection>>)
        ensures
            exists|c: Seq<ProjectionInfo>| #[trigger]
                answers(self.entries(), resource, c) && match r {
                    Some(p) => exists|i: int|
                        is_best(c, i) && *p == (#[trigger] self.entries()[i]).projection,
                    None => forall|j: int| 0 <= j < c.len() ==> !applies(#[trigger] c[j]),
                },
            r matches Some(p) ==> exists|i: int|
                0 <= i < self.entries().len() && *p == (#[trigger] self.entries()[i]).projection,
            self.entries().len() == 0 ==> r is None,
    {
        let candidates = self.candidates_for(resource);
        let r = self.pick(&candidates);
        proof {
            assert(answers(self.entries(), resource, candidates@));
            match r {
                Some(p) => {
                    let i = choose|i: int|
                        is_best(candidates@, i) && i < self.entries().len() && *p == (
                        #[trigger] self.entries()[i]).projection;
                    assert(is_best(candidates@, i) && *p == self.entries()[i].projection);
                },
                None => {},
            }
        }
        r
    }

    /// All projections that apply to the resource, the best first: every
    /// registered projection is asked for its name and its score, those
    /// with a score above zero are kept, and the higher score stands
    /// first and, among equal scores, the id that comes first.
    pub fn available_for(&self, resource: &Resource) -> (out: Vec<ProjectionInfo>)
        ensures
            exists|c: Seq<ProjectionInfo>| #[trigger]
                answers(self.entries(), resource, c) && out@.to_multiset() == matching(
                    c,
                ).to_multiset(),
            sorted(out@),
            forall|i: int| 0 <= i < out@.len() ==> applies(#[trigger] out@[i]),
            forall|i: int| 0 <= i < out@.len() ==> self.has((#[trigger] out@[i]).id@),
            distinct_candidates(out@),
            out@.len() <= self.entries().len(),
    {
        let candidates = self.candidates_for(resource);
        let out = rank(&candidates);
        proof {
            assert(answers(self.entries(), resource, candidates@) && out@.to_multiset()
                == matching(candidates@).to_multiset());
            assert(distinct_candidates(candidates@)) by {
                assert forall|a: int, b: int| 0 <= a < b < candidates@.len() implies (
                #[trigger] candidates@[a]).id@ != (#[trigger] candidates@[b]).id@ by {
                    assert(self.entries()[a].id@ != self.entries()[b].id@);
                }
            }
            let m = matching(candidates@);
            broadcast use vstd::seq_lib::group_to_multiset_ensures;

            candidates@.lemma_filter_len(|x: ProjectionInfo| applies(x));
            assert(out@.len() == m.len());
            assert forall|i: int| 0 <= i < out@.len() implies self.has((#[trigger] out@[i]).id@) by {
                assert(out@.contains(out@[i]));
                assert(out@.to_multiset().count(out@[i]) > 0);
                assert(m.contains(out@[i]));
                lemma_filter_source(candidates@, out@[i]);
                let w = choose|w: int| 0 <= w < candidates@.len() && candidates@[w] == out@[i];
                assert(self.entries()[w].id@ == out@[i].id@);
            }
        }
        out
    }

    /// Registering under an id a second time leaves the registry as if
    /// only the second projection had been registered under it: the id
    /// leads to the later projection, and the earlier one is reached
    /// under no id that did not lead to it before.
    pub proof fn lemma_later_registration_wins(
        start: &ProjectionRegistry,
        middle: &ProjectionRegistry,
        end: &ProjectionRegistry,
        id: Seq<char>,
        earlier: &Arc<dyn Projection>,
        later: &Arc<dyn Projection>,
    )
        requires
            ProjectionRegistry::put(start, middle, id, earlier),
            ProjectionRegistry::put(middle, end, id, later),
        ensures
            ProjectionRegistry::put(start, end, id, later),
    {
    }
}

impl Default for ProjectionRegistry {
    fn default() -> (r: ProjectionRegistry)
        ensures
            r.entries() == Seq::<Slot>::empty(),
    {
        ProjectionRegistry::new()
    }
}

/// What the filter kept stood in the sequence.
pub proof fn lemma_filter_source(c: Seq<ProjectionInfo>, x: ProjectionInfo)
    requires
        matching(c).contains(x),
    ensures
        c.contains(x),
    decreases c.len(),
{
    reveal(Seq::filter);
    if c.len() > 0 {
        let rest = c.drop_last();
        if matching(rest).contains(x) {
            lemma_filter_source(rest, x);
            let w = choose|w: int| 0 <= w < rest.len() && rest[w] == x;
            assert(c[w] == x);
        } else {
            let m = matching(c);
            let w = choose|w: int| 0 <= w < m.len() && m[w] == x;
            if applies(c.last()) {
                assert(m == matching(rest).push(c.last()));
                if w < matching(rest).len() {
                    assert(matching(rest)[w] == x);
                }
                assert(c[c.len() - 1] == x);
            }
        }
    }
}

} // verus!
