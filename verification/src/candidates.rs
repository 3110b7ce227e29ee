//! Per-candidate evidence gathered from the retrieval lanes of one query, and the
//! hit reported for an explicit exact target.
use vstd::prelude::*;
use crate::refs::{CognitiveRef, RefView};
use crate::text::str_eq;

verus! {

/// The strings of a list, as a set of character sequences.
pub open spec fn string_set(list: Seq<String>) -> Set<Seq<char>> {
    list.map_values(|s: String| s@).to_set()
}

/// No string occurs twice in a list.
pub open spec fn strings_distinct(list: Seq<String>) -> bool {
    forall|i: int, j: int| 0 <= i < j < list.len() ==> #[trigger] list[i]@ != #[trigger] list[j]@
}

/// Evidence one candidate received from the retrieval lanes.
struct CandidateLaneEvidence {
    lexical: Option<usize>,
    dense: Option<usize>,
    dense_variants: Vec<String>,
    postings: Vec<String>,
    exact: bool,
    runtime: bool,
}

/// Mathematical value of a candidate's lane evidence.
pub struct LaneView {
    pub lexical: Option<usize>,
    pub dense: Option<usize>,
    pub dense_variants: Set<Seq<char>>,
    pub postings: Set<Seq<char>>,
    pub exact: bool,
    pub runtime: bool,
}

/// The value of lane evidence.
spec fn lane_view(lane: CandidateLaneEvidence) -> LaneView {
    LaneView {
        lexical: lane.lexical,
        dense: lane.dense,
        dense_variants: string_set(lane.dense_variants@),
        postings: string_set(lane.postings@),
        exact: lane.exact,
        runtime: lane.runtime,
    }
}

/// The evidence of a candidate no lane has reported yet.
pub open spec fn empty_lane() -> LaneView {
    LaneView {
        lexical: None,
        dense: None,
        dense_variants: Set::empty(),
        postings: Set::empty(),
        exact: false,
        runtime: false,
    }
}

/// The evidence recorded for `r`, or the empty evidence.
pub open spec fn lane_of(m: Map<RefView, LaneView>, r: RefView) -> LaneView {
    if m.contains_key(r) {
        m[r]
    } else {
        empty_lane()
    }
}

/// The better (lower) of an optional rank and a new rank.
pub open spec fn best_rank(current: Option<usize>, rank: usize) -> Option<usize> {
    match current {
        Some(c) => Some(if c <= rank { c } else { rank }),
        None => Some(rank),
    }
}

/// After a lexical hit of `r` at `rank`.
pub open spec fn spec_add_lexical(m: Map<RefView, LaneView>, r: RefView, rank: usize) -> Map<
    RefView,
    LaneView,
> {
    let l = lane_of(m, r);
    m.insert(r, LaneView { lexical: best_rank(l.lexical, rank), ..l })
}

/// After a dense hit of `r` at `rank` through `variant`.
pub open spec fn spec_add_dense(
    m: Map<RefView, LaneView>,
    r: RefView,
    rank: usize,
    variant: Seq<char>,
) -> Map<RefView, LaneView> {
    let l = lane_of(m, r);
    m.insert(
        r,
        LaneView { dense: best_rank(l.dense, rank), dense_variants: l.dense_variants.insert(variant), ..l },
    )
}

/// After a posting hit of `r` in `posting_lane`.
pub open spec fn spec_add_posting(m: Map<RefView, LaneView>, r: RefView, posting_lane: Seq<char>) -> Map<
    RefView,
    LaneView,
> {
    let l = lane_of(m, r);
    m.insert(r, LaneView { postings: l.postings.insert(posting_lane), ..l })
}

/// After `r` is marked as an exact target.
pub open spec fn spec_mark_exact(m: Map<RefView, LaneView>, r: RefView) -> Map<RefView, LaneView> {
    let l = lane_of(m, r);
    m.insert(r, LaneView { exact: true, ..l })
}

/// After `r` is marked as present in the runtime situation.
pub open spec fn spec_mark_runtime(m: Map<RefView, LaneView>, r: RefView) -> Map<RefView, LaneView> {
    let l = lane_of(m, r);
    m.insert(r, LaneView { runtime: true, ..l })
}

/// Whether some entry has reference `r`.
spec fn has_ref(entries: Seq<(CognitiveRef, CandidateLaneEvidence)>, r: RefView) -> bool {
    exists|i: int| 0 <= i < entries.len() && #[trigger] entries[i].0@ == r
}

/// The position of the entry for `r`.
spec fn ref_index(entries: Seq<(CognitiveRef, CandidateLaneEvidence)>, r: RefView) -> int {
    choose|i: int| 0 <= i < entries.len() && #[trigger] entries[i].0@ == r
}

/// The entries as a map from reference to evidence.
spec fn lanes_map(entries: Seq<(CognitiveRef, CandidateLaneEvidence)>) -> Map<
    RefView,
    LaneView,
> {
    Map::new(|r: RefView| has_ref(entries, r), |r: RefView| lane_view(entries[ref_index(entries, r)].1))
}

/// Entries have distinct references and no lane string twice.
spec fn entries_wf(entries: Seq<(CognitiveRef, CandidateLaneEvidence)>) -> bool {
    &&& forall|i: int, j: int|
        0 <= i < j < entries.len() ==> #[trigger] entries[i].0@ != #[trigger] entries[j].0@
    &&& forall|i: int|
        0 <= i < entries.len() ==> strings_distinct(#[trigger] entries[i].1.dense_variants@)
            && strings_distinct(entries[i].1.postings@)
}

proof fn lemma_ref_index(entries: Seq<(CognitiveRef, CandidateLaneEvidence)>, i: int)
    requires
        entries_wf(entries),
        0 <= i < entries.len(),
    ensures
        has_ref(entries, entries[i].0@),
        ref_index(entries, entries[i].0@) == i,
{
    let k = entries[i].0@;
    assert(has_ref(entries, k));
    let j = ref_index(entries, k);
    if j != i {
        if j < i {
            assert(entries[j].0@ != entries[i].0@);
        } else {
            assert(entries[i].0@ != entries[j].0@);
        }
    }
}

proof fn lemma_replace(
    old_entries: Seq<(CognitiveRef, CandidateLaneEvidence)>,
    new_entries: Seq<(CognitiveRef, CandidateLaneEvidence)>,
    i: int,
)
    requires
        entries_wf(old_entries),
        0 <= i < old_entries.len(),
        new_entries.len() == old_entries.len(),
        new_entries[i].0@ == old_entries[i].0@,
        strings_distinct(new_entries[i].1.dense_variants@),
        strings_distinct(new_entries[i].1.postings@),
        forall|j: int| 0 <= j < old_entries.len() && j != i ==> new_entries[j] == old_entries[j],
    ensures
        entries_wf(new_entries),
        lanes_map(new_entries) == lanes_map(old_entries).insert(
            old_entries[i].0@,
            lane_view(new_entries[i].1),
        ),
{
    assert(entries_wf(new_entries)) by {
        assert forall|a: int, b: int| 0 <= a < b < new_entries.len() implies #[trigger] new_entries[a].0@
            != #[trigger] new_entries[b].0@ by {
            assert(old_entries[a].0@ != old_entries[b].0@);
        }
        assert forall|a: int| 0 <= a < new_entries.len() implies strings_distinct(
            #[trigger] new_entries[a].1.dense_variants@,
        ) && strings_distinct(new_entries[a].1.postings@) by {
            if a != i {
                assert(strings_distinct(old_entries[a].1.dense_variants@));
            }
        }
    }
    assert forall|k: RefView| #[trigger] has_ref(new_entries, k) == has_ref(old_entries, k) by {
        if has_ref(new_entries, k) {
            let j = choose|j: int| 0 <= j < new_entries.len() && #[trigger] new_entries[j].0@ == k;
            assert(old_entries[j].0@ == k);
        }
        if has_ref(old_entries, k) {
            let j = choose|j: int| 0 <= j < old_entries.len() && #[trigger] old_entries[j].0@ == k;
            assert(new_entries[j].0@ == k);
        }
    }
    lemma_ref_index(old_entries, i);
    assert forall|k: RefView| has_ref(new_entries, k) implies #[trigger] lanes_map(new_entries)[k]
        == lanes_map(old_entries).insert(old_entries[i].0@, lane_view(new_entries[i].1))[k] by {
        let j = choose|j: int| 0 <= j < new_entries.len() && #[trigger] new_entries[j].0@ == k;
        lemma_ref_index(new_entries, j);
        lemma_ref_index(old_entries, j);
    }
    assert(lanes_map(new_entries) =~= lanes_map(old_entries).insert(
        old_entries[i].0@,
        lane_view(new_entries[i].1),
    ));
}

fn insert_string(list: &mut Vec<String>, value: &str)
    requires
        strings_distinct(old(list)@),
    ensures
        strings_distinct(final(list)@),
        string_set(final(list)@) == string_set(old(list)@).insert(value@),
{
    let mut i: usize = 0;
    while i < list.len()
        invariant
            i <= list@.len(),
            strings_distinct(list@),
            forall|j: int| 0 <= j < i ==> #[trigger] list@[j]@ != value@,
        decreases list@.len() - i,
    {
        if str_eq(list[i].as_str(), value) {
            proof {
                let m = list@.map_values(|s: String| s@);
                assert(m[i as int] == value@);
                assert(string_set(list@).contains(value@));
                assert(string_set(list@).insert(value@) =~= string_set(list@));
            }
            return;
        }
        i = i + 1;
    }
    let ghost prior = list@;
    list.push(value.to_owned());
    proof {
        let m0 = prior.map_values(|s: String| s@);
        let m1 = list@.map_values(|s: String| s@);
        assert(m1 == m0.push(value@));
        assert(m1.to_set() =~= m0.to_set().insert(value@)) by {
            assert forall|x: Seq<char>| m1.to_set().contains(x) implies m0.to_set().insert(value@).contains(x) by {
                let j = choose|j: int| 0 <= j < m1.len() && m1[j] == x;
                if j < m0.len() {
                    assert(m0[j] == x);
                }
            }
            assert forall|x: Seq<char>| m0.to_set().insert(value@).contains(x) implies m1.to_set().contains(x) by {
                if x == value@ {
                    assert(m1[m0.len() as int] == x);
                } else {
                    let j = choose|j: int| 0 <= j < m0.len() && m0[j] == x;
                    assert(m1[j] == x);
                }
            }
        }
    }
}

fn copy_strings(list: &Vec<String>) -> (copy: Vec<String>)
    ensures
        copy@.len() == list@.len(),
        forall|i: int| 0 <= i < list@.len() ==> #[trigger] copy@[i]@ == list@[i]@,
        string_set(copy@) == string_set(list@),
        strings_distinct(list@) ==> strings_distinct(copy@),
{
    let mut copy: Vec<String> = Vec::new();
    let mut i: usize = 0;
    while i < list.len()
        invariant
            i <= list@.len(),
            copy@.len() == i,
            forall|j: int| 0 <= j < i ==> #[trigger] copy@[j]@ == list@[j]@,
        decreases list@.len() - i,
    {
        copy.push(list[i].clone());
        i = i + 1;
    }
    proof {
        assert(copy@.map_values(|s: String| s@) =~= list@.map_values(|s: String| s@));
    }
    copy
}

fn empty_evidence() -> (lane: CandidateLaneEvidence)
    ensures
        lane_view(lane) == empty_lane(),
        strings_distinct(lane.dense_variants@),
        strings_distinct(lane.postings@),
{
    let lane = CandidateLaneEvidence {
        lexical: None,
        dense: None,
        dense_variants: Vec::new(),
        postings: Vec::new(),
        exact: false,
        runtime: false,
    };
    assert(string_set(lane.dense_variants@) =~= Set::<Seq<char>>::empty());
    assert(string_set(lane.postings@) =~= Set::<Seq<char>>::empty());
    lane
}

fn better_rank(current: Option<usize>, rank: usize) -> (best: Option<usize>)
    ensures
        best == best_rank(current, rank),
{
    match current {
        Some(c) => Some(if c <= rank { c } else { rank }),
        None => Some(rank),
    }
}

/// The evidence every retrieval lane reported for each candidate of one query.
pub struct CandidateAccumulator {
    references: Vec<(CognitiveRef, CandidateLaneEvidence)>,
}

impl Default for CandidateAccumulator {
    /// An accumulator with no candidates.
    fn default() -> (acc: CandidateAccumulator)
        ensures
            acc.wf(),
            acc.view() == Map::<RefView, LaneView>::empty(),
    {
        let acc = CandidateAccumulator { references: Vec::new() };
        assert(acc.view() =~= Map::<RefView, LaneView>::empty());
        acc
    }
}

impl CandidateAccumulator {
    /// The evidence recorded for each candidate.
    pub closed spec fn view(&self) -> Map<RefView, LaneView> {
        lanes_map(self.references@)
    }

    /// Internal consistency of the accumulator.
    pub closed spec fn wf(&self) -> bool {
        entries_wf(self.references@)
    }

    fn find(&self, reference: &CognitiveRef) -> (index: Option<usize>)
        requires
            self.wf(),
        ensures
            match index {
                Some(i) => i < self.references@.len() && self.references@[i as int].0@ == reference@,
                None => !has_ref(self.references@, reference@),
            },
    {
        let mut i: usize = 0;
        while i < self.references.len()
            invariant
                i <= self.references@.len(),
                forall|j: int| 0 <= j < i ==> #[trigger] self.references@[j].0@ != reference@,
            decreases self.references@.len() - i,
        {
            if self.references[i].0.same_as(reference) {
                return Some(i);
            }
            i = i + 1;
        }
        None
    }

    /// Takes out the evidence of `reference`, adding an empty entry when absent.
    fn take_entry(&mut self, reference: CognitiveRef) -> (result: (usize, CognitiveRef, CandidateLaneEvidence))
        requires
            old(self).wf(),
        ensures
            result.0 <= final(self).references@.len(),
            final(self).references@.len() + 1 == old(self).references@.len() || (
            final(self).references@.len() == old(self).references@.len() && !has_ref(
                old(self).references@,
                reference@,
            )),
            result.1@ == reference@,
            lane_view(result.2) == lane_of(old(self).view(), reference@),
            strings_distinct(result.2.dense_variants@),
            strings_distinct(result.2.postings@),
            forall|lane: CandidateLaneEvidence|
                #![trigger final(self).references@.insert(result.0 as int, (result.1, lane))]
                strings_distinct(lane.dense_variants@) && strings_distinct(lane.postings@) ==> {
                    let entries = final(self).references@.insert(result.0 as int, (result.1, lane));
                    &&& entries_wf(entries)
                    &&& lanes_map(entries) == old(self).view().insert(reference@, lane_view(lane))
                },
    {
        let ghost old_entries = self.references@;
        match self.find(&reference) {
            Some(i) => {
                let (r, lane) = self.references.remove(i);
                proof {
                    lemma_ref_index(old_entries, i as int);
                    assert forall|l: CandidateLaneEvidence|
                        strings_distinct(l.dense_variants@) && strings_distinct(l.postings@) implies {
                            let entries = self.references@.insert(i as int, (r, l));
                            &&& entries_wf(entries)
                            &&& lanes_map(entries) == lanes_map(old_entries).insert(reference@, lane_view(l))
                        } by {
                        let entries = self.references@.insert(i as int, (r, l));
                        assert forall|j: int| 0 <= j < old_entries.len() && j != i implies entries[j]
                            == old_entries[j] by {}
                        lemma_replace(old_entries, entries, i as int);
                    }
                }
                (i, r, lane)
            },
            None => {
                let lane = empty_evidence();
                let n = self.references.len();
                proof {
                    assert forall|l: CandidateLaneEvidence|
                        strings_distinct(l.dense_variants@) && strings_distinct(l.postings@) implies {
                            let entries = self.references@.insert(n as int, (reference, l));
                            &&& entries_wf(entries)
                            &&& lanes_map(entries) == lanes_map(old_entries).insert(reference@, lane_view(l))
                        } by {
                        let entries = self.references@.insert(n as int, (reference, l));
                        assert(entries == old_entries.push((reference, l)));
                        assert forall|a: int, b: int| 0 <= a < b < entries.len() implies #[trigger] entries[a].0@
                            != #[trigger] entries[b].0@ by {
                            if b == n {
                                assert(old_entries[a].0@ != reference@);
                            } else {
                                assert(old_entries[a].0@ != old_entries[b].0@);
                            }
                        }
                        assert forall|a: int| 0 <= a < entries.len() implies strings_distinct(
                            #[trigger] entries[a].1.dense_variants@,
                        ) && strings_distinct(entries[a].1.postings@) by {
                            if a < n {
                                assert(strings_distinct(old_entries[a].1.dense_variants@));
                            }
                        }
                        assert forall|k: RefView| #[trigger] has_ref(entries, k) == (has_ref(old_entries, k)
                            || k == reference@) by {
                            if has_ref(entries, k) {
                                let j = choose|j: int| 0 <= j < entries.len() && #[trigger] entries[j].0@ == k;
                                if j < n {
                                    assert(old_entries[j].0@ == k);
                                }
                            }
                            if has_ref(old_entries, k) {
                                let j = choose|j: int| 0 <= j < old_entries.len() && #[trigger] old_entries[j].0@ == k;
                                assert(entries[j].0@ == k);
                            }
                            if k == reference@ {
                                assert(entries[n as int].0@ == k);
                            }
                        }
                        assert forall|k: RefView| has_ref(entries, k) implies #[trigger] lanes_map(entries)[k]
                            == lanes_map(old_entries).insert(reference@, lane_view(l))[k] by {
                            let j = choose|j: int| 0 <= j < entries.len() && #[trigger] entries[j].0@ == k;
                            lemma_ref_index(entries, j);
                            if j < n {
                                lemma_ref_index(old_entries, j);
                            }
                        }
                        assert(lanes_map(entries) =~= lanes_map(old_entries).insert(reference@, lane_view(l)));
                    }
                }
                (n, reference, lane)
            },
        }
    }

    /// Records a lexical hit of `reference` at `rank`, keeping its best rank.
    pub fn add_lexical(&mut self, reference: CognitiveRef, rank: usize)
        requires
            old(self).wf(),
        ensures
            final(self).wf(),
            final(self).view() == spec_add_lexical(old(self).view(), reference@, rank),
    {
        let (i, key, mut lane) = self.take_entry(reference);
        lane.lexical = better_rank(lane.lexical, rank);
        let ghost placed = self.references@.insert(i as int, (key, lane));
        self.references.insert(i, (key, lane));
    }

    /// Records a dense hit of `reference` at `rank` through `variant`; a dense hit
    /// never counts as a lexical one.
    pub fn add_dense(&mut self, reference: CognitiveRef, rank: usize, variant: &str)
        requires
            old(self).wf(),
        ensures
            final(self).wf(),
            final(self).view() == spec_add_dense(old(self).view(), reference@, rank, variant@),
    {
        let (i, key, mut lane) = self.take_entry(reference);
        lane.dense = better_rank(lane.dense, rank);
        insert_string(&mut lane.dense_variants, variant);
        let ghost placed = self.references@.insert(i as int, (key, lane));
        self.references.insert(i, (key, lane));
    }

    /// Records that `reference` was hit in the exact posting lane `posting_lane`.
    pub fn add_posting(&mut self, reference: CognitiveRef, posting_lane: &str)
        requires
            old(self).wf(),
        ensures
            final(self).wf(),
            final(self).view() == spec_add_posting(old(self).view(), reference@, posting_lane@),
    {
        let (i, key, mut lane) = self.take_entry(reference);
        insert_string(&mut lane.postings, posting_lane);
        let ghost placed = self.references@.insert(i as int, (key, lane));
        self.references.insert(i, (key, lane));
    }

    /// Marks `reference` as an explicit exact target.
    pub fn mark_exact(&mut self, reference: CognitiveRef)
        requires
            old(self).wf(),
        ensures
            final(self).wf(),
            final(self).view() == spec_mark_exact(old(self).view(), reference@),
    {
        let (i, key, mut lane) = self.take_entry(reference);
        lane.exact = true;
        let ghost placed = self.references@.insert(i as int, (key, lane));
        self.references.insert(i, (key, lane));
    }

    /// Marks `reference` as present in the runtime situation.
    pub fn mark_runtime(&mut self, reference: CognitiveRef)
        requires
            old(self).wf(),
        ensures
            final(self).wf(),
            final(self).view() == spec_mark_runtime(old(self).view(), reference@),
    {
        let (i, key, mut lane) = self.take_entry(reference);
        lane.runtime = true;
        let ghost placed = self.references@.insert(i as int, (key, lane));
        self.references.insert(i, (key, lane));
    }

    /// Whether `reference` was marked as an exact target.
    pub fn is_exact(&self, reference: &CognitiveRef) -> (exact: bool)
        requires
            self.wf(),
        ensures
            exact == (self.view().contains_key(reference@) && self.view()[reference@].exact),
    {
        match self.find(reference) {
            Some(i) => {
                proof {
                    lemma_ref_index(self.references@, i as int);
                }
                self.references[i].1.exact
            },
            None => false,
        }
    }

    /// Every candidate reference, once.
    pub fn candidate_refs(&self) -> (refs: Vec<CognitiveRef>)
        requires
            self.wf(),
        ensures
            forall|i: int, j: int| 0 <= i < j < refs@.len() ==> #[trigger] refs@[i]@ != #[trigger] refs@[j]@,
            forall|r: RefView| self.view().contains_key(r) <==> exists|i: int|
                0 <= i < refs@.len() && #[trigger] refs@[i]@ == r,
    {
        let mut refs: Vec<CognitiveRef> = Vec::new();
        let mut i: usize = 0;
        while i < self.references.len()
            invariant
                i <= self.references@.len(),
                entries_wf(self.references@),
                refs@.len() == i,
                forall|j: int| 0 <= j < i ==> #[trigger] refs@[j]@ == self.references@[j].0@,
            decreases self.references@.len() - i,
        {
            refs.push(self.references[i].0.duplicate());
            i = i + 1;
        }
        proof {
            assert forall|a: int, b: int| 0 <= a < b < refs@.len() implies #[trigger] refs@[a]@
                != #[trigger] refs@[b]@ by {
                assert(self.references@[a].0@ != self.references@[b].0@);
            }
            assert forall|r: RefView| self.view().contains_key(r) implies exists|i: int|
                0 <= i < refs@.len() && #[trigger] refs@[i]@ == r by {
                let j = choose|j: int| 0 <= j < self.references@.len() && #[trigger] self.references@[j].0@ == r;
                assert(refs@[j]@ == r);
            }
            assert forall|r: RefView| (exists|i: int| 0 <= i < refs@.len() && #[trigger] refs@[i]@ == r)
                implies self.view().contains_key(r) by {
                let j = choose|j: int| 0 <= j < refs@.len() && #[trigger] refs@[j]@ == r;
                assert(self.references@[j].0@ == r);
            }
        }
        refs
    }

    /// The best lexical rank of every candidate that has one.
    pub fn lexical_ranks(&self) -> (ranks: Vec<(CognitiveRef, usize)>)
        requires
            self.wf(),
        ensures
            forall|i: int, j: int| 0 <= i < j < ranks@.len() ==> #[trigger] ranks@[i].0@ != #[trigger] ranks@[j].0@,
            forall|i: int| 0 <= i < ranks@.len() ==> self.view().contains_key(#[trigger] ranks@[i].0@)
                && self.view()[ranks@[i].0@].lexical == Some(ranks@[i].1),
            forall|r: RefView| self.view().contains_key(r) && self.view()[r].lexical is Some ==> exists|i: int|
                0 <= i < ranks@.len() && #[trigger] ranks@[i].0@ == r,
    {
        self.ranks(true)
    }

    /// The best dense rank of every candidate that has one.
    pub fn dense_ranks(&self) -> (ranks: Vec<(CognitiveRef, usize)>)
        requires
            self.wf(),
        ensures
            forall|i: int, j: int| 0 <= i < j < ranks@.len() ==> #[trigger] ranks@[i].0@ != #[trigger] ranks@[j].0@,
            forall|i: int| 0 <= i < ranks@.len() ==> self.view().contains_key(#[trigger] ranks@[i].0@)
                && self.view()[ranks@[i].0@].dense == Some(ranks@[i].1),
            forall|r: RefView| self.view().contains_key(r) && self.view()[r].dense is Some ==> exists|i: int|
                0 <= i < ranks@.len() && #[trigger] ranks@[i].0@ == r,
    {
        self.ranks(false)
    }

    fn ranks(&self, lexical: bool) -> (ranks: Vec<(CognitiveRef, usize)>)
        requires
            self.wf(),
        ensures
            forall|i: int, j: int| 0 <= i < j < ranks@.len() ==> #[trigger] ranks@[i].0@ != #[trigger] ranks@[j].0@,
            forall|i: int| 0 <= i < ranks@.len() ==> self.view().contains_key(#[trigger] ranks@[i].0@)
                && (if lexical { self.view()[ranks@[i].0@].lexical } else { self.view()[ranks@[i].0@].dense })
                == Some(ranks@[i].1),
            forall|r: RefView| self.view().contains_key(r) && (if lexical { self.view()[r].lexical } else {
                self.view()[r].dense }) is Some ==> exists|i: int|
                0 <= i < ranks@.len() && #[trigger] ranks@[i].0@ == r,
    {
        let mut ranks: Vec<(CognitiveRef, usize)> = Vec::new();
        let mut i: usize = 0;
        while i < self.references.len()
            invariant
                i <= self.references@.len(),
                entries_wf(self.references@),
                forall|a: int| 0 <= a < ranks@.len() ==> exists|j: int| 0 <= j < i && #[trigger] ranks@[a].0@
                    == self.references@[j].0@ && (if lexical { self.references@[j].1.lexical } else {
                    self.references@[j].1.dense }) == Some(ranks@[a].1),
                forall|a: int, b: int| 0 <= a < b < ranks@.len() ==> #[trigger] ranks@[a].0@ != #[trigger] ranks@[b].0@,
                forall|j: int| 0 <= j < i && (if lexical { self.references@[j].1.lexical } else {
                    self.references@[j].1.dense }) is Some ==> exists|a: int| 0 <= a < ranks@.len()
                    && #[trigger] ranks@[a].0@ == self.references@[j].0@,
            decreases self.references@.len() - i,
        {
            let rank = if lexical { self.references[i].1.lexical } else { self.references[i].1.dense };
            if let Some(value) = rank {
                let r = self.references[i].0.duplicate();
                let ghost prior = ranks@;
                proof {
                    assert forall|a: int| 0 <= a < prior.len() implies #[trigger] prior[a].0@ != r@ by {
                        let j = choose|j: int| 0 <= j < i && #[trigger] prior[a].0@ == self.references@[j].0@
                            && (if lexical { self.references@[j].1.lexical } else { self.references@[j].1.dense })
                            == Some(prior[a].1);
                        assert(self.references@[j].0@ != self.references@[i as int].0@);
                    }
                }
                ranks.push((r, value));
                proof {
                    assert(ranks@[prior.len() as int].0@ == self.references@[i as int].0@);
                    assert forall|a: int| 0 <= a < ranks@.len() implies exists|j: int| 0 <= j < i + 1
                        && #[trigger] ranks@[a].0@ == self.references@[j].0@ && (if lexical {
                        self.references@[j].1.lexical } else { self.references@[j].1.dense }) == Some(
                        ranks@[a].1) by {
                        if a < prior.len() {
                            let j = choose|j: int| 0 <= j < i && #[trigger] prior[a].0@ == self.references@[j].0@
                                && (if lexical { self.references@[j].1.lexical } else {
                                self.references@[j].1.dense }) == Some(prior[a].1);
                            assert(ranks@[a] == prior[a]);
                        } else {
                            assert(ranks@[a].0@ == self.references@[i as int].0@);
                        }
                    }
                    assert forall|j: int| 0 <= j < i + 1 && (if lexical { self.references@[j].1.lexical } else {
                        self.references@[j].1.dense }) is Some implies exists|a: int| 0 <= a < ranks@.len()
                        && #[trigger] ranks@[a].0@ == self.references@[j].0@ by {
                        if j < i {
                            let a = choose|a: int| 0 <= a < prior.len() && #[trigger] prior[a].0@
                                == self.references@[j].0@;
                            assert(ranks@[a] == prior[a]);
                        } else {
                            assert(ranks@[prior.len() as int].0@ == self.references@[j].0@);
                        }
                    }
                }
            }
            i = i + 1;
        }
        proof {
            assert forall|a: int| 0 <= a < ranks@.len() implies self.view().contains_key(#[trigger] ranks@[a].0@)
                && (if lexical { self.view()[ranks@[a].0@].lexical } else { self.view()[ranks@[a].0@].dense })
                == Some(ranks@[a].1) by {
                let j = choose|j: int| 0 <= j < self.references@.len() && #[trigger] ranks@[a].0@
                    == self.references@[j].0@ && (if lexical { self.references@[j].1.lexical } else {
                    self.references@[j].1.dense }) == Some(ranks@[a].1);
                lemma_ref_index(self.references@, j);
            }
            assert forall|r: RefView| self.view().contains_key(r) && (if lexical { self.view()[r].lexical } else {
                self.view()[r].dense }) is Some implies exists|a: int| 0 <= a < ranks@.len()
                && #[trigger] ranks@[a].0@ == r by {
                let j = choose|j: int| 0 <= j < self.references@.len() && #[trigger] self.references@[j].0@ == r;
                lemma_ref_index(self.references@, j);
                assert(self.references@[j].0@ == r);
            }
        }
        ranks
    }

    /// The dense variants of every candidate that some dense variant hit.
    pub fn dense_variants(&self) -> (variants: Vec<(CognitiveRef, Vec<String>)>)
        requires
            self.wf(),
        ensures
            forall|i: int, j: int|
                0 <= i < j < variants@.len() ==> #[trigger] variants@[i].0@ != #[trigger] variants@[j].0@,
            forall|i: int|
                0 <= i < variants@.len() ==> self.view().contains_key(#[trigger] variants@[i].0@)
                    && string_set(variants@[i].1@) == self.view()[variants@[i].0@].dense_variants
                    && strings_distinct(variants@[i].1@) && variants@[i].1@.len() > 0,
            forall|r: RefView|
                self.view().contains_key(r) && !self.view()[r].dense_variants.is_empty() ==> exists|i: int|
                    0 <= i < variants@.len() && #[trigger] variants@[i].0@ == r,
    {
        let mut variants: Vec<(CognitiveRef, Vec<String>)> = Vec::new();
        let mut i: usize = 0;
        while i < self.references.len()
            invariant
                i <= self.references@.len(),
                entries_wf(self.references@),
                forall|a: int|
                    0 <= a < variants@.len() ==> exists|j: int|
                        0 <= j < i && #[trigger] variants@[a].0@ == self.references@[j].0@
                            && string_set(variants@[a].1@) == string_set(self.references@[j].1.dense_variants@)
                            && strings_distinct(variants@[a].1@) && variants@[a].1@.len() > 0,
                forall|a: int, b: int|
                    0 <= a < b < variants@.len() ==> #[trigger] variants@[a].0@ != #[trigger] variants@[b].0@,
                forall|j: int|
                    0 <= j < i && self.references@[j].1.dense_variants@.len() > 0 ==> exists|a: int|
                        0 <= a < variants@.len() && #[trigger] variants@[a].0@ == self.references@[j].0@,
            decreases self.references@.len() - i,
        {
            if self.references[i].1.dense_variants.len() > 0 {
                let r = self.references[i].0.duplicate();
                let list = copy_strings(&self.references[i].1.dense_variants);
                let ghost prior = variants@;
                proof {
                    assert(strings_distinct(self.references@[i as int].1.dense_variants@));
                    assert forall|a: int| 0 <= a < prior.len() implies #[trigger] prior[a].0@ != r@ by {
                        let j = choose|j: int|
                            0 <= j < i && #[trigger] prior[a].0@ == self.references@[j].0@
                                && string_set(prior[a].1@) == string_set(self.references@[j].1.dense_variants@)
                                && strings_distinct(prior[a].1@) && prior[a].1@.len() > 0;
                        assert(self.references@[j].0@ != self.references@[i as int].0@);
                    }
                }
                variants.push((r, list));
                proof {
                    assert forall|a: int| 0 <= a < variants@.len() implies exists|j: int|
                        0 <= j < i + 1 && #[trigger] variants@[a].0@ == self.references@[j].0@
                            && string_set(variants@[a].1@) == string_set(self.references@[j].1.dense_variants@)
                            && strings_distinct(variants@[a].1@) && variants@[a].1@.len() > 0 by {
                        if a < prior.len() {
                            let j = choose|j: int|
                                0 <= j < i && #[trigger] prior[a].0@ == self.references@[j].0@
                                    && string_set(prior[a].1@) == string_set(self.references@[j].1.dense_variants@)
                                    && strings_distinct(prior[a].1@) && prior[a].1@.len() > 0;
                            assert(variants@[a] == prior[a]);
                        } else {
                            assert(variants@[a].0@ == self.references@[i as int].0@);
                        }
                    }
                    assert forall|j: int|
                        0 <= j < i + 1 && self.references@[j].1.dense_variants@.len() > 0 implies exists|a: int|
                        0 <= a < variants@.len() && #[trigger] variants@[a].0@ == self.references@[j].0@ by {
                        if j < i {
                            let a = choose|a: int| 0 <= a < prior.len() && #[trigger] prior[a].0@
                                == self.references@[j].0@;
                            assert(variants@[a] == prior[a]);
                        } else {
                            assert(variants@[prior.len() as int].0@ == self.references@[j].0@);
                        }
                    }
                }
            }
            i = i + 1;
        }
        proof {
            assert forall|a: int| 0 <= a < variants@.len() implies self.view().contains_key(
                #[trigger] variants@[a].0@,
            ) && string_set(variants@[a].1@) == self.view()[variants@[a].0@].dense_variants
                && strings_distinct(variants@[a].1@) && variants@[a].1@.len() > 0 by {
                let j = choose|j: int|
                    0 <= j < self.references@.len() && #[trigger] variants@[a].0@ == self.references@[j].0@
                        && string_set(variants@[a].1@) == string_set(self.references@[j].1.dense_variants@)
                        && strings_distinct(variants@[a].1@) && variants@[a].1@.len() > 0;
                lemma_ref_index(self.references@, j);
            }
            assert forall|r: RefView|
                self.view().contains_key(r) && !self.view()[r].dense_variants.is_empty() implies exists|a: int|
                0 <= a < variants@.len() && #[trigger] variants@[a].0@ == r by {
                let j = choose|j: int| 0 <= j < self.references@.len() && #[trigger] self.references@[j].0@ == r;
                lemma_ref_index(self.references@, j);
                let l = self.references@[j].1.dense_variants@;
                if l.len() == 0 {
                    assert(string_set(l) =~= Set::<Seq<char>>::empty());
                }
            }
        }
        variants
    }

    /// The exact posting lanes that hit `reference`, if it is a candidate.
    pub fn posting_hits(&self, reference: &CognitiveRef) -> (hits: Option<&Vec<String>>)
        requires
            self.wf(),
        ensures
            match hits {
                Some(h) => self.view().contains_key(reference@) && string_set(h@)
                    == self.view()[reference@].postings && strings_distinct(h@),
                None => !self.view().contains_key(reference@),
            },
    {
        match self.find(reference) {
            Some(i) => {
                proof {
                    lemma_ref_index(self.references@, i as int);
                }
                Some(&self.references[i].1.postings)
            },
            None => None,
        }
    }

    /// The best lexical and dense ranks of `reference`, if any lane reported it.
    pub fn lane_ranks(&self, reference: &CognitiveRef) -> (ranks: (Option<usize>, Option<usize>))
        requires
            self.wf(),
        ensures
            ranks.0 == lane_of(self.view(), reference@).lexical,
            ranks.1 == lane_of(self.view(), reference@).dense,
    {
        match self.find(reference) {
            Some(i) => {
                proof {
                    lemma_ref_index(self.references@, i as int);
                }
                (self.references[i].1.lexical, self.references[i].1.dense)
            },
            None => (None, None),
        }
    }

    /// The dense variants that hit `reference`, if it is a candidate.
    pub fn dense_variant_set(&self, reference: &CognitiveRef) -> (variants: Option<&Vec<String>>)
        requires
            self.wf(),
        ensures
            match variants {
                Some(v) => self.view().contains_key(reference@) && string_set(v@)
                    == self.view()[reference@].dense_variants && strings_distinct(v@),
                None => !self.view().contains_key(reference@),
            },
    {
        match self.find(reference) {
            Some(i) => {
                proof {
                    lemma_ref_index(self.references@, i as int);
                }
                Some(&self.references[i].1.dense_variants)
            },
            None => None,
        }
    }
}

/// A dense hit, under any variant name, never records or changes a lexical rank:
/// only the lexical lane claims the lexical family.
pub proof fn dense_hits_never_claim_lexical(
    m: Map<RefView, LaneView>,
    r: RefView,
    rank: usize,
    variant: Seq<char>,
    other: RefView,
)
    ensures
        lane_of(spec_add_dense(m, r, rank, variant), other).lexical == lane_of(m, other).lexical,
        spec_add_dense(m, r, rank, variant)[r].dense_variants.contains(variant),
{
}

/// A candidate keeps the best rank any lane reported: further hits never worsen a rank.
pub proof fn ranks_only_improve(m: Map<RefView, LaneView>, r: RefView, rank: usize, variant: Seq<char>)
    ensures
        spec_add_lexical(m, r, rank)[r].lexical matches Some(best) && best <= rank && (lane_of(
            m,
            r,
        ).lexical matches Some(prior) ==> best <= prior),
        spec_add_dense(m, r, rank, variant)[r].dense matches Some(best) && best <= rank && (lane_of(
            m,
            r,
        ).dense matches Some(prior) ==> best <= prior),
{
}

/// Marking a target as exact is permanent: no later lane report clears it.
pub proof fn exact_marks_persist(
    m: Map<RefView, LaneView>,
    r: RefView,
    s: RefView,
    rank: usize,
    text: Seq<char>,
)
    requires
        lane_of(m, r).exact,
    ensures
        lane_of(spec_add_lexical(m, s, rank), r).exact,
        lane_of(spec_add_dense(m, s, rank, text), r).exact,
        lane_of(spec_add_posting(m, s, text), r).exact,
        lane_of(spec_mark_runtime(m, s), r).exact,
{
}

} // verus!
