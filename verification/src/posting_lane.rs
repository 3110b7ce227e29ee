//! The posting lane of a query: the references exactly posted under the query's
//! entity, tag and anchor keys become candidates, within one shared budget.
use vstd::prelude::*;
use crate::candidates::{CandidateAccumulator, LaneView, spec_add_posting};
use crate::postings::{ExactPostings, key_references};
use crate::refs::{CognitiveRef, RefView, ref_views};

verus! {

/// Whether `text` begins with `prefix`.
pub open spec fn has_prefix(text: Seq<char>, prefix: Seq<char>) -> bool {
    prefix.len() <= text.len() && text.take(prefix.len() as int) == prefix
}

/// The lane a posting key feeds: entity keys the entity postings, tag keys the tag
/// postings, and any other key the anchor postings.
pub open spec fn spec_posting_lane(key: Seq<char>) -> Seq<char> {
    if has_prefix(key, "entity:"@) {
        "entity_posting"@
    } else if has_prefix(key, "tag:"@) {
        "tag_posting"@
    } else {
        "anchor_posting"@
    }
}

fn starts_with(text: &str, prefix: &str) -> (starts: bool)
    ensures
        starts == has_prefix(text@, prefix@),
{
    let n = prefix.unicode_len();
    if n > text.unicode_len() {
        return false;
    }
    let mut i: usize = 0;
    while i < n
        invariant
            n == prefix@.len(),
            n <= text@.len(),
            i <= n,
            forall|k: int| 0 <= k < i ==> text@[k] == prefix@[k],
        decreases n - i,
    {
        if text.get_char(i) != prefix.get_char(i) {
            assert(text@.take(n as int)[i as int] != prefix@[i as int]);
            return false;
        }
        i = i + 1;
    }
    assert(text@.take(n as int) =~= prefix@);
    true
}

/// The lane the posting key `key` feeds.
pub fn posting_lane(key: &str) -> (lane: &'static str)
    ensures
        lane@ == spec_posting_lane(key@),
{
    if starts_with(key, "entity:") {
        "entity_posting"
    } else if starts_with(key, "tag:") {
        "tag_posting"
    } else {
        "anchor_posting"
    }
}

/// The hits of the posting lane, in order: for each key, the references posted
/// under it, as many as the budget left allows, each with the key's lane.
pub open spec fn posting_hits(
    keys: Seq<Seq<char>>,
    postings: Map<Seq<char>, Set<u32>>,
    refs: Map<u32, Seq<RefView>>,
    budget: nat,
) -> Seq<(RefView, Seq<char>)>
    decreases keys.len(),
{
    if keys.len() == 0 || budget == 0 {
        Seq::empty()
    } else {
        let found = key_references(postings, refs, keys[0]);
        let count = if found.len() <= budget {
            found.len()
        } else {
            budget
        };
        let lane = spec_posting_lane(keys[0]);
        found.take(count as int).map_values(|r: RefView| (r, lane)) + posting_hits(
            keys.drop_first(),
            postings,
            refs,
            (budget - count) as nat,
        )
    }
}

/// Candidate evidence after each hit is recorded as a posting of its lane.
pub open spec fn add_postings(m: Map<RefView, LaneView>, hits: Seq<(RefView, Seq<char>)>) -> Map<
    RefView,
    LaneView,
> {
    hits.fold_left(m, |acc: Map<RefView, LaneView>, h: (RefView, Seq<char>)| spec_add_posting(acc, h.0, h.1))
}

/// The values of the hits taken.
pub open spec fn hit_views(hits: Seq<(CognitiveRef, &'static str)>) -> Seq<(RefView, Seq<char>)> {
    hits.map_values(|h: (CognitiveRef, &'static str)| (h.0@, h.1@))
}

/// The text of each key.
pub open spec fn key_views(keys: Seq<String>) -> Seq<Seq<char>> {
    keys.map_values(|k: String| k@)
}

/// Records the posting lane's hits for `keys` as candidates, within `budget`
/// references in all, and returns the hits with their lanes.
pub fn collect_posting_hits(
    candidates: &mut CandidateAccumulator,
    postings: &ExactPostings,
    keys: &[String],
    budget: usize,
) -> (taken: Vec<(CognitiveRef, &'static str)>)
    requires
        old(candidates).wf(),
        postings.wf(),
    ensures
        final(candidates).wf(),
        hit_views(taken@) == posting_hits(
            key_views(keys@),
            postings.postings_view(),
            postings.references_view(),
            budget as nat,
        ),
        final(candidates).view() == add_postings(old(candidates).view(), hit_views(taken@)),
{
    let ghost start = candidates.view();
    let ghost kv = key_views(keys@);
    let ghost pv = postings.postings_view();
    let ghost rv = postings.references_view();
    let mut taken: Vec<(CognitiveRef, &'static str)> = Vec::new();
    let mut remaining: usize = budget;
    let mut i: usize = 0;
    proof {
        assert(kv.skip(0) =~= kv);
        assert(hit_views(taken@) =~= Seq::<(RefView, Seq<char>)>::empty());
        assert(hit_views(taken@) + posting_hits(kv, pv, rv, budget as nat) =~= posting_hits(kv, pv, rv, budget as nat));
    }
    while i < keys.len() && remaining > 0
        invariant
            i <= keys@.len(),
            kv == key_views(keys@),
            pv == postings.postings_view(),
            rv == postings.references_view(),
            postings.wf(),
            candidates.wf(),
            hit_views(taken@) + posting_hits(kv.skip(i as int), pv, rv, remaining as nat) == posting_hits(
                kv,
                pv,
                rv,
                budget as nat,
            ),
            candidates.view() == add_postings(start, hit_views(taken@)),
        decreases keys@.len() - i,
    {
        let key = keys[i].as_str();
        let lane = posting_lane(key);
        let found = postings.references(key);
        let count: usize = if found.len() <= remaining {
            found.len()
        } else {
            remaining
        };
        let ghost base = hit_views(taken@);
        let ghost fv = ref_views(found@);
        proof {
            assert(kv.skip(i as int)[0] == keys@[i as int]@);
            assert(kv.skip(i as int).drop_first() =~= kv.skip(i + 1));
        }
        let mut j: usize = 0;
        while j < count
            invariant
                count <= found@.len(),
                j <= count,
                fv == ref_views(found@),
                candidates.wf(),
                hit_views(taken@) == base + fv.take(j as int).map_values(|r: RefView| (r, lane@)),
                candidates.view() == add_postings(start, hit_views(taken@)),
            decreases count - j,
        {
            let hit = found[j].duplicate();
            let ghost before = hit_views(taken@);
            candidates.add_posting(found[j].duplicate(), lane);
            taken.push((hit, lane));
            proof {
                let h = (found@[j as int]@, lane@);
                assert(hit_views(taken@) =~= before.push(h));
                assert(hit_views(taken@).drop_last() =~= before);
                assert(fv.take(j + 1).map_values(|r: RefView| (r, lane@)) =~= fv.take(j as int).map_values(
                    |r: RefView| (r, lane@),
                ).push(h));
            }
            j = j + 1;
        }
        proof {
            let f = |r: RefView| (r, spec_posting_lane(kv.skip(i as int)[0]));
            assert(fv.take(count as int).map_values(|r: RefView| (r, lane@)) =~= fv.take(count as int).map_values(f));
            assert(hit_views(taken@) + posting_hits(kv.skip(i + 1), pv, rv, (remaining - count) as nat) =~= base
                + posting_hits(kv.skip(i as int), pv, rv, remaining as nat));
        }
        remaining = remaining - count;
        i = i + 1;
    }
    proof {
        assert(posting_hits(kv.skip(i as int), pv, rv, remaining as nat) =~= Seq::<(RefView, Seq<char>)>::empty());
        assert(hit_views(taken@) + Seq::<(RefView, Seq<char>)>::empty() =~= hit_views(taken@));
    }
    taken
}

/// The posting lane never yields more candidates than its budget, however many keys
/// and postings there are.
pub proof fn posting_hits_stay_within_budget(
    keys: Seq<Seq<char>>,
    postings: Map<Seq<char>, Set<u32>>,
    refs: Map<u32, Seq<RefView>>,
    budget: nat,
)
    ensures
        posting_hits(keys, postings, refs, budget).len() <= budget,
    decreases keys.len(),
{
    if keys.len() > 0 && budget > 0 {
        let found = key_references(postings, refs, keys[0]);
        let count = if found.len() <= budget {
            found.len()
        } else {
            budget
        };
        posting_hits_stay_within_budget(keys.drop_first(), postings, refs, (budget - count) as nat);
    }
}

} // verus!
