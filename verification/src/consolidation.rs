//! Merging the support of the memories that consolidation combines into one.
use vstd::prelude::*;
use std::collections::BTreeSet;
use vstd::std_specs::btree::{increasing_seq, spec_btree_keys_iter};
use vstd::std_specs::iter::IteratorSpec;
use vstd::laws_cmp::{obeys_cmp, obeys_cmp_ord, obeys_cmp_partial_ord, obeys_partial_cmp_spec_properties};
use vstd::laws_eq::obeys_eq_spec_properties;
use vstd::std_specs::cmp::OrdSpec;

verus! {

broadcast use {vstd::laws_cmp::group_laws_cmp, vstd::std_specs::btree::group_btree_axioms};

/// Whether identifiers are strictly ascending (sorted, each once).
pub open spec fn ascending_ids(ids: Seq<u128>) -> bool {
    forall|i: int, j: int| 0 <= i < j < ids.len() ==> #[trigger] ids[i] < #[trigger] ids[j]
}

/// The references that ground one memory's content.
pub struct SupportRefs {
    pub source_refs: Vec<u128>,
    pub artifact_refs: Vec<u128>,
    pub derivation_refs: Vec<u128>,
    pub entities: Vec<u128>,
}

/// One of the lists of a memory's support.
#[derive(Debug, Clone, Copy, PartialEq, Eq, Structural)]
pub enum SupportList {
    Sources,
    Artifacts,
    Derivations,
    Entities,
}

/// The identifiers `support` lists in `which`.
pub open spec fn support_list(support: SupportRefs, which: SupportList) -> Seq<u128> {
    match which {
        SupportList::Sources => support.source_refs@,
        SupportList::Artifacts => support.artifact_refs@,
        SupportList::Derivations => support.derivation_refs@,
        SupportList::Entities => support.entities@,
    }
}

/// Whether some memory of `group` lists `id` in `which`.
pub open spec fn listed_in_group(group: Seq<SupportRefs>, which: SupportList, id: u128) -> bool {
    exists|g: int, k: int|
        0 <= g < group.len() && 0 <= k < support_list(group[g], which).len() && #[trigger] support_list(
            group[g],
            which,
        )[k] == id
}

/// Whether `id` occurs among the first `k` entries of memory `g`'s list `which`, or in
/// that list of an earlier memory of `group`.
spec fn listed_before(group: Seq<SupportRefs>, which: SupportList, g: int, k: int, id: u128) -> bool {
    exists|g2: int, k2: int|
        0 <= g2 <= g && 0 <= k2 < support_list(group[g2], which).len() && (g2 < g || k2 < k)
            && #[trigger] support_list(group[g2], which)[k2] == id
}

fn list_of(support: &SupportRefs, which: SupportList) -> (list: &Vec<u128>)
    ensures
        list@ == support_list(*support, which),
{
    match which {
        SupportList::Sources => &support.source_refs,
        SupportList::Artifacts => &support.artifact_refs,
        SupportList::Derivations => &support.derivation_refs,
        SupportList::Entities => &support.entities,
    }
}

/// References to identifiers are ordered as the identifiers are.
proof fn lemma_id_refs_are_ordered()
    ensures
        obeys_cmp::<&u128>(),
{
    reveal(obeys_eq_spec_properties);
    reveal(obeys_partial_cmp_spec_properties);
    reveal(obeys_cmp_partial_ord);
    reveal(obeys_cmp_ord);
}

/// The members of `set` in ascending order.
pub(crate) fn ascending_listing(set: &BTreeSet<u128>) -> (ids: Vec<u128>)
    ensures
        ascending_ids(ids@),
        ids@.to_set() == set@,
{
    let mut ids: Vec<u128> = Vec::new();
    for x in iter: set.iter()
        invariant
            ids@.len() == iter.index(),
            forall|i: int| 0 <= i < ids@.len() ==> ids@[i] == *iter.seq()[i],
    {
        ids.push(*x);
    }
    proof {
        let keys = spec_btree_keys_iter(set).remaining();
        assert(ids@.len() == keys.len());
        assert(ids@ =~= keys.unref());
        assert(increasing_seq(keys));
        lemma_id_refs_are_ordered();
        assert forall|i: int, j: int| 0 <= i < j < ids@.len() implies #[trigger] ids@[i] < #[trigger] ids@[j] by {
            assert(OrdSpec::cmp_spec(&keys[i], &keys[j]) is Less);
        }
    }
    ids
}

/// Every identifier that some memory of `group` lists in `which`, ascending and once.
pub fn merged_ids(group: &[SupportRefs], which: SupportList) -> (ids: Vec<u128>)
    ensures
        ascending_ids(ids@),
        forall|x: u128| #[trigger] ids@.contains(x) <==> listed_in_group(group@, which, x),
{
    let mut set: BTreeSet<u128> = BTreeSet::new();
    let mut g: usize = 0;
    while g < group.len()
        invariant
            g <= group@.len(),
            forall|x: u128| #[trigger] set@.contains(x) <==> listed_before(group@, which, g as int, 0, x),
        decreases group@.len() - g,
    {
        let list = list_of(&group[g], which);
        let mut k: usize = 0;
        while k < list.len()
            invariant
                g < group@.len(),
                k <= list@.len(),
                list@ == support_list(group@[g as int], which),
                    forall|x: u128| #[trigger] set@.contains(x) <==> listed_before(group@, which, g as int, k as int, x),
            decreases list@.len() - k,
        {
            let ghost prior = set@;
            set.insert(list[k]);
            proof {
                assert forall|x: u128| #[trigger] set@.contains(x) <==> listed_before(
                    group@,
                    which,
                    g as int,
                    k + 1,
                    x,
                ) by {
                    if listed_before(group@, which, g as int, k + 1, x) {
                        let (g2, k2) = choose|g2: int, k2: int|
                            0 <= g2 <= g && 0 <= k2 < support_list(group@[g2], which).len() && (g2 < g
                                || k2 < k + 1) && #[trigger] support_list(group@[g2], which)[k2] == x;
                        if g2 == g && k2 == k {
                            assert(x == list@[k as int]);
                        } else {
                            assert(listed_before(group@, which, g as int, k as int, x));
                            assert(prior.contains(x));
                        }
                    }
                    if set@.contains(x) {
                        if prior.contains(x) {
                            assert(listed_before(group@, which, g as int, k as int, x));
                            let (g2, k2) = choose|g2: int, k2: int|
                                0 <= g2 <= g && 0 <= k2 < support_list(group@[g2], which).len() && (g2
                                    < g || k2 < k) && #[trigger] support_list(group@[g2], which)[k2] == x;
                            assert(support_list(group@[g2], which)[k2] == x);
                        } else {
                            assert(support_list(group@[g as int], which)[k as int] == x);
                        }
                    }
                }
            }
            k = k + 1;
        }
        proof {
            assert forall|x: u128| #[trigger] set@.contains(x) <==> listed_before(
                group@,
                which,
                g + 1,
                0,
                x,
            ) by {
                if listed_before(group@, which, g + 1, 0, x) {
                    let (g2, k2) = choose|g2: int, k2: int|
                        0 <= g2 <= g + 1 && 0 <= k2 < support_list(group@[g2], which).len() && (g2 < g
                            + 1 || k2 < 0) && #[trigger] support_list(group@[g2], which)[k2] == x;
                    assert(support_list(group@[g2], which)[k2] == x);
                    assert(listed_before(group@, which, g as int, list@.len() as int, x));
                }
                if listed_before(group@, which, g as int, list@.len() as int, x) {
                    let (g2, k2) = choose|g2: int, k2: int|
                        0 <= g2 <= g && 0 <= k2 < support_list(group@[g2], which).len() && (g2 < g
                            || k2 < list@.len()) && #[trigger] support_list(group@[g2], which)[k2] == x;
                    assert(support_list(group@[g2], which)[k2] == x);
                }
            }
        }
        g = g + 1;
    }
    proof {
        assert forall|x: u128| #[trigger] set@.contains(x) <==> listed_in_group(group@, which, x) by {
            if listed_in_group(group@, which, x) {
                let (g2, k2) = choose|g2: int, k2: int|
                    0 <= g2 < group@.len() && 0 <= k2 < support_list(group@[g2], which).len()
                        && #[trigger] support_list(group@[g2], which)[k2] == x;
                assert(support_list(group@[g2], which)[k2] == x);
            }
            if listed_before(group@, which, g as int, 0, x) {
                let (g2, k2) = choose|g2: int, k2: int|
                    0 <= g2 <= g && 0 <= k2 < support_list(group@[g2], which).len() && (g2 < g || k2 < 0)
                        && #[trigger] support_list(group@[g2], which)[k2] == x;
                assert(support_list(group@[g2], which)[k2] == x);
            }
        }
    }
    let ids = ascending_listing(&set);
    assert forall|x: u128| #[trigger] ids@.contains(x) <==> listed_in_group(group@, which, x) by {
        assert(ids@.contains(x) <==> ids@.to_set().contains(x));
    }
    ids
}

/// The support of a memory consolidated from `group`: for each list, every
/// identifier some member lists, ascending and once.
pub fn merge_support(group: &[SupportRefs]) -> (merged: SupportRefs)
    ensures
        forall|which: SupportList| ascending_ids(#[trigger] support_list(merged, which)),
        forall|which: SupportList, x: u128| #[trigger] support_list(merged, which).contains(x)
            <==> listed_in_group(group@, which, x),
{
    let source_refs = merged_ids(group, SupportList::Sources);
    let artifact_refs = merged_ids(group, SupportList::Artifacts);
    let derivation_refs = merged_ids(group, SupportList::Derivations);
    let entities = merged_ids(group, SupportList::Entities);
    SupportRefs { source_refs, artifact_refs, derivation_refs, entities }
}

} // verus!
