//! Exact postings: for each exact key, the serving identifiers that carry it, and
//! for each serving identifier, the cognitive references it stands for.
use vstd::prelude::*;
use std::collections::HashMap;
use roaring::RoaringBitmap;
use crate::bitmap::{bitmap_values, bitmap_new, bitmap_insert, bitmap_sorted_values, strictly_ascending};
use crate::refs::{CognitiveRef, RefView, ref_views, contains_ref, duplicate_all};
use crate::text::str_eq;

verus! {

broadcast use vstd::std_specs::hash::group_hash_axioms;

/// Exact-match postings of a serving generation.
pub struct ExactPostings {
    postings: Vec<(String, RoaringBitmap)>,
    references: HashMap<u32, Vec<CognitiveRef>>,
}

/// Whether some entry of `entries` has key `key`.
pub open spec fn has_key(entries: Seq<(String, RoaringBitmap)>, key: Seq<char>) -> bool {
    exists|i: int| 0 <= i < entries.len() && #[trigger] entries[i].0@ == key
}

/// The position of the entry with key `key`.
pub open spec fn key_index(entries: Seq<(String, RoaringBitmap)>, key: Seq<char>) -> int {
    choose|i: int| 0 <= i < entries.len() && #[trigger] entries[i].0@ == key
}

/// The postings as a map from key to the set of serving identifiers carrying it.
pub open spec fn postings_map(entries: Seq<(String, RoaringBitmap)>) -> Map<Seq<char>, Set<u32>> {
    Map::new(
        |k: Seq<char>| has_key(entries, k),
        |k: Seq<char>| bitmap_values(entries[key_index(entries, k)].1),
    )
}

/// No two entries share a key.
pub open spec fn keys_unique(entries: Seq<(String, RoaringBitmap)>) -> bool {
    forall|i: int, j: int|
        0 <= i < j < entries.len() ==> #[trigger] entries[i].0@ != #[trigger] entries[j].0@
}

/// No reference occurs twice in a list.
pub open spec fn no_duplicate_refs(refs: Seq<RefView>) -> bool {
    forall|i: int, j: int| 0 <= i < j < refs.len() ==> #[trigger] refs[i] != #[trigger] refs[j]
}

/// The set of serving identifiers posted under `key`; empty when the key is unknown.
pub open spec fn posted_under(postings: Map<Seq<char>, Set<u32>>, key: Seq<char>) -> Set<u32> {
    if postings.contains_key(key) {
        postings[key]
    } else {
        Set::empty()
    }
}

/// The postings after posting `id` under `key`.
pub open spec fn spec_post(postings: Map<Seq<char>, Set<u32>>, key: Seq<char>, id: u32) -> Map<
    Seq<char>,
    Set<u32>,
> {
    postings.insert(key, posted_under(postings, key).insert(id))
}

/// The references recorded for `id`; empty when none are.
pub open spec fn refs_of(refs: Map<u32, Seq<RefView>>, id: u32) -> Seq<RefView> {
    if refs.contains_key(id) {
        refs[id]
    } else {
        Seq::empty()
    }
}

/// The reference lists after recording `r` for `id`, unless already recorded.
pub open spec fn spec_record(refs: Map<u32, Seq<RefView>>, id: u32, r: RefView) -> Map<
    u32,
    Seq<RefView>,
> {
    if refs_of(refs, id).contains(r) {
        refs.insert(id, refs_of(refs, id))
    } else {
        refs.insert(id, refs_of(refs, id).push(r))
    }
}

/// The references of the identifiers `ids`, in the order of `ids`.
pub open spec fn gather(ids: Seq<u32>, refs: Map<u32, Seq<RefView>>) -> Seq<RefView>
    decreases ids.len(),
{
    if ids.len() == 0 {
        Seq::empty()
    } else {
        gather(ids.drop_last(), refs) + refs_of(refs, ids.last())
    }
}

/// The postings after posting `id` under each key of `entries`, in order.
pub open spec fn post_keys(postings: Map<Seq<char>, Set<u32>>, entries: Seq<(Seq<char>, RefView)>, id: u32) -> Map<
    Seq<char>,
    Set<u32>,
>
    decreases entries.len(),
{
    if entries.len() == 0 {
        postings
    } else {
        spec_post(post_keys(postings, entries.drop_last(), id), entries.last().0, id)
    }
}

/// The recorded references after recording each reference of `entries` for `id`,
/// in order.
pub open spec fn record_refs(refs: Map<u32, Seq<RefView>>, entries: Seq<(Seq<char>, RefView)>, id: u32) -> Map<
    u32,
    Seq<RefView>,
>
    decreases entries.len(),
{
    if entries.len() == 0 {
        refs
    } else {
        spec_record(record_refs(refs, entries.drop_last(), id), id, entries.last().1)
    }
}

/// The key and reference of each entry.
pub open spec fn entry_views(entries: Seq<(String, CognitiveRef)>) -> Seq<(Seq<char>, RefView)> {
    entries.map_values(|e: (String, CognitiveRef)| (e.0@, e.1@))
}

/// The identifiers of `ids`, ascending and each once.
pub open spec fn sorted_ids(ids: Set<u32>) -> Seq<u32> {
    choose|listing: Seq<u32>| strictly_ascending(listing) && listing.to_set() == ids
}

/// The references of the identifiers posted under `key`, identifiers taken in
/// ascending order.
pub open spec fn key_references(
    postings: Map<Seq<char>, Set<u32>>,
    refs: Map<u32, Seq<RefView>>,
    key: Seq<char>,
) -> Seq<RefView> {
    gather(sorted_ids(posted_under(postings, key)), refs)
}

/// A set of identifiers has exactly one ascending listing.
pub proof fn ascending_listing_is_unique(a: Seq<u32>, b: Seq<u32>)
    requires
        strictly_ascending(a),
        strictly_ascending(b),
        a.to_set() == b.to_set(),
    ensures
        a == b,
    decreases a.len(),
{
    if a.len() == 0 {
        if b.len() > 0 {
            assert(b.to_set().contains(b[0]));
            assert(!a.contains(b[0]));
        }
        assert(a =~= b);
    } else {
        assert(a.to_set().contains(a[0]));
        assert(b.contains(a[0]));
        let j = choose|j: int| 0 <= j < b.len() && b[j] == a[0];
        assert(b.to_set().contains(b[0]));
        assert(a.contains(b[0]));
        let i = choose|i: int| 0 <= i < a.len() && a[i] == b[0];
        if j > 0 {
            assert(b[0] < b[j]);
        }
        if i > 0 {
            assert(a[0] < a[i]);
        }
        assert(a[0] == b[0]);
        let a1 = a.drop_first();
        let b1 = b.drop_first();
        assert forall|x: u32| a1.to_set().contains(x) <==> b1.to_set().contains(x) by {
            if a1.contains(x) {
                let k = choose|k: int| 0 <= k < a1.len() && a1[k] == x;
                assert(a[k + 1] == x && a[0] < a[k + 1]);
                assert(a.contains(x));
                assert(a.to_set().contains(x));
                assert(b.to_set().contains(x));
                assert(b.contains(x));
                let m = choose|m: int| 0 <= m < b.len() && b[m] == x;
                assert(m != 0);
                assert(b1[m - 1] == x);
            }
            if b1.contains(x) {
                let k = choose|k: int| 0 <= k < b1.len() && b1[k] == x;
                assert(b[k + 1] == x && b[0] < b[k + 1]);
                assert(b.contains(x));
                assert(b.to_set().contains(x));
                assert(a.to_set().contains(x));
                assert(a.contains(x));
                let m = choose|m: int| 0 <= m < a.len() && a[m] == x;
                assert(m != 0);
                assert(a1[m - 1] == x);
            }
        }
        assert(a1.to_set() =~= b1.to_set());
        ascending_listing_is_unique(a1, b1);
        assert(a.len() == b.len());
        assert forall|k: int| 0 <= k < a.len() implies a[k] == b[k] by {
            if k > 0 {
                assert(a[k] == a1[k - 1]);
                assert(b[k] == b1[k - 1]);
            }
        }
        assert(a =~= b);
    }
}

proof fn lemma_key_index(entries: Seq<(String, RoaringBitmap)>, i: int)
    requires
        keys_unique(entries),
        0 <= i < entries.len(),
    ensures
        has_key(entries, entries[i].0@),
        key_index(entries, entries[i].0@) == i,
{
    let k = entries[i].0@;
    assert(has_key(entries, k));
    let j = key_index(entries, k);
    if j != i {
        if j < i {
            assert(entries[j].0@ != entries[i].0@);
        } else {
            assert(entries[i].0@ != entries[j].0@);
        }
    }
}

impl Default for ExactPostings {
    /// Empty postings.
    fn default() -> (postings: ExactPostings)
        ensures
            postings.wf(),
            postings.postings_view() == Map::<Seq<char>, Set<u32>>::empty(),
            postings.references_view() == Map::<u32, Seq<RefView>>::empty(),
    {
        let p = ExactPostings { postings: Vec::new(), references: HashMap::new() };
        assert(p.postings_view() =~= Map::<Seq<char>, Set<u32>>::empty());
        assert(p.references_view() =~= Map::<u32, Seq<RefView>>::empty());
        p
    }
}

impl ExactPostings {
    /// The postings, key by key.
    pub closed spec fn postings_view(&self) -> Map<Seq<char>, Set<u32>> {
        postings_map(self.postings@)
    }

    /// The references recorded for each serving identifier.
    pub closed spec fn references_view(&self) -> Map<u32, Seq<RefView>> {
        self.references@.map_values(|v: Vec<CognitiveRef>| ref_views(v@))
    }

    /// Internal consistency: keys are unique and no reference is recorded twice
    /// for one identifier.
    pub closed spec fn wf(&self) -> bool {
        &&& keys_unique(self.postings@)
        &&& forall|id: u32| #[trigger]
            self.references@.contains_key(id) ==> no_duplicate_refs(ref_views(self.references@[id]@))
    }

    fn find(&self, key: &str) -> (index: Option<usize>)
        requires
            self.wf(),
        ensures
            match index {
                Some(i) => i < self.postings@.len() && self.postings@[i as int].0@ == key@,
                None => !has_key(self.postings@, key@),
            },
    {
        let mut i: usize = 0;
        while i < self.postings.len()
            invariant
                i <= self.postings@.len(),
                forall|j: int| 0 <= j < i ==> #[trigger] self.postings@[j].0@ != key@,
            decreases self.postings@.len() - i,
        {
            if str_eq(self.postings[i].0.as_str(), key) {
                return Some(i);
            }
            i = i + 1;
        }
        None
    }

    /// Posts serving identifier `serving_id` under `key`.
    pub fn insert(&mut self, key: &str, serving_id: u32)
        requires
            old(self).wf(),
        ensures
            final(self).wf(),
            final(self).postings_view() == spec_post(old(self).postings_view(), key@, serving_id),
            final(self).references_view() == old(self).references_view(),
    {
        let ghost old_entries = self.postings@;
        proof {
            assert(self.postings_view() == postings_map(old_entries));
        }
        match self.find(key) {
            Some(i) => {
                let (k, mut bitmap) = self.postings.remove(i);
                bitmap_insert(&mut bitmap, serving_id);
                self.postings.insert(i, (k, bitmap));
                proof {
                    let new_entries = self.postings@;
                    assert(new_entries == old_entries.update(i as int, new_entries[i as int]));
                    assert(keys_unique(new_entries));
                    lemma_key_index(old_entries, i as int);
                    assert forall|k2: Seq<char>| #[trigger] has_key(new_entries, k2) == has_key(old_entries, k2) by {
                        if has_key(new_entries, k2) {
                            let j = choose|j: int| 0 <= j < new_entries.len() && #[trigger] new_entries[j].0@ == k2;
                            assert(old_entries[j].0@ == k2);
                        }
                        if has_key(old_entries, k2) {
                            let j = choose|j: int| 0 <= j < old_entries.len() && #[trigger] old_entries[j].0@ == k2;
                            assert(new_entries[j].0@ == k2);
                        }
                    }
                    assert forall|k2: Seq<char>| has_key(new_entries, k2) implies #[trigger] postings_map(new_entries)[k2]
                        == spec_post(postings_map(old_entries), key@, serving_id)[k2] by {
                        let j = choose|j: int| 0 <= j < new_entries.len() && #[trigger] new_entries[j].0@ == k2;
                        lemma_key_index(new_entries, j);
                        lemma_key_index(old_entries, j);
                    }
                    assert(postings_map(new_entries) =~= spec_post(postings_map(old_entries), key@, serving_id));
                }
            },
            None => {
                let mut bitmap = bitmap_new();
                bitmap_insert(&mut bitmap, serving_id);
                let owned = key.to_owned();
                self.postings.push((owned, bitmap));
                proof {
                    let new_entries = self.postings@;
                    let n = old_entries.len() as int;
                    assert(new_entries == old_entries.push(new_entries[n]));
                    assert(keys_unique(new_entries));
                    lemma_key_index(new_entries, n);
                    assert forall|k2: Seq<char>| #[trigger] has_key(new_entries, k2) == (has_key(old_entries, k2) || k2 == key@) by {
                        if has_key(new_entries, k2) {
                            let j = choose|j: int| 0 <= j < new_entries.len() && #[trigger] new_entries[j].0@ == k2;
                            if j < n {
                                assert(old_entries[j].0@ == k2);
                            }
                        }
                        if has_key(old_entries, k2) {
                            let j = choose|j: int| 0 <= j < old_entries.len() && #[trigger] old_entries[j].0@ == k2;
                            assert(new_entries[j].0@ == k2);
                        }
                    }
                    assert forall|k2: Seq<char>| has_key(new_entries, k2) implies #[trigger] postings_map(new_entries)[k2]
                        == spec_post(postings_map(old_entries), key@, serving_id)[k2] by {
                        let j = choose|j: int| 0 <= j < new_entries.len() && #[trigger] new_entries[j].0@ == k2;
                        lemma_key_index(new_entries, j);
                        if j < n {
                            lemma_key_index(old_entries, j);
                        }
                    }
                    assert(postings_map(new_entries) =~= spec_post(postings_map(old_entries), key@, serving_id));
                }
            },
        }
    }

    /// Posts `serving_id` under `key` and records that it stands for `reference`,
    /// unless that reference is already recorded for it.
    pub fn insert_reference(&mut self, key: &str, serving_id: u32, reference: CognitiveRef)
        requires
            old(self).wf(),
        ensures
            final(self).wf(),
            final(self).postings_view() == spec_post(old(self).postings_view(), key@, serving_id),
            final(self).references_view() == spec_record(
                old(self).references_view(),
                serving_id,
                reference@,
            ),
    {
        self.insert(key, serving_id);
        let ghost before = self.references_view();
        let mut list = match self.references.remove(&serving_id) {
            Some(v) => v,
            None => Vec::new(),
        };
        proof {
            assert(ref_views(list@) == refs_of(before, serving_id));
        }
        let present = contains_ref(list.as_slice(), &reference);
        if !present {
            let ghost prior = list@;
            list.push(reference);
            proof {
                assert(ref_views(list@) == ref_views(prior).push(list@[prior.len() as int]@));
            }
        }
        self.references.insert(serving_id, list);
        proof {
            assert(self.references_view() =~= spec_record(before, serving_id, reference@));
        }
    }

    /// Posts serving identifier `serving_id` under each key of `entries` and records
    /// the entry's reference for it, in order.
    pub fn insert_references(&mut self, entries: &[(String, CognitiveRef)], serving_id: u32)
        requires
            old(self).wf(),
        ensures
            final(self).wf(),
            final(self).postings_view() == post_keys(old(self).postings_view(), entry_views(entries@), serving_id),
            final(self).references_view() == record_refs(
                old(self).references_view(),
                entry_views(entries@),
                serving_id,
            ),
    {
        let ghost p0 = self.postings_view();
        let ghost r0 = self.references_view();
        let mut i: usize = 0;
        while i < entries.len()
            invariant
                i <= entries@.len(),
                self.wf(),
                self.postings_view() == post_keys(p0, entry_views(entries@).take(i as int), serving_id),
                self.references_view() == record_refs(r0, entry_views(entries@).take(i as int), serving_id),
            decreases entries@.len() - i,
        {
            let reference = entries[i].1.duplicate();
            self.insert_reference(entries[i].0.as_str(), serving_id, reference);
            proof {
                let views = entry_views(entries@);
                assert(views.take(i + 1).drop_last() =~= views.take(i as int));
                assert(views.take(i + 1).last() == (entries@[i as int].0@, entries@[i as int].1@));
            }
            i = i + 1;
        }
        proof {
            assert(entry_views(entries@).take(entries@.len() as int) =~= entry_views(entries@));
        }
    }

    /// The identifiers posted under `key`, if the key is known.
    pub fn get(&self, key: &str) -> (bitmap: Option<&RoaringBitmap>)
        requires
            self.wf(),
        ensures
            match bitmap {
                Some(b) => self.postings_view().contains_key(key@) && bitmap_values(*b)
                    == self.postings_view()[key@],
                None => !self.postings_view().contains_key(key@),
            },
    {
        match self.find(key) {
            Some(i) => {
                proof {
                    lemma_key_index(self.postings@, i as int);
                }
                Some(&self.postings[i].1)
            },
            None => None,
        }
    }

    /// Every known key, once.
    pub fn keys(&self) -> (keys: Vec<String>)
        requires
            self.wf(),
        ensures
            forall|i: int, j: int| 0 <= i < j < keys@.len() ==> #[trigger] keys@[i]@ != #[trigger] keys@[j]@,
            forall|k: Seq<char>| self.postings_view().contains_key(k) <==> exists|i: int|
                0 <= i < keys@.len() && #[trigger] keys@[i]@ == k,
    {
        let mut keys: Vec<String> = Vec::new();
        let mut i: usize = 0;
        while i < self.postings.len()
            invariant
                i <= self.postings@.len(),
                keys_unique(self.postings@),
                keys@.len() == i,
                forall|j: int| 0 <= j < i ==> #[trigger] keys@[j]@ == self.postings@[j].0@,
            decreases self.postings@.len() - i,
        {
            keys.push(self.postings[i].0.clone());
            i = i + 1;
        }
        proof {
            assert forall|k: Seq<char>| self.postings_view().contains_key(k) implies exists|i: int|
                0 <= i < keys@.len() && #[trigger] keys@[i]@ == k by {
                let j = choose|j: int| 0 <= j < self.postings@.len() && #[trigger] self.postings@[j].0@ == k;
                assert(keys@[j]@ == k);
            }
            assert forall|k: Seq<char>| (exists|i: int| 0 <= i < keys@.len() && #[trigger] keys@[i]@ == k)
                implies self.postings_view().contains_key(k) by {
                let j = choose|j: int| 0 <= j < keys@.len() && #[trigger] keys@[j]@ == k;
                assert(self.postings@[j].0@ == k);
            }
        }
        keys
    }

    /// The references of every identifier posted under `key`, identifiers taken in
    /// ascending order; empty when the key is unknown.
    pub fn references(&self, key: &str) -> (refs: Vec<CognitiveRef>)
        requires
            self.wf(),
        ensures
            ref_views(refs@) == key_references(self.postings_view(), self.references_view(), key@),
    {
        let mut refs: Vec<CognitiveRef> = Vec::new();
        match self.find(key) {
            None => {
                proof {
                    let ids = Seq::<u32>::empty();
                    assert(ids.to_set() =~= Set::<u32>::empty());
                    let listing = sorted_ids(posted_under(self.postings_view(), key@));
                    assert(strictly_ascending(listing) && listing.to_set() == posted_under(self.postings_view(), key@));
                    ascending_listing_is_unique(ids, listing);
                    assert(ref_views(refs@) =~= gather(ids, self.references_view()));
                }
                refs
            },
            Some(index) => {
                proof {
                    lemma_key_index(self.postings@, index as int);
                }
                let ids = bitmap_sorted_values(&self.postings[index].1);
                let ghost view = self.references_view();
                let mut i: usize = 0;
                while i < ids.len()
                    invariant
                        i <= ids@.len(),
                        view == self.references_view(),
                        ref_views(refs@) == gather(ids@.take(i as int), view),
                    decreases ids@.len() - i,
                {
                    let id = ids[i];
                    let ghost prior = refs@;
                    match self.references.get(&id) {
                        Some(list) => {
                            let copies = duplicate_all(list.as_slice());
                            let mut j: usize = 0;
                            while j < copies.len()
                                invariant
                                    j <= copies@.len(),
                                    ref_views(refs@) == ref_views(prior) + ref_views(copies@).take(j as int),
                                decreases copies@.len() - j,
                            {
                                let c = copies[j].duplicate();
                                proof {
                                    assert(ref_views(copies@).take(j + 1) == ref_views(copies@).take(j as int).push(copies@[j as int]@));
                                    assert(ref_views(refs@.push(c)) == ref_views(refs@).push(c@));
                                }
                                refs.push(c);
                                j = j + 1;
                            }
                            proof {
                                assert(ref_views(copies@).take(copies@.len() as int) == ref_views(copies@));
                                assert(refs_of(view, id) == ref_views(copies@));
                            }
                        },
                        None => {
                            proof {
                                assert(refs_of(view, id) == Seq::<RefView>::empty());
                                assert(ref_views(refs@) == ref_views(prior) + refs_of(view, id));
                            }
                        },
                    }
                    proof {
                        assert(ids@.take(i + 1).drop_last() == ids@.take(i as int));
                        assert(ids@.take(i + 1).last() == id);
                    }
                    i = i + 1;
                }
                proof {
                    assert(ids@.take(ids@.len() as int) == ids@);
                    let listing = sorted_ids(posted_under(self.postings_view(), key@));
                    assert(strictly_ascending(listing) && listing.to_set() == posted_under(self.postings_view(), key@));
                    ascending_listing_is_unique(ids@, listing);
                }
                refs
            },
        }
    }
}

/// What is posted under a key can be read back under that key, and posting under
/// one key leaves every other key as it was.
pub proof fn posting_is_visible_and_local(
    postings: Map<Seq<char>, Set<u32>>,
    key: Seq<char>,
    other: Seq<char>,
    id: u32,
)
    requires
        other != key,
    ensures
        posted_under(spec_post(postings, key, id), key).contains(id),
        posted_under(spec_post(postings, key, id), key) == posted_under(postings, key).insert(id),
        posted_under(spec_post(postings, other, id), key) == posted_under(postings, key),
{
}

/// Posting the same identifier under the same key twice is the same as posting it once.
pub proof fn posting_is_idempotent(postings: Map<Seq<char>, Set<u32>>, key: Seq<char>, id: u32)
    ensures
        spec_post(spec_post(postings, key, id), key, id) == spec_post(postings, key, id),
{
    let once = posted_under(postings, key).insert(id);
    assert(once.insert(id) =~= once);
    assert(spec_post(spec_post(postings, key, id), key, id) =~= spec_post(postings, key, id));
}

/// Recording a reference makes it visible for its identifier exactly once, keeps
/// the earlier references in order, and never introduces a duplicate.
pub proof fn recorded_references_stay_unique(refs: Map<u32, Seq<RefView>>, id: u32, r: RefView)
    requires
        no_duplicate_refs(refs_of(refs, id)),
    ensures
        refs_of(spec_record(refs, id, r), id).contains(r),
        no_duplicate_refs(refs_of(spec_record(refs, id, r), id)),
        refs_of(spec_record(refs, id, r), id).take(refs_of(refs, id).len() as int) == refs_of(
            refs,
            id,
        ),
{
    let before = refs_of(refs, id);
    if !before.contains(r) {
        let after = before.push(r);
        assert(after[before.len() as int] == r);
        assert(after.take(before.len() as int) =~= before);
    } else {
        assert(before.take(before.len() as int) =~= before);
    }
}

/// After a memory's entries are posted, its serving identifier is found under every
/// one of their keys, and keys it was not posted under are unchanged.
pub proof fn posted_entries_are_visible(
    postings: Map<Seq<char>, Set<u32>>,
    entries: Seq<(Seq<char>, RefView)>,
    id: u32,
    key: Seq<char>,
)
    ensures
        (exists|i: int| 0 <= i < entries.len() && #[trigger] entries[i].0 == key) ==> posted_under(
            post_keys(postings, entries, id),
            key,
        ).contains(id),
        (forall|i: int| 0 <= i < entries.len() ==> #[trigger] entries[i].0 != key) ==> posted_under(
            post_keys(postings, entries, id),
            key,
        ) == posted_under(postings, key),
    decreases entries.len(),
{
    if entries.len() > 0 {
        let rest = entries.drop_last();
        posted_entries_are_visible(postings, rest, id, key);
        if exists|i: int| 0 <= i < entries.len() && #[trigger] entries[i].0 == key {
            let i = choose|i: int| 0 <= i < entries.len() && #[trigger] entries[i].0 == key;
            if i < entries.len() - 1 {
                assert(rest[i].0 == key);
            }
        }
        if forall|i: int| 0 <= i < entries.len() ==> #[trigger] entries[i].0 != key {
            assert forall|i: int| 0 <= i < rest.len() implies #[trigger] rest[i].0 != key by {
                assert(entries[i].0 != key);
            }
            assert(entries[entries.len() - 1].0 != key);
        }
    }
}

} // verus!
