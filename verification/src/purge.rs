//! The decisions of a purge: which scopes may reach a character seed, and which
//! affected memories are deleted rather than regenerated from what is left.
use vstd::prelude::*;
use std::collections::BTreeSet;
use crate::consolidation::{ascending_ids, ascending_listing};
use crate::error::Error;

verus! {

broadcast use vstd::laws_cmp::group_laws_cmp;

/// A repeated operation identity must repeat its subject, kind and request.
pub fn check_operation_replay(subject_matches: bool, kind_matches: bool, request_matches: bool) -> (result: Result<(), Error>)
    ensures
        result is Ok <==> (subject_matches && kind_matches && request_matches),
        result is Err ==> (result matches Err(Error::Conflict(_))),
{
    if !subject_matches || !kind_matches || !request_matches {
        return Err(Error::Conflict("operation identity reused with a different request".to_owned()));
    }
    Ok(())
}

/// A purge narrower than the whole subject may not touch material that a character
/// seed rests on.
pub fn check_purge_scope(whole: bool, seed: bool) -> (result: Result<(), Error>)
    ensures
        result is Ok <==> (whole || !seed),
        result is Err ==> (result matches Err(Error::Conflict(_))),
{
    if !whole && seed {
        return Err(
            Error::Conflict(
                "Character Seed belongs to Subject Core; use subject purge for its retained history".to_owned(),
            ),
        );
    }
    Ok(())
}

/// Whether an affected memory is deleted: the purge takes the whole subject, targets
/// the memory directly, or leaves its current revision no sources.
pub open spec fn spec_purge_deletes(whole: bool, direct: Option<u128>, object: u128, no_remaining_sources: bool) -> bool {
    whole || direct == Some(object) || no_remaining_sources
}

/// Whether an affected memory is deleted rather than regenerated.
pub fn purge_disposition(whole: bool, direct: Option<u128>, object: u128, no_remaining_sources: bool) -> (delete: bool)
    ensures
        delete == spec_purge_deletes(whole, direct, object, no_remaining_sources),
{
    whole || direct == Some(object) || no_remaining_sources
}

/// Whether affected memory `k` of `objects` is deleted.
pub open spec fn deletes_at(whole: bool, direct: Option<u128>, objects: Seq<u128>, no_sources: Seq<bool>, k: int) -> bool {
    spec_purge_deletes(whole, direct, objects[k], no_sources[k])
}

/// The affected memories that are regenerated, in order, among the first `n`.
pub open spec fn regenerated_among(whole: bool, direct: Option<u128>, objects: Seq<u128>, no_sources: Seq<bool>, n: int) -> Seq<u128>
    decreases n,
{
    if n <= 0 {
        Seq::empty()
    } else {
        let before = regenerated_among(whole, direct, objects, no_sources, n - 1);
        if deletes_at(whole, direct, objects, no_sources, n - 1) {
            before
        } else {
            before.push(objects[n - 1])
        }
    }
}

/// Splits the memories whose current revisions a purge affects: `objects[k]` has no
/// remaining sources when `no_sources[k]`. Deleted memories come back ascending and
/// once; regenerated ones in the order given.
pub fn split_affected(whole: bool, direct: Option<u128>, objects: &[u128], no_sources: &[bool]) -> (split: (
    Vec<u128>,
    Vec<u128>,
))
    requires
        no_sources@.len() == objects@.len(),
    ensures
        ascending_ids(split.0@),
        forall|x: u128| #[trigger] split.0@.contains(x) <==> exists|k: int|
            0 <= k < objects@.len() && objects@[k] == x && deletes_at(whole, direct, objects@, no_sources@, k),
        split.1@ == regenerated_among(whole, direct, objects@, no_sources@, objects@.len() as int),
{
    let mut deleted: BTreeSet<u128> = BTreeSet::new();
    let mut regenerating: Vec<u128> = Vec::new();
    let mut i: usize = 0;
    while i < objects.len()
        invariant
            no_sources@.len() == objects@.len(),
            i <= objects@.len(),
            forall|x: u128| #[trigger] deleted@.contains(x) <==> exists|k: int|
                0 <= k < i && objects@[k] == x && deletes_at(whole, direct, objects@, no_sources@, k),
            regenerating@ == regenerated_among(whole, direct, objects@, no_sources@, i as int),
        decreases objects@.len() - i,
    {
        let object = objects[i];
        if purge_disposition(whole, direct, object, no_sources[i]) {
            deleted.insert(object);
        } else {
            regenerating.push(object);
        }
        proof {
            assert forall|x: u128| #[trigger] deleted@.contains(x) <==> exists|k: int|
                0 <= k < i + 1 && objects@[k] == x && deletes_at(whole, direct, objects@, no_sources@, k) by {
                if exists|k: int| 0 <= k < i + 1 && objects@[k] == x && deletes_at(whole, direct, objects@, no_sources@, k) {
                    let k = choose|k: int| 0 <= k < i + 1 && objects@[k] == x && deletes_at(whole, direct, objects@, no_sources@, k);
                    if k < i {
                        assert(exists|k2: int| 0 <= k2 < i && objects@[k2] == x && deletes_at(whole, direct, objects@, no_sources@, k2));
                    }
                }
            }
        }
        i = i + 1;
    }
    let listing = ascending_listing(&deleted);
    proof {
        assert forall|x: u128| #[trigger] listing@.contains(x) <==> deleted@.contains(x) by {
            assert(listing@.contains(x) <==> listing@.to_set().contains(x));
        }
    }
    (listing, regenerating)
}

} // verus!
