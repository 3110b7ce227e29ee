//! Subject bundles: request and schema checks, object integrity, and the remapping
//! of identifiers when a bundle is imported under a new identity.
use vstd::prelude::*;
use std::collections::HashMap;
use crate::error::Error;
use crate::text::str_eq;
use crate::objects::{blake3_hex, blake3_hex_digest};
use crate::refs::{parse_uuid, parsed_uuid};
use vstd::string::*;

verus! {

broadcast use vstd::std_specs::hash::group_hash_axioms;

/// The bundle layout version this service writes and reads.
pub const BUNDLE_SCHEMA_VERSION: u32 = 2;

/// A request to import a bundle.
#[derive(Debug, Clone, Copy, PartialEq, Eq, Structural)]
pub struct ImportRequest {
    pub api_version: u32,
    pub preserve_identity: bool,
    pub rebuild_projection: bool,
}

/// Accepts exactly the bundle layout version this service reads.
pub fn check_bundle_schema(schema_version: u32) -> (result: Result<(), Error>)
    ensures
        result is Ok <==> schema_version == BUNDLE_SCHEMA_VERSION,
        schema_version != BUNDLE_SCHEMA_VERSION ==> (result matches Err(Error::Invalid(_))),
{
    if schema_version != BUNDLE_SCHEMA_VERSION {
        return Err(Error::Invalid("unsupported subject bundle schema".to_owned()));
    }
    Ok(())
}

/// The refusal of a bundled object whose bytes do not have the digest `hash`.
pub open spec fn hash_mismatch_reason(hash: Seq<char>) -> Seq<char> {
    "bundle object hash mismatch: "@ + hash
}

/// Checks that a bundled object's bytes have the digest the manifest lists for it;
/// a mismatch is refused naming the listed digest.
pub fn check_bundle_object(hash: &str, bytes: &[u8]) -> (result: Result<(), Error>)
    ensures
        result is Ok <==> blake3_hex_digest(bytes@) == hash@,
        blake3_hex_digest(bytes@) != hash@ ==> (result matches Err(Error::Invalid(m)) && m@
            == hash_mismatch_reason(hash@)),
{
    let actual = blake3_hex(bytes);
    if !str_eq(actual.as_str(), hash) {
        let mut reason = "bundle object hash mismatch: ".to_owned();
        reason.append(hash);
        return Err(Error::Invalid(reason));
    }
    Ok(())
}

/// `uuid::Uuid::now_v7`: a fresh time-ordered identifier. Nothing is stated of its
/// value, which depends on the clock and on random bits.
#[verifier::external_body]
fn fresh_id() -> u128 {
    uuid::Uuid::now_v7().as_u128()
}

/// The identifier `id` is mapped to; unknown identifiers map to themselves.
pub open spec fn spec_map_id(map: Map<u128, u128>, id: u128) -> u128 {
    if map.contains_key(id) {
        map[id]
    } else {
        id
    }
}

/// Maps `id` through `map`, keeping identifiers the map does not know.
pub fn map_id(map: &HashMap<u128, u128>, id: u128) -> (mapped: u128)
    ensures
        mapped == spec_map_id(map@, id),
{
    match map.get(&id) {
        Some(v) => *v,
        None => id,
    }
}

/// Whether `ids[i]` is the last occurrence of its identifier in `ids`.
pub open spec fn last_occurrence(ids: Seq<u128>, i: int) -> bool {
    forall|j: int| i < j < ids.len() ==> ids[j] != ids[i]
}

/// The map that gives each identifier of `ids` the value drawn for it in `fresh`; an
/// identifier listed more than once keeps the value drawn at its last occurrence.
pub fn remap_ids_from(ids: &[u128], fresh: &[u128]) -> (map: HashMap<u128, u128>)
    requires
        fresh@.len() == ids@.len(),
    ensures
        map@.dom() == ids@.to_set(),
        forall|i: int| 0 <= i < ids@.len() && last_occurrence(ids@, i) ==> map@[#[trigger] ids@[i]] == fresh@[i],
{
    let mut map: HashMap<u128, u128> = HashMap::new();
    let ghost mut at: Map<u128, int> = Map::empty();
    let mut i: usize = 0;
    while i < ids.len()
        invariant
            fresh@.len() == ids@.len(),
            i <= ids@.len(),
            map@.dom() == ids@.take(i as int).to_set(),
            at.dom() == map@.dom(),
            forall|x: u128| #[trigger] at.contains_key(x) ==> {
                &&& 0 <= at[x] < i
                &&& ids@[at[x]] == x
                &&& map@[x] == fresh@[at[x]]
                &&& forall|j: int| at[x] < j < i ==> ids@[j] != x
            },
        decreases ids@.len() - i,
    {
        let id = ids[i];
        map.insert(id, fresh[i]);
        proof {
            at = at.insert(id, i as int);
            assert(ids@.take(i + 1) == ids@.take(i as int).push(id));
            ids@.take(i as int).lemma_push_to_set_commute(id);
        }
        i = i + 1;
    }
    proof {
        assert(ids@.take(ids@.len() as int) == ids@);
        assert forall|i: int| 0 <= i < ids@.len() && last_occurrence(ids@, i) implies map@[#[trigger] ids@[i]] == fresh@[i] by {
            let x = ids@[i];
            assert(ids@.to_set().contains(x));
            assert(at.contains_key(x));
            let m = at[x];
            if m < i {
                assert(ids@[i] == x);
            }
            if m > i {
                assert(ids@[m] == ids@[i]);
            }
        }
    }
    map
}

/// A map with an entry for each of `ids`: the identifier itself when `remap` is
/// false; otherwise a fresh identifier drawn for each entry of `ids` in turn, the
/// last one drawn for an identifier listed more than once.
pub fn remap_ids(ids: &[u128], remap: bool) -> (map: HashMap<u128, u128>)
    ensures
        map@.dom() == ids@.to_set(),
        !remap ==> forall|id: u128| #[trigger] map@.contains_key(id) ==> map@[id] == id,
{
    if remap {
        let mut drawn: Vec<u128> = Vec::new();
        let mut i: usize = 0;
        while i < ids.len()
            invariant
                i <= ids@.len(),
                drawn@.len() == i,
            decreases ids@.len() - i,
        {
            drawn.push(fresh_id());
            i = i + 1;
        }
        return remap_ids_from(ids, &drawn);
    }
    let mut map: HashMap<u128, u128> = HashMap::new();
    let mut i: usize = 0;
    while i < ids.len()
        invariant
            i <= ids@.len(),
            map@.dom() == ids@.take(i as int).to_set(),
            forall|id: u128| #[trigger] map@.contains_key(id) ==> map@[id] == id,
        decreases ids@.len() - i,
    {
        let id = ids[i];
        map.insert(id, id);
        proof {
            assert(ids@.take(i + 1) == ids@.take(i as int).push(id));
            ids@.take(i as int).lemma_push_to_set_commute(id);
        }
        i = i + 1;
    }
    proof {
        assert(ids@.take(ids@.len() as int) == ids@);
    }
    map
}

/// A parent object named in a bundled memory's formation metadata, remapped through
/// the object map: `None` where the text is no identifier, and the entry then stays
/// as it was.
pub fn remap_parent_object(text: &str, objects: &HashMap<u128, u128>) -> (mapped: Option<u128>)
    ensures
        mapped == match parsed_uuid(text@) {
            Some(x) => Some(spec_map_id(objects@, x)),
            None => None::<u128>,
        },
{
    match parse_uuid(text) {
        Some(x) => Some(map_id(objects, x)),
        None => None,
    }
}

/// The identifiers of `ids`, in order, each mapped through `map`.
pub open spec fn spec_map_ids(map: Map<u128, u128>, ids: Seq<u128>) -> Seq<u128> {
    ids.map_values(|id: u128| spec_map_id(map, id))
}

/// Maps every identifier of a bundled reference list through `map`, in order.
pub fn map_ids(map: &HashMap<u128, u128>, ids: &[u128]) -> (mapped: Vec<u128>)
    ensures
        mapped@ == spec_map_ids(map@, ids@),
{
    let mut mapped: Vec<u128> = Vec::new();
    let mut i: usize = 0;
    while i < ids.len()
        invariant
            i <= ids@.len(),
            mapped@ == spec_map_ids(map@, ids@.take(i as int)),
        decreases ids@.len() - i,
    {
        let id = map_id(map, ids[i]);
        mapped.push(id);
        assert(spec_map_ids(map@, ids@.take(i + 1)) =~= spec_map_ids(map@, ids@.take(i as int)).push(id));
        i = i + 1;
    }
    assert(ids@.take(ids@.len() as int) =~= ids@);
    mapped
}

/// The identifier map that applies to an association endpoint of kind `kind`.
pub open spec fn endpoint_map(
    kind: Seq<char>,
    objects: Map<u128, u128>,
    sources: Map<u128, u128>,
    artifacts: Map<u128, u128>,
    entities: Map<u128, u128>,
) -> Option<Map<u128, u128>> {
    if kind == "memory"@ {
        Some(objects)
    } else if kind == "source"@ {
        Some(sources)
    } else if kind == "artifact"@ {
        Some(artifacts)
    } else if kind == "entity"@ {
        Some(entities)
    } else {
        None
    }
}

/// Remaps an association endpoint through the map of its kind; endpoints of other
/// kinds keep their identifier.
pub fn remap_node_id(
    kind: &str,
    id: u128,
    objects: &HashMap<u128, u128>,
    sources: &HashMap<u128, u128>,
    artifacts: &HashMap<u128, u128>,
    entities: &HashMap<u128, u128>,
) -> (mapped: u128)
    ensures
        mapped == match endpoint_map(kind@, objects@, sources@, artifacts@, entities@) {
            Some(m) => spec_map_id(m, id),
            None => id,
        },
{
    if str_eq(kind, "memory") {
        map_id(objects, id)
    } else if str_eq(kind, "source") {
        map_id(sources, id)
    } else if str_eq(kind, "artifact") {
        map_id(artifacts, id)
    } else if str_eq(kind, "entity") {
        map_id(entities, id)
    } else {
        id
    }
}

/// Importing under the bundle's own identity changes no identifier: every map built
/// without remapping sends each identifier to itself.
pub proof fn preserved_identity_maps_are_identity(ids: Seq<u128>, map: Map<u128, u128>, id: u128)
    requires
        map.dom() == ids.to_set(),
        forall|k: u128| #[trigger] map.contains_key(k) ==> map[k] == k,
    ensures
        spec_map_id(map, id) == id,
{
}

/// Identifiers a bundle does not list are never rewritten, whatever the map holds.
pub proof fn unlisted_ids_are_kept(ids: Seq<u128>, map: Map<u128, u128>, id: u128)
    requires
        map.dom() == ids.to_set(),
        !ids.contains(id),
    ensures
        spec_map_id(map, id) == id,
{
    assert(!ids.to_set().contains(id));
}

/// Under the bundle's own identity every bundled reference list is imported as it was.
pub proof fn preserved_identity_keeps_reference_lists(ids: Seq<u128>, map: Map<u128, u128>, list: Seq<u128>)
    requires
        map.dom() == ids.to_set(),
        forall|k: u128| #[trigger] map.contains_key(k) ==> map[k] == k,
    ensures
        spec_map_ids(map, list) == list,
{
    assert(spec_map_ids(map, list) =~= list);
}

} // verus!
