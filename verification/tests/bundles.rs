use nous_memory::bundle::remap_ids_from;
use nous_memory::bundle::remap_parent_object;
use nous_memory::bundle::{
    check_bundle_object, check_bundle_schema, map_id, map_ids, remap_ids, remap_node_id, ImportRequest,
    BUNDLE_SCHEMA_VERSION,
};
use nous_memory::error::Error;
use std::collections::HashMap;

const ABC_DIGEST: &str = "6437b3ac38465133ffb63b75273a8db548c558465d79db03fd359c6cd5bd9d85";

#[test]
fn only_the_current_schema_is_read() {
    assert_eq!(BUNDLE_SCHEMA_VERSION, 2);
    assert!(check_bundle_schema(2).is_ok());
    assert!(matches!(check_bundle_schema(1), Err(Error::Invalid(_))));
    assert!(matches!(check_bundle_schema(3), Err(Error::Invalid(_))));
}

#[test]
fn bundled_objects_must_match_their_digest() {
    assert!(check_bundle_object(ABC_DIGEST, b"abc").is_ok());
    assert!(matches!(
        check_bundle_object(ABC_DIGEST, b"abcd"),
        Err(Error::Invalid(m)) if m == format!("bundle object hash mismatch: {ABC_DIGEST}")
    ));
}

#[test]
fn preserved_identity_keeps_every_identifier() {
    let map = remap_ids(&[10, 20, 20, 30], false);
    assert_eq!(map.len(), 3);
    for id in [10u128, 20, 30] {
        assert_eq!(map.get(&id), Some(&id));
        assert_eq!(map_id(&map, id), id);
    }
    assert_eq!(map_id(&map, 99), 99);
}

#[test]
fn new_identity_rewrites_listed_identifiers_only() {
    let map = remap_ids(&[10, 20], true);
    assert_eq!(map.len(), 2);
    assert_ne!(map_id(&map, 10), 10);
    assert_ne!(map_id(&map, 20), 20);
    assert_ne!(map_id(&map, 10), map_id(&map, 20));
    assert_eq!(map_id(&map, 30), 30);
}

#[test]
fn endpoints_are_remapped_by_kind() {
    let objects: HashMap<u128, u128> = HashMap::from([(1, 101)]);
    let sources: HashMap<u128, u128> = HashMap::from([(1, 201)]);
    let artifacts: HashMap<u128, u128> = HashMap::from([(1, 301)]);
    let entities: HashMap<u128, u128> = HashMap::from([(1, 401)]);
    assert_eq!(remap_node_id("memory", 1, &objects, &sources, &artifacts, &entities), 101);
    assert_eq!(remap_node_id("source", 1, &objects, &sources, &artifacts, &entities), 201);
    assert_eq!(remap_node_id("artifact", 1, &objects, &sources, &artifacts, &entities), 301);
    assert_eq!(remap_node_id("entity", 1, &objects, &sources, &artifacts, &entities), 401);
    assert_eq!(remap_node_id("tag", 1, &objects, &sources, &artifacts, &entities), 1);
    assert_eq!(remap_node_id("memory", 2, &objects, &sources, &artifacts, &entities), 2);
}

#[test]
fn import_request_carries_its_flags() {
    let request = ImportRequest { api_version: 1, preserve_identity: true, rebuild_projection: false };
    assert_eq!(request, ImportRequest { api_version: 1, preserve_identity: true, rebuild_projection: false });
}

#[test]
fn reference_lists_are_remapped_in_order() {
    let map: HashMap<u128, u128> = HashMap::from([(1, 11), (2, 12)]);
    assert_eq!(map_ids(&map, &[2, 3, 1, 2]), vec![12, 3, 11, 12]);
    assert!(map_ids(&map, &[]).is_empty());
    let same = remap_ids(&[1, 2], false);
    assert_eq!(map_ids(&same, &[2, 1, 9]), vec![2, 1, 9]);
}

#[test]
fn parent_objects_follow_the_object_map() {
    let mut objects = HashMap::new();
    objects.insert(7u128, 9u128);
    assert_eq!(remap_parent_object("00000000-0000-0000-0000-000000000007", &objects), Some(9));
    assert_eq!(remap_parent_object("00000000-0000-0000-0000-000000000008", &objects), Some(8));
    assert_eq!(remap_parent_object("parent", &objects), None);
}

#[test]
fn drawn_identifiers_replace_listed_ones_last_draw_winning() {
    let map = remap_ids_from(&[1, 2, 1], &[10, 20, 30]);
    assert_eq!(map.len(), 2);
    assert_eq!(map_id(&map, 1), 30);
    assert_eq!(map_id(&map, 2), 20);
    assert_eq!(map_id(&map, 3), 3);
    assert!(remap_ids_from(&[], &[]).is_empty());
}

#[test]
fn kept_identity_maps_each_listed_identifier_to_itself() {
    let map = remap_ids(&[4, 4, 5], false);
    assert_eq!(map.len(), 2);
    assert_eq!(map_id(&map, 4), 4);
    assert_eq!(map_id(&map, 5), 5);
}
