use modruntime::registry::{Registry, RegistryError};
use modruntime::store::{bytes_equal, AssetInfo, StateStore};

#[test]
fn registry_finds_registered_ids() {
    let mut r = Registry::new();
    assert_eq!(r.register("Position".to_string(), 1), Ok(()));
    assert_eq!(r.register("Velocity".to_string(), 2), Ok(()));
    assert_eq!(r.len(), 2);
    assert_eq!(r.find(&"Velocity".to_string()), Some(2));
    assert_eq!(r.find(&"Mass".to_string()), None);
}

#[test]
fn registry_rejects_duplicates() {
    let mut r = Registry::new();
    r.register("Position".to_string(), 1).unwrap();
    assert_eq!(r.register("Position".to_string(), 7), Err(RegistryError::DuplicateId));
    assert_eq!(r.register("Other".to_string(), 1), Err(RegistryError::DuplicateTypeKey));
    assert_eq!(r.len(), 1);
    assert_eq!(r.find(&"Position".to_string()), Some(1));
}

#[test]
fn store_join_keeps_only_full_matches() {
    let mut w = StateStore::new();
    let e1 = w.spawn_empty();
    w.insert_component(e1, 1, vec![11]);
    w.insert_component(e1, 2, vec![12]);
    let e2 = w.spawn_empty();
    w.insert_component(e2, 1, vec![21]);
    let e3 = w.spawn_empty();
    w.insert_component(e3, 2, vec![32]);
    assert_eq!(w.query(&vec![1, 2]), vec![vec![vec![11u8], vec![12u8]]]);
    assert_eq!(w.query(&vec![2]), vec![vec![vec![12u8]], vec![vec![32u8]]]);
    assert_eq!(w.query(&vec![3]), Vec::<Vec<Vec<u8>>>::new());
}

#[test]
fn insert_replaces_a_component_of_the_same_kind() {
    let mut w = StateStore::new();
    let e = w.spawn_empty();
    w.insert_component(e, 1, vec![1]);
    w.insert_component(e, 1, vec![2]);
    assert_eq!(w.get_component(e, 1), Some(&vec![2u8]));
    assert_eq!(w.query(&vec![1]), vec![vec![vec![2u8]]]);
}

#[test]
fn resources_are_singletons() {
    let mut w = StateStore::new();
    assert_eq!(w.get_resource(5), None);
    w.insert_resource(5, vec![1]);
    w.insert_resource(5, vec![2]);
    assert_eq!(w.get_resource(5), Some(&vec![2u8]));
}

#[test]
fn assets_get_ids_by_module_type_and_content() {
    let mut w = StateStore::new();
    let a = |d: Vec<u8>| AssetInfo { mod_name: "m".to_string(), asset_type: "sound".to_string(), asset_data: d };
    assert_eq!(w.define_asset(a(vec![1])), b"m/sound/0".to_vec());
    assert_eq!(w.define_asset(a(vec![2])), b"m/sound/1".to_vec());
    assert_eq!(w.define_asset(a(vec![1])), b"m/sound/0".to_vec());
}

#[test]
fn asset_ids_count_in_decimal() {
    let mut w = StateStore::new();
    let mut last = Vec::new();
    for i in 0..12u8 {
        last = w.define_asset(AssetInfo { mod_name: "m".to_string(), asset_type: "t".to_string(), asset_data: vec![i] });
    }
    assert_eq!(last, b"m/t/11".to_vec());
}

#[test]
fn byte_equality() {
    assert!(bytes_equal(&vec![1, 2], &vec![1, 2]));
    assert!(!bytes_equal(&vec![1, 2], &vec![1, 3]));
    assert!(!bytes_equal(&vec![1], &vec![1, 1]));
}

#[test]
fn registration_lookups_by_kind() {
    let mut regs = modruntime::host::Registries::new();
    regs.components.register("Pos".to_string(), 1).unwrap();
    regs.resources.register("Time".to_string(), 1).unwrap();
    assert_eq!(modruntime::host::find_component_registration(&regs, &"Pos".to_string()), Some(1));
    assert_eq!(modruntime::host::find_component_registration(&regs, &"Time".to_string()), None);
    assert_eq!(modruntime::host::find_resource_registration(&regs, &"Time".to_string()), Some(1));
}
