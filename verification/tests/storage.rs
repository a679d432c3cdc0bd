use std::sync::Arc;

use config_it::archive::Archive;
use config_it::backend::BackendEvent;
use config_it::category::CategoryRule;
use config_it::common::{GroupID, IdGenerator, ItemID, PathHash};
use config_it::config::{Group, PropData, Template};
use config_it::entity::{
    EntityValue, MetaFlag, Metadata, MetadataProps, MetadataVTableImpl, ValueKind, NO_EXPORT,
    NO_IMPORT,
};
use config_it::storage::{
    GroupCreationError, GroupFindError, GroupFindOrCreateError, ReplicationEvent, Storage,
};

fn meta(
    name: &str,
    kind: ValueKind,
    default_value: EntityValue,
    flags: u32,
    min: Option<i64>,
    max: Option<i64>,
    one_of: Option<Vec<&str>>,
) -> Metadata {
    Metadata {
        type_id: 0,
        props: MetadataProps {
            name: name.to_string(),
            value_type: String::new(),
            flags: MetaFlag::from_bits(flags),
            editor_hint: None,
            schema: None,
            varname: name.to_string(),
            description: String::new(),
            env: None,
        },
        vtable: MetadataVTableImpl {
            impl_copy: false,
            kind,
            default_value,
            min: min.map(EntityValue::Integer),
            max: max.map(EntityValue::Integer),
            one_of: one_of.map(|v| v.into_iter().map(|s| s.to_string()).collect()),
        },
    }
}

fn template(type_id: u64, metas: Vec<Metadata>) -> Template {
    let default_config = metas.iter().map(|m| m.vtable.default_value.duplicate()).collect();
    let props = metas
        .into_iter()
        .enumerate()
        .map(|(index, m)| PropData { index, type_id: 0, meta: Arc::new(m) })
        .collect();
    Template {
        module: "tests".to_string(),
        struct_name: "Test".to_string(),
        type_id,
        props,
        default_config,
    }
}

const I32: ValueKind = ValueKind::Integer { min: i32::MIN as i64, max: i32::MAX as i64 };
const U32: ValueKind = ValueKind::Integer { min: 0, max: u32::MAX as i64 };

fn as_int(v: &EntityValue) -> i64 {
    match v {
        EntityValue::Integer(i) => *i,
        _ => panic!("not an integer"),
    }
}

fn text(v: &EntityValue) -> String {
    match v {
        EntityValue::Text(s) => s.clone(),
        _ => panic!("not a string"),
    }
}

fn update(g: &mut Group, storage: &Storage) -> bool {
    let ctx = storage.context(g.group_id).unwrap();
    g.update(ctx)
}

fn json(text: &str) -> serde_json::Value {
    serde_json::from_str(text).unwrap()
}

fn profile() -> Template {
    template(
        7,
        vec![
            meta("name", ValueKind::Text, EntityValue::Text(String::new()), 0, None, None, None),
            meta("age", U32, EntityValue::Integer(0), 0, None, Some(250), None),
            meta(
                "position",
                ValueKind::Text,
                EntityValue::Text("unspecified".to_string()),
                0,
                None,
                None,
                Some(vec!["\"left\"", "\"right\"", "\"up\"", "\"down\""]),
            ),
        ],
    )
}

fn my_struct() -> Template {
    template(
        11,
        vec![
            meta("minimal", I32, EntityValue::Integer(0), 0, Some(-35), None, None),
            meta("maximum", I32, EntityValue::Integer(2), 0, None, Some(3), None),
            meta(
                "data",
                ValueKind::Text,
                EntityValue::Text("3@".to_string()),
                0,
                None,
                None,
                Some(vec!["\"ab3\"", "\"go04\""]),
            ),
            meta(
                "median",
                I32,
                EntityValue::Integer(3112),
                0,
                None,
                None,
                Some(vec!["1", "2", "3", "4", "5"]),
            ),
            meta("noimp", I32, EntityValue::Integer(124), NO_IMPORT, None, None, None),
            meta("noexp", I32, EntityValue::Integer(242), NO_EXPORT, None, None, None),
            meta("my_value", I32, EntityValue::Integer(0), 0, None, None, None),
            meta("mvmv", I32, EntityValue::Integer(0), 0, None, None, None),
        ],
    )
}

#[test]
fn print_size() {
    println!("{}", std::mem::size_of::<BackendEvent>());
    println!("{}", std::mem::size_of::<ReplicationEvent>());
}

#[test]
fn _verify_send_impl() {
    fn _assert_send<T: Send + Sync>() {}
    _assert_send::<Group>();
    _assert_send::<Storage>();
}

#[test]
fn concepts() {
    let mut storage = Storage::new();
    let rule = CategoryRule::default();
    let content = r#"{
        "~profile": {
            "~scorch": { "name": "Scorch", "age": 25, "position": "left" },
            "~john": { "name": "John", "age": 30, "position": "invalid-value-here" }
        }
    }"#;
    let archive = Archive::from_json(content, &rule).unwrap();
    storage.import(archive).perform(&mut storage);

    let t = profile();
    let mut scorch = storage.create(&t, &["profile", "scorch"]).ok().unwrap();
    let mut john = storage.create(&t, &["profile", "john"]).ok().unwrap();

    // Before calling 'update', every property remains at its default.
    assert_eq!(text(scorch.get(0)), "");
    assert_eq!(as_int(scorch.get(1)), 0);
    assert_eq!(text(scorch.get(2)), "unspecified");

    assert!(update(&mut scorch, &storage));
    assert!(update(&mut john, &storage));

    assert!(scorch.consume_update(0));
    assert!(!scorch.consume_update(0));

    assert_eq!(text(scorch.get(0)), "Scorch");
    assert_eq!(as_int(scorch.get(1)), 25);
    assert_eq!(text(scorch.get(2)), "left");
    assert_eq!(text(john.get(0)), "John");
    assert_eq!(as_int(john.get(1)), 30);
    assert_eq!(text(john.get(2)), "unspecified", "invalid value is ignored");
}

#[test]
fn serde_struct() {
    let mut storage = Storage::new();
    let t = template(
        3,
        vec![meta(
            "inner",
            ValueKind::Json,
            EntityValue::Json("{\"age\":0,\"name\":\"\"}".to_string()),
            0,
            None,
            None,
            None,
        )],
    );
    let mut outer = storage.create(&t, &["outer"]).ok().unwrap();
    outer.set(0, EntityValue::Json("{\"age\":30,\"name\":\"John\"}".to_string()));
    assert!(outer.commit_elem(&mut storage, 0, false));

    let archive = storage.export().perform(&mut storage);
    let dump = archive.to_json(&CategoryRule::default());
    assert_eq!(dump, r#"{"~outer":{"inner":{"age":30,"name":"John"}}}"#);
}

#[test]
fn config_set_valid_operations() {
    let mut storage = Storage::new();
    let t = my_struct();
    let mut group = storage.create(&t, &["hello", "world!"]).ok().unwrap();

    assert!(
        matches!(
            storage.create(&t, &["hello", "world!"]),
            Err(GroupCreationError::PathCollisionEarly(_))
        ),
        "Assert key duplication handled correctly"
    );

    let sender = *storage.sender(group.group_id).unwrap();
    let ctx = storage.context(group.group_id).unwrap();
    let mut brd = group.watch_update(ctx);
    brd.update(Some(&sender));
    assert_eq!(brd.is_dirty(Some(&sender)), Some(false));

    assert_eq!(as_int(group.get(1)), 2, "Default value correctly applied");
    assert_eq!(as_int(group.get(0)), 0);
    assert_eq!(as_int(group.get(3)), 3112);
    assert_eq!(as_int(group.get(4)), 124);
    assert_eq!(as_int(group.get(5)), 242);
    assert_eq!(text(group.get(2)), "3@");

    assert!(update(&mut group, &storage), "Initial update always returns true.");
    assert!(!update(&mut group, &storage), "Now dirty flag cleared");
    assert!(group.check_elem_update(2), "Initial check returns true");
    assert!(!group.check_elem_update(2), "Now dirty flag is cleared");
    assert!(group.check_elem_update(3));
    assert!(group.check_elem_update(4));
    assert!(!group.check_elem_update(3));
    for i in 0..8 {
        group.check_elem_update(i);
    }

    let content = r#"{
        "~hello": {
            "~world!": {
                "data": "ab3", "maximum": 98, "minimal": -1929,
                "noimp": 932, "noexp": 884, "mvmv": 415
            }
        }
    }"#;
    let arch = Archive::from_json(content, &CategoryRule::default()).unwrap();
    let mut import = storage.import(arch);
    import.merge_onto_cache(true);
    import.perform(&mut storage);

    let sender = *storage.sender(group.group_id).unwrap();
    assert_eq!(brd.is_dirty(Some(&sender)), Some(true));
    assert!(!group.check_elem_update(2), "Before 'update()' call, nothing changes.");
    assert!(update(&mut group, &storage), "Config successfully imported.");
    assert!(!update(&mut group, &storage), "Re-request handled correctly.");
    assert!(group.check_elem_update(2), "Updated configs correctly applied.");
    assert!(group.check_elem_update(1));
    assert!(group.check_elem_update(0));
    assert!(group.check_elem_update(5));
    assert!(!group.check_elem_update(4), "No-import property correctly excluded");
    assert!(!group.check_elem_update(3), "Unspecified update correctly excluded.");

    assert_eq!(as_int(group.get(1)), 3, "Value validation");
    assert_eq!(as_int(group.get(0)), -35, "Lower limit");
    assert_eq!(as_int(group.get(3)), 3112, "Untouched element exclude");
    assert_eq!(as_int(group.get(4)), 124, "No-import element exclude");
    assert_eq!(as_int(group.get(7)), 415, "Alias");
    assert_eq!(as_int(group.get(5)), 884, "No-export element include");
    assert_eq!(text(group.get(2)), "ab3", "String argument update");

    // The cache still holds what was imported; the groups' own dump leaves out `noexp`.
    let merged = storage.export().perform(&mut storage);
    let node = merged.find_path(&["hello", "world!"]).unwrap();
    assert_eq!(json(node.value("noexp").unwrap()), json("884"));
    let dumped = storage.export().merge_onto_dumped(false).perform(&mut storage);
    let node = dumped.find_path(&["hello", "world!"]).unwrap();
    assert!(node.value("noexp").is_none());
    assert_eq!(json(node.value("maximum").unwrap()), json("3"));
    assert_eq!(json(node.value("minimal").unwrap()), json("-35"));
}

#[test]
fn find_reports_missing_path_and_type_mismatch() {
    let mut storage = Storage::new();
    let t = profile();
    let other = my_struct();
    assert_eq!(
        storage.find(PathHash::new(&["profile"]), &t).err(),
        Some(GroupFindError::PathNotFound)
    );
    let _g = storage.create(&t, &["profile"]).ok().unwrap();
    assert!(storage.find(PathHash::new(&["profile"]), &t).is_ok());
    assert_eq!(
        storage.find(PathHash::new(&["profile"]), &other).err(),
        Some(GroupFindError::MismatchedTypeID)
    );
    assert_eq!(
        storage.find_or_create(&other, &["profile"]).err(),
        Some(GroupFindOrCreateError::MismatchedTypeID)
    );
    let again = storage.find_or_create(&t, &["profile"]).ok().unwrap();
    assert_eq!(again.group_id, _g.group_id);
    let fresh = storage.find_or_create(&t, &["other"]).ok().unwrap();
    assert_ne!(fresh.group_id, _g.group_id);
}

#[test]
fn commit_reaches_other_instances() {
    let mut storage = Storage::new();
    storage.reset_monitor();
    let t = profile();
    let mut a = storage.create(&t, &["p"]).ok().unwrap();
    let mut b = storage.find(PathHash::new(&["p"]), &t).ok().unwrap();
    // The found instance shares the registration: nothing new is registered.
    assert_eq!(b.group_id, a.group_id);
    assert_eq!(b.path, a.path);
    assert_eq!(storage.groups.len(), 1);
    assert!(update(&mut a, &storage));
    assert!(update(&mut b, &storage));
    assert!(!update(&mut b, &storage));
    for i in 0..3 {
        b.consume_update(i);
    }

    a.set(1, EntityValue::Integer(42));
    assert!(a.commit_elem(&mut storage, 1, true));
    assert!(update(&mut b, &storage));
    assert_eq!(as_int(b.get(1)), 42);
    assert!(b.consume_update(1));
    assert!(!b.consume_update(0));

    // A silent commit changes the entity, but the group's version stays.
    a.set(0, EntityValue::Text("quiet".to_string()));
    assert!(a.commit_elem(&mut storage, 0, false));
    assert!(!update(&mut b, &storage));
    assert!(a.touch_elem(&mut storage, 2));
    assert!(update(&mut b, &storage));
    assert_eq!(text(b.get(0)), "quiet");

    assert!(!a.commit_elem(&mut storage, 9, true));
    let events = storage.take_events();
    assert_eq!(events.len(), 4);
    assert!(matches!(events[0], ReplicationEvent::GroupAdded(id) if id == a.group_id));
    assert!(matches!(events[1], ReplicationEvent::EntityValueUpdated { group_id, .. } if group_id == a.group_id));
    assert!(storage.take_events().is_empty());
}

#[test]
fn unregister_dumps_into_the_cache() {
    let mut storage = Storage::new();
    storage.reset_monitor();
    let t = profile();
    let mut g = storage.create(&t, &["p", "q"]).ok().unwrap();
    g.set(1, EntityValue::Integer(77));
    assert!(g.commit_elem(&mut storage, 1, true));
    let id = g.group_id;
    storage.unregister_group(id);
    assert!(storage.context(id).is_none());
    assert!(storage.find(PathHash::new(&["p", "q"]), &t).is_err());
    let node = storage.archive.find_path(&["p", "q"]).unwrap();
    assert_eq!(json(node.value("age").unwrap()), json("77"));
    assert_eq!(json(node.value("position").unwrap()), json("\"unspecified\""));

    // A group created again at the same path is loaded from the cache.
    let mut again = storage.create(&t, &["p", "q"]).ok().unwrap();
    assert!(update(&mut again, &storage));
    assert_eq!(as_int(again.get(1)), 77);
    let events = storage.take_events();
    assert!(matches!(events[events.len() - 2], ReplicationEvent::GroupRemoved(x) if x == id));
}

#[test]
fn notify_editions_counts_each_mention() {
    let mut storage = Storage::new();
    let t = profile();
    let g = storage.create(&t, &["a"]).ok().unwrap();
    let h = storage.create(&t, &["b"]).ok().unwrap();
    let v0 = storage.context(g.group_id).unwrap().version;
    let w0 = storage.context(h.group_id).unwrap().version;
    storage.notify_editions(&[g.group_id, h.group_id, g.group_id]);
    assert_eq!(storage.context(g.group_id).unwrap().version, v0 + 2);
    assert_eq!(storage.context(h.group_id).unwrap().version, w0 + 1);
    assert_eq!(storage.sender(g.group_id).unwrap().fence, 5);
}

#[test]
fn export_settings() {
    let mut storage = Storage::new();
    let rule = CategoryRule::default();
    let cached = Archive::from_json(r#"{"~old":{"x":1}}"#, &rule).unwrap();
    let mut import = storage.import(cached);
    import.apply_as_patch(false);
    import.perform(&mut storage);

    let t = profile();
    let _g = storage.create(&t, &["new"]).ok().unwrap();

    let only = storage.export().merge_onto_dumped(false).replace_import_cache(false).perform(&mut storage);
    assert!(only.find_path(&["old"]).is_none());
    assert!(only.find_path(&["new"]).is_some());
    assert!(storage.archive.find_path(&["new"]).is_none());

    let merged = storage.export().replace_import_cache(false).perform(&mut storage);
    assert!(merged.find_path(&["old"]).is_some());
    assert!(merged.find_path(&["new"]).is_some());
    assert!(storage.archive.find_path(&["new"]).is_none());

    let replaced = storage.export().merge_onto_dumped(false).perform(&mut storage);
    assert!(replaced.find_path(&["old"]).is_none());
    assert!(storage.archive.find_path(&["old"]).is_none());
    assert!(storage.archive.find_path(&["new"]).is_some());
}

#[test]
fn merged_export_prefers_live_values() {
    let mut storage = Storage::new();
    let rule = CategoryRule::default();
    let cached = Archive::from_json(r#"{"~live":{"age":1},"~old":{"x":1}}"#, &rule).unwrap();
    storage.import(cached).perform(&mut storage);

    let t = profile();
    let mut g = storage.create(&t, &["live"]).ok().unwrap();
    g.set(1, EntityValue::Integer(99));
    assert!(g.commit_elem(&mut storage, 1, true));

    let merged = storage.export().replace_import_cache(false).perform(&mut storage);
    let node = merged.find_path(&["live"]).unwrap();
    assert_eq!(json(node.value("age").unwrap()), json("99"));
    assert!(merged.find_path(&["old"]).is_some());
    let cache = storage.archive.find_path(&["live"]).unwrap();
    assert_eq!(json(cache.value("age").unwrap()), json("1"));
}

#[test]
fn import_without_merge_replaces_the_cache() {
    let mut storage = Storage::new();
    let rule = CategoryRule::default();
    storage.import(Archive::from_json(r#"{"~a":{"x":1}}"#, &rule).unwrap()).perform(&mut storage);
    let mut import = storage.import(Archive::from_json(r#"{"~b":{"y":2}}"#, &rule).unwrap());
    import.merge_onto_cache(false);
    import.perform(&mut storage);
    assert!(storage.archive.find_path(&["a"]).is_none());
    assert!(storage.archive.find_path(&["b"]).is_some());
}

#[test]
fn patch_import_loads_only_changes() {
    let mut storage = Storage::new();
    storage.reset_monitor();
    let rule = CategoryRule::default();
    let t = profile();
    let mut g = storage.create(&t, &["p"]).ok().unwrap();
    assert!(update(&mut g, &storage));
    for i in 0..3 {
        g.consume_update(i);
    }
    storage.take_events();

    let arch = Archive::from_json(r#"{"~p":{"name":"X","age":5}}"#, &rule).unwrap();
    storage.import(arch).perform(&mut storage);
    assert_eq!(storage.take_events().len(), 2);
    assert!(update(&mut g, &storage));
    assert!(g.consume_update(0));
    assert!(g.consume_update(1));
    assert!(!g.consume_update(2));

    // The same archive again is no change against the cache.
    let arch = Archive::from_json(r#"{"~p":{"name":"X","age":5}}"#, &rule).unwrap();
    storage.import(arch).perform(&mut storage);
    assert!(storage.take_events().is_empty());
    assert!(!update(&mut g, &storage));
}

#[test]
fn dirty_marks() {
    let mut storage = Storage::new();
    let t = profile();
    let mut g = storage.create(&t, &["m"]).ok().unwrap();
    assert!(update(&mut g, &storage));
    for i in 0..3 {
        assert!(g.consume_update(i));
    }
    assert!(!update(&mut g, &storage));

    g.mark_all_elem_dirty();
    assert!(!update(&mut g, &storage), "marking properties does not make the group dirty");
    for i in 0..3 {
        assert!(g.consume_update(i));
        assert!(!g.consume_update(i));
    }
    g.mark_dirty(1);
    assert!(g.check_elem_update(1));
    assert!(!g.check_elem_update(5));

    g.mark_group_dirty();
    assert!(update(&mut g, &storage), "a dirty group reports an update");
    assert!(!update(&mut g, &storage));

    let copy = g.duplicate();
    assert_eq!(copy.group_id, g.group_id);
    assert_eq!(copy.version_cached, g.version_cached);
    assert_eq!(copy.path, vec!["m".to_string()]);
    assert_eq!(text(copy.get(2)), "unspecified");
}

#[test]
fn patch_and_whole_imports_leave_equal_caches() {
    let rule = CategoryRule::default();
    let base = r#"{"~a":{"x":1,"y":{"k":2}},"~b":{"z":"s"}}"#;
    let incoming = r#"{"~a":{"x":1.0,"y":{"k":3}},"~c":{}}"#;

    let mut with_patch = Storage::new();
    with_patch.import(Archive::from_json(base, &rule).unwrap()).perform(&mut with_patch);
    with_patch.import(Archive::from_json(incoming, &rule).unwrap()).perform(&mut with_patch);

    let mut whole = Storage::new();
    whole.import(Archive::from_json(base, &rule).unwrap()).perform(&mut whole);
    let mut import = whole.import(Archive::from_json(incoming, &rule).unwrap());
    import.apply_as_patch(false);
    import.perform(&mut whole);

    assert_eq!(json(&with_patch.archive.to_json(&rule)), json(&whole.archive.to_json(&rule)));
    assert_eq!(
        json(&whole.archive.to_json(&rule)),
        json(r#"{"~a":{"x":1.0,"y":{"k":3}},"~b":{"z":"s"},"~c":{}}"#)
    );
}

#[test]
fn new_storage_ids_start_at_one() {
    let s = Storage::new();
    assert_eq!(s.group_ids.next_id(), 1);
    assert_eq!(s.item_ids.next_id(), 1);
    assert!(s.groups.is_empty());
    assert!(s.events.is_empty());
}

#[test]
fn importing_twice_changes_nothing_more() {
    let mut storage = Storage::new();
    storage.reset_monitor();
    let t = profile();
    let mut g = storage.create(&t, &["p"]).ok().unwrap();
    assert!(update(&mut g, &storage));
    storage.take_events();
    let rule = CategoryRule::default();
    let text = r#"{"~p":{"age":5,"name":"N"},"~q":{"x":[1,2]}}"#;
    storage.import(Archive::from_json(text, &rule).unwrap()).perform(&mut storage);
    assert_eq!(storage.take_events().len(), 2);
    assert!(update(&mut g, &storage));
    assert_eq!(as_int(g.get(1)), 5);
    let cache = storage.archive.to_json(&rule);

    storage.import(Archive::from_json(text, &rule).unwrap()).perform(&mut storage);
    assert!(storage.take_events().is_empty());
    assert!(!update(&mut g, &storage));
    assert_eq!(storage.archive.to_json(&rule), cache);
}

#[test]
fn ids_are_distinct_and_never_zero() {
    let mut gen = IdGenerator::new();
    let a = GroupID::new_unique(&mut gen);
    let b = GroupID::new_unique(&mut gen);
    assert!(a.0 >= 1 && b.0 > a.0);
    let mut items = IdGenerator::new();
    let x = ItemID::new_unique(&mut items);
    assert_eq!(x.0, 1);
    assert_eq!(items.next_id(), 2);
}
