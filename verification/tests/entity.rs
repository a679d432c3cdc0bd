use std::sync::Arc;

use config_it::common::ItemID;
use config_it::entity::{
    EntityData, EntityUpdateError, EntityValue, MetaFlag, Metadata, MetadataProps,
    MetadataVTableImpl, NoSchema, ValueKind, ADMIN, HIDDEN, NO_EXPORT, NO_IMPORT, TRANSIENT,
};

fn meta(kind: ValueKind, default_value: EntityValue, min: Option<i64>, max: Option<i64>, one_of: Option<Vec<&str>>) -> Metadata {
    Metadata::create_for_base_type(
        MetadataVTableImpl {
            impl_copy: true,
            kind,
            default_value,
            min: min.map(EntityValue::Integer),
            max: max.map(EntityValue::Integer),
            one_of: one_of.map(|v| v.into_iter().map(|s| s.to_string()).collect()),
        },
        MetadataProps {
            name: "v".to_string(),
            value_type: "i32".to_string(),
            flags: MetaFlag::empty(),
            editor_hint: None,
            schema: None,
            varname: "v".to_string(),
            description: String::new(),
            env: None,
        },
        1,
    )
}

fn as_int(v: &EntityValue) -> i64 {
    match v {
        EntityValue::Integer(i) => *i,
        _ => panic!("not an integer"),
    }
}

const I32: ValueKind = ValueKind::Integer { min: i32::MIN as i64, max: i32::MAX as i64 };

#[test]
fn flags() {
    assert!(MetaFlag::from_bits(TRANSIENT).contains(NO_IMPORT));
    assert!(MetaFlag::from_bits(TRANSIENT).contains(NO_EXPORT));
    assert!(!MetaFlag::from_bits(NO_IMPORT).contains(TRANSIENT));
    assert!(!MetaFlag::empty().contains(HIDDEN));
    assert!(MetaFlag::from_bits(ADMIN).contains(8));
}

#[test]
fn validate_clamps_and_refuses() {
    let m = meta(I32, EntityValue::Integer(0), Some(-35), Some(3), None);
    let mut v = EntityValue::Integer(98);
    assert_eq!(m.vtable.validate(&mut v), Some(false));
    assert_eq!(as_int(&v), 3);
    let mut v = EntityValue::Integer(-1929);
    assert_eq!(m.vtable.validate(&mut v), Some(false));
    assert_eq!(as_int(&v), -35);
    let mut v = EntityValue::Integer(1);
    assert_eq!(m.vtable.validate(&mut v), Some(true));
    assert_eq!(as_int(&v), 1);

    let m = meta(I32, EntityValue::Integer(3112), None, None, Some(vec!["1", "2", "3"]));
    let mut v = EntityValue::Integer(2);
    assert_eq!(m.vtable.validate(&mut v), Some(true));
    let mut v = EntityValue::Integer(7);
    assert_eq!(m.vtable.validate(&mut v), None);

    // The limits apply before the list of allowed values.
    let m = meta(I32, EntityValue::Integer(0), None, Some(3), Some(vec!["3"]));
    let mut v = EntityValue::Integer(10);
    assert_eq!(m.vtable.validate(&mut v), Some(false));
    assert_eq!(as_int(&v), 3);
}

#[test]
fn limits_on_strings_and_booleans() {
    let mut m = meta(ValueKind::Text, EntityValue::Text("m".to_string()), None, None, None);
    m.vtable.min = Some(EntityValue::Text("b".to_string()));
    m.vtable.max = Some(EntityValue::Text("m".to_string()));
    let mut v = EntityValue::Text("a".to_string());
    assert_eq!(m.vtable.validate(&mut v), Some(false));
    assert!(matches!(v, EntityValue::Text(ref s) if s == "b"));
    let mut v = EntityValue::Text("z".to_string());
    assert_eq!(m.vtable.validate(&mut v), Some(false));
    assert!(matches!(v, EntityValue::Text(ref s) if s == "m"));
    let mut v = EntityValue::Text("cat".to_string());
    assert_eq!(m.vtable.validate(&mut v), Some(true));
    assert!(matches!(v, EntityValue::Text(ref s) if s == "cat"));

    let mut m = meta(ValueKind::Boolean, EntityValue::Boolean(true), None, None, None);
    m.vtable.min = Some(EntityValue::Boolean(true));
    let mut v = EntityValue::Boolean(false);
    assert_eq!(m.vtable.validate(&mut v), Some(false));
    assert!(matches!(v, EntityValue::Boolean(true)));

    // A limit of another kind than the value leaves the value alone.
    let mut m = meta(I32, EntityValue::Integer(0), None, None, None);
    m.vtable.max = Some(EntityValue::Text("a".to_string()));
    let mut v = EntityValue::Integer(1000);
    assert_eq!(m.vtable.validate(&mut v), Some(true));
    assert_eq!(as_int(&v), 1000);
}

#[test]
fn deserialize_by_kind() {
    let m = meta(ValueKind::Integer { min: 0, max: 255 }, EntityValue::Integer(0), None, None, None);
    assert_eq!(as_int(&m.vtable.deserialize("200").unwrap()), 200);
    assert!(m.vtable.deserialize("256").is_none());
    assert!(m.vtable.deserialize("-1").is_none());
    assert!(m.vtable.deserialize("\"1\"").is_none());

    let m = meta(ValueKind::Text, EntityValue::Text(String::new()), None, None, None);
    assert!(matches!(m.vtable.deserialize("\"a\\nb\""), Some(EntityValue::Text(s)) if s == "a\nb"));
    assert!(m.vtable.deserialize("3").is_none());

    let m = meta(ValueKind::Boolean, EntityValue::Boolean(false), None, None, None);
    assert!(matches!(m.vtable.deserialize("true"), Some(EntityValue::Boolean(true))));
    assert!(m.vtable.deserialize("1").is_none());

    let m = meta(ValueKind::Json, EntityValue::Json("null".to_string()), None, None, None);
    assert!(matches!(m.vtable.deserialize("{ \"b\" : 1, \"a\" : [ ] }"), Some(EntityValue::Json(s)) if s == "{\"a\":[],\"b\":1}"));
    assert!(m.vtable.deserialize("{").is_none());
}

#[test]
fn to_json_texts() {
    assert_eq!(EntityValue::Integer(-42).to_json(), "-42");
    assert_eq!(EntityValue::Integer(i64::MIN).to_json(), "-9223372036854775808");
    assert_eq!(EntityValue::Text("say \"hi\"".to_string()).to_json(), "\"say \\\"hi\\\"\"");
    assert_eq!(EntityValue::Boolean(true).to_json(), "true");
    assert_eq!(EntityValue::Boolean(false).to_json(), "false");
    assert_eq!(EntityValue::Json("[1]".to_string()).to_json(), "[1]");
}

#[test]
fn update_value_from_reports_errors() {
    let m = meta(I32, EntityValue::Integer(5), Some(0), Some(10), Some(vec!["5", "10"]));
    let mut e = EntityData::new(Arc::new(m), ItemID(9));
    assert_eq!(e.get_id(), ItemID(9));
    assert_eq!(e.get_update_fence(), 0);
    assert_eq!(as_int(&e.get_value().1), 5);

    assert_eq!(e.update_value_from("\"x\""), Err(EntityUpdateError::DeserializeFailed));
    assert_eq!(e.update_value_from("7"), Err(EntityUpdateError::ValueValidationFailed));
    assert_eq!(e.get_update_fence(), 0);
    assert_eq!(as_int(&e.value), 5);

    assert_eq!(e.update_value_from("99"), Ok(false));
    assert_eq!(as_int(&e.value), 10);
    assert_eq!(e.get_update_fence(), 1);
    assert_eq!(e.update_value_from("5"), Ok(true));
    assert_eq!(e.get_update_fence(), 2);

    e.apply_value(EntityValue::Integer(1));
    assert_eq!(e.get_update_fence(), 3);
    assert_eq!(as_int(&e.value), 1);
}

#[test]
fn defaults_and_copies() {
    let m = meta(ValueKind::Text, EntityValue::Text("d".to_string()), None, None, None);
    assert!(matches!(m.vtable.create_default(), EntityValue::Text(s) if s == "d"));
    assert!(m.vtable.implements_copy());
    assert!(matches!(EntityValue::Text("q".to_string()).duplicate(), EntityValue::Text(s) if s == "q"));
}

#[test]
fn no_schema_fallback() {
    let x = 3u8;
    assert!((&x).get_schema().is_none());
}

#[test]
fn validating_twice_changes_nothing_more() {
    let m = meta(I32, EntityValue::Integer(0), Some(-5), Some(5), Some(vec!["5", "-5", "0"]));
    let mut v = EntityValue::Integer(40);
    assert_eq!(m.vtable.validate(&mut v), Some(false));
    assert_eq!(m.vtable.validate(&mut v), Some(true));
    assert_eq!(as_int(&v), 5);
    // Limits that contradict each other: the value is raised to `min`, then lowered to `max`.
    let m = meta(I32, EntityValue::Integer(0), Some(5), Some(3), None);
    let mut v = EntityValue::Integer(4);
    assert_eq!(m.vtable.validate(&mut v), Some(false));
    assert_eq!(as_int(&v), 3);
    assert_eq!(m.vtable.validate(&mut v), Some(false));
}

#[test]
fn json_text_reads_back() {
    let int_kind = ValueKind::Integer { min: i64::MIN, max: i64::MAX };
    for i in [i64::MIN, -1, 0, 7, i64::MAX] {
        let m = meta(int_kind, EntityValue::Integer(0), None, None, None);
        let text = EntityValue::Integer(i).to_json();
        assert_eq!(as_int(&m.vtable.deserialize(&text).unwrap()), i);
    }
    let m = meta(ValueKind::Text, EntityValue::Text(String::new()), None, None, None);
    for s in ["", "plain", "quote \" and \\ slash", "line\nbreak", "ünïcödé ✓"] {
        let text = EntityValue::Text(s.to_string()).to_json();
        assert!(matches!(m.vtable.deserialize(&text), Some(EntityValue::Text(t)) if t == s));
    }
    let m = meta(ValueKind::Boolean, EntityValue::Boolean(false), None, None, None);
    for b in [true, false] {
        let text = EntityValue::Boolean(b).to_json();
        assert!(matches!(m.vtable.deserialize(&text), Some(EntityValue::Boolean(x)) if x == b));
    }
}

#[test]
fn strings_are_written_with_json_escapes() {
    let v = EntityValue::Text("a\"b\\c\n\t\u{1}\u{1f}é".to_string());
    assert_eq!(v.to_json(), "\"a\\\"b\\\\c\\n\\t\\u0001\\u001fé\"");
}
