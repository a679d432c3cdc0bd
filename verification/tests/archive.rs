use config_it::archive::Archive;
use config_it::archive_io::ArchiveParseError;
use config_it::category::CategoryRule;

fn json(text: &str) -> serde_json::Value {
    serde_json::from_str(text).unwrap()
}

fn read(text: &str) -> Archive {
    Archive::from_json(text, &CategoryRule::default()).unwrap()
}

fn as_value(a: &Archive) -> serde_json::Value {
    json(&a.to_json(&CategoryRule::default()))
}

#[test]
fn test_archive_basic() {
    let src = r##"
        {
            "~root_path_1": {
                "~subpath1": {
                    "value1": null,
                    "value2": {},
                    "~sub-subpath": {}
                },
                "~subpath2": {}
            },
            "~root_path_2": {
                "value1": null,
                "value2": 31.4,
                "value3": "hoho-haha",
                "value-obj": {
                    "~pathlike": 3.141
                }
            }
        }
    "##;

    let arch = read(src);
    assert!(arch.paths.len() == 2);

    let p1 = arch.child("root_path_1").unwrap();
    assert!(p1.paths.len() == 2);
    assert!(p1.values.is_empty());

    let sp1 = p1.child("subpath1").unwrap();
    assert!(sp1.child("sub-subpath").is_some());
    assert!(sp1.values.len() == 2);
    assert!(sp1.value("value1").is_some());
    assert!(sp1.value("value2").is_some());
    assert!(json(sp1.value("value1").unwrap()).is_null());
    assert!(json(sp1.value("value2").unwrap()).as_object().unwrap().is_empty());

    let p2 = arch.child("root_path_2").unwrap();
    assert!(p2.paths.is_empty());
    assert!(p2.values.len() == 4);

    let newer = r##"
        {
            "~root_path_1": {
                "~subpath1": {
                    "value1": null,
                    "value2": {
                        "hello, world!": 3.141
                    },
                    "~sub-subpath": {}
                },
                "~subpath2": {},
                "~new_path": {
                    "valll": 4.44
                }
            },
            "~root_path_2": {
                "value1": null,
                "value2": 31.4,
                "value3": "hoho-haha",
                "value-obj": {
                    "~pathlike": 3.141
                }
            }
        }
    "##;
    let newer = read(newer);
    let mut newer_consume = newer.duplicate();
    let patch = Archive::create_patch(&arch, &mut newer_consume);

    let merged = arch.duplicate().merge(patch.duplicate());
    assert_eq!(as_value(&merged), as_value(&newer));

    assert!(patch.paths.len() == 1);
    assert!(patch.child("root_path_1").is_some());

    let node = patch.find_path(&["root_path_1", "subpath1"]).unwrap();
    let val_obj = json(node.value("value2").unwrap());
    let val_obj = val_obj.as_object().unwrap();
    assert!(node.value("value2").is_some());
    assert!(val_obj.len() == 1);
    assert!(val_obj.contains_key("hello, world!"));
    assert!(val_obj.get("hello, world!") == Some(&serde_json::Value::from(3.141)));

    let node = patch.find_path(&["root_path_1", "new_path"]).unwrap();
    assert!(node.value("valll").is_some());
    assert!(json(node.value("valll").unwrap()) == serde_json::Value::from(4.44));
}

#[test]
fn patch_leaves_the_rest_in_newer() {
    let base = read(r#"{"~a":{"x":1,"y":2},"~b":{"z":3}}"#);
    let mut newer = read(r#"{"~a":{"x":1,"y":5},"~b":{"z":3},"~c":{"w":0},"v":true}"#);
    let original = newer.duplicate();
    let patch = base.create_patch(&mut newer);
    assert_eq!(as_value(&patch), json(r#"{"~a":{"y":5},"~c":{"w":0},"v":true}"#));
    assert_eq!(as_value(&newer), json(r#"{"~a":{"x":1},"~b":{"z":3}}"#));
    // What went into the patch and what stayed make up the newer archive again.
    assert_eq!(as_value(&newer.merge(patch)), as_value(&original));
}

#[test]
fn equal_values_count_as_unchanged() {
    let base = read(r#"{"~a":{"x":1.0,"o":{"k":[1,2]}}}"#);
    let mut newer = read(r#"{"~a":{"o":{"k":[1,2]},"x":1.0}}"#);
    let patch = base.create_patch(&mut newer);
    assert!(patch.is_empty());
}

#[test]
fn merge_identities() {
    let a = read(r#"{"~p":{"~q":{"v":1}},"w":"x"}"#);
    let b = read(r#"{"~p":{"~q":{"v":2},"u":3}}"#);
    let c = read(r#"{"~r":{}}"#);
    assert_eq!(as_value(&a.duplicate().merge(Archive::new())), as_value(&a));
    assert_eq!(as_value(&Archive::new().merge(a.duplicate())), as_value(&a));
    assert_eq!(as_value(&a.duplicate().merge(a.duplicate())), as_value(&a));
    let left = a.duplicate().merge(b.duplicate()).merge(c.duplicate());
    let right = a.duplicate().merge(b.duplicate().merge(c.duplicate()));
    assert_eq!(as_value(&left), as_value(&right));
    assert_eq!(as_value(&a.merge(b)), json(r#"{"~p":{"~q":{"v":2},"u":3},"w":"x"}"#));
}

#[test]
fn find_or_create_builds_missing_categories() {
    let mut a = read(r#"{"~p":{"v":1}}"#);
    assert!(a.find_path(&[]).is_none());
    assert!(a.find_path(&["p", "q", "r"]).is_none());
    {
        let node = a.find_or_create_path_mut(&["p", "q", "r"]);
        node.insert_value("k".to_string(), "\"s\"".to_string());
    }
    assert_eq!(as_value(&a), json(r#"{"~p":{"~q":{"~r":{"k":"s"}},"v":1}}"#));
    assert!(a.find_path(&["p", "q"]).is_some());
}

#[test]
fn parse_errors() {
    let rule = CategoryRule::default();
    assert_eq!(Archive::from_json("[1,2]", &rule).err(), Some(ArchiveParseError::NotAnObject));
    assert_eq!(Archive::from_json("{\"~a\": 3}", &rule).err(), Some(ArchiveParseError::NotAnObject));
    assert_eq!(Archive::from_json("not json", &rule).err(), Some(ArchiveParseError::NotAnObject));
    let mut deep = String::new();
    for _ in 0..130 {
        deep.push_str("{\"~a\":");
    }
    deep.push_str("{}");
    for _ in 0..130 {
        deep.push('}');
    }
    assert!(Archive::from_json(&deep, &rule).is_err());
}

#[test]
fn category_rules() {
    let prefix = CategoryRule::default();
    assert!(prefix.is_category("~abc"));
    assert!(!prefix.is_category("abc"));
    let suffix = CategoryRule::Suffix("/");
    assert!(suffix.is_category("abc/"));
    assert!(!suffix.is_category("/abc"));
    let wrap = CategoryRule::Wrap("[", "]");
    assert!(wrap.is_category("[abc]"));
    assert!(!wrap.is_category("[abc"));

    let mut key = String::from("junk");
    wrap.make_category("abc", &mut key);
    assert_eq!(key, "[abc]");
    suffix.make_category("abc", &mut key);
    assert_eq!(key, "abc/");
    prefix.make_category("abc", &mut key);
    assert_eq!(key, "~abc");

    assert_eq!(prefix.category_name("~abc"), "abc");
    assert_eq!(suffix.category_name("abc/"), "abc");
    assert_eq!(wrap.category_name("[abc]"), "abc");

    // Reading takes the rule's marks off a category key, so an archive reads back as
    // it was written.
    let a = Archive::from_json(r#"{"[p]":{"v":1},"w":2}"#, &wrap).unwrap();
    assert!(a.child("p").is_some());
    assert_eq!(a.to_json(&wrap), r#"{"[p]":{"v":1},"w":2}"#);
    assert_eq!(a.to_json(&prefix), r#"{"~p":{"v":1},"w":2}"#);

    let mut b = Archive::new();
    b.insert_path("a".to_string(), Archive::new());
    let text = b.to_json(&CategoryRule::Suffix("@"));
    assert_eq!(text, r#"{"a@":{}}"#);
    let back = Archive::from_json(&text, &CategoryRule::Suffix("@")).unwrap();
    assert!(back.child("a").is_some());
    assert_eq!(back.to_json(&CategoryRule::Suffix("@")), text);
}

#[test]
fn serialization_writes_categories_first() {
    let a = read(r#"{"z":1,"~b":{},"a":"s","~a":{"k":null}}"#);
    assert_eq!(a.to_json(&CategoryRule::default()), r#"{"~a":{"k":null},"~b":{},"a":"s","z":1}"#);
}
