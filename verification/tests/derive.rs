use config_it::derive::{
    decompose_attribute, decompose_input, default_plan, from_meta_list, generation_plan,
    initial_value, plan_field, retrieve_namespace, AttrExpr, DefaultInit, Diagnostic, ExprKind,
    FieldAttr, FieldDesc, FieldPropertyDefault, FieldType, LegacyAttr, LegacyDefault, LegacyError,
    LegacyField, LegacyInput, MetaArg, NestedMeta, ParsedMeta, Token,
};
use config_it::entity::EntityValue;

fn other(text: &str) -> AttrExpr {
    AttrExpr { text: text.to_string(), kind: ExprKind::Other }
}

fn string(value: &str) -> AttrExpr {
    AttrExpr { text: format!("{:?}", value), kind: ExprKind::Str(value.to_string()) }
}

fn nv(name: &str, e: AttrExpr) -> MetaArg {
    MetaArg::NameValue(name.to_string(), e)
}

#[test]
fn meta_list_options() {
    let args = vec![
        nv("default", other("34")),
        nv("min", other("0")),
        nv("max", other("154")),
        nv("env", string("MY_ENV_VAR_NAME")),
        MetaArg::Path("no_import".to_string()),
        MetaArg::Path("no_export".to_string()),
        MetaArg::Path("hidden".to_string()),
        nv("alias", string("renamed")),
        nv(
            "one_of",
            AttrExpr { text: "[1, 2]".to_string(), kind: ExprKind::Array(vec!["1".to_string(), "2".to_string()]) },
        ),
    ];
    let (prop, diags) = from_meta_list(Some(args));
    let prop = prop.unwrap();
    assert!(matches!(prop.default, Some(FieldPropertyDefault::Expr(ref e)) if e == "34"));
    assert_eq!(prop.min.as_deref(), Some("0"));
    assert_eq!(prop.max.as_deref(), Some("154"));
    assert_eq!(prop.env, Some((false, "MY_ENV_VAR_NAME".to_string())));
    assert!(prop.no_import && prop.no_export && !prop.hide);
    assert_eq!(prop.alias.as_deref(), Some("renamed"));
    assert_eq!(prop.one_of, Some(vec!["1".to_string(), "2".to_string()]));
    // `hidden` is no option of this grammar; `hide` is.
    assert_eq!(diags, vec![Diagnostic::UnknownAttribute]);
}

#[test]
fn meta_list_errors() {
    let (prop, diags) = from_meta_list(None);
    assert!(prop.is_none());
    assert_eq!(diags, vec![Diagnostic::ExpectedArgumentList]);

    let args = vec![
        nv("env_once", string("A")),
        nv("env", other("B")),
        nv("one_of", other("1")),
        MetaArg::List("access".to_string(), vec!["guest".to_string()]),
        nv("default_expr", string("[1,2,3]")),
        nv("unknown", other("1")),
        MetaArg::Path("hide".to_string()),
    ];
    let (prop, diags) = from_meta_list(Some(args));
    let prop = prop.unwrap();
    // A later `env` that is no string clears what an earlier one set.
    assert_eq!(prop.env, None);
    assert!(prop.one_of.is_none());
    assert!(matches!(prop.default, Some(FieldPropertyDefault::ExprStr(ref e)) if e == "[1,2,3]"));
    assert!(prop.hide);
    assert_eq!(
        diags,
        vec![Diagnostic::ExpectedStringLiteral, Diagnostic::ExpectedArrayLiteral, Diagnostic::UnexpectedList]
    );
}

#[test]
fn field_plans() {
    let plan = plan_field(vec![
        FieldAttr::Doc(Some(" first".to_string())),
        FieldAttr::ConfigList(Some(vec![nv("max", other("250"))])),
        FieldAttr::Doc(Some(" second".to_string())),
        FieldAttr::ConfigPath,
        FieldAttr::Other,
    ])
    .unwrap();
    assert!(matches!(plan.field_type, FieldType::Property(ref p) if p.max.as_deref() == Some("250")));
    assert_eq!(plan.docs, vec![" first".to_string(), " second".to_string()]);
    assert_eq!(plan.diagnostics, vec![Diagnostic::DuplicateConfigAttribute]);

    let plan = plan_field(vec![FieldAttr::NonConfigDefault(Some((string("Inner::new()"), true)))]).unwrap();
    assert!(matches!(plan.field_type, FieldType::PlainWithDefaultExpr(ref e) if e == "Inner::new()"));

    let plan = plan_field(vec![
        FieldAttr::NonConfigDefault(None),
        FieldAttr::NonConfigDefault(Some((other("3"), true))),
        FieldAttr::NonConfigDefault(Some((string("{"), false))),
        FieldAttr::ConfigValue,
    ])
    .unwrap();
    assert!(matches!(plan.field_type, FieldType::Plain));
    assert_eq!(
        plan.diagnostics,
        vec![
            Diagnostic::ExpectedExpression,
            Diagnostic::ExpectedStringLiteral,
            Diagnostic::ExpectedStringLiteral,
            Diagnostic::ExpectedValidExpression,
            Diagnostic::UnexpectedValue,
        ]
    );

    assert_eq!(plan_field(vec![FieldAttr::Doc(None)]).err(), Some(Diagnostic::DocNotString));
}

#[test]
fn default_plans() {
    let (prop, _) = from_meta_list(Some(vec![nv("default", other("2")), nv("env_once", string("V"))]));
    let plan = default_plan(&prop.unwrap(), true).unwrap();
    assert!(matches!(plan.init, DefaultInit::Owned(ref e) if e == "2"));
    assert_eq!(plan.env, Some((true, "V".to_string())));

    let (prop, _) = from_meta_list(Some(vec![nv("default_expr", string("[1,2]"))]));
    let prop = prop.unwrap();
    assert!(matches!(default_plan(&prop, true).unwrap().init, DefaultInit::Parsed(ref e) if e == "[1,2]"));
    assert_eq!(default_plan(&prop, false).err(), Some(Diagnostic::ExpectedValidExpression));

    let (prop, _) = from_meta_list(Some(vec![]));
    assert!(matches!(default_plan(&prop.unwrap(), false).unwrap().init, DefaultInit::Trait));
}

fn blank(name: &str) -> FieldDesc {
    FieldDesc {
        visibility: String::new(),
        identifier: name.to_string(),
        src_type: "i32".to_string(),
        docstring: String::new(),
        alias: None,
        default_value: None,
        default_expr: None,
        min: None,
        max: None,
        one_of: None,
        env_var: None,
        flag_transient: false,
        flag_disable_import: false,
        flag_disable_export: false,
        flag_hidden: false,
    }
}

fn config_it(items: Vec<NestedMeta>) -> LegacyAttr {
    LegacyAttr { path: "config_it".to_string(), meta: ParsedMeta::List(items) }
}

#[test]
fn older_grammar_attributes() {
    let mut d = blank("my_var");
    let r = decompose_attribute(
        &mut d,
        config_it(vec![
            NestedMeta::NameValue("default".to_string(), "34".to_string()),
            NestedMeta::NameValue("min".to_string(), "0".to_string()),
            NestedMeta::Path("transient".to_string()),
            NestedMeta::List("one_of".to_string(), "1,2,3,4".to_string()),
        ]),
    );
    assert_eq!(r, Ok(true));
    assert_eq!(d.default_value.as_deref(), Some("34"));
    assert_eq!(d.min.as_deref(), Some("0"));
    assert!(d.flag_disable_import && d.flag_disable_export && !d.flag_transient);
    assert_eq!(d.one_of.as_deref(), Some("1,2,3,4"));

    let r = decompose_attribute(
        &mut d,
        LegacyAttr { path: "doc".to_string(), meta: ParsedMeta::NameValue("\" Hello\"".to_string()) },
    );
    assert_eq!(r, Ok(false));
    assert_eq!(d.docstring, "\" Hello\"");

    let r = decompose_attribute(
        &mut d,
        config_it(vec![
            NestedMeta::NameValue("max".to_string(), "9".to_string()),
            NestedMeta::NameValue("nope".to_string(), "1".to_string()),
            NestedMeta::NameValue("alias".to_string(), "\"x\"".to_string()),
        ]),
    );
    assert_eq!(r, Err(LegacyError::UnknownAttribute));
    assert_eq!(d.max.as_deref(), Some("9"));
    assert!(d.alias.is_none());

    let r = decompose_attribute(&mut d, config_it(vec![NestedMeta::Path("access".to_string())]));
    assert_eq!(r, Err(LegacyError::InvalidAttribute));
    let r = decompose_attribute(&mut d, config_it(vec![NestedMeta::List("other".to_string(), "a".to_string())]));
    assert_eq!(r, Err(LegacyError::InvalidAttribute));
    let before = d.max.clone();
    let r = decompose_attribute(&mut d, config_it(vec![NestedMeta::List("access".to_string(), "guest, user".to_string())]));
    assert_eq!(r, Ok(true));
    assert_eq!(d.max, before);
    let r = decompose_attribute(&mut d, LegacyAttr { path: "serde".to_string(), meta: ParsedMeta::Path });
    assert_eq!(r, Ok(false));
    let r = decompose_attribute(&mut d, LegacyAttr { path: "config_it".to_string(), meta: ParsedMeta::Unparsed });
    assert_eq!(r, Ok(true));
}

#[test]
fn older_grammar_types() {
    let field = |name: Option<&str>, attrs: Vec<LegacyAttr>| LegacyField {
        ident: name.map(|s| s.to_string()),
        ty: "f32".to_string(),
        vis: "pub".to_string(),
        attrs,
    };
    let input = LegacyInput {
        vis: "pub".to_string(),
        ident: "MyStruct".to_string(),
        generics: "<T, Y>".to_string(),
        fields: Some(vec![
            field(Some("a"), vec![config_it(vec![NestedMeta::Path("hidden".to_string())])]),
            field(Some("b"), vec![]),
            field(Some("c"), vec![config_it(vec![])]),
        ]),
    };
    let t = decompose_input(input).unwrap();
    assert_eq!(t.identifier, "MyStruct");
    assert_eq!(t.fields.len(), 2);
    assert!(t.fields[0].flag_hidden);
    assert_eq!(t.fields[1].identifier, "c");
    assert_eq!(t.invisibles.len(), 1);
    assert_eq!(t.invisibles[0].identifier, "b");

    let bad = LegacyInput {
        vis: String::new(),
        ident: "E".to_string(),
        generics: String::new(),
        fields: Some(vec![field(Some("a"), vec![]), field(None, vec![])]),
    };
    assert_eq!(decompose_input(bad).err(), Some(LegacyError::MissingIdentifier));
    let not_struct = LegacyInput { vis: String::new(), ident: "E".to_string(), generics: String::new(), fields: None };
    assert_eq!(decompose_input(not_struct).err(), Some(LegacyError::NonStruct));
}

#[test]
fn namespaces() {
    let id = |s: &str| Token::Ident(s.to_string());
    // derive(Debug, config_it::Template, Clone)
    let tokens = vec![
        id("Debug"),
        Token::Punct(','),
        id("config_it"),
        Token::Punct(':'),
        Token::Punct(':'),
        id("Template"),
        Token::Punct(','),
        id("Clone"),
    ];
    assert_eq!(retrieve_namespace(&tokens), Some(id("config_it")));
    // derive(renamed::Template)
    let tokens = vec![id("renamed"), Token::Punct(':'), Token::Punct(':'), id("Template")];
    assert_eq!(retrieve_namespace(&tokens), Some(id("renamed")));
    // derive(Debug, Template)
    let tokens = vec![id("Debug"), Token::Punct(','), id("Template")];
    assert_eq!(retrieve_namespace(&tokens), None);
    assert_eq!(retrieve_namespace(&vec![id("Template")]), None);
    assert_eq!(retrieve_namespace(&vec![id("Debug")]), None);
}

#[test]
fn meta_list_one_of_as_list() {
    let items: Vec<String> = ["\"left\"", "\"right\"", "\"up\"", "\"down\""].iter().map(|s| s.to_string()).collect();
    let args = vec![nv("default", string("unspecified")), MetaArg::List("one_of".to_string(), items.clone())];
    let (prop, diags) = from_meta_list(Some(args));
    let prop = prop.unwrap();
    assert_eq!(prop.one_of, Some(items));
    assert!(matches!(prop.default, Some(FieldPropertyDefault::Expr(ref e)) if e == "\"unspecified\""));
    assert!(diags.is_empty());
}

#[test]
fn environment_wins_over_default() {
    let (prop, _) = from_meta_list(Some(vec![nv("default", other("2")), nv("env", string("V"))]));
    let plan = default_plan(&prop.unwrap(), true).unwrap();
    assert!(matches!(initial_value(&plan, Some(EntityValue::Integer(7)), EntityValue::Integer(2)), EntityValue::Integer(7)));
    assert!(matches!(initial_value(&plan, None, EntityValue::Integer(2)), EntityValue::Integer(2)));

    let (prop, _) = from_meta_list(Some(vec![nv("default", other("2"))]));
    let plan = default_plan(&prop.unwrap(), true).unwrap();
    assert!(matches!(initial_value(&plan, Some(EntityValue::Integer(7)), EntityValue::Integer(2)), EntityValue::Integer(2)));
}

fn doc(text: &str) -> LegacyAttr {
    LegacyAttr { path: "doc".to_string(), meta: ParsedMeta::NameValue(text.to_string()) }
}

fn test_macro_input() -> LegacyInput {
    let field = |name: &str, ty: &str, vis: &str, attrs: Vec<LegacyAttr>| LegacyField {
        ident: Some(name.to_string()),
        ty: ty.to_string(),
        vis: vis.to_string(),
        attrs,
    };
    let nv = |p: &str, v: &str| NestedMeta::NameValue(p.to_string(), v.to_string());
    let path = |p: &str| NestedMeta::Path(p.to_string());
    LegacyInput {
        vis: "pub".to_string(),
        ident: "MyStruct".to_string(),
        generics: "<T, Y>".to_string(),
        fields: Some(vec![
            field(
                "my_var",
                "i32",
                "",
                vec![config_it(vec![
                    nv("default", "34"),
                    nv("min", "0"),
                    nv("max", "154"),
                    nv("env", "\"MY_ENV_VAR_NAME\""),
                    path("no_import"),
                    path("no_export"),
                    path("hidden"),
                ])],
            ),
            field("my_var_2", "f32", "pub", vec![]),
            field(
                "my_var_emp",
                "f32",
                "pub",
                vec![
                    doc("\" My elels dsa 1\""),
                    doc("\" My elels dsa 2\""),
                    doc("\" My elels dsa 3\""),
                    doc("\" My elels dsa 4\""),
                    config_it(vec![]),
                ],
            ),
            field(
                "my_var_4",
                "f32",
                "pub",
                vec![config_it(vec![path("no_import"), NestedMeta::List("access".to_string(), "guest, user".to_string())])],
            ),
            field(
                "my_var_3",
                "f64",
                "pub",
                vec![
                    doc("\"\""),
                    doc("\" Hello, world!\""),
                    doc("\"\""),
                    config_it(vec![NestedMeta::List("one_of".to_string(), "1,2,3,4".to_string())]),
                ],
            ),
        ]),
    }
}

#[test]
fn test_macro() {
    let r = decompose_input(test_macro_input());
    assert!(r.is_ok());
    let t = r.unwrap();
    let idents: Vec<&str> = t.fields.iter().map(|f| f.identifier.as_str()).collect();
    assert_eq!(idents, vec!["my_var", "my_var_emp", "my_var_4", "my_var_3"]);
    assert_eq!(t.invisibles.len(), 1);
    assert_eq!(t.invisibles[0].identifier, "my_var_2");
    let v = &t.fields[0];
    assert!(v.flag_disable_import && v.flag_disable_export && v.flag_hidden);
}

#[test]
fn generation_plans() {
    let mut t = decompose_input(test_macro_input()).unwrap();
    t.fields[1].alias = Some("\"renamed\"".to_string());
    t.fields[2].alias = Some("3".to_string());
    t.fields[3].default_expr = Some("\"vec![1]\"".to_string());
    let plan = generation_plan(&t);
    assert_eq!(plan.len(), 4);
    for (i, p) in plan.iter().enumerate() {
        assert_eq!(p.index, i);
        assert_eq!(p.ident, t.fields[i].identifier);
    }
    assert_eq!(plan[0].name, "my_var");
    assert!(matches!(plan[0].default, LegacyDefault::Value(ref v) if v == "34"));
    assert_eq!(plan[0].min.as_deref(), Some("0"));
    assert_eq!(plan[0].max.as_deref(), Some("154"));
    assert_eq!(plan[0].env.as_deref(), Some("\"MY_ENV_VAR_NAME\""));
    assert!(plan[0].disable_import && plan[0].disable_export && plan[0].hidden);
    assert_eq!(plan[1].name, "renamed");
    assert!(matches!(plan[1].default, LegacyDefault::Trait));
    // An alias that is no string literal leaves the field's name.
    assert_eq!(plan[2].name, "my_var_4");
    assert!(plan[2].disable_import && !plan[2].disable_export);
    assert_eq!(plan[3].one_of.as_deref(), Some("1,2,3,4"));
    assert!(matches!(plan[3].default, LegacyDefault::Expr(ref e) if e == "vec![1]"));
    assert_eq!(plan[3].doc, "\"\"\" Hello, world!\"\"\"");
}
