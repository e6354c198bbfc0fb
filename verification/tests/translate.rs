use lupinas_lullaby::error::TranslateError;
use lupinas_lullaby::repr::JavaScriptValue;
use lupinas_lullaby::spec2;
use lupinas_lullaby::spec3;

fn schema2(f: impl FnOnce(&mut spec2::Schema)) -> spec2::Schema {
    let mut s = spec2::Schema::default();
    f(&mut s);
    s
}

fn schema3(f: impl FnOnce(&mut spec3::Schema)) -> spec3::Schema {
    let mut s = spec3::Schema::default();
    f(&mut s);
    s
}

#[test]
fn v2_reference_resolves_to_name() {
    assert_eq!(spec2::parse_reference("#/definitions/Pet").unwrap(), "Pet");
}

#[test]
fn v2_reference_with_other_prefix_fails() {
    let r = spec2::parse_reference("#/components/schemas/Pet");
    assert!(matches!(r, Err(TranslateError::InvalidReference(_))));
    let r = spec2::parse_reference("Pet");
    assert!(matches!(r, Err(TranslateError::InvalidReference(_))));
}

#[test]
fn v3_reference_resolves_to_name() {
    assert_eq!(spec3::parse_reference("#/components/schemas/Pet").unwrap(), "Pet");
}

#[test]
fn v3_reference_with_other_prefix_fails() {
    let r = spec3::parse_reference("#/definitions/Pet");
    assert!(matches!(r, Err(TranslateError::InvalidReference(_))));
}

#[test]
fn v2_scalar_types_lower_to_names() {
    for (ty, expected) in [
        ("integer", "number"),
        ("number", "number"),
        ("string", "string"),
        ("boolean", "boolean"),
    ] {
        let s = schema2(|s| s.schema_type = Some(ty.to_string()));
        let t = spec2::convert_schema_type_to_javascript_type(&s).unwrap();
        assert_eq!(t.to_text(), expected);
    }
}

#[test]
fn v2_date_time_format_lowers_to_date() {
    let s = schema2(|s| {
        s.schema_type = Some("string".to_string());
        s.format = Some("date-time".to_string());
    });
    let t = spec2::convert_schema_type_to_javascript_type(&s).unwrap();
    assert_eq!(t.to_text(), "Date");

    let s = schema2(|s| {
        s.schema_type = Some("string".to_string());
        s.format = Some("uuid".to_string());
    });
    let t = spec2::convert_schema_type_to_javascript_type(&s).unwrap();
    assert_eq!(t.to_text(), "string");
}

#[test]
fn v2_string_enum_renders_as_literal_union() {
    let s = schema2(|s| {
        s.schema_type = Some("string".to_string());
        s.enum_values = Some(vec!["a".to_string(), "b".to_string()]);
    });
    let t = spec2::convert_schema_type_to_javascript_type(&s).unwrap();
    assert_eq!(t.to_text(), "'a'|'b'");
}

#[test]
fn v2_unknown_type_widens_to_any() {
    let s = schema2(|s| s.schema_type = Some("mystery".to_string()));
    let t = spec2::convert_schema_type_to_javascript_type(&s).unwrap();
    assert_eq!(t.to_text(), "any");
}

#[test]
fn v2_array_without_items_widens_to_any() {
    let s = schema2(|s| s.schema_type = Some("array".to_string()));
    let t = spec2::convert_schema_type_to_javascript_type(&s).unwrap();
    assert_eq!(t.to_text(), "any");
}

#[test]
fn v2_array_of_refs_lowers_to_named_array() {
    let s = schema2(|s| {
        s.schema_type = Some("array".to_string());
        s.items = Some(Box::new(schema2(|c| {
            c.ref_path = Some("#/definitions/Pet".to_string())
        })));
    });
    let t = spec2::convert_schema_type_to_javascript_type(&s).unwrap();
    assert_eq!(t.to_text(), "Pet[]");
}

#[test]
fn v2_all_of_lowers_to_product() {
    let s = schema2(|s| {
        s.all_of = Some(vec![
            schema2(|c| c.ref_path = Some("#/definitions/A".to_string())),
            schema2(|c| c.ref_path = Some("#/definitions/B".to_string())),
        ]);
    });
    let t = spec2::convert_schema_type_to_javascript_type(&s).unwrap();
    assert_eq!(t.to_text(), "A&B");
}

#[test]
fn v2_required_fields_keep_their_marks() {
    let s = schema2(|s| {
        s.schema_type = Some("object".to_string());
        s.required = Some(vec!["a".to_string()]);
        s.properties = Some(vec![
            ("a".to_string(), schema2(|c| c.schema_type = Some("string".to_string()))),
            ("b".to_string(), schema2(|c| c.schema_type = Some("integer".to_string()))),
        ]);
    });
    let t = spec2::convert_schema_type_to_javascript_type(&s).unwrap();
    assert_eq!(t.to_text(), "{\"a\" : string;\"b\" ? : number;}");
}

#[test]
fn v2_schema_without_any_shape_is_empty_record() {
    let s = spec2::Schema::default();
    let t = spec2::convert_schema_type_to_javascript_type(&s).unwrap();
    assert_eq!(t.to_text(), "{}");
}

#[test]
fn v2_bad_ref_inside_properties_aborts() {
    let s = schema2(|s| {
        s.schema_type = Some("object".to_string());
        s.properties = Some(vec![(
            "p".to_string(),
            schema2(|c| c.ref_path = Some("definitions/Pet".to_string())),
        )]);
    });
    let r = spec2::convert_schema_type_to_javascript_type(&s);
    assert!(matches!(r, Err(TranslateError::InvalidReference(_))));
}

#[test]
fn v3_mixed_enum_keeps_literal_kinds() {
    let s = schema3(|s| {
        s.schema_type = Some("string".to_string());
        s.enum_values = Some(vec![
            JavaScriptValue::Num("1".to_string()),
            JavaScriptValue::Str("x".to_string()),
            JavaScriptValue::Bool(true),
        ]);
    });
    let t = spec3::parse_schema_object_to_javascript_type(&s).unwrap();
    assert_eq!(t.to_text(), "1|'x'|true");
}

#[test]
fn v3_enum_type_tag_lowers_to_union() {
    let s = schema3(|s| {
        s.schema_type = Some("enum".to_string());
        s.enum_values = Some(vec![
            JavaScriptValue::Str("on".to_string()),
            JavaScriptValue::Str("off".to_string()),
        ]);
    });
    let t = spec3::parse_schema_object_to_javascript_type(&s).unwrap();
    assert_eq!(t.to_text(), "'on'|'off'");
}

#[test]
fn v3_date_formats_lower_to_date() {
    for f in ["date", "date-time"] {
        let s = schema3(|s| {
            s.schema_type = Some("string".to_string());
            s.format = Some(f.to_string());
        });
        let t = spec3::parse_schema_object_to_javascript_type(&s).unwrap();
        assert_eq!(t.to_text(), "Date");
    }
}

#[test]
fn v3_array_without_items_fails() {
    let s = schema3(|s| s.schema_type = Some("array".to_string()));
    let r = spec3::parse_schema_object_to_javascript_type(&s);
    assert!(matches!(r, Err(TranslateError::CannotConvertSchemaToArray)));
}

#[test]
fn v3_array_of_refs_lowers_to_named_array() {
    let s = schema3(|s| {
        s.schema_type = Some("array".to_string());
        s.items = Some(Box::new(spec3::ObjectOrReference::Ref(spec3::Ref {
            ref_path: "#/components/schemas/Pet".to_string(),
        })));
    });
    let t = spec3::parse_schema_object_to_javascript_type(&s).unwrap();
    assert_eq!(t.to_text(), "Pet[]");
}

#[test]
fn v3_unknown_type_is_a_hard_error() {
    let s = schema3(|s| s.schema_type = Some("mystery".to_string()));
    let r = spec3::parse_schema_object_to_javascript_type(&s);
    match r {
        Err(TranslateError::UnsupportedSchemaShape(ty)) => assert_eq!(ty, "mystery"),
        other => panic!("expected an unsupported-shape error, got {:?}", other),
    }
}

#[test]
fn v3_schema_without_type_widens_to_any() {
    let s = spec3::Schema::default();
    let t = spec3::parse_schema_object_to_javascript_type(&s).unwrap();
    assert_eq!(t.to_text(), "any");
}

#[test]
fn v3_required_fields_keep_their_marks() {
    let s = schema3(|s| {
        s.schema_type = Some("object".to_string());
        s.required = Some(vec!["a".to_string()]);
        s.properties = Some(vec![
            (
                "a".to_string(),
                spec3::ObjectOrReference::Object(schema3(|c| {
                    c.schema_type = Some("string".to_string())
                })),
            ),
            (
                "b".to_string(),
                spec3::ObjectOrReference::Object(schema3(|c| {
                    c.schema_type = Some("integer".to_string())
                })),
            ),
        ]);
    });
    let t = spec3::parse_schema_object_to_javascript_type(&s).unwrap();
    assert_eq!(t.to_text(), "{\"a\" : string;\"b\" ? : number;}");
}

#[test]
fn v3_root_reference_lowers_to_named_type() {
    let oor = spec3::ObjectOrReference::Ref(spec3::Ref {
        ref_path: "#/components/schemas/Pet".to_string(),
    });
    let (name, t) = spec3::parse_root_schema(&"Alias".to_string(), &oor).unwrap();
    assert_eq!(name, "Alias");
    assert_eq!(t.to_text(), "Pet");
}

#[test]
fn v2_anonymous_object_without_properties_is_empty_record() {
    let s = spec2::Schema::default();
    let t = spec2::convert_schema_to_anonymous_object(&s).unwrap();
    assert_eq!(t.to_text(), "{}");
}

#[test]
fn v2_root_definition_keeps_its_name() {
    let s = schema2(|s| s.schema_type = Some("boolean".to_string()));
    let (name, t) =
        spec2::parse_root_schema_object_to_javascript_construct(&"Flag".to_string(), &s).unwrap();
    assert_eq!(name, "Flag");
    assert_eq!(t.to_text(), "boolean");
}

#[test]
fn v2_use_spec2_lowers_definitions_in_order() {
    let doc = spec2::Spec2 {
        swagger: "2.0".to_string(),
        definitions: Some(vec![
            ("A".to_string(), schema2(|s| s.schema_type = Some("string".to_string()))),
            ("B".to_string(), schema2(|s| s.schema_type = Some("integer".to_string()))),
        ]),
    };
    let pairs = spec2::use_spec2(&doc).unwrap();
    let rendered: Vec<(String, String)> =
        pairs.iter().map(|(n, t)| (n.clone(), t.to_text())).collect();
    assert_eq!(
        rendered,
        vec![
            ("A".to_string(), "string".to_string()),
            ("B".to_string(), "number".to_string()),
        ]
    );
}

#[test]
fn v3_use_spec3_lowers_schemas_in_order() {
    let doc = spec3::Spec3 {
        openapi: "3.0.0".to_string(),
        components: Some(spec3::Components {
            schemas: Some(vec![
                (
                    "A".to_string(),
                    spec3::ObjectOrReference::Object(schema3(|s| {
                        s.schema_type = Some("boolean".to_string())
                    })),
                ),
                (
                    "B".to_string(),
                    spec3::ObjectOrReference::Ref(spec3::Ref {
                        ref_path: "#/components/schemas/A".to_string(),
                    }),
                ),
            ]),
        }),
    };
    let pairs = spec3::use_spec3(&doc).unwrap();
    let rendered: Vec<(String, String)> =
        pairs.iter().map(|(n, t)| (n.clone(), t.to_text())).collect();
    assert_eq!(
        rendered,
        vec![
            ("A".to_string(), "boolean".to_string()),
            ("B".to_string(), "A".to_string()),
        ]
    );
}

#[test]
fn v3_all_of_lowers_to_product() {
    let s = schema3(|s| {
        s.all_of = Some(vec![
            spec3::ObjectOrReference::Ref(spec3::Ref {
                ref_path: "#/components/schemas/A".to_string(),
            }),
            spec3::ObjectOrReference::Object(schema3(|c| {
                c.schema_type = Some("boolean".to_string())
            })),
        ]);
    });
    let t = spec3::parse_schema_object_to_javascript_type(&s).unwrap();
    assert_eq!(t.to_text(), "A&boolean");
}

#[test]
fn v3_all_of_wins_over_the_type_keyword() {
    let s = schema3(|s| {
        s.schema_type = Some("object".to_string());
        s.all_of = Some(vec![spec3::ObjectOrReference::Ref(spec3::Ref {
            ref_path: "#/components/schemas/Base".to_string(),
        })]);
    });
    let t = spec3::parse_schema_object_to_javascript_type(&s).unwrap();
    assert_eq!(t.to_text(), "Base");
}

#[test]
fn v3_bad_ref_inside_all_of_aborts() {
    let s = schema3(|s| {
        s.all_of = Some(vec![spec3::ObjectOrReference::Ref(spec3::Ref {
            ref_path: "#/definitions/A".to_string(),
        })]);
    });
    let r = spec3::parse_schema_object_to_javascript_type(&s);
    assert!(matches!(r, Err(TranslateError::InvalidReference(_))));
}
