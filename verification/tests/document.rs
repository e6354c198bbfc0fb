use lupinas_lullaby::OpenApi;
use lupinas_lullaby::error::TranslateError;
use lupinas_lullaby::spec2;
use lupinas_lullaby::spec3;
use lupinas_lullaby::use_spec;

const BANNER: &str = "// This file was generated using https://crates.io/crates/lupinas-lullaby\n";

fn pet_document() -> OpenApi {
    let name_schema = spec2::Schema {
        schema_type: Some("string".to_string()),
        ..spec2::Schema::default()
    };
    let age_schema = spec2::Schema {
        schema_type: Some("integer".to_string()),
        ..spec2::Schema::default()
    };
    let pet = spec2::Schema {
        schema_type: Some("object".to_string()),
        required: Some(vec!["name".to_string()]),
        properties: Some(vec![
            ("name".to_string(), name_schema),
            ("age".to_string(), age_schema),
        ]),
        ..spec2::Schema::default()
    };
    OpenApi::V2(spec2::Spec2 {
        swagger: "2.0".to_string(),
        definitions: Some(vec![("Pet".to_string(), pet)]),
    })
}

#[test]
fn v2_pet_document_renders_one_declaration() {
    let out = use_spec(&pet_document(), false, &vec![]).unwrap();
    let expected = format!(
        "{}export type Pet = {{\"name\" : string;\"age\" ? : number;}};",
        BANNER
    );
    assert_eq!(out, expected);
}

#[test]
fn excluding_the_only_type_leaves_only_the_banner() {
    let out = use_spec(&pet_document(), false, &vec!["Pet".to_string()]).unwrap();
    assert_eq!(out, BANNER);
}

#[test]
fn empty_record_is_omitted_only_when_asked() {
    let empty = spec2::Schema {
        schema_type: Some("object".to_string()),
        properties: Some(vec![]),
        ..spec2::Schema::default()
    };
    let doc = OpenApi::V2(spec2::Spec2 {
        swagger: "2.0".to_string(),
        definitions: Some(vec![("Empty".to_string(), empty)]),
    });

    let kept = use_spec(&doc, false, &vec![]).unwrap();
    assert_eq!(kept, format!("{}export type Empty = {{}};", BANNER));

    let skipped = use_spec(&doc, true, &vec![]).unwrap();
    assert_eq!(skipped, BANNER);
}

#[test]
fn v2_document_without_definitions_renders_only_the_banner() {
    let doc = OpenApi::V2(spec2::Spec2 { swagger: "2.0".to_string(), definitions: None });
    assert_eq!(use_spec(&doc, false, &vec![]).unwrap(), BANNER);
}

#[test]
fn v2_declarations_are_joined_by_newlines() {
    let a = spec2::Schema {
        schema_type: Some("boolean".to_string()),
        ..spec2::Schema::default()
    };
    let b = spec2::Schema {
        ref_path: Some("#/definitions/A".to_string()),
        ..spec2::Schema::default()
    };
    let doc = OpenApi::V2(spec2::Spec2 {
        swagger: "2.0".to_string(),
        definitions: Some(vec![("A".to_string(), a), ("B".to_string(), b)]),
    });
    let out = use_spec(&doc, false, &vec![]).unwrap();
    assert_eq!(
        out,
        format!("{}export type A = boolean;\nexport type B = A;", BANNER)
    );
}

#[test]
fn v3_document_renders_named_schemas() {
    let pet = spec3::Schema {
        schema_type: Some("object".to_string()),
        required: Some(vec!["name".to_string()]),
        properties: Some(vec![(
            "name".to_string(),
            spec3::ObjectOrReference::Object(spec3::Schema {
                schema_type: Some("string".to_string()),
                ..spec3::Schema::default()
            }),
        )]),
        ..spec3::Schema::default()
    };
    let doc = OpenApi::V3(spec3::Spec3 {
        openapi: "3.0.0".to_string(),
        components: Some(spec3::Components {
            schemas: Some(vec![("Pet".to_string(), spec3::ObjectOrReference::Object(pet))]),
        }),
    });
    let out = use_spec(&doc, false, &vec![]).unwrap();
    assert_eq!(
        out,
        format!("{}export type Pet = {{\"name\" : string;}};", BANNER)
    );
}

#[test]
fn v3_document_without_components_renders_only_the_banner() {
    let doc = OpenApi::V3(spec3::Spec3 { openapi: "3.0.0".to_string(), components: None });
    assert_eq!(use_spec(&doc, false, &vec![]).unwrap(), BANNER);
}

#[test]
fn v3_translation_error_aborts_the_whole_run() {
    let bad = spec3::Schema {
        schema_type: Some("array".to_string()),
        ..spec3::Schema::default()
    };
    let doc = OpenApi::V3(spec3::Spec3 {
        openapi: "3.0.0".to_string(),
        components: Some(spec3::Components {
            schemas: Some(vec![("Bad".to_string(), spec3::ObjectOrReference::Object(bad))]),
        }),
    });
    let r = use_spec(&doc, false, &vec![]);
    assert!(matches!(r, Err(TranslateError::CannotConvertSchemaToArray)));
}

#[test]
fn v2_invalid_reference_aborts_the_whole_run() {
    let bad = spec2::Schema {
        ref_path: Some("#/defs/Pet".to_string()),
        ..spec2::Schema::default()
    };
    let doc = OpenApi::V2(spec2::Spec2 {
        swagger: "2.0".to_string(),
        definitions: Some(vec![("Bad".to_string(), bad)]),
    });
    match use_spec(&doc, false, &vec![]) {
        Err(TranslateError::InvalidReference(r)) => assert_eq!(r, "#/defs/Pet"),
        other => panic!("expected an invalid-reference error, got {:?}", other),
    }
}

#[test]
fn error_descriptions_name_the_cause() {
    let e = TranslateError::InvalidReference("abc".to_string());
    assert_eq!(e.describe(), "unable to parse reference: abc");
    let e = TranslateError::CannotConvertSchemaToArray;
    assert_eq!(e.describe(), "unable to convert schema to an array type");
    let e = TranslateError::UnsupportedSchemaShape("blob".to_string());
    assert_eq!(e.describe(), "schema with unsupported type: blob");
}

#[test]
fn filters_compose_across_a_document() {
    let keep = spec2::Schema {
        schema_type: Some("boolean".to_string()),
        ..spec2::Schema::default()
    };
    let empty = spec2::Schema {
        schema_type: Some("object".to_string()),
        ..spec2::Schema::default()
    };
    let unwanted = spec2::Schema {
        ref_path: Some("#/definitions/Gone".to_string()),
        ..spec2::Schema::default()
    };
    let doc = OpenApi::V2(spec2::Spec2 {
        swagger: "2.0".to_string(),
        definitions: Some(vec![
            ("Empty".to_string(), empty),
            ("Gone".to_string(), unwanted),
            ("Keep".to_string(), keep),
        ]),
    });
    let out = use_spec(&doc, true, &vec!["Gone".to_string()]).unwrap();
    assert_eq!(out, format!("{}export type Keep = boolean;", BANNER));
}
