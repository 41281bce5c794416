use diagram_store::json::JsonValue;
use diagram_store::model::{
    ClassDef, Document, Field, Multiplicity, Operation, RelationEdge, RelationKind, Visibility,
};
use diagram_store::translate::{
    document_to_json, edge_to_json, field_to_json, json_to_document, json_to_edge, json_to_field,
    json_to_multiplicity, json_to_operation,
};

fn obj(fields: Vec<(&str, JsonValue)>) -> JsonValue {
    JsonValue::Object(fields.into_iter().map(|(k, v)| (k.to_string(), v)).collect())
}

fn text(s: &str) -> JsonValue {
    JsonValue::Text(s.to_string())
}

fn get<'a>(v: &'a JsonValue, key: &str) -> &'a JsonValue {
    v.get(&key.to_string()).unwrap()
}

#[test]
fn bogus_visibility_defaults_to_non_modifier() {
    let v = obj(vec![("name", text("x")), ("type", text("int")), ("visibility", text("BOGUS"))]);
    let f = json_to_field(&v);
    assert_eq!(f.visibility, Some(Visibility::NonModifier));
}

#[test]
fn absent_visibility_is_absent_on_field_and_default_on_operation() {
    let v = obj(vec![("name", text("x")), ("type", text("int"))]);
    let f = json_to_field(&v);
    assert_eq!(f.visibility, None);
    // and the writer echoes the default name for it
    let out = field_to_json(&f);
    assert_eq!(*get(&out, "visibility"), text("NON_MODIFIER"));

    let m = json_to_operation(&obj(vec![("name", text("run"))]));
    assert_eq!(m.visibility, Visibility::NonModifier);
}

#[test]
fn composition_relation_round_trips_to_its_literal_name() {
    let v = obj(vec![
        ("target_class_id", text("c2")),
        ("relation", text("COMPOSITION")),
        ("multiplicity_p", obj(vec![("lower", JsonValue::UInt(0))])),
        ("multiplicity_c", obj(vec![("lower", JsonValue::UInt(1))])),
    ]);
    let e = json_to_edge(&v);
    assert_eq!(e.relation, RelationKind::Composition);
    let out = edge_to_json(&e);
    assert_eq!(*get(&out, "relation"), text("COMPOSITION"));
}

#[test]
fn unknown_relation_defaults_to_none() {
    let v = obj(vec![("target_class_id", text("c2")), ("relation", text("FRIENDSHIP"))]);
    let e = json_to_edge(&v);
    assert_eq!(e.relation, RelationKind::NoRelation);
}

#[test]
fn missing_fields_take_documented_defaults() {
    let d = json_to_document(&obj(vec![]));
    assert_eq!(d.id, "");
    assert_eq!(d.name, "");
    assert_eq!(d.created_at, 0);
    assert_eq!(d.last_modified, 0);
    assert!(d.classes.is_empty());
}

#[test]
fn null_multiplicity_value_reads_as_all_defaults() {
    let m = json_to_multiplicity(&JsonValue::Null);
    assert_eq!(m, Multiplicity { lower: 0, upper: None });
}

#[test]
fn is_static_absence_is_kept_distinct_from_false() {
    let f_absent = json_to_field(&obj(vec![("name", text("x")), ("type", text("t"))]));
    assert_eq!(f_absent.is_static, None);
    let f_false = json_to_field(&obj(vec![
        ("name", text("x")),
        ("type", text("t")),
        ("is_static", JsonValue::Bool(false)),
    ]));
    assert_eq!(f_false.is_static, Some(false));
    // absence goes back out as null, not false
    let out = field_to_json(&f_absent);
    assert_eq!(*get(&out, "is_static"), JsonValue::Null);
}

#[test]
fn json_document_round_trip() {
    let d = Document {
        id: "f1".to_string(),
        name: "Demo".to_string(),
        created_at: 123,
        last_modified: -5,
        classes: vec![ClassDef {
            id: "c1".to_string(),
            name: "Foo".to_string(),
            attributes: vec![Field {
                name: "x".to_string(),
                field_type: "int".to_string(),
                visibility: Some(Visibility::Private),
                is_static: None,
            }],
            methods: vec![Operation {
                name: "run".to_string(),
                return_type: "void".to_string(),
                visibility: Visibility::Protected,
                is_abstract: Some(true),
                is_static: Some(false),
                parameters: vec![Field {
                    name: "n".to_string(),
                    field_type: "long".to_string(),
                    visibility: Some(Visibility::Public),
                    is_static: Some(false),
                }],
            }],
            relations: Some(vec![RelationEdge {
                target_class_id: "c2".to_string(),
                relation: RelationKind::Aggregation,
                multiplicity_p: Some(Multiplicity { lower: 0, upper: Some(3) }),
                multiplicity_c: Some(Multiplicity { lower: 1, upper: None }),
                role_name_p: Some("parent".to_string()),
                role_name_c: None,
            }]),
        }],
    };
    let j = document_to_json(&d);
    let back = json_to_document(&j);
    assert_eq!(back, d);
}

#[test]
fn scenario_save_echoes_private_visibility() {
    // the full path of one request: JSON in, store, JSON out
    let body = obj(vec![
        ("file_id", obj(vec![("id", text("f1"))])),
        ("name", text("Demo")),
        (
            "classes",
            JsonValue::Array(vec![obj(vec![
                ("id", text("c1")),
                ("name", text("Foo")),
                (
                    "attributes",
                    JsonValue::Array(vec![obj(vec![
                        ("name", text("x")),
                        ("type", text("int")),
                        ("visibility", text("PRIVATE")),
                    ])]),
                ),
            ])]),
        ),
    ]);
    let d = json_to_document(&body);
    let mut svc = diagram_store::service::DiagramServiceImpl::new();
    let saved = svc.save_class_diagram(d);
    assert!(saved.value);
    assert!(svc.is_existing_class_diagram(&"f1".to_string()).value);

    let got = svc.get_class_diagram(&"f1".to_string()).unwrap();
    let out = document_to_json(&got);
    let classes = match get(&out, "classes") {
        JsonValue::Array(items) => items,
        _ => panic!("classes must be an array"),
    };
    let attrs = match get(&classes[0], "attributes") {
        JsonValue::Array(items) => items,
        _ => panic!("attributes must be an array"),
    };
    assert_eq!(*get(&attrs[0], "visibility"), text("PRIVATE"));
    assert_eq!(*get(&attrs[0], "is_static"), JsonValue::Null);

    assert!(svc.delete_class_diagram(&"f1".to_string()).value);
    assert_eq!(
        svc.get_class_diagram(&"f1".to_string()).unwrap_err(),
        diagram_store::error::StoreError::NotFound
    );
}
