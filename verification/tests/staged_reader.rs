use schema_next::assembled::Leg;
use schema_next::declaration::{DeclarationBody, Payload};
use schema_next::error::Error;
use schema_next::expression::{Container, Primitive, TypeExpression};
use schema_next::feature::Feature;
use schema_next::identify::{
    identify, identify_features, identify_header, identify_imports, identify_types,
    IdentifiedFeature, IdentifiedTypeBody, ImportKind,
};
use schema_next::lower::{
    lower_feature, lower_type_body, lower_type_expression, lower_upgrade, lower_upgrade_annotation,
    primitive,
};
use schema_next::multi_pass::{structural, NotaValue, Span};
use schema_next::upgrade::UpgradeAnnotation;

fn span() -> Span {
    Span::empty()
}

fn id(text: &str) -> NotaValue {
    NotaValue::Identifier(text.to_string(), span())
}

fn text(value: &str) -> NotaValue {
    NotaValue::String(value.to_string(), span())
}

fn record(items: Vec<NotaValue>) -> NotaValue {
    NotaValue::Record(items, span())
}

fn list(items: Vec<NotaValue>) -> NotaValue {
    NotaValue::List(items, span())
}

fn map(entries: Vec<(&str, NotaValue)>) -> NotaValue {
    NotaValue::Mapping(entries.into_iter().map(|(k, v)| (k.to_string(), v)).collect(), span())
}

fn message_of<T: std::fmt::Debug>(result: Result<T, Error>) -> (String, String) {
    match result {
        Err(Error::InvalidSchemaText { context, message }) => (context.to_string(), message),
        other => panic!("expected InvalidSchemaText, got {other:?}"),
    }
}

fn document() -> NotaValue {
    record(vec![
        map(vec![("Core", record(vec![id("ImportAll"), text("core.schema")]))]),
        list(vec![record(vec![id("Request"), list(vec![id("Move")])])]),
        list(vec![]),
        list(vec![]),
        map(vec![
            ("Request", list(vec![record(vec![id("Move"), id("Point")])])),
            ("Point", record(vec![id("u8"), id("u8")])),
            ("Label", id("String")),
        ]),
        list(vec![record(vec![id("Reply"), id("Done")])]),
    ])
}

#[test]
fn structural_stage_takes_six_positions() {
    let doc = structural(document()).expect("six positions");
    assert_eq!(doc.imports.kind_name(), "map");
    assert_eq!(doc.features.kind_name(), "list");
    let (context, message) = message_of(structural(list(vec![])));
    assert_eq!(context, "pass2");
    assert_eq!(message, "expected 6-position schema document (synthesised record), got list");
    let misplaced = record(vec![list(vec![]), list(vec![]), list(vec![]), list(vec![]), map(vec![]), list(vec![])]);
    let (_, message) = message_of(structural(misplaced));
    assert_eq!(message, "position `imports` expected map, got list");
}

#[test]
fn identification_classifies_every_position() {
    let doc = structural(document()).expect("six positions");
    let identified = identify(&doc).expect("identifies");
    assert_eq!(identified.imports.len(), 1);
    assert_eq!(identified.imports[0].binding, "Core");
    assert_eq!(identified.imports[0].kind, ImportKind::ImportAll);
    assert_eq!(identified.imports[0].path, "core.schema");
    assert_eq!(identified.ordinary_routes[0].root, "Request");
    assert_eq!(identified.ordinary_routes[0].endpoints, vec!["Move".to_string()]);
    assert_eq!(identified.ordinary_routes[0].leg, Leg::Ordinary);
    assert_eq!(identified.types.len(), 3);
    assert!(matches!(identified.types[0].body, IdentifiedTypeBody::Enum(_)));
    assert!(matches!(identified.types[1].body, IdentifiedTypeBody::Record(_)));
    assert!(matches!(identified.types[2].body, IdentifiedTypeBody::Alias(_)));
    assert_eq!(identified.name_table.locals, vec!["Request", "Point", "Label"]);
    assert_eq!(identified.name_table.imported_bindings, vec!["Core"]);
    assert_eq!(identified.features, vec![IdentifiedFeature::Reply(vec!["Done".to_string()])]);
}

#[test]
fn identification_refuses_duplicates_and_bad_shapes() {
    let (context, message) = message_of(identify_imports(&map(vec![
        ("Core", record(vec![id("ImportAll"), id("a")])),
        ("Core", record(vec![id("ImportAll"), id("b")])),
    ])));
    assert_eq!(context, "pass3 imports");
    assert_eq!(message, "duplicate import binding `Core`");
    let (_, message) = message_of(identify_imports(&map(vec![("Core", record(vec![id("Import"), id("a")]))])));
    assert_eq!(message, "`Import` for binding `Core` expected 3 positions, got 2");
    let (_, message) = message_of(identify_imports(&map(vec![("Core", record(vec![id("Fetch"), id("a")]))])));
    assert_eq!(message, "unknown import directive `Fetch` for `Core`");
    let (context, message) = message_of(identify_imports(&map(vec![("Core", record(vec![id("ImportAll"), list(vec![])]))])));
    assert_eq!((context.as_str(), message.as_str()), ("pass3", "expected identifier or string for path, got list"));
    let (_, message) = message_of(identify_header(&map(vec![]), Leg::Owner));
    assert_eq!(message, "header for Owner must be a list");
    let (_, message) = message_of(identify_header(&list(vec![record(vec![id("Root"), list(vec![text("x")])])]), Leg::Sema));
    assert_eq!(message, "endpoints under `Root` must be identifiers, got string");
    let (_, message) = message_of(identify_types(&map(vec![("Empty", record(vec![]))])));
    assert_eq!(message, "namespace record `Empty` must carry at least one type expression");
    let (_, message) = message_of(identify_types(&map(vec![("Odd", NotaValue::Integer(3, span()))])));
    assert_eq!(message, "namespace value `Odd` has unsupported shape integer");
    let (_, message) = message_of(identify_features(&list(vec![record(vec![id("Telemetry")])])));
    assert_eq!(message, "unknown feature `Telemetry`");
    let doubled = record(vec![
        map(vec![]),
        list(vec![]),
        list(vec![]),
        list(vec![]),
        map(vec![("Point", id("String")), ("Point", id("String"))]),
        list(vec![]),
    ]);
    let (context, message) = message_of(identify(&structural(doubled).expect("six")));
    assert_eq!((context.as_str(), message.as_str()), ("pass3 name collection", "duplicate declaration `Point`"));
}

#[test]
fn event_and_observable_features_read_their_fields() {
    let features = identify_features(&list(vec![
        record(vec![id("Event"), record(vec![id("belongs"), id("Stream")]), id("Opened"), id("Closed")]),
        record(vec![
            id("Observable"),
            record(vec![id("filter"), id("all")]),
            record(vec![id("effect_event"), id("Changed")]),
        ]),
    ]))
    .expect("identifies");
    assert_eq!(
        features[0],
        IdentifiedFeature::Event {
            stream: Some("Stream".to_string()),
            events: vec!["Opened".to_string(), "Closed".to_string()]
        }
    );
    assert_eq!(
        features[1],
        IdentifiedFeature::Observable {
            filter: Some("all".to_string()),
            operation_event: None,
            effect_event: Some("Changed".to_string())
        }
    );
    let (_, message) = message_of(identify_features(&list(vec![record(vec![
        id("Observable"),
        record(vec![id("colour"), id("red")]),
    ])])));
    assert_eq!(message, "unknown Observable field `colour`");
}

#[test]
fn type_expressions_lower_to_primitives_names_and_containers() {
    assert_eq!(lower_type_expression(&id("u32")).expect("primitive"), TypeExpression::Primitive(Primitive::Unsigned32));
    assert!(primitive("Date").is_some());
    assert!(primitive("Datetime").is_none());
    let vector = lower_type_expression(&record(vec![id("Vec"), id("Topic")])).expect("vector");
    match vector {
        TypeExpression::Container(Container::Vector(inner)) => {
            assert!(matches!(*inner, TypeExpression::Named(ref n) if n.as_str() == "Topic"))
        }
        other => panic!("expected a vector, got {other:?}"),
    }
    let map_expr = lower_type_expression(&record(vec![id("Map"), id("String"), record(vec![id("Option"), id("u8")])])).expect("map");
    assert!(matches!(map_expr, TypeExpression::Container(Container::Mapping { .. })));
    assert_eq!(
        lower_type_expression(&id("topic")),
        Err(Error::InvalidName { name: "topic".to_string() })
    );
    let (_, message) = message_of(lower_type_expression(&list(vec![id("Topic")])));
    assert_eq!(message, "list shape `[T]` is not a valid container — use `(Vec T)`");
    let (_, message) = message_of(lower_type_expression(&record(vec![id("Set"), id("Topic")])));
    assert_eq!(message, "unknown container `Set`");
    let (_, message) = message_of(lower_type_expression(&record(vec![id("Map"), id("Topic")])));
    assert_eq!(message, "Map needs key and value expressions");
    let (_, message) = message_of(lower_type_expression(&NotaValue::Integer(1, span())));
    assert_eq!(message, "cannot interpret integer as a type expression");
}

#[test]
fn type_bodies_lower_variants_and_fields() {
    let doc = structural(document()).expect("six positions");
    let identified = identify(&doc).expect("identifies");
    match lower_type_body(&identified.types[0].body).expect("enum") {
        DeclarationBody::Enum { variants } => {
            assert_eq!(variants.len(), 1);
            assert_eq!(variants[0].name().as_str(), "Move");
            assert!(matches!(variants[0].payload(), Payload::Type(_)));
        }
        other => panic!("expected enum, got {other:?}"),
    }
    match lower_type_body(&identified.types[1].body).expect("record") {
        DeclarationBody::Record(fields) => assert_eq!(fields.len(), 2),
        other => panic!("expected record, got {other:?}"),
    }
    assert!(matches!(lower_type_body(&identified.types[2].body).expect("alias"), DeclarationBody::Alias(_)));
}

#[test]
fn upgrades_lower_their_version_and_annotations() {
    let upgrade = lower_upgrade(&record(vec![
        id("Upgrade"),
        record(vec![id("FromVersion"), text("1.2.0")]),
        record(vec![id("RenamedFrom"), id("Light"), id("Lamp")]),
        record(vec![id("Drop"), id("Old")]),
    ]))
    .expect("lowers");
    assert_eq!(upgrade.version().as_str(), "1.2.0");
    assert_eq!(upgrade.annotations().len(), 2);
    assert!(matches!(upgrade.annotations()[0], UpgradeAnnotation::RenamedFrom { .. }));
    let (context, message) = message_of(lower_upgrade(&record(vec![id("Upgrade")])));
    assert_eq!((context.as_str(), message.as_str()), ("pass4 upgrade", "Upgrade requires FromVersion"));
    let (_, message) = message_of(lower_upgrade_annotation(&record(vec![id("Custom"), id("Name")])));
    assert_eq!(message, "Custom needs implementation");
    let (_, message) = message_of(lower_upgrade_annotation(&record(vec![id("Rewrite"), id("Name")])));
    assert_eq!(message, "unknown upgrade annotation `Rewrite`");
    assert_eq!(
        lower_upgrade_annotation(&record(vec![id("Migrate"), id("lower")])),
        Err(Error::InvalidName { name: "lower".to_string() })
    );
}

#[test]
fn features_lower_with_checked_names() {
    let reply = lower_feature(&IdentifiedFeature::Reply(vec!["Done".to_string()])).expect("reply");
    assert!(matches!(reply, Feature::Reply(ref names) if names.len() == 1));
    assert_eq!(
        lower_feature(&IdentifiedFeature::Reply(vec!["done".to_string()])),
        Err(Error::InvalidName { name: "done".to_string() })
    );
    let observable = lower_feature(&IdentifiedFeature::Observable {
        filter: Some("all".to_string()),
        operation_event: Some("Op".to_string()),
        effect_event: None,
    })
    .expect("observable");
    match observable {
        Feature::Observable(o) => {
            assert_eq!(o.filter(), Some("all"));
            assert_eq!(o.operation_event().expect("op").as_str(), "Op");
            assert!(o.effect_event().is_none());
        }
        other => panic!("expected observable, got {other:?}"),
    }
}
