use schema_next::declaration::{Declaration, DeclarationBody, Engine, Field, Payload, Variant};
use schema_next::error::Error;
use schema_next::expression::{Primitive, TypeExpression};
use schema_next::header::{Header, HeaderRoot};
use schema_next::import::{
    ImportBinding, ImportDirective, ImportResolution, ImportedNames, Imports, SchemaPath,
};
use schema_next::name::{FieldName, ModuleName, Name, QualifiedName};

fn name(text: &str) -> Name {
    Name::new(text).expect("valid name")
}

#[test]
fn pascal_names_are_accepted_and_others_refused() {
    assert_eq!(name("MoveRequest").as_str(), "MoveRequest");
    assert!(Name::new("A1").is_ok());
    assert_eq!(
        Name::new("moveRequest"),
        Err(Error::InvalidName { name: "moveRequest".to_string() })
    );
    assert!(Name::new("").is_err());
    assert!(Name::new("Move-Request").is_err());
    assert!(Name::new("Move_Request").is_err());
}

#[test]
fn field_and_module_names_follow_their_rules() {
    assert_eq!(FieldName::new("field_1").expect("valid").as_str(), "field_1");
    assert_eq!(
        FieldName::new("Field"),
        Err(Error::InvalidFieldName { name: "Field".to_string() })
    );
    assert_eq!(ModuleName::new("schema_core").expect("valid").as_str(), "schema_core");
    assert_eq!(
        ModuleName::new("schemaCore"),
        Err(Error::InvalidModuleName { name: "schemaCore".to_string() })
    );
    assert!(ModuleName::new("_x").is_err());
}

#[test]
fn module_name_comes_from_the_schema_file_stem() {
    let module = ModuleName::from_schema_path("schema/spirit-recorder.schema").expect("stem");
    assert_eq!(module.as_str(), "spirit_recorder");
    assert_eq!(
        ModuleName::from_schema_path(""),
        Err(Error::InvalidModuleName { name: String::new() })
    );
    assert_eq!(
        ModuleName::from_schema_path("schema/Upper.schema"),
        Err(Error::InvalidModuleName { name: "Upper".to_string() })
    );
}

#[test]
fn qualified_names_keep_module_and_name() {
    let qualified =
        QualifiedName::new(ModuleName::new("mail").expect("module"), name("Magnitude"));
    assert_eq!(qualified.module().as_str(), "mail");
    assert_eq!(qualified.name().as_str(), "Magnitude");
}

#[test]
fn derived_field_names_follow_the_type() {
    let named = TypeExpression::named(name("TopicName"));
    assert_eq!(named.derived_field_name().as_str(), "topic_name");
    let vector = TypeExpression::vector(TypeExpression::named(name("MoveRequest")));
    assert_eq!(vector.derived_field_name().as_str(), "move_request");
    let optional = TypeExpression::optional(TypeExpression::Primitive(Primitive::Unsigned8));
    assert_eq!(optional.derived_field_name().as_str(), "unsigned8");
    let map = TypeExpression::map(
        TypeExpression::Primitive(Primitive::String),
        TypeExpression::named(name("Topic")),
    );
    assert_eq!(map.derived_field_name().as_str(), "map");
    assert_eq!(Primitive::Date.derived_field_name().as_str(), "date");
}

#[test]
fn only_strings_and_bytes_have_no_fixed_width() {
    assert!(!Primitive::String.is_fixed_width());
    assert!(!Primitive::Bytes.is_fixed_width());
    assert!(Primitive::Unsigned64.is_fixed_width());
    assert!(Primitive::Boolean.is_fixed_width());
}

#[test]
fn storage_matching_ignores_field_names_but_not_types() {
    let current = DeclarationBody::Record(vec![Field::named(
        FieldName::new("count").expect("field"),
        TypeExpression::Primitive(Primitive::Unsigned32),
    )]);
    let previous =
        DeclarationBody::Record(vec![Field::inferred(TypeExpression::Primitive(Primitive::Unsigned32))]);
    assert!(current.storage_matches(&previous));
    let wider =
        DeclarationBody::Record(vec![Field::inferred(TypeExpression::Primitive(Primitive::Unsigned64))]);
    assert!(!current.storage_matches(&wider));
    let alias = DeclarationBody::Alias(TypeExpression::Primitive(Primitive::Unsigned32));
    assert!(!alias.storage_matches(&current));
}

#[test]
fn storage_matching_compares_variant_names_payloads_and_engines() {
    let plain = DeclarationBody::Enum {
        variants: vec![Variant::unit(name("Open")), Variant::with_type(name("Close"), TypeExpression::named(name("Reason")))],
    };
    let same = DeclarationBody::Enum {
        variants: vec![Variant::unit(name("Open")), Variant::with_type(name("Close"), TypeExpression::named(name("Reason")))],
    };
    assert!(plain.storage_matches(&same));
    assert!(same.storage_matches(&plain));
    let engined = DeclarationBody::Enum {
        variants: vec![
            Variant::unit(name("Open")).with_engine(Engine::Assert),
            Variant::with_type(name("Close"), TypeExpression::named(name("Reason"))),
        ],
    };
    assert!(!plain.storage_matches(&engined));
    let renamed = DeclarationBody::Enum {
        variants: vec![Variant::unit(name("Opened")), Variant::with_type(name("Close"), TypeExpression::named(name("Reason")))],
    };
    assert!(!plain.storage_matches(&renamed));
    let shorter = DeclarationBody::Enum { variants: vec![Variant::unit(name("Open"))] };
    assert!(!plain.storage_matches(&shorter));
}

#[test]
fn storage_matching_is_reflexive_on_examples() {
    let body = DeclarationBody::Record(vec![
        Field::inferred(TypeExpression::vector(TypeExpression::named(name("Topic")))),
        Field::inferred(TypeExpression::Primitive(Primitive::Time)),
    ]);
    assert!(body.storage_matches(&body));
    let variant = Variant::with_fields(name("Moved"), vec![TypeExpression::Primitive(Primitive::Date)]);
    assert!(variant.storage_matches(&variant));
    assert!(Payload::Unit.storage_matches(&Payload::Unit));
}

#[test]
fn declarations_keep_name_and_body() {
    let record = Declaration::record(name("Point"), vec![TypeExpression::Primitive(Primitive::Unsigned8)]);
    assert_eq!(record.name().as_str(), "Point");
    match record.body() {
        DeclarationBody::Record(fields) => {
            assert_eq!(fields.len(), 1);
            assert!(fields[0].name().is_none());
        }
        other => panic!("expected a record, got {other:?}"),
    }
    let newtype = Declaration::newtype(name("Count"), TypeExpression::Primitive(Primitive::Unsigned16));
    assert!(matches!(newtype.body(), DeclarationBody::Newtype(_)));
    let alias = Declaration::alias(name("Label"), TypeExpression::Primitive(Primitive::String));
    assert!(matches!(alias.body(), DeclarationBody::Alias(_)));
    let enumeration = Declaration::enumeration(name("Light"), vec![Variant::unit(name("On"))]);
    assert!(matches!(enumeration.body(), DeclarationBody::Enum { .. }));
}

#[test]
fn header_roots_must_be_unique() {
    let first = HeaderRoot::new(name("Request"), vec![name("Move")]).expect("root");
    let second = HeaderRoot::new(name("Request"), vec![name("Read")]).expect("root");
    assert_eq!(
        Header::new(vec![first.clone(), second]),
        Err(Error::DuplicateHeaderRoot { name: name("Request") })
    );
    let other = HeaderRoot::new(name("Reply"), vec![name("Done")]).expect("root");
    let header = Header::new(vec![first, other]).expect("unique roots");
    assert_eq!(header.roots().len(), 2);
    assert!(!header.is_empty());
    assert!(Header::empty().is_empty());
    assert!(Header::default().is_empty());
}

#[test]
fn header_roots_need_distinct_endpoints() {
    assert_eq!(
        HeaderRoot::new(name("Request"), vec![]),
        Err(Error::EmptyHeaderRoot { name: name("Request") })
    );
    assert_eq!(
        HeaderRoot::new(name("Request"), vec![name("Move"), name("Read"), name("Move")]),
        Err(Error::DuplicateHeaderEndpoint { root: name("Request"), endpoint: name("Move") })
    );
    let root = HeaderRoot::new(name("Request"), vec![name("Move"), name("Read")]).expect("root");
    assert_eq!(root.name().as_str(), "Request");
    assert_eq!(root.endpoints().len(), 2);
}

#[test]
fn imports_come_out_in_binding_order() {
    let imports = Imports::new(vec![
        (name("Mail"), ImportDirective::import_all(SchemaPath::new("mail.schema"))),
        (
            name("Core"),
            ImportDirective::import(SchemaPath::new("core.schema"), vec![name("Topic")]),
        ),
    ])
    .expect("distinct bindings");
    let bindings: Vec<&str> = imports.entries().iter().map(|(binding, _)| binding.as_str()).collect();
    assert_eq!(bindings, vec!["Core", "Mail"]);
    assert_eq!(
        imports.directive(&name("Mail")).expect("bound").path().as_str(),
        "mail.schema"
    );
    assert!(imports.directive(&name("Other")).is_none());
    assert!(!imports.is_empty());
    assert!(Imports::empty().is_empty());
}

#[test]
fn duplicate_import_bindings_are_refused() {
    let result = Imports::new(vec![
        (name("Core"), ImportDirective::import_all(SchemaPath::new("a.schema"))),
        (name("Core"), ImportDirective::import_all(SchemaPath::new("b.schema"))),
    ]);
    assert_eq!(result, Err(Error::DuplicateImportBinding { binding: name("Core") }));
}

#[test]
fn resolved_import_names_are_unique() {
    assert_eq!(
        ImportResolution::new(name("Core"), vec![name("Topic"), name("Topic")]),
        Err(Error::DuplicateResolvedImportName { binding: name("Core"), name: name("Topic") })
    );
    let resolution = ImportResolution::new(name("Core"), vec![name("Topic"), name("Kind")]).expect("unique");
    assert_eq!(resolution.binding().as_str(), "Core");
    assert_eq!(resolution.names().len(), 2);
    let binding = ImportBinding::new(
        name("Core"),
        SchemaPath::new("core.schema"),
        ImportedNames::Selected(vec![name("Topic")]),
    );
    assert_eq!(binding.names().names().len(), 1);
    assert_eq!(binding.path().as_str(), "core.schema");
}
