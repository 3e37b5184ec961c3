use schema_next::declaration::{Declaration, DeclarationBody, Variant};
use schema_next::document::{Namespace, Schema};
use schema_next::error::Error;
use schema_next::expression::{Primitive, TypeExpression};
use schema_next::feature::{
    EventFeature, Feature, ObservableFeature, StorageDescriptorEntry, StorageDescriptorFeature,
};
use schema_next::header::Header;
use schema_next::import::{ImportDirective, Imports, SchemaPath};
use schema_next::name::Name;
use schema_next::upgrade::{Upgrade, UpgradeAnnotation, Version};

fn name(text: &str) -> Name {
    Name::new(text).expect("valid name")
}

fn named(text: &str) -> TypeExpression {
    TypeExpression::named(name(text))
}

fn namespace(declarations: Vec<Declaration>) -> Namespace {
    Namespace::declarations(declarations).expect("namespace")
}

fn build(imports: Imports, declarations: Vec<Declaration>, features: Vec<Feature>) -> Result<Schema, Error> {
    Schema::new(imports, Header::empty(), Header::empty(), Header::empty(), namespace(declarations), features)
}

fn letter() -> Declaration {
    Declaration::record(name("Letter"), vec![named("Topic"), TypeExpression::vector(named("Tag"))])
}

fn topic() -> Declaration {
    Declaration::newtype(name("Topic"), TypeExpression::Primitive(Primitive::String))
}

fn tag() -> Declaration {
    Declaration::alias(name("Tag"), TypeExpression::Primitive(Primitive::String))
}

fn import(binding: &str, path: &str, names: &[&str]) -> (Name, ImportDirective) {
    (name(binding), ImportDirective::import(SchemaPath::new(path), names.iter().map(|n| name(n)).collect()))
}

#[test]
fn namespaces_come_out_in_name_order_and_refuse_repeats() {
    let ns = namespace(vec![topic(), letter(), tag()]);
    let names: Vec<&str> = ns.entries().iter().map(|d| d.name().as_str()).collect();
    assert_eq!(names, vec!["Letter", "Tag", "Topic"]);
    assert_eq!(ns.len(), 3);
    assert!(ns.body(&name("Topic")).is_some());
    assert!(ns.body(&name("Missing")).is_none());
    match Namespace::declarations(vec![topic(), letter(), topic()]) {
        Err(Error::DuplicateDeclaration { name }) => assert_eq!(name.as_str(), "Topic"),
        other => panic!("unexpected {:?}", other),
    }
}

#[test]
fn a_closed_schema_is_accepted_and_keeps_its_parts() {
    let schema = build(Imports::empty(), vec![letter(), topic(), tag()], vec![Feature::Reply(vec![name("Letter")])])
        .expect("schema");
    assert!(schema.declaration_body(&name("Letter")).is_some());
    assert!(schema.declaration_body(&name("Parcel")).is_none());
    assert_eq!(schema.features().len(), 1);
    assert_eq!(schema.namespace().len(), 3);
    assert!(schema.imports().is_empty());
    assert!(schema.ordinary_header().is_empty());
}

#[test]
fn an_unknown_type_in_a_declaration_is_refused() {
    match build(Imports::empty(), vec![letter(), topic()], Vec::new()) {
        Err(Error::UnknownType { name }) => assert_eq!(name.as_str(), "Tag"),
        other => panic!("unexpected {:?}", other),
    }
}

#[test]
fn imported_names_count_as_known() {
    let imports = Imports::new(vec![import("Shared", "shared:tags", &["Tag"])]).expect("imports");
    assert!(build(imports, vec![letter(), topic()], Vec::new()).is_ok());
}

#[test]
fn an_import_of_everything_covers_declarations_but_not_features() {
    let all = || {
        Imports::new(vec![(name("Shared"), ImportDirective::import_all(SchemaPath::new("shared:tags")))])
            .expect("imports")
    };
    assert!(build(all(), vec![letter(), topic()], Vec::new()).is_ok());
    match build(all(), vec![letter(), topic()], vec![Feature::Reply(vec![name("Tag")])]) {
        Err(Error::UnknownType { name }) => assert_eq!(name.as_str(), "Tag"),
        other => panic!("unexpected {:?}", other),
    }
}

#[test]
fn an_import_may_not_shadow_a_declaration() {
    let imports = Imports::new(vec![import("Shared", "shared:tags", &["Tag"])]).expect("imports");
    match build(imports, vec![letter(), topic(), tag()], Vec::new()) {
        Err(Error::ImportCollisionWithLocal { name, binding }) => {
            assert_eq!(name.as_str(), "Tag");
            assert_eq!(binding.as_str(), "Shared");
        }
        other => panic!("unexpected {:?}", other),
    }
}

#[test]
fn imported_names_are_unique_within_and_across_bindings() {
    let twice = Imports::new(vec![import("Shared", "shared:tags", &["Tag", "Tag"])]).expect("imports");
    match build(twice, vec![topic()], Vec::new()) {
        Err(Error::DuplicateResolvedImportName { binding, name }) => {
            assert_eq!(binding.as_str(), "Shared");
            assert_eq!(name.as_str(), "Tag");
        }
        other => panic!("unexpected {:?}", other),
    }
    let across = Imports::new(vec![import("Zeta", "z:tags", &["Tag"]), import("Alpha", "a:tags", &["Tag"])])
        .expect("imports");
    match build(across, vec![topic()], Vec::new()) {
        Err(Error::DuplicateImportedName { name, first_binding, second_binding }) => {
            assert_eq!(name.as_str(), "Tag");
            assert_eq!(first_binding.as_str(), "Alpha");
            assert_eq!(second_binding.as_str(), "Zeta");
        }
        other => panic!("unexpected {:?}", other),
    }
}

#[test]
fn repeated_variants_are_refused_before_anything_else() {
    let colour = Declaration::enumeration(
        name("Colour"),
        vec![Variant::unit(name("Red")), Variant::with_type(name("Green"), named("Missing")), Variant::unit(name("Red"))],
    );
    match build(Imports::empty(), vec![colour], Vec::new()) {
        Err(Error::DuplicateVariant { declaration, variant }) => {
            assert_eq!(declaration.as_str(), "Colour");
            assert_eq!(variant.as_str(), "Red");
        }
        other => panic!("unexpected {:?}", other),
    }
}

#[test]
fn features_must_name_known_types() {
    let event = Feature::Event(EventFeature::new(None, vec![name("Letter"), name("Parcel")]));
    match build(Imports::empty(), vec![letter(), topic(), tag()], vec![event]) {
        Err(Error::UnknownType { name }) => assert_eq!(name.as_str(), "Parcel"),
        other => panic!("unexpected {:?}", other),
    }
    let observable = Feature::Observable(ObservableFeature::new(Some("all".to_owned()), None, Some(name("Effect"))));
    match build(Imports::empty(), vec![topic()], vec![observable]) {
        Err(Error::UnknownType { name }) => assert_eq!(name.as_str(), "Effect"),
        other => panic!("unexpected {:?}", other),
    }
    let upgrade = Feature::Upgrade(Upgrade::new(
        Version::new("0.1.0"),
        vec![UpgradeAnnotation::Drop(name("Gone")), UpgradeAnnotation::Migrate(name("Moved"))],
    ));
    match build(Imports::empty(), vec![topic()], vec![upgrade]) {
        Err(Error::UnknownType { name }) => assert_eq!(name.as_str(), "Moved"),
        other => panic!("unexpected {:?}", other),
    }
    let storage = Feature::StorageDescriptor(StorageDescriptorFeature::new(vec![StorageDescriptorEntry::new(
        name("Topics"),
        name("Topic"),
    )]));
    assert!(build(Imports::empty(), vec![topic()], vec![storage]).is_ok());
}

#[test]
fn variants_are_found_by_declaration_and_name() {
    let colour = Declaration::enumeration(name("Colour"), vec![Variant::unit(name("Red")), Variant::unit(name("Green"))]);
    let schema = build(Imports::empty(), vec![colour, topic()], Vec::new()).expect("schema");
    assert_eq!(schema.variant(&name("Colour"), &name("Green")).expect("variant").name().as_str(), "Green");
    match schema.variant(&name("Colour"), &name("Blue")) {
        Err(Error::MissingVariant { declaration, variant }) => {
            assert_eq!(declaration.as_str(), "Colour");
            assert_eq!(variant.as_str(), "Blue");
        }
        other => panic!("unexpected {:?}", other),
    }
    match schema.variant(&name("Topic"), &name("Red")) {
        Err(Error::MissingVariant { .. }) => {}
        other => panic!("unexpected {:?}", other),
    }
    match schema.variant(&name("Parcel"), &name("Red")) {
        Err(Error::MissingDeclaration { name }) => assert_eq!(name.as_str(), "Parcel"),
        other => panic!("unexpected {:?}", other),
    }
    assert!(matches!(schema.declaration_body(&name("Topic")), Some(DeclarationBody::Newtype(_))));
}
