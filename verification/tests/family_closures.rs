use schema_next::asschema::{
    Asschema, Declaration, EnumDeclaration, EnumVariant, FieldDeclaration, ImportDeclaration, Name,
    NewtypeDeclaration, SchemaIdentity, StructDeclaration, TypeDeclaration, TypeReference,
};
use schema_next::engine::SchemaError;

fn name(text: &str) -> Name {
    Name::new(text)
}

fn plain(text: &str) -> TypeReference {
    TypeReference::Plain(name(text))
}

fn variant(label: &str, payload: Option<TypeReference>) -> EnumVariant {
    EnumVariant { name: name(label), payload }
}

fn field(label: &str, reference: TypeReference) -> FieldDeclaration {
    FieldDeclaration { name: name(label), reference }
}

fn mail_schema(namespace: Vec<Declaration>, imports: Vec<ImportDeclaration>) -> Asschema {
    let input = EnumDeclaration::new(name("Input"), vec![variant("Send", Some(plain("Letter")))]);
    let output = EnumDeclaration::new(name("Output"), vec![variant("Sent", None)]);
    Asschema::new(SchemaIdentity::new("Mail", "0.1.0"), imports, input, output, namespace)
}

fn letter() -> Declaration {
    Declaration::public(TypeDeclaration::Struct(StructDeclaration::new(
        name("Letter"),
        vec![
            field("topic", plain("Topic")),
            field("tags", TypeReference::Vector(Box::new(plain("Tag")))),
            field("sender", TypeReference::Optional(Box::new(plain("Address")))),
        ],
    )))
}

fn topic() -> Declaration {
    Declaration::private(TypeDeclaration::Newtype(NewtypeDeclaration::new(name("Topic"), TypeReference::String)))
}

fn tag() -> Declaration {
    Declaration::private(TypeDeclaration::Newtype(NewtypeDeclaration::new(name("Tag"), plain("Topic"))))
}

fn address_import() -> ImportDeclaration {
    ImportDeclaration { local_name: name("Address"), source: plain("net:mail:Address") }
}

fn names(closure: &schema_next::FamilyClosure) -> Vec<String> {
    closure.declarations().iter().map(|d| d.name().as_str().to_owned()).collect()
}

#[test]
fn closure_walks_fields_and_collections_and_comes_out_sorted() {
    let schema = mail_schema(vec![topic(), letter(), tag()], vec![address_import()]);
    let closure = schema.family_closure("Letter").expect("closure");
    assert_eq!(closure.root().as_str(), "Letter");
    assert_eq!(names(&closure), vec!["Letter", "Tag", "Topic"]);
    assert_eq!(closure.imports().len(), 1);
    assert_eq!(closure.imports()[0].local_name.as_str(), "Address");
}

#[test]
fn closure_of_a_leaf_holds_only_the_leaf() {
    let schema = mail_schema(vec![topic(), letter(), tag()], vec![address_import()]);
    let closure = schema.family_closure("Topic").expect("closure");
    assert_eq!(names(&closure), vec!["Topic"]);
    assert!(closure.imports().is_empty());
}

#[test]
fn a_root_enum_enters_as_a_public_enum() {
    let schema = mail_schema(vec![topic(), letter(), tag()], vec![address_import()]);
    let closure = schema.family_closure("Input").expect("closure");
    assert_eq!(closure.root().as_str(), "Input");
    assert_eq!(names(&closure), vec!["Input", "Letter", "Tag", "Topic"]);
    assert!(!closure.declarations()[0].is_private());
    let output = schema.family_closure("Output").expect("closure");
    assert_eq!(names(&output), vec!["Output"]);
}

#[test]
fn an_unknown_family_is_refused() {
    let schema = mail_schema(vec![topic()], Vec::new());
    match schema.family_closure("Parcel") {
        Err(SchemaError::FamilyRootNotFound { name }) => assert_eq!(name, "Parcel"),
        other => panic!("unexpected {:?}", other),
    }
}

#[test]
fn an_unresolved_reference_names_family_and_reference() {
    let schema = mail_schema(vec![topic(), letter(), tag()], Vec::new());
    match schema.family_closure("Letter") {
        Err(SchemaError::FamilyReferenceNotFound { family, name }) => {
            assert_eq!(family, "Letter");
            assert_eq!(name, "Address");
        }
        other => panic!("unexpected {:?}", other),
    }
}

#[test]
fn self_reference_terminates() {
    let node = Declaration::public(TypeDeclaration::Struct(StructDeclaration::new(
        name("Node"),
        vec![field("children", TypeReference::Vector(Box::new(plain("Node"))))],
    )));
    let schema = mail_schema(vec![node], Vec::new());
    let closure = schema.family_closure("Node").expect("closure");
    assert_eq!(names(&closure), vec!["Node"]);
}

#[test]
fn closure_does_not_depend_on_namespace_order() {
    let first = mail_schema(vec![topic(), letter(), tag()], vec![address_import()]);
    let second = mail_schema(vec![tag(), letter(), topic()], vec![address_import()]);
    assert_eq!(first.family_closure("Letter").expect("closure"), second.family_closure("Letter").expect("closure"));
}
