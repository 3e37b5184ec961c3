use schema_next::assembled::{AssembledSchema, AssembledType};
use schema_next::declaration::{DeclarationBody, Field, Variant};
use schema_next::error::Error;
use schema_next::expression::{Primitive, TypeExpression};
use schema_next::layout::{FieldLocation, Layout};
use schema_next::name::{FieldName, Name};

fn name(text: &str) -> Name {
    Name::new(text).expect("valid name")
}

fn named(text: &str) -> TypeExpression {
    TypeExpression::named(name(text))
}

fn prim(p: Primitive) -> TypeExpression {
    TypeExpression::Primitive(p)
}

fn record(fields: Vec<TypeExpression>) -> DeclarationBody {
    DeclarationBody::Record(fields.into_iter().map(Field::inferred).collect())
}

fn schema() -> AssembledSchema {
    AssembledSchema::new(
        Vec::new(),
        Vec::new(),
        vec![
            AssembledType::local(name("Point"), record(vec![prim(Primitive::Unsigned8), prim(Primitive::Unsigned16)])),
            AssembledType::local(name("Label"), DeclarationBody::Alias(prim(Primitive::String))),
            AssembledType::local(name("Wrapper"), DeclarationBody::Newtype(named("Point"))),
            AssembledType::local(name("Node"), record(vec![named("Node")])),
            AssembledType::local(name("Pair"), record(vec![named("Point"), named("Point")])),
            AssembledType::local(name("Holder"), record(vec![named("Pair"), named("Label"), named("Point")])),
            AssembledType::local(
                name("Light"),
                DeclarationBody::Enum {
                    variants: vec![
                        Variant::unit(name("Off")),
                        Variant::with_type(name("Dim"), prim(Primitive::Unsigned8)),
                    ],
                },
            ),
            AssembledType::imported(name("Remote"), name("Core")),
        ],
        Vec::new(),
    )
}

#[test]
fn fixed_width_fields_sit_at_the_root() {
    let layout = Layout::for_declaration(&schema(), &name("Point")).expect("declared");
    assert_eq!(layout.fields().len(), 2);
    assert_eq!(layout.fields()[0].name().as_str(), "unsigned8");
    assert_eq!(layout.root_positions(), vec![0, 1]);
    assert!(layout.box_positions().is_empty());
}

#[test]
fn variable_width_and_recursive_fields_are_boxed() {
    let schema = schema();
    let label = Layout::for_declaration(&schema, &name("Label")).expect("declared");
    assert_eq!(label.box_positions(), vec![0]);
    let wrapper = Layout::for_declaration(&schema, &name("Wrapper")).expect("declared");
    assert_eq!(wrapper.fields()[0].location(), FieldLocation::Root);
    assert_eq!(wrapper.fields()[0].name().as_str(), "point");
    let node = Layout::for_declaration(&schema, &name("Node")).expect("declared");
    assert_eq!(node.fields()[0].location(), FieldLocation::Box);
    let remote = Layout::for_declaration(&schema, &name("Holder")).expect("declared");
    // `Pair` enters `Point` twice in one walk, which counts as not fixed.
    assert_eq!(remote.box_positions(), vec![0, 1]);
    assert_eq!(remote.root_positions(), vec![2]);
}

#[test]
fn enums_have_no_fields_but_their_variants_do() {
    let schema = schema();
    assert!(Layout::for_declaration(&schema, &name("Light")).expect("declared").fields().is_empty());
    let dim = Layout::for_variant(&schema, &name("Light"), &name("Dim")).expect("variant");
    assert_eq!(dim.root_positions(), vec![0]);
    let off = Layout::for_variant(&schema, &name("Light"), &name("Off")).expect("variant");
    assert!(off.fields().is_empty());
}

#[test]
fn missing_declarations_and_variants_are_reported() {
    let schema = schema();
    assert_eq!(
        Layout::for_declaration(&schema, &name("Remote")),
        Err(Error::MissingDeclaration { name: name("Remote") })
    );
    assert_eq!(
        Layout::for_variant(&schema, &name("Light"), &name("Bright")),
        Err(Error::MissingVariant { declaration: name("Light"), variant: name("Bright") })
    );
    assert_eq!(
        Layout::for_variant(&schema, &name("Point"), &name("Dim")),
        Err(Error::MissingVariant { declaration: name("Point"), variant: name("Dim") })
    );
}

#[test]
fn named_fields_keep_their_names() {
    let body = DeclarationBody::Record(vec![Field::named(
        FieldName::new("count").expect("field"),
        TypeExpression::Primitive(Primitive::Unsigned32),
    )]);
    let schema = AssembledSchema::new(Vec::new(), Vec::new(), vec![AssembledType::local(name("Counter"), body)], Vec::new());
    let layout = Layout::for_declaration(&schema, &name("Counter")).expect("declared");
    assert_eq!(layout.fields()[0].name().as_str(), "count");
    assert_eq!(layout.fields()[0].position(), 0);
}
