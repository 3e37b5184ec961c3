use schema_next::declaration::{DeclarationBody, Field, Variant};
use schema_next::error::Error;
use schema_next::expression::{Primitive, TypeExpression};
use schema_next::name::{FieldName, ModuleName, Name};
use schema_next::nota_reader::{AssembledNotaSchema, AssembledNotaType, NotaReaderRustEmitter};

fn name(text: &str) -> Name {
    Name::new(text).expect("valid name")
}

fn module(types: Vec<AssembledNotaType>) -> AssembledNotaSchema {
    AssembledNotaSchema::new(ModuleName::new("mail").expect("module"), types)
}

fn emit(types: Vec<AssembledNotaType>) -> String {
    NotaReaderRustEmitter::emit_module(&module(types)).expect("emitted")
}

#[test]
fn a_newtype_module_is_emitted_exactly() {
    let topic = AssembledNotaType::new(name("Topic"), DeclarationBody::Newtype(TypeExpression::Primitive(Primitive::String)));
    let expected = "pub mod mail {\n    use nota_codec::{Decoder, NotaDecode, Result};\n\n\
#[derive(Clone, Debug, PartialEq, Eq)]\n\
pub struct Topic(pub String);\n\n\
impl NotaDecode for Topic {\n\
\x20   fn decode(decoder: &mut Decoder<'_>) -> Result<Self> {\n\
\x20       Ok(Self(<String as NotaDecode>::decode(decoder)?))\n\
\x20   }\n\
}\n\
\n\
}\n";
    assert_eq!(emit(vec![topic]), expected);
}

#[test]
fn records_declare_read_and_build_each_field() {
    let letter = AssembledNotaType::new(
        name("Letter"),
        DeclarationBody::Record(vec![
            Field::inferred(TypeExpression::named(name("Topic"))),
            Field::inferred(TypeExpression::vector(TypeExpression::named(name("Tag")))),
            Field::named(FieldName::new("sent").expect("field"), TypeExpression::Primitive(Primitive::Date)),
        ]),
    );
    let expected = "#[derive(Clone, Debug, PartialEq, Eq)]\n\
pub struct Letter {\n\
\x20   pub topic: Topic,\n\
\x20   pub tag: Vec<Tag>,\n\
\x20   pub sent: (u16, u8, u8),\n\
}\n\n\
impl NotaDecode for Letter {\n\
\x20   fn decode(decoder: &mut Decoder<'_>) -> Result<Self> {\n\
\x20       decoder.expect_positional_record_start(\"Letter\", 3)?;\n\
\x20       let topic = <Topic as NotaDecode>::decode(decoder)?;\n\
\x20       let tag = <Vec<Tag> as NotaDecode>::decode(decoder)?;\n\
\x20       let sent = decoder.read_date()?;\n\
\x20       decoder.expect_record_end()?;\n\
\x20       Ok(Self {\n\
\x20           topic,\n\
\x20           tag,\n\
\x20           sent,\n\
\x20       })\n\
\x20   }\n\
}\n";
    let output = emit(vec![letter]);
    assert!(output.contains(expected), "{output}");
}

#[test]
fn enums_read_data_variants_as_records_and_unit_variants_as_names() {
    let colour = AssembledNotaType::new(
        name("Colour"),
        DeclarationBody::Enum {
            variants: vec![
                Variant::unit(name("Red")),
                Variant::with_type(name("Custom"), TypeExpression::Primitive(Primitive::Unsigned32)),
            ],
        },
    );
    let expected = "#[derive(Clone, Debug, PartialEq, Eq)]\n\
pub enum Colour {\n\
\x20   Red,\n\
\x20   Custom(u32),\n\
}\n\n\
impl NotaDecode for Colour {\n\
\x20   fn decode(decoder: &mut Decoder<'_>) -> Result<Self> {\n\
\x20       if decoder.peek_is_record_start()? {\n\
\x20           let variant = decoder.peek_record_head()?;\n\
\x20           match variant.as_str() {\n\
\x20               \"Red\" => Err(nota_codec::Error::UnitVariantInRecordForm { enum_name: \"Colour\", variant: \"Red\" }),\n\
\x20               \"Custom\" => {\n\
\x20                   decoder.expect_record_head(\"Custom\")?;\n\
\x20                   let custom = <u32 as NotaDecode>::decode(decoder)?;\n\
\x20                   decoder.expect_record_end()?;\n\
\x20                   Ok(Self::Custom(custom))\n\
\x20               }\n\
\x20               _ => Err(nota_codec::Error::UnknownVariant { enum_name: \"Colour\", got: variant }),\n\
\x20           }\n\
\x20       } else {\n\
\x20           let variant = decoder.read_pascal_identifier()?;\n\
\x20           match variant.as_str() {\n\
\x20               \"Red\" => Ok(Self::Red),\n\
\x20               \"Custom\" => Err(nota_codec::Error::DataVariantWithoutRecord { enum_name: \"Colour\", variant: \"Custom\" }),\n\
\x20               _ => Err(nota_codec::Error::UnknownVariant { enum_name: \"Colour\", got: variant }),\n\
\x20           }\n\
\x20       }\n\
\x20   }\n\
}\n";
    let output = emit(vec![colour]);
    assert!(output.contains(expected), "{output}");
}

#[test]
fn aliases_and_containers_render_as_rust_types() {
    let alias = AssembledNotaType::new(
        name("Index"),
        DeclarationBody::Alias(TypeExpression::map(
            TypeExpression::Primitive(Primitive::String),
            TypeExpression::optional(TypeExpression::Primitive(Primitive::Bytes)),
        )),
    );
    let output = emit(vec![alias]);
    assert!(output.contains("pub type Index = ::std::collections::BTreeMap<String, Option<Vec<u8>>>;\n"), "{output}");
    let time = AssembledNotaType::new(name("At"), DeclarationBody::Newtype(TypeExpression::Primitive(Primitive::Time)));
    let output = emit(vec![time]);
    assert!(output.contains("pub struct At(pub (u8, u8, u8));\n"));
    assert!(output.contains("        Ok(Self(decoder.read_time()?))\n"));
}

#[test]
fn variants_with_named_fields_are_refused() {
    let shape = AssembledNotaType::new(
        name("Shape"),
        DeclarationBody::Enum {
            variants: vec![
                Variant::unit(name("Point")),
                Variant::with_fields(name("Circle"), vec![TypeExpression::Primitive(Primitive::Unsigned32)]),
            ],
        },
    );
    match NotaReaderRustEmitter::emit_module(&module(vec![shape])) {
        Err(Error::InvalidSchemaText { context, message }) => {
            assert_eq!(context, "nota reader rust emitter");
            assert!(message.starts_with("enum variant `Shape.Circle` uses field payloads"), "{message}");
        }
        other => panic!("unexpected {:?}", other),
    }
}

#[test]
fn an_empty_module_holds_only_its_imports() {
    assert_eq!(emit(Vec::new()), "pub mod mail {\n    use nota_codec::{Decoder, NotaDecode, Result};\n\n}\n");
    let schema = module(Vec::new());
    assert_eq!(schema.module().as_str(), "mail");
    assert!(schema.types().is_empty());
}
