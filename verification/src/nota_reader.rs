//! Rust source for reading a schema's types from NOTA: for each type of
//! an assembled namespace, the Rust type and its `NotaDecode` impl, all
//! inside one module named after the schema module.
use vstd::prelude::*;
use crate::declaration::{
    BodyModel, DeclarationBody, Field, FieldModel, Payload, PayloadModel, Variant, VariantModel,
    field_models, variant_models,
};
use crate::error::Error;
use crate::expression::{
    Container, ExpressionModel, Primitive, TypeExpression, derived_field_name_spec,
};
use crate::name::{ModuleName, Name, is_upper_char, lower_char, lower_of};
use crate::text::{decimal_spec, decimal_text, digit_char, push_char, string_of};

verus! {

// ── Types ───────────────────────────────────────────────────────────

/// One type of an assembled namespace: its name and body.
#[derive(Debug, PartialEq, Eq)]
pub struct AssembledNotaType {
    name: Name,
    body: DeclarationBody,
}

/// The types of one schema module, in namespace order.
#[derive(Debug, PartialEq, Eq)]
pub struct AssembledNotaSchema {
    module: ModuleName,
    types: Vec<AssembledNotaType>,
}

/// A type as its name and body.
pub struct TypeModel {
    pub name: Seq<char>,
    pub body: BodyModel,
}

pub open spec fn type_model_of(t: AssembledNotaType) -> TypeModel {
    TypeModel { name: t.name_text(), body: t.body_model() }
}

pub open spec fn type_models(ts: Seq<AssembledNotaType>) -> Seq<TypeModel> {
    Seq::new(ts.len(), |i: int| type_model_of(ts[i]))
}

impl AssembledNotaType {
    pub closed spec fn name_text(&self) -> Seq<char> {
        self.name.text()
    }

    pub closed spec fn body_model(&self) -> BodyModel {
        self.body.model()
    }

    pub fn new(name: Name, body: DeclarationBody) -> (r: Self)
        ensures
            r.name_text() == name.text(),
            r.body_model() == body.model(),
    {
        AssembledNotaType { name, body }
    }

    pub fn name(&self) -> (r: &Name)
        ensures
            r.text() == self.name_text(),
    {
        &self.name
    }

    pub fn body(&self) -> (r: &DeclarationBody)
        ensures
            r.model() == self.body_model(),
    {
        &self.body
    }
}

impl AssembledNotaSchema {
    pub closed spec fn module_text(&self) -> Seq<char> {
        self.module.text()
    }

    pub closed spec fn type_list(&self) -> Seq<TypeModel> {
        type_models(self.types@)
    }

    pub fn new(module: ModuleName, types: Vec<AssembledNotaType>) -> (r: Self)
        ensures
            r.module_text() == module.text(),
            r.type_list() == type_models(types@),
    {
        AssembledNotaSchema { module, types }
    }

    pub fn module(&self) -> (r: &ModuleName)
        ensures
            r.text() == self.module_text(),
    {
        &self.module
    }

    pub fn types(&self) -> (r: &[AssembledNotaType])
        ensures
            type_models(r@) == self.type_list(),
    {
        self.types.as_slice()
    }
}

// ── Rust types ──────────────────────────────────────────────────────

pub open spec fn primitive_rust(p: Primitive) -> Seq<char> {
    match p {
        Primitive::String => "String"@,
        Primitive::Bytes => "Vec<u8>"@,
        Primitive::Boolean => "bool"@,
        Primitive::Unsigned8 => "u8"@,
        Primitive::Unsigned16 => "u16"@,
        Primitive::Unsigned32 => "u32"@,
        Primitive::Unsigned64 => "u64"@,
        Primitive::Date => "(u16, u8, u8)"@,
        Primitive::Time => "(u8, u8, u8)"@,
    }
}

/// The Rust type a type expression reads as.
pub open spec fn rust_type_of(e: ExpressionModel) -> Seq<char>
    decreases e,
{
    match e {
        ExpressionModel::Primitive(p) => primitive_rust(p),
        ExpressionModel::Named(n) => n,
        ExpressionModel::Vector(inner) => "Vec<"@ + rust_type_of(*inner) + ">"@,
        ExpressionModel::Optional(inner) => "Option<"@ + rust_type_of(*inner) + ">"@,
        ExpressionModel::Mapping(k, v) => "::std::collections::BTreeMap<"@ + rust_type_of(*k) + ", "@
            + rust_type_of(*v) + ">"@,
    }
}

/// The Rust expression that reads a value of the type from `decoder`:
/// dates and times by their own reads, everything else through its
/// `NotaDecode` impl.
pub open spec fn decode_of(e: ExpressionModel, decoder: Seq<char>) -> Seq<char> {
    match e {
        ExpressionModel::Primitive(Primitive::Date) => decoder + ".read_date()?"@,
        ExpressionModel::Primitive(Primitive::Time) => decoder + ".read_time()?"@,
        _ => "<"@ + rust_type_of(e) + " as NotaDecode>::decode("@ + decoder + ")?"@,
    }
}

impl Primitive {
    pub fn rust_type(self) -> (r: &'static str)
        ensures
            r@ == primitive_rust(self),
    {
        match self {
            Primitive::String => "String",
            Primitive::Bytes => "Vec<u8>",
            Primitive::Boolean => "bool",
            Primitive::Unsigned8 => "u8",
            Primitive::Unsigned16 => "u16",
            Primitive::Unsigned32 => "u32",
            Primitive::Unsigned64 => "u64",
            Primitive::Date => "(u16, u8, u8)",
            Primitive::Time => "(u8, u8, u8)",
        }
    }
}

fn rust_type(expression: &TypeExpression) -> (r: String)
    ensures
        r@ == rust_type_of(expression.model()),
    decreases expression,
{
    match expression {
        TypeExpression::Primitive(p) => string_of(p.rust_type()),
        TypeExpression::Named(name) => string_of(name.as_str()),
        TypeExpression::Container(container) => match container {
            Container::Vector(inner) => {
                let mut out = string_of("Vec<");
                out.append(rust_type(inner).as_str());
                out.append(">");
                out
            },
            Container::Optional(inner) => {
                let mut out = string_of("Option<");
                out.append(rust_type(inner).as_str());
                out.append(">");
                out
            },
            Container::Mapping { key, value } => {
                let mut out = string_of("::std::collections::BTreeMap<");
                out.append(rust_type(key).as_str());
                out.append(", ");
                out.append(rust_type(value).as_str());
                out.append(">");
                out
            },
        },
    }
}

fn decode_expression(expression: &TypeExpression, decoder: &str) -> (r: String)
    ensures
        r@ == decode_of(expression.model(), decoder@),
{
    match expression {
        TypeExpression::Primitive(Primitive::Date) => {
            let mut out = string_of(decoder);
            out.append(".read_date()?");
            out
        },
        TypeExpression::Primitive(Primitive::Time) => {
            let mut out = string_of(decoder);
            out.append(".read_time()?");
            out
        },
        _ => {
            let mut out = string_of("<");
            out.append(rust_type(expression).as_str());
            out.append(" as NotaDecode>::decode(");
            out.append(decoder);
            out.append(")?");
            out
        },
    }
}

// ── Newtypes, aliases and records ───────────────────────────────────

pub open spec fn derive_line() -> Seq<char> {
    "#[derive(Clone, Debug, PartialEq, Eq)]\n"@
}

pub open spec fn impl_open(n: Seq<char>) -> Seq<char> {
    "impl NotaDecode for "@ + n + " {\n"@ + "    fn decode(decoder: &mut Decoder<'_>) -> Result<Self> {\n"@
}

pub open spec fn impl_close() -> Seq<char> {
    "    }\n"@ + "}\n"@
}

pub open spec fn newtype_text(n: Seq<char>, e: ExpressionModel) -> Seq<char> {
    derive_line() + "pub struct "@ + n + "(pub "@ + rust_type_of(e) + ");\n\n"@ + impl_open(n) + "        Ok(Self("@
        + decode_of(e, "decoder"@) + "))\n"@ + impl_close()
}

pub open spec fn alias_text(n: Seq<char>, e: ExpressionModel) -> Seq<char> {
    "pub type "@ + n + " = "@ + rust_type_of(e) + ";\n"@
}

/// A field's name: its own, or the one its type derives.
pub open spec fn effective_name(f: FieldModel) -> Seq<char> {
    match f.name {
        Some(n) => n,
        None => derived_field_name_spec(f.expression),
    }
}

/// One line per field: its declaration (`kind` 0), its read (1), or its
/// place in the constructor (2).
pub open spec fn field_line(kind: u8, f: FieldModel) -> Seq<char> {
    if kind == 0 {
        "    pub "@ + effective_name(f) + ": "@ + rust_type_of(f.expression) + ",\n"@
    } else if kind == 1 {
        "        let "@ + effective_name(f) + " = "@ + decode_of(f.expression, "decoder"@) + ";\n"@
    } else {
        "            "@ + effective_name(f) + ",\n"@
    }
}

pub open spec fn field_lines(kind: u8, fs: Seq<FieldModel>) -> Seq<Seq<char>> {
    Seq::new(fs.len(), |i: int| field_line(kind, fs[i]))
}

pub open spec fn record_text(n: Seq<char>, fs: Seq<FieldModel>) -> Seq<char> {
    derive_line() + "pub struct "@ + n + " {\n"@ + field_lines(0, fs).flatten() + "}\n\n"@ + impl_open(n)
        + "        decoder.expect_positional_record_start(\""@ + n + "\", "@ + decimal_spec(fs.len())
        + ")?;\n"@ + field_lines(1, fs).flatten() + "        decoder.expect_record_end()?;\n"@
        + "        Ok(Self {\n"@ + field_lines(2, fs).flatten() + "        })\n"@ + impl_close()
}

proof fn lemma_lines_step(lines: Seq<Seq<char>>, i: int)
    requires
        0 <= i < lines.len(),
    ensures
        lines.take(i + 1).flatten() == lines.take(i).flatten() + lines[i],
{
    assert(lines.take(i + 1) =~= lines.take(i).push(lines[i]));
    lines.take(i).lemma_flatten_push(lines[i]);
}

fn append_impl_open(out: &mut String, name: &str)
    ensures
        final(out)@ == old(out)@ + impl_open(name@),
{
    out.append("impl NotaDecode for ");
    out.append(name);
    out.append(" {\n");
    out.append("    fn decode(decoder: &mut Decoder<'_>) -> Result<Self> {\n");
}

fn append_impl_close(out: &mut String)
    ensures
        final(out)@ == old(out)@ + impl_close(),
{
    out.append("    }\n");
    out.append("}\n");
}

fn field_name_text(field: &Field) -> (r: String)
    ensures
        r@ == effective_name(field.model()),
{
    match field.name() {
        Some(n) => string_of(n.as_str()),
        None => string_of(field.expression().derived_field_name().as_str()),
    }
}

fn append_field_lines(out: &mut String, fields: &[Field], kind: u8)
    ensures
        final(out)@ == old(out)@ + field_lines(kind, field_models(fields@)).flatten(),
{
    let ghost start = out@;
    let ghost lines = field_lines(kind, field_models(fields@));
    let mut i: usize = 0;
    assert(lines.take(0).flatten() =~= Seq::<char>::empty());
    assert(out@ =~= start + lines.take(0).flatten());
    while i < fields.len()
        invariant
            lines == field_lines(kind, field_models(fields@)),
            0 <= i <= fields@.len(),
            out@ == start + lines.take(i as int).flatten(),
        decreases fields@.len() - i,
    {
        proof {
            lemma_lines_step(lines, i as int);
        }
        let ghost before = out@;
        let field = &fields[i];
        let name = field_name_text(field);
        if kind == 0 {
            out.append("    pub ");
            out.append(name.as_str());
            out.append(": ");
            out.append(rust_type(field.expression()).as_str());
            out.append(",\n");
        } else if kind == 1 {
            out.append("        let ");
            out.append(name.as_str());
            out.append(" = ");
            out.append(decode_expression(field.expression(), "decoder").as_str());
            out.append(";\n");
        } else {
            out.append("            ");
            out.append(name.as_str());
            out.append(",\n");
        }
        assert(lines[i as int] == field_line(kind, fields@[i as int].model()));
        assert(out@ =~= before + lines[i as int]);
        i = i + 1;
    }
    assert(lines.take(fields@.len() as int) =~= lines);
}

fn emit_newtype(name: &Name, expression: &TypeExpression, out: &mut String)
    ensures
        final(out)@ == old(out)@ + newtype_text(name.text(), expression.model()),
{
    let ghost start = out@;
    out.append("#[derive(Clone, Debug, PartialEq, Eq)]\n");
    out.append("pub struct ");
    out.append(name.as_str());
    out.append("(pub ");
    out.append(rust_type(expression).as_str());
    out.append(");\n\n");
    append_impl_open(out, name.as_str());
    out.append("        Ok(Self(");
    out.append(decode_expression(expression, "decoder").as_str());
    out.append("))\n");
    append_impl_close(out);
    assert(out@ =~= start + newtype_text(name.text(), expression.model()));
}

fn emit_alias(name: &Name, expression: &TypeExpression, out: &mut String)
    ensures
        final(out)@ == old(out)@ + alias_text(name.text(), expression.model()),
{
    let ghost start = out@;
    out.append("pub type ");
    out.append(name.as_str());
    out.append(" = ");
    out.append(rust_type(expression).as_str());
    out.append(";\n");
    assert(out@ =~= start + alias_text(name.text(), expression.model()));
}

fn emit_record(name: &Name, fields: &[Field], out: &mut String)
    ensures
        final(out)@ == old(out)@ + record_text(name.text(), field_models(fields@)),
{
    let ghost start = out@;
    let ghost fs = field_models(fields@);
    out.append("#[derive(Clone, Debug, PartialEq, Eq)]\n");
    out.append("pub struct ");
    out.append(name.as_str());
    out.append(" {\n");
    append_field_lines(out, fields, 0);
    out.append("}\n\n");
    append_impl_open(out, name.as_str());
    out.append("        decoder.expect_positional_record_start(\"");
    out.append(name.as_str());
    out.append("\", ");
    out.append(decimal_text(fields.len()).as_str());
    out.append(")?;\n");
    append_field_lines(out, fields, 1);
    out.append("        decoder.expect_record_end()?;\n");
    out.append("        Ok(Self {\n");
    append_field_lines(out, fields, 2);
    out.append("        })\n");
    append_impl_close(out);
    assert(fs.len() == fields@.len());
    assert(out@ =~= start + record_text(name.text(), fs));
}

// ── Enums ───────────────────────────────────────────────────────────

/// ASCII uppercase letters turned lowercase; everything else kept.
pub open spec fn ascii_lowercase(t: Seq<char>) -> Seq<char> {
    Seq::new(t.len(), |i: int| if is_upper_char(t[i]) { lower_of(t[i]) } else { t[i] })
}

pub open spec fn quoted(t: Seq<char>) -> Seq<char> {
    "\""@ + t + "\""@
}

/// A variant's line in the enum's declaration.
pub open spec fn variant_decl_line(v: VariantModel) -> Seq<char> {
    match v.payload {
        PayloadModel::Unit => "    "@ + v.name + ",\n"@,
        PayloadModel::Type(e) => "    "@ + v.name + "("@ + rust_type_of(e) + "),\n"@,
        PayloadModel::Fields(_) => Seq::empty(),
    }
}

/// A variant's arm when the value is a record: a data variant reads its
/// payload, a unit variant is an error.
pub open spec fn record_arm(n: Seq<char>, v: VariantModel) -> Seq<char> {
    match v.payload {
        PayloadModel::Unit => "                "@ + quoted(v.name)
            + " => Err(nota_codec::Error::UnitVariantInRecordForm { enum_name: "@ + quoted(n)
            + ", variant: "@ + quoted(v.name) + " }),\n"@,
        PayloadModel::Type(e) => "                "@ + quoted(v.name) + " => {\n"@
            + "                    decoder.expect_record_head("@ + quoted(v.name) + ")?;\n"@
            + "                    let "@ + ascii_lowercase(v.name) + " = "@ + decode_of(e, "decoder"@) + ";\n"@
            + "                    decoder.expect_record_end()?;\n"@
            + "                    Ok(Self::"@ + v.name + "("@ + ascii_lowercase(v.name) + "))\n"@
            + "                }\n"@,
        PayloadModel::Fields(_) => Seq::empty(),
    }
}

/// A variant's arm when the value is a bare name: a unit variant is
/// that variant, a data variant is an error.
pub open spec fn ident_arm(n: Seq<char>, v: VariantModel) -> Seq<char> {
    match v.payload {
        PayloadModel::Unit => "                "@ + quoted(v.name) + " => Ok(Self::"@ + v.name + "),\n"@,
        PayloadModel::Type(_) => "                "@ + quoted(v.name)
            + " => Err(nota_codec::Error::DataVariantWithoutRecord { enum_name: "@ + quoted(n)
            + ", variant: "@ + quoted(v.name) + " }),\n"@,
        PayloadModel::Fields(_) => Seq::empty(),
    }
}

pub open spec fn unknown_arm(n: Seq<char>) -> Seq<char> {
    "                _ => Err(nota_codec::Error::UnknownVariant { enum_name: "@ + quoted(n)
        + ", got: variant }),\n"@
}

/// One line (or arm) per variant: its declaration (`kind` 0), its record
/// arm (1), or its bare-name arm (2).
pub open spec fn variant_lines(kind: u8, n: Seq<char>, vs: Seq<VariantModel>) -> Seq<Seq<char>> {
    Seq::new(
        vs.len(),
        |i: int|
            if kind == 0 {
                variant_decl_line(vs[i])
            } else if kind == 1 {
                record_arm(n, vs[i])
            } else {
                ident_arm(n, vs[i])
            },
    )
}

pub open spec fn enum_decl_text(n: Seq<char>, vs: Seq<VariantModel>) -> Seq<char> {
    derive_line() + "pub enum "@ + n + " {\n"@ + variant_lines(0, n, vs).flatten() + "}\n\n"@
}

pub open spec fn record_match_text(n: Seq<char>, vs: Seq<VariantModel>) -> Seq<char> {
    "        if decoder.peek_is_record_start()? {\n"@ + "            let variant = decoder.peek_record_head()?;\n"@
        + "            match variant.as_str() {\n"@ + variant_lines(1, n, vs).flatten() + unknown_arm(n)
        + "            }\n"@
}

pub open spec fn ident_match_text(n: Seq<char>, vs: Seq<VariantModel>) -> Seq<char> {
    "        } else {\n"@ + "            let variant = decoder.read_pascal_identifier()?;\n"@
        + "            match variant.as_str() {\n"@ + variant_lines(2, n, vs).flatten() + unknown_arm(n)
        + "            }\n"@ + "        }\n"@
}

pub open spec fn enum_text(n: Seq<char>, vs: Seq<VariantModel>) -> Seq<char> {
    enum_decl_text(n, vs) + impl_open(n) + record_match_text(n, vs) + ident_match_text(n, vs) + impl_close()
}

/// The first variant, from `i` on, whose payload is named fields.
pub open spec fn fields_variant_from(vs: Seq<VariantModel>, i: int) -> Option<Seq<char>>
    decreases vs.len() - i,
{
    if i < 0 || i >= vs.len() {
        None
    } else if vs[i].payload is Fields {
        Some(vs[i].name)
    } else {
        fields_variant_from(vs, i + 1)
    }
}

pub open spec fn fields_payload_message(n: Seq<char>, v: Seq<char>) -> Seq<char> {
    "enum variant `"@ + n + "."@ + v
        + "` uses field payloads; this reader supports unit or single-type payload variants"@
}

/// The error for a variant the reader cannot emit.
pub open spec fn reports_emit_error(e: Error, message: Seq<char>) -> bool {
    e matches Error::InvalidSchemaText { context, message: m } && context@ == "nota reader rust emitter"@
        && m@ == message
}

fn ascii_lowercase_text(text: &str) -> (r: String)
    ensures
        r@ == ascii_lowercase(text@),
{
    let chars = crate::text::chars_of(text);
    let mut out = String::new();
    let mut i: usize = 0;
    while i < chars.len()
        invariant
            chars@ == text@,
            0 <= i <= chars@.len(),
            out@ == ascii_lowercase(text@).take(i as int),
        decreases chars@.len() - i,
    {
        let c = chars[i];
        if 'A' <= c && c <= 'Z' {
            push_char(&mut out, lower_char(c));
        } else {
            push_char(&mut out, c);
        }
        i = i + 1;
        assert(out@ =~= ascii_lowercase(text@).take(i as int));
    }
    assert(ascii_lowercase(text@).take(chars@.len() as int) =~= ascii_lowercase(text@));
    out
}

fn append_quoted(out: &mut String, text: &str)
    ensures
        final(out)@ == old(out)@ + quoted(text@),
{
    let ghost start = out@;
    out.append("\"");
    out.append(text);
    out.append("\"");
    assert(out@ =~= start + quoted(text@));
}

fn append_variant_line(out: &mut String, kind: u8, name: &Name, variant: &Variant)
    requires
        !(variant.model().payload is Fields),
    ensures
        final(out)@ == old(out)@ + (if kind == 0 {
            variant_decl_line(variant.model())
        } else if kind == 1 {
            record_arm(name.text(), variant.model())
        } else {
            ident_arm(name.text(), variant.model())
        }),
{
    let ghost start = out@;
    let ghost n = name.text();
    let ghost v = variant.model();
    let vname = variant.name().as_str();
    match variant.payload() {
        Payload::Unit => {
            if kind == 0 {
                out.append("    ");
                out.append(vname);
                out.append(",\n");
                assert(out@ =~= start + variant_decl_line(v));
            } else if kind == 1 {
                out.append("                ");
                append_quoted(out, vname);
                out.append(" => Err(nota_codec::Error::UnitVariantInRecordForm { enum_name: ");
                append_quoted(out, name.as_str());
                out.append(", variant: ");
                append_quoted(out, vname);
                out.append(" }),\n");
                assert(out@ =~= start + record_arm(n, v));
            } else {
                out.append("                ");
                append_quoted(out, vname);
                out.append(" => Ok(Self::");
                out.append(vname);
                out.append("),\n");
                assert(out@ =~= start + ident_arm(n, v));
            }
        },
        Payload::Type(expression) => {
            if kind == 0 {
                out.append("    ");
                out.append(vname);
                out.append("(");
                out.append(rust_type(expression).as_str());
                out.append("),\n");
                assert(out@ =~= start + variant_decl_line(v));
            } else if kind == 1 {
                let field = ascii_lowercase_text(vname);
                out.append("                ");
                append_quoted(out, vname);
                out.append(" => {\n");
                out.append("                    decoder.expect_record_head(");
                append_quoted(out, vname);
                out.append(")?;\n");
                out.append("                    let ");
                out.append(field.as_str());
                out.append(" = ");
                out.append(decode_expression(expression, "decoder").as_str());
                out.append(";\n");
                out.append("                    decoder.expect_record_end()?;\n");
                out.append("                    Ok(Self::");
                out.append(vname);
                out.append("(");
                out.append(field.as_str());
                out.append("))\n");
                out.append("                }\n");
                assert(out@ =~= start + record_arm(n, v));
            } else {
                out.append("                ");
                append_quoted(out, vname);
                out.append(" => Err(nota_codec::Error::DataVariantWithoutRecord { enum_name: ");
                append_quoted(out, name.as_str());
                out.append(", variant: ");
                append_quoted(out, vname);
                out.append(" }),\n");
                assert(out@ =~= start + ident_arm(n, v));
            }
        },
        Payload::Fields(_) => {},
    }
}

fn append_variant_lines(out: &mut String, kind: u8, name: &Name, variants: &[Variant])
    requires
        fields_variant_from(variant_models(variants@), 0) is None,
    ensures
        final(out)@ == old(out)@ + variant_lines(kind, name.text(), variant_models(variants@)).flatten(),
{
    let ghost start = out@;
    let ghost vs = variant_models(variants@);
    let ghost lines = variant_lines(kind, name.text(), vs);
    let mut i: usize = 0;
    assert(lines.take(0).flatten() =~= Seq::<char>::empty());
    assert(out@ =~= start + lines.take(0).flatten());
    while i < variants.len()
        invariant
            vs == variant_models(variants@),
            lines == variant_lines(kind, name.text(), vs),
            fields_variant_from(vs, 0) == fields_variant_from(vs, i as int),
            fields_variant_from(vs, 0) is None,
            0 <= i <= variants@.len(),
            out@ == start + lines.take(i as int).flatten(),
        decreases variants@.len() - i,
    {
        proof {
            lemma_lines_step(lines, i as int);
            assert(vs[i as int] == variants@[i as int].model());
        }
        append_variant_line(out, kind, name, &variants[i]);
        i = i + 1;
    }
    assert(lines.take(variants@.len() as int) =~= lines);
}

/// The position of the first variant with named fields.
fn first_fields_variant(variants: &[Variant]) -> (r: Option<usize>)
    ensures
        match fields_variant_from(variant_models(variants@), 0) {
            Some(v) => r matches Some(i) && i < variants@.len() && variants@[i as int].model().name == v,
            None => r is None,
        },
{
    let ghost vs = variant_models(variants@);
    let mut i: usize = 0;
    while i < variants.len()
        invariant
            vs == variant_models(variants@),
            0 <= i <= variants@.len(),
            fields_variant_from(vs, 0) == fields_variant_from(vs, i as int),
        decreases variants@.len() - i,
    {
        assert(vs[i as int] == variants@[i as int].model());
        match variants[i].payload() {
            Payload::Fields(_) => {
                return Some(i);
            },
            _ => {},
        }
        i = i + 1;
    }
    None
}

fn append_record_match(out: &mut String, name: &Name, variants: &[Variant])
    requires
        fields_variant_from(variant_models(variants@), 0) is None,
    ensures
        final(out)@ == old(out)@ + record_match_text(name.text(), variant_models(variants@)),
{
    let ghost start = out@;
    out.append("        if decoder.peek_is_record_start()? {\n");
    out.append("            let variant = decoder.peek_record_head()?;\n");
    out.append("            match variant.as_str() {\n");
    append_variant_lines(out, 1, name, variants);
    append_unknown_arm(out, name.as_str());
    out.append("            }\n");
    assert(out@ =~= start + record_match_text(name.text(), variant_models(variants@)));
}

fn append_ident_match(out: &mut String, name: &Name, variants: &[Variant])
    requires
        fields_variant_from(variant_models(variants@), 0) is None,
    ensures
        final(out)@ == old(out)@ + ident_match_text(name.text(), variant_models(variants@)),
{
    let ghost start = out@;
    out.append("        } else {\n");
    out.append("            let variant = decoder.read_pascal_identifier()?;\n");
    out.append("            match variant.as_str() {\n");
    append_variant_lines(out, 2, name, variants);
    append_unknown_arm(out, name.as_str());
    out.append("            }\n");
    out.append("        }\n");
    assert(out@ =~= start + ident_match_text(name.text(), variant_models(variants@)));
}

fn emit_enum(name: &Name, variants: &[Variant], out: &mut String) -> (r: Result<(), Error>)
    ensures
        match fields_variant_from(variant_models(variants@), 0) {
            Some(v) => r matches Err(e) && reports_emit_error(e, fields_payload_message(name.text(), v)),
            None => r is Ok && final(out)@ == old(out)@ + enum_text(name.text(), variant_models(variants@)),
        },
{
    if let Some(i) = first_fields_variant(variants) {
        let mut message = string_of("enum variant `");
        message.append(name.as_str());
        message.append(".");
        message.append(variants[i].name().as_str());
        message.append("` uses field payloads; this reader supports unit or single-type payload variants");
        return Err(Error::InvalidSchemaText { context: "nota reader rust emitter", message });
    }
    let ghost start = out@;
    let ghost n = name.text();
    let ghost vs = variant_models(variants@);
    out.append("#[derive(Clone, Debug, PartialEq, Eq)]\n");
    out.append("pub enum ");
    out.append(name.as_str());
    out.append(" {\n");
    append_variant_lines(out, 0, name, variants);
    out.append("}\n\n");
    assert(out@ =~= start + enum_decl_text(n, vs));
    let ghost declared = out@;
    append_impl_open(out, name.as_str());
    append_record_match(out, name, variants);
    append_ident_match(out, name, variants);
    append_impl_close(out);
    assert(out@ =~= start + enum_text(n, vs));
    Ok(())
}

fn append_unknown_arm(out: &mut String, name: &str)
    ensures
        final(out)@ == old(out)@ + unknown_arm(name@),
{
    let ghost start = out@;
    out.append("                _ => Err(nota_codec::Error::UnknownVariant { enum_name: ");
    append_quoted(out, name);
    out.append(", got: variant }),\n");
    assert(out@ =~= start + unknown_arm(name@));
}

// ── Modules ─────────────────────────────────────────────────────────

/// The Rust source for one type, or the message for a variant with
/// named fields, which this reader cannot emit.
pub open spec fn type_text(t: TypeModel) -> Result<Seq<char>, Seq<char>> {
    match t.body {
        BodyModel::Newtype(e) => Ok(newtype_text(t.name, e)),
        BodyModel::Record(fs) => Ok(record_text(t.name, fs)),
        BodyModel::Enum(vs) => match fields_variant_from(vs, 0) {
            Some(v) => Err(fields_payload_message(t.name, v)),
            None => Ok(enum_text(t.name, vs)),
        },
        BodyModel::Alias(e) => Ok(alias_text(t.name, e)),
    }
}

/// The first `k` types' source, each followed by a blank line; the
/// first failure wins.
pub open spec fn types_text(ts: Seq<TypeModel>, k: nat) -> Result<Seq<char>, Seq<char>>
    decreases k,
{
    if k == 0 || k > ts.len() {
        Ok(Seq::empty())
    } else {
        match types_text(ts, (k - 1) as nat) {
            Err(e) => Err(e),
            Ok(prev) => match type_text(ts[k - 1]) {
                Err(e) => Err(e),
                Ok(t) => Ok(prev + t + "\n"@),
            },
        }
    }
}

/// The whole module: `pub mod` named after the schema module, the
/// codec imports, then each type.
pub open spec fn module_source(m: Seq<char>, ts: Seq<TypeModel>) -> Result<Seq<char>, Seq<char>> {
    match types_text(ts, ts.len()) {
        Err(e) => Err(e),
        Ok(body) => Ok("pub mod "@ + m + " {\n"@ + "    use nota_codec::{Decoder, NotaDecode, Result};\n\n"@ + body
            + "}\n"@),
    }
}

proof fn lemma_types_text_err(ts: Seq<TypeModel>, k: nat, n: nat)
    requires
        1 <= k <= n <= ts.len(),
        types_text(ts, k) is Err,
    ensures
        types_text(ts, n) == types_text(ts, k),
    decreases n - k,
{
    if n > k {
        lemma_types_text_err(ts, k, (n - 1) as nat);
    }
}

fn emit_type(schema_type: &AssembledNotaType, out: &mut String) -> (r: Result<(), Error>)
    ensures
        match type_text(type_model_of(*schema_type)) {
            Ok(t) => r is Ok && final(out)@ == old(out)@ + t,
            Err(m) => r matches Err(e) && reports_emit_error(e, m),
        },
{
    match schema_type.body() {
        DeclarationBody::Newtype(expression) => {
            emit_newtype(schema_type.name(), expression, out);
            Ok(())
        },
        DeclarationBody::Record(fields) => {
            emit_record(schema_type.name(), fields.as_slice(), out);
            Ok(())
        },
        DeclarationBody::Enum { variants } => emit_enum(schema_type.name(), variants.as_slice(), out),
        DeclarationBody::Alias(expression) => {
            emit_alias(schema_type.name(), expression, out);
            Ok(())
        },
    }
}

/// Emits Rust source that reads a schema's types from NOTA.
pub struct NotaReaderRustEmitter;

impl NotaReaderRustEmitter {
    /// The module for `schema`; refused for an enum variant with named
    /// fields.
    pub fn emit_module(schema: &AssembledNotaSchema) -> (r: Result<String, Error>)
        ensures
            match module_source(schema.module_text(), schema.type_list()) {
                Ok(t) => r matches Ok(s) && s@ == t,
                Err(m) => r matches Err(e) && reports_emit_error(e, m),
            },
    {
        let ghost ts = schema.type_list();
        let mut output = string_of("pub mod ");
        output.append(schema.module().as_str());
        output.append(" {\n");
        output.append("    use nota_codec::{Decoder, NotaDecode, Result};\n\n");
        let ghost head = output@;
        let types = schema.types();
        let mut i: usize = 0;
        while i < types.len()
            invariant
                ts == schema.type_list(),
                type_models(types@) == ts,
                0 <= i <= types@.len(),
                types_text(ts, i as nat) matches Ok(prefix) && output@ == head + prefix,
            decreases types@.len() - i,
        {
            assert(ts[i as int] == type_model_of(types@[i as int]));
            let ghost before = output@;
            let emitted = emit_type(&types[i], &mut output);
            match emitted {
                Err(e) => {
                    proof {
                        lemma_types_text_err(ts, (i + 1) as nat, ts.len());
                    }
                    return Err(e);
                },
                Ok(()) => {},
            }
            output.append("\n");
            proof {
                let prefix = types_text(ts, i as nat)->Ok_0;
                let t = type_text(ts[i as int])->Ok_0;
                assert(types_text(ts, (i + 1) as nat) == Ok::<Seq<char>, Seq<char>>(prefix + t + "\n"@));
                assert(output@ =~= head + (prefix + t + "\n"@));
            }
            i = i + 1;
        }
        output.append("}\n");
        Ok(output)
    }
}

/// The bit width of an unsigned primitive.
pub open spec fn unsigned_width(p: Primitive) -> Option<nat> {
    match p {
        Primitive::Unsigned8 => Some(8),
        Primitive::Unsigned16 => Some(16),
        Primitive::Unsigned32 => Some(32),
        Primitive::Unsigned64 => Some(64),
        _ => None,
    }
}

/// Rust's unsigned integer type of `w` bits.
pub open spec fn rust_unsigned(w: nat) -> Seq<char> {
    "u"@ + decimal_spec(w)
}

/// Each unsigned primitive reads as Rust's unsigned integer of its own
/// width, and distinct primitives read as distinct Rust types.
pub proof fn lemma_primitive_rust_types(p: Primitive, q: Primitive)
    ensures
        unsigned_width(p) matches Some(w) ==> rust_type_of(ExpressionModel::Primitive(p)) == rust_unsigned(w),
        rust_type_of(ExpressionModel::Primitive(p)) == rust_type_of(ExpressionModel::Primitive(q)) ==> p == q,
{
    reveal_strlit("u");
    reveal_strlit("u8");
    reveal_strlit("u16");
    reveal_strlit("u32");
    reveal_strlit("u64");
    reveal_strlit("String");
    reveal_strlit("Vec<u8>");
    reveal_strlit("bool");
    reveal_strlit("(u16, u8, u8)");
    reveal_strlit("(u8, u8, u8)");
    assert(decimal_spec(8) =~= seq!['8']);
    assert(decimal_spec(1) =~= seq!['1']);
    assert(decimal_spec(16) == decimal_spec(1).push(digit_char(6)));
    assert(decimal_spec(16) =~= seq!['1', '6']);
    assert(decimal_spec(3) =~= seq!['3']);
    assert(decimal_spec(32) == decimal_spec(3).push(digit_char(2)));
    assert(decimal_spec(32) =~= seq!['3', '2']);
    assert(decimal_spec(6) =~= seq!['6']);
    assert(decimal_spec(64) == decimal_spec(6).push(digit_char(4)));
    assert(decimal_spec(64) =~= seq!['6', '4']);
    match unsigned_width(p) {
        Some(w) => {
            assert(rust_type_of(ExpressionModel::Primitive(p)) =~= rust_unsigned(w));
        },
        None => {},
    }
    if rust_type_of(ExpressionModel::Primitive(p)) == rust_type_of(ExpressionModel::Primitive(q)) && p != q {
        let a = rust_type_of(ExpressionModel::Primitive(p));
        let b = rust_type_of(ExpressionModel::Primitive(q));
        assert(a.len() == b.len());
        assert(a[0] == b[0]);
        if a.len() > 1 {
            assert(a[1] == b[1]);
        }
        if a.len() > 2 {
            assert(a[2] == b[2]);
        }
        if a.len() > 4 {
            assert(a[4] == b[4]);
        }
    }
}

} // verus!
