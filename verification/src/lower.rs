//! The lowering stage: type expressions, variants, type bodies, features
//! and upgrade annotations of an identified document become the schema
//! model's declarations, features and upgrades.
use vstd::prelude::*;
use crate::declaration::{
    BodyModel, DeclarationBody, FieldModel, PayloadModel, Variant, VariantModel, field_models,
    variant_models,
};
use crate::error::Error;
use crate::expression::{ExpressionModel, Primitive, TypeExpression};
use crate::feature::{EventFeature, Feature, ObservableFeature};
use crate::identify::{
    BodyShape, FeatureShape, IdentifiedFeature, IdentifiedTypeBody, IdentifiedVariant,
    VariantShape, option_view, string_views,
};
use crate::multi_pass::{NotaValue, ValueModel, kind_text, reports_invalid, value_models};
use crate::name::{Name, pascal_name_spec};
use crate::text::{str_equal, string_of};
use crate::upgrade::{AnnotationModel, Upgrade, UpgradeAnnotation, Version, annotation_models};

verus! {

/// Why lowering failed: a malformed shape (context and message), or a
/// name that is not PascalCase.
pub enum LowerError {
    Invalid(Seq<char>, Seq<char>),
    Name(Seq<char>),
}

pub open spec fn reports_lower(err: Error, e: LowerError) -> bool {
    match e {
        LowerError::Invalid(context, message) => reports_invalid(err, context, message),
        LowerError::Name(n) => err matches Error::InvalidName { name } && name@ == n,
    }
}

/// A schema name, when it is PascalCase.
pub open spec fn name_spec(t: Seq<char>) -> Result<Seq<char>, LowerError> {
    if pascal_name_spec(t) {
        Ok(t)
    } else {
        Err(LowerError::Name(t))
    }
}

fn lower_name(text: &str) -> (r: Result<Name, Error>)
    ensures
        match name_spec(text@) {
            Ok(t) => r matches Ok(n) && n.text() == t,
            Err(e) => r matches Err(err) && reports_lower(err, e),
        },
{
    Name::new(text)
}

fn invalid(context: &'static str, message: &str) -> (r: Error)
    ensures
        reports_invalid(r, context@, message@),
{
    Error::InvalidSchemaText { context, message: string_of(message) }
}

// ── Type expressions ────────────────────────────────────────────────

/// The primitive a reserved name stands for.
pub open spec fn primitive_spec(t: Seq<char>) -> Option<Primitive> {
    if t == "String"@ {
        Some(Primitive::String)
    } else if t == "Bytes"@ {
        Some(Primitive::Bytes)
    } else if t == "Boolean"@ {
        Some(Primitive::Boolean)
    } else if t == "u8"@ {
        Some(Primitive::Unsigned8)
    } else if t == "u16"@ {
        Some(Primitive::Unsigned16)
    } else if t == "u32"@ {
        Some(Primitive::Unsigned32)
    } else if t == "u64"@ {
        Some(Primitive::Unsigned64)
    } else if t == "Date"@ {
        Some(Primitive::Date)
    } else if t == "Time"@ {
        Some(Primitive::Time)
    } else {
        None
    }
}

/// The primitive expression of a reserved name.
pub fn primitive(text: &str) -> (r: Option<TypeExpression>)
    ensures
        match primitive_spec(text@) {
            Some(p) => r matches Some(e) && e.model() == ExpressionModel::Primitive(p),
            None => r is None,
        },
{
    let p = if str_equal(text, "String") {
        Primitive::String
    } else if str_equal(text, "Bytes") {
        Primitive::Bytes
    } else if str_equal(text, "Boolean") {
        Primitive::Boolean
    } else if str_equal(text, "u8") {
        Primitive::Unsigned8
    } else if str_equal(text, "u16") {
        Primitive::Unsigned16
    } else if str_equal(text, "u32") {
        Primitive::Unsigned32
    } else if str_equal(text, "u64") {
        Primitive::Unsigned64
    } else if str_equal(text, "Date") {
        Primitive::Date
    } else if str_equal(text, "Time") {
        Primitive::Time
    } else {
        return None;
    };
    Some(TypeExpression::Primitive(p))
}

/// A type expression: a primitive or declared name, or `(Option T)`,
/// `(Vec T)`, `(Map K V)`.
pub open spec fn lower_expr_spec(v: ValueModel) -> Result<ExpressionModel, LowerError>
    decreases v,
{
    let ctx = "pass4 type-expression"@;
    match v {
        ValueModel::Identifier(t, _) => match primitive_spec(t) {
            Some(p) => Ok(ExpressionModel::Primitive(p)),
            None => match name_spec(t) {
                Ok(n) => Ok(ExpressionModel::Named(n)),
                Err(e) => Err(e),
            },
        },
        ValueModel::Record(items, _) => if !(items.len() > 0 && items[0] is Identifier) {
            Err(LowerError::Invalid(ctx, "container record must start with identifier"@))
        } else {
            let head = items[0]->Identifier_0;
            if head == "Option"@ {
                if items.len() != 2 {
                    Err(LowerError::Invalid(ctx, "Option must wrap exactly one inner expression"@))
                } else {
                    match lower_expr_spec(items[1]) {
                        Ok(e) => Ok(ExpressionModel::Optional(Box::new(e))),
                        Err(e) => Err(e),
                    }
                }
            } else if head == "Vec"@ {
                if items.len() != 2 {
                    Err(LowerError::Invalid(ctx, "Vec must wrap exactly one inner expression"@))
                } else {
                    match lower_expr_spec(items[1]) {
                        Ok(e) => Ok(ExpressionModel::Vector(Box::new(e))),
                        Err(e) => Err(e),
                    }
                }
            } else if head == "Map"@ {
                if items.len() != 3 {
                    Err(LowerError::Invalid(ctx, "Map needs key and value expressions"@))
                } else {
                    match lower_expr_spec(items[1]) {
                        Err(e) => Err(e),
                        Ok(k) => match lower_expr_spec(items[2]) {
                            Err(e) => Err(e),
                            Ok(val) => Ok(ExpressionModel::Mapping(Box::new(k), Box::new(val))),
                        },
                    }
                }
            } else {
                Err(LowerError::Invalid(ctx, "unknown container `"@ + head + "`"@))
            }
        },
        ValueModel::List(_, _) => Err(
            LowerError::Invalid(ctx, "list shape `[T]` is not a valid container — use `(Vec T)`"@),
        ),
        _ => Err(LowerError::Invalid(ctx, "cannot interpret "@ + kind_text(v) + " as a type expression"@)),
    }
}

/// Lower a value at a type-expression position.
pub fn lower_type_expression(value: &NotaValue) -> (r: Result<TypeExpression, Error>)
    ensures
        match lower_expr_spec(value.model()) {
            Ok(m) => r matches Ok(e) && e.model() == m,
            Err(e) => r matches Err(err) && reports_lower(err, e),
        },
    decreases value,
{
    match value {
        NotaValue::Identifier(name, _) => {
            match primitive(name.as_str()) {
                Some(p) => Ok(p),
                None => match lower_name(name.as_str()) {
                    Ok(n) => Ok(TypeExpression::named(n)),
                    Err(e) => Err(e),
                },
            }
        },
        NotaValue::Record(items, _) => {
            let ghost ms = value_models(items@);
            assert(value.model()->Record_0 =~= ms);
            if items.len() == 0 {
                return Err(invalid("pass4 type-expression", "container record must start with identifier"));
            }
            assert(ms[0] == items@[0].model());
            let head = match items[0].as_identifier() {
                Some(head) => head,
                None => return Err(invalid("pass4 type-expression", "container record must start with identifier")),
            };
            if str_equal(head, "Option") || str_equal(head, "Vec") {
                let is_option = str_equal(head, "Option");
                if items.len() != 2 {
                    if is_option {
                        return Err(invalid("pass4 type-expression", "Option must wrap exactly one inner expression"));
                    } else {
                        return Err(invalid("pass4 type-expression", "Vec must wrap exactly one inner expression"));
                    }
                }
                assert(ms[1] == items@[1].model());
                proof {
                    assert(decreases_to!(*value => (*value)->Record_0));
                    assert(decreases_to!(*items => items[1]));
                }
                let inner = match lower_type_expression(&items[1]) {
                    Ok(e) => e,
                    Err(e) => return Err(e),
                };
                if is_option {
                    Ok(TypeExpression::optional(inner))
                } else {
                    Ok(TypeExpression::vector(inner))
                }
            } else if str_equal(head, "Map") {
                if items.len() != 3 {
                    return Err(invalid("pass4 type-expression", "Map needs key and value expressions"));
                }
                assert(ms[1] == items@[1].model());
                assert(ms[2] == items@[2].model());
                proof {
                    assert(decreases_to!(*value => (*value)->Record_0));
                    assert(decreases_to!(*items => items[1]));
                    assert(decreases_to!(*items => items[2]));
                }
                let key = match lower_type_expression(&items[1]) {
                    Ok(e) => e,
                    Err(e) => return Err(e),
                };
                let val = match lower_type_expression(&items[2]) {
                    Ok(e) => e,
                    Err(e) => return Err(e),
                };
                Ok(TypeExpression::map(key, val))
            } else {
                let mut message = string_of("unknown container `");
                message.append(head);
                message.append("`");
                Err(Error::InvalidSchemaText { context: "pass4 type-expression", message })
            }
        },
        NotaValue::List(_, _) => Err(invalid("pass4 type-expression", "list shape `[T]` is not a valid container — use `(Vec T)`")),
        _ => {
            let mut message = string_of("cannot interpret ");
            message.append(value.kind_name());
            message.append(" as a type expression");
            Err(Error::InvalidSchemaText { context: "pass4 type-expression", message })
        },
    }
}

// ── Variants and bodies ─────────────────────────────────────────────

pub open spec fn lower_exprs_spec(vs: Seq<ValueModel>) -> Result<Seq<ExpressionModel>, LowerError>
    decreases vs.len(),
{
    if vs.len() == 0 {
        Ok(Seq::empty())
    } else {
        match lower_exprs_spec(vs.drop_last()) {
            Err(e) => Err(e),
            Ok(prev) => match lower_expr_spec(vs.last()) {
                Err(e) => Err(e),
                Ok(m) => Ok(prev.push(m)),
            },
        }
    }
}

proof fn lemma_exprs_err_prefix(vs: Seq<ValueModel>, n: int)
    requires
        0 <= n <= vs.len(),
        lower_exprs_spec(vs.take(n)) is Err,
    ensures
        lower_exprs_spec(vs) == lower_exprs_spec(vs.take(n)),
    decreases vs.len() - n,
{
    if n < vs.len() {
        assert(vs.take(n + 1).drop_last() =~= vs.take(n));
        lemma_exprs_err_prefix(vs, n + 1);
    } else {
        assert(vs.take(n) =~= vs);
    }
}

/// Lower a run of type expressions, first failure first.
pub fn lower_type_expressions(values: &Vec<NotaValue>) -> (r: Result<Vec<TypeExpression>, Error>)
    ensures
        match lower_exprs_spec(value_models(values@)) {
            Ok(ms) => r matches Ok(v) && crate::declaration::expression_models(v@) == ms,
            Err(e) => r matches Err(err) && reports_lower(err, e),
        },
{
    let ghost ms = value_models(values@);
    let mut out: Vec<TypeExpression> = Vec::new();
    let mut i: usize = 0;
    assert(ms.take(0) =~= Seq::<ValueModel>::empty());
    assert(crate::declaration::expression_models(out@) =~= Seq::<ExpressionModel>::empty());
    while i < values.len()
        invariant
            ms == value_models(values@),
            0 <= i <= values@.len(),
            lower_exprs_spec(ms.take(i as int)) == Ok::<Seq<ExpressionModel>, LowerError>(
                crate::declaration::expression_models(out@),
            ),
        decreases values@.len() - i,
    {
        proof {
            assert(ms.take(i as int + 1).drop_last() =~= ms.take(i as int));
            assert(ms.take(i as int + 1).last() == values@[i as int].model());
        }
        match lower_type_expression(&values[i]) {
            Ok(e) => {
                let ghost before = out@;
                let ghost em = e.model();
                out.push(e);
                assert(crate::declaration::expression_models(out@) =~= crate::declaration::expression_models(before).push(em));
            },
            Err(e) => {
                proof {
                    lemma_exprs_err_prefix(ms, i as int + 1);
                }
                return Err(e);
            },
        }
        i = i + 1;
    }
    proof {
        assert(ms.take(i as int) =~= ms);
    }
    Ok(out)
}

/// A variant: no fields is a unit variant, one field a typed payload,
/// more a field list.
pub open spec fn lower_variant_spec(v: VariantShape) -> Result<VariantModel, LowerError> {
    match name_spec(v.name) {
        Err(e) => Err(e),
        Ok(n) => if v.fields.len() == 0 {
            Ok(VariantModel { name: n, payload: PayloadModel::Unit, engine: None })
        } else {
            match lower_exprs_spec(v.fields) {
                Err(e) => Err(e),
                Ok(es) => if es.len() == 1 {
                    Ok(VariantModel { name: n, payload: PayloadModel::Type(es[0]), engine: None })
                } else {
                    Ok(VariantModel {
                        name: n,
                        payload: PayloadModel::Fields(crate::declaration::inferred_field_models(es)),
                        engine: None,
                    })
                },
            }
        },
    }
}

proof fn lemma_exprs_len(vs: Seq<ValueModel>)
    ensures
        lower_exprs_spec(vs) matches Ok(es) ==> es.len() == vs.len(),
    decreases vs.len(),
{
    if vs.len() > 0 {
        lemma_exprs_len(vs.drop_last());
    }
}

/// Lower an identified variant.
pub fn lower_variant(variant: &IdentifiedVariant) -> (r: Result<Variant, Error>)
    ensures
        match lower_variant_spec(variant.model()) {
            Ok(m) => r matches Ok(v) && v.model() == m,
            Err(e) => r matches Err(err) && reports_lower(err, e),
        },
{
    let name = match lower_name(variant.name.as_str()) {
        Ok(n) => n,
        Err(e) => return Err(e),
    };
    if variant.fields.len() == 0 {
        return Ok(Variant::unit(name));
    }
    let mut exprs = match lower_type_expressions(&variant.fields) {
        Ok(v) => v,
        Err(e) => return Err(e),
    };
    proof {
        lemma_exprs_len(value_models(variant.fields@));
    }
    if exprs.len() == 1 {
        let only = exprs.pop();
        match only {
            Some(e) => {
                return Ok(Variant::with_type(name, e));
            },
            None => {
                return Ok(Variant::unit(name));
            },
        }
    }
    Ok(Variant::with_fields(name, exprs))
}

pub open spec fn lower_variants_spec(vs: Seq<VariantShape>) -> Result<Seq<VariantModel>, LowerError>
    decreases vs.len(),
{
    if vs.len() == 0 {
        Ok(Seq::empty())
    } else {
        match lower_variants_spec(vs.drop_last()) {
            Err(e) => Err(e),
            Ok(prev) => match lower_variant_spec(vs.last()) {
                Err(e) => Err(e),
                Ok(m) => Ok(prev.push(m)),
            },
        }
    }
}

proof fn lemma_variants_err_prefix(vs: Seq<VariantShape>, n: int)
    requires
        0 <= n <= vs.len(),
        lower_variants_spec(vs.take(n)) is Err,
    ensures
        lower_variants_spec(vs) == lower_variants_spec(vs.take(n)),
    decreases vs.len() - n,
{
    if n < vs.len() {
        assert(vs.take(n + 1).drop_last() =~= vs.take(n));
        lemma_variants_err_prefix(vs, n + 1);
    } else {
        assert(vs.take(n) =~= vs);
    }
}

/// A type body: variants of an enum, inferred fields of a record, the
/// expression of a newtype or an alias.
pub open spec fn lower_body_spec(b: BodyShape) -> Result<BodyModel, LowerError> {
    match b {
        BodyShape::Enum(vs) => match lower_variants_spec(vs) {
            Err(e) => Err(e),
            Ok(ms) => Ok(BodyModel::Enum(ms)),
        },
        BodyShape::Record(fields) => match lower_exprs_spec(fields) {
            Err(e) => Err(e),
            Ok(es) => Ok(BodyModel::Record(crate::declaration::inferred_field_models(es))),
        },
        BodyShape::Newtype(v) => match lower_expr_spec(v) {
            Err(e) => Err(e),
            Ok(e) => Ok(BodyModel::Newtype(e)),
        },
        BodyShape::Alias(v) => match lower_expr_spec(v) {
            Err(e) => Err(e),
            Ok(e) => Ok(BodyModel::Alias(e)),
        },
    }
}

/// Lower an identified type body.
pub fn lower_type_body(body: &IdentifiedTypeBody) -> (r: Result<DeclarationBody, Error>)
    ensures
        match lower_body_spec(body.model()) {
            Ok(m) => r matches Ok(b) && b.model() == m,
            Err(e) => r matches Err(err) && reports_lower(err, e),
        },
{
    match body {
        IdentifiedTypeBody::Enum(variants) => {
            let ghost vs = crate::identify::variant_shapes(variants@);
            let mut lowered: Vec<Variant> = Vec::new();
            let mut i: usize = 0;
            assert(vs.take(0) =~= Seq::<VariantShape>::empty());
            assert(variant_models(lowered@) =~= Seq::<VariantModel>::empty());
            while i < variants.len()
                invariant
                    vs == crate::identify::variant_shapes(variants@),
                    body.model() == BodyShape::Enum(vs),
                    0 <= i <= variants@.len(),
                    lower_variants_spec(vs.take(i as int)) == Ok::<Seq<VariantModel>, LowerError>(variant_models(lowered@)),
                decreases variants@.len() - i,
            {
                proof {
                    assert(vs.take(i as int + 1).drop_last() =~= vs.take(i as int));
                    assert(vs.take(i as int + 1).last() == variants@[i as int].model());
                }
                match lower_variant(&variants[i]) {
                    Ok(v) => {
                        let ghost before = lowered@;
                        let ghost vm = v.model();
                        lowered.push(v);
                        assert(variant_models(lowered@) =~= variant_models(before).push(vm));
                    },
                    Err(e) => {
                        proof {
                            lemma_variants_err_prefix(vs, i as int + 1);
                        }
                        return Err(e);
                    },
                }
                i = i + 1;
            }
            proof {
                assert(vs.take(i as int) =~= vs);
            }
            Ok(DeclarationBody::Enum { variants: lowered })
        },
        IdentifiedTypeBody::Record(fields) => {
            let exprs = match lower_type_expressions(fields) {
                Ok(v) => v,
                Err(e) => return Err(e),
            };
            let entries = crate::declaration::inferred_fields(exprs);
            let r = DeclarationBody::Record(entries);
            assert(field_models(entries@) =~= crate::declaration::inferred_field_models(
                crate::declaration::expression_models(exprs@),
            ));
            Ok(r)
        },
        IdentifiedTypeBody::Newtype(v) => match lower_type_expression(v) {
            Ok(e) => Ok(DeclarationBody::Newtype(e)),
            Err(e) => Err(e),
        },
        IdentifiedTypeBody::Alias(v) => match lower_type_expression(v) {
            Ok(e) => Ok(DeclarationBody::Alias(e)),
            Err(e) => Err(e),
        },
    }
}

// ── Upgrades ────────────────────────────────────────────────────────

pub open spec fn identifier_at(items: Seq<ValueModel>, k: int) -> bool {
    items.len() > k && items[k] is Identifier
}

/// One upgrade annotation record, by its head.
pub open spec fn lower_annotation_spec(v: ValueModel) -> Result<AnnotationModel, LowerError> {
    let ctx = "pass4 upgrade annotation"@;
    match v {
        ValueModel::Record(items, _) => if !identifier_at(items, 0) {
            Err(LowerError::Invalid(ctx, "annotation needs head identifier"@))
        } else {
            let head = items[0]->Identifier_0;
            if head == "Migrate"@ {
                if !identifier_at(items, 1) {
                    Err(LowerError::Invalid(ctx, "Migrate needs a name"@))
                } else {
                    match name_spec(items[1]->Identifier_0) {
                        Err(e) => Err(e),
                        Ok(n) => Ok(AnnotationModel::Migrate(n)),
                    }
                }
            } else if head == "RenamedFrom"@ {
                if !identifier_at(items, 1) {
                    Err(LowerError::Invalid(ctx, "RenamedFrom needs current"@))
                } else if !identifier_at(items, 2) {
                    Err(LowerError::Invalid(ctx, "RenamedFrom needs previous"@))
                } else {
                    match name_spec(items[1]->Identifier_0) {
                        Err(e) => Err(e),
                        Ok(c) => match name_spec(items[2]->Identifier_0) {
                            Err(e) => Err(e),
                            Ok(p) => Ok(AnnotationModel::RenamedFrom(c, p)),
                        },
                    }
                }
            } else if head == "Drop"@ {
                if !identifier_at(items, 1) {
                    Err(LowerError::Invalid(ctx, "Drop needs a name"@))
                } else {
                    match name_spec(items[1]->Identifier_0) {
                        Err(e) => Err(e),
                        Ok(n) => Ok(AnnotationModel::Drop(n)),
                    }
                }
            } else if head == "Custom"@ {
                if !identifier_at(items, 1) {
                    Err(LowerError::Invalid(ctx, "Custom needs a name"@))
                } else if !identifier_at(items, 2) {
                    Err(LowerError::Invalid(ctx, "Custom needs implementation"@))
                } else {
                    match name_spec(items[1]->Identifier_0) {
                        Err(e) => Err(e),
                        Ok(n) => match name_spec(items[2]->Identifier_0) {
                            Err(e) => Err(e),
                            Ok(im) => Ok(AnnotationModel::Custom(n, im)),
                        },
                    }
                }
            } else if head == "Untranslatable"@ {
                if !identifier_at(items, 1) {
                    Err(LowerError::Invalid(ctx, "Untranslatable needs a name"@))
                } else {
                    match name_spec(items[1]->Identifier_0) {
                        Err(e) => Err(e),
                        Ok(n) => Ok(AnnotationModel::Untranslatable(n)),
                    }
                }
            } else {
                Err(LowerError::Invalid(ctx, "unknown upgrade annotation `"@ + head + "`"@))
            }
        },
        _ => Err(LowerError::Invalid(ctx, "annotation must be a record"@)),
    }
}

fn identifier_of(items: &[NotaValue], k: usize) -> (r: Option<&str>)
    ensures
        identifier_at(value_models(items@), k as int) ==> (r matches Some(t) && t@ == value_models(items@)[k as int]->Identifier_0),
        !identifier_at(value_models(items@), k as int) ==> r is None,
{
    if k < items.len() {
        assert(value_models(items@)[k as int] == items@[k as int].model());
        items[k].as_identifier()
    } else {
        None
    }
}

/// Lower one upgrade annotation record.
pub fn lower_upgrade_annotation(value: &NotaValue) -> (r: Result<UpgradeAnnotation, Error>)
    ensures
        match lower_annotation_spec(value.model()) {
            Ok(m) => r matches Ok(a) && a.model() == m,
            Err(e) => r matches Err(err) && reports_lower(err, e),
        },
{
    let ctx = "pass4 upgrade annotation";
    let items = match value.as_record() {
        Some(items) => items,
        None => return Err(invalid(ctx, "annotation must be a record")),
    };
    let head = match identifier_of(items, 0) {
        Some(h) => h,
        None => return Err(invalid(ctx, "annotation needs head identifier")),
    };
    if str_equal(head, "Migrate") {
        let name = match identifier_of(items, 1) {
            Some(n) => n,
            None => return Err(invalid(ctx, "Migrate needs a name")),
        };
        match lower_name(name) {
            Ok(n) => Ok(UpgradeAnnotation::Migrate(n)),
            Err(e) => Err(e),
        }
    } else if str_equal(head, "RenamedFrom") {
        let current = match identifier_of(items, 1) {
            Some(n) => n,
            None => return Err(invalid(ctx, "RenamedFrom needs current")),
        };
        let previous = match identifier_of(items, 2) {
            Some(n) => n,
            None => return Err(invalid(ctx, "RenamedFrom needs previous")),
        };
        let current = match lower_name(current) {
            Ok(n) => n,
            Err(e) => return Err(e),
        };
        let previous = match lower_name(previous) {
            Ok(n) => n,
            Err(e) => return Err(e),
        };
        Ok(UpgradeAnnotation::RenamedFrom { current, previous })
    } else if str_equal(head, "Drop") {
        let name = match identifier_of(items, 1) {
            Some(n) => n,
            None => return Err(invalid(ctx, "Drop needs a name")),
        };
        match lower_name(name) {
            Ok(n) => Ok(UpgradeAnnotation::Drop(n)),
            Err(e) => Err(e),
        }
    } else if str_equal(head, "Custom") {
        let name = match identifier_of(items, 1) {
            Some(n) => n,
            None => return Err(invalid(ctx, "Custom needs a name")),
        };
        let implementation = match identifier_of(items, 2) {
            Some(n) => n,
            None => return Err(invalid(ctx, "Custom needs implementation")),
        };
        let name = match lower_name(name) {
            Ok(n) => n,
            Err(e) => return Err(e),
        };
        let implementation = match lower_name(implementation) {
            Ok(n) => n,
            Err(e) => return Err(e),
        };
        Ok(UpgradeAnnotation::Custom { name, implementation })
    } else if str_equal(head, "Untranslatable") {
        let name = match identifier_of(items, 1) {
            Some(n) => n,
            None => return Err(invalid(ctx, "Untranslatable needs a name")),
        };
        match lower_name(name) {
            Ok(n) => Ok(UpgradeAnnotation::Untranslatable(n)),
            Err(e) => Err(e),
        }
    } else {
        let mut message = string_of("unknown upgrade annotation `");
        message.append(head);
        message.append("`");
        Err(Error::InvalidSchemaText { context: ctx, message })
    }
}

pub open spec fn lower_annotations_spec(vs: Seq<ValueModel>) -> Result<Seq<AnnotationModel>, LowerError>
    decreases vs.len(),
{
    if vs.len() == 0 {
        Ok(Seq::empty())
    } else {
        match lower_annotations_spec(vs.drop_last()) {
            Err(e) => Err(e),
            Ok(prev) => match lower_annotation_spec(vs.last()) {
                Err(e) => Err(e),
                Ok(m) => Ok(prev.push(m)),
            },
        }
    }
}

proof fn lemma_annotations_err_prefix(vs: Seq<ValueModel>, n: int)
    requires
        0 <= n <= vs.len(),
        lower_annotations_spec(vs.take(n)) is Err,
    ensures
        lower_annotations_spec(vs) == lower_annotations_spec(vs.take(n)),
    decreases vs.len() - n,
{
    if n < vs.len() {
        assert(vs.take(n + 1).drop_last() =~= vs.take(n));
        lemma_annotations_err_prefix(vs, n + 1);
    } else {
        assert(vs.take(n) =~= vs);
    }
}

/// `(Upgrade (FromVersion path) annotations...)`: the version upgraded
/// from and the annotations, in order.
pub open spec fn lower_upgrade_spec(v: ValueModel) -> Result<(Seq<char>, Seq<AnnotationModel>), LowerError> {
    let ctx = "pass4 upgrade"@;
    match v {
        ValueModel::Record(items, _) => if items.len() <= 1 {
            Err(LowerError::Invalid(ctx, "Upgrade requires FromVersion"@))
        } else {
            match items[1] {
                ValueModel::Record(from_items, _) => if !(identifier_at(from_items, 0)
                    && from_items[0]->Identifier_0 == "FromVersion"@) {
                    Err(LowerError::Invalid(ctx, "Upgrade first sub-record must be FromVersion"@))
                } else if from_items.len() <= 1 {
                    Err(LowerError::Invalid(ctx, "FromVersion needs a path"@))
                } else {
                    let path = match from_items[1] {
                        ValueModel::Identifier(t, _) => Some(t),
                        ValueModel::Text(t, _) => Some(t),
                        _ => None,
                    };
                    match path {
                        None => Err(LowerError::Invalid(ctx, "FromVersion path must be identifier or string"@)),
                        Some(p) => match lower_annotations_spec(items.subrange(2, items.len() as int)) {
                            Err(e) => Err(e),
                            Ok(anns) => Ok((p, anns)),
                        },
                    }
                },
                _ => Err(LowerError::Invalid(ctx, "FromVersion must be a record"@)),
            }
        },
        _ => Err(LowerError::Invalid(ctx, "Upgrade must be a record"@)),
    }
}

/// Lower an upgrade feature record.
pub fn lower_upgrade(value: &NotaValue) -> (r: Result<Upgrade, Error>)
    ensures
        match lower_upgrade_spec(value.model()) {
            Ok((p, anns)) => r matches Ok(u) && u.version_text() == p && u.annotation_list() == anns,
            Err(e) => r matches Err(err) && reports_lower(err, e),
        },
{
    let ctx = "pass4 upgrade";
    let items = match value.as_record() {
        Some(items) => items,
        None => return Err(invalid(ctx, "Upgrade must be a record")),
    };
    let ghost ms = value_models(items@);
    if items.len() <= 1 {
        return Err(invalid(ctx, "Upgrade requires FromVersion"));
    }
    assert(ms[1] == items@[1].model());
    let from_items = match items[1].as_record() {
        Some(f) => f,
        None => return Err(invalid(ctx, "FromVersion must be a record")),
    };
    let ghost fs = value_models(from_items@);
    let head_ok = match identifier_of(from_items, 0) {
        Some(h) => str_equal(h, "FromVersion"),
        None => false,
    };
    if !head_ok {
        return Err(invalid(ctx, "Upgrade first sub-record must be FromVersion"));
    }
    if from_items.len() <= 1 {
        return Err(invalid(ctx, "FromVersion needs a path"));
    }
    assert(fs[1] == from_items@[1].model());
    let path = match &from_items[1] {
        NotaValue::Identifier(name, _) => string_of(name.as_str()),
        NotaValue::String(text, _) => string_of(text.as_str()),
        _ => return Err(invalid(ctx, "FromVersion path must be identifier or string")),
    };
    let version = Version::new(path.as_str());
    let ghost rest = ms.subrange(2, ms.len() as int);
    let mut annotations: Vec<UpgradeAnnotation> = Vec::new();
    let mut i: usize = 2;
    assert(rest.take(0) =~= Seq::<ValueModel>::empty());
    assert(annotation_models(annotations@) =~= Seq::<AnnotationModel>::empty());
    assert(lower_upgrade_spec(value.model()) == match lower_annotations_spec(rest) {
        Err(e) => Err::<(Seq<char>, Seq<AnnotationModel>), LowerError>(e),
        Ok(anns) => Ok((path@, anns)),
    });
    while i < items.len()
        invariant
            ms == value_models(items@),
            rest == ms.subrange(2, ms.len() as int),
            lower_upgrade_spec(value.model()) == match lower_annotations_spec(rest) {
                Err(e) => Err::<(Seq<char>, Seq<AnnotationModel>), LowerError>(e),
                Ok(anns) => Ok((path@, anns)),
            },
            2 <= i <= items@.len(),
            lower_annotations_spec(rest.take(i - 2)) == Ok::<Seq<AnnotationModel>, LowerError>(
                annotation_models(annotations@),
            ),
        decreases items@.len() - i,
    {
        proof {
            assert(rest.take(i - 2 + 1).drop_last() =~= rest.take(i - 2));
            assert(rest.take(i - 2 + 1).last() == items@[i as int].model());
        }
        match lower_upgrade_annotation(&items[i]) {
            Ok(a) => {
                let ghost before = annotations@;
                let ghost am = a.model();
                annotations.push(a);
                assert(annotation_models(annotations@) =~= annotation_models(before).push(am));
            },
            Err(e) => {
                proof {
                    lemma_annotations_err_prefix(rest, i - 2 + 1);
                }
                return Err(e);
            },
        }
        i = i + 1;
    }
    proof {
        assert(rest.take(i - 2) =~= rest);
    }
    Ok(Upgrade::new(version, annotations))
}

// ── Features ────────────────────────────────────────────────────────

pub enum FeatureOut {
    Reply(Seq<Seq<char>>),
    Event(Option<Seq<char>>, Seq<Seq<char>>),
    Observable(Option<Seq<char>>, Option<Seq<char>>, Option<Seq<char>>),
    Upgrade(Seq<char>, Seq<AnnotationModel>),
}

/// Whether a feature value is the one a model describes.
pub open spec fn feature_is(f: Feature, m: FeatureOut) -> bool {
    match (f, m) {
        (Feature::Reply(names), FeatureOut::Reply(ns)) => crate::name::name_texts(names@) == ns,
        (Feature::Event(e), FeatureOut::Event(stream, events)) => e.stream_text() == stream
            && e.event_texts() == events,
        (Feature::Observable(o), FeatureOut::Observable(filter, op, eff)) => o.filter_text()
            == filter && o.operation_event_text() == op && o.effect_event_text() == eff,
        (Feature::Upgrade(u), FeatureOut::Upgrade(version, anns)) => u.version_text() == version
            && u.annotation_list() == anns,
        _ => false,
    }
}

pub open spec fn names_spec(ts: Seq<Seq<char>>) -> Result<Seq<Seq<char>>, LowerError>
    decreases ts.len(),
{
    if ts.len() == 0 {
        Ok(Seq::empty())
    } else {
        match names_spec(ts.drop_last()) {
            Err(e) => Err(e),
            Ok(prev) => match name_spec(ts.last()) {
                Err(e) => Err(e),
                Ok(n) => Ok(prev.push(n)),
            },
        }
    }
}

pub open spec fn option_name_spec(t: Option<Seq<char>>) -> Result<Option<Seq<char>>, LowerError> {
    match t {
        None => Ok(None),
        Some(x) => match name_spec(x) {
            Err(e) => Err(e),
            Ok(n) => Ok(Some(n)),
        },
    }
}

/// A feature: reply, event and observable names checked as schema
/// names, an upgrade lowered.
pub open spec fn lower_feature_spec(f: FeatureShape) -> Result<FeatureOut, LowerError> {
    match f {
        FeatureShape::Reply(names) => match names_spec(names) {
            Err(e) => Err(e),
            Ok(ns) => Ok(FeatureOut::Reply(ns)),
        },
        FeatureShape::Event(stream, events) => match option_name_spec(stream) {
            Err(e) => Err(e),
            Ok(s) => match names_spec(events) {
                Err(e) => Err(e),
                Ok(es) => Ok(FeatureOut::Event(s, es)),
            },
        },
        FeatureShape::Observable(filter, op, eff) => match option_name_spec(op) {
            Err(e) => Err(e),
            Ok(o) => match option_name_spec(eff) {
                Err(e) => Err(e),
                Ok(x) => Ok(FeatureOut::Observable(filter, o, x)),
            },
        },
        FeatureShape::Upgrade(v) => match lower_upgrade_spec(v) {
            Err(e) => Err(e),
            Ok((p, anns)) => Ok(FeatureOut::Upgrade(p, anns)),
        },
    }
}

proof fn lemma_names_err_prefix(ts: Seq<Seq<char>>, n: int)
    requires
        0 <= n <= ts.len(),
        names_spec(ts.take(n)) is Err,
    ensures
        names_spec(ts) == names_spec(ts.take(n)),
    decreases ts.len() - n,
{
    if n < ts.len() {
        assert(ts.take(n + 1).drop_last() =~= ts.take(n));
        lemma_names_err_prefix(ts, n + 1);
    } else {
        assert(ts.take(n) =~= ts);
    }
}

fn lower_names(texts: &Vec<String>) -> (r: Result<Vec<Name>, Error>)
    ensures
        match names_spec(string_views(texts@)) {
            Ok(ns) => r matches Ok(v) && crate::name::name_texts(v@) == ns,
            Err(e) => r matches Err(err) && reports_lower(err, e),
        },
{
    let ghost ts = string_views(texts@);
    let mut out: Vec<Name> = Vec::new();
    let mut i: usize = 0;
    assert(ts.take(0) =~= Seq::<Seq<char>>::empty());
    assert(crate::name::name_texts(out@) =~= Seq::<Seq<char>>::empty());
    while i < texts.len()
        invariant
            ts == string_views(texts@),
            0 <= i <= texts@.len(),
            names_spec(ts.take(i as int)) == Ok::<Seq<Seq<char>>, LowerError>(crate::name::name_texts(out@)),
        decreases texts@.len() - i,
    {
        proof {
            assert(ts.take(i as int + 1).drop_last() =~= ts.take(i as int));
            assert(ts.take(i as int + 1).last() == texts@[i as int]@);
        }
        match lower_name(texts[i].as_str()) {
            Ok(n) => {
                let ghost before = out@;
                let ghost nt = n.text();
                out.push(n);
                assert(crate::name::name_texts(out@) =~= crate::name::name_texts(before).push(nt));
            },
            Err(e) => {
                proof {
                    lemma_names_err_prefix(ts, i as int + 1);
                }
                return Err(e);
            },
        }
        i = i + 1;
    }
    proof {
        assert(ts.take(i as int) =~= ts);
    }
    Ok(out)
}

fn lower_option_name(text: &Option<String>) -> (r: Result<Option<Name>, Error>)
    ensures
        match option_name_spec(option_view(*text)) {
            Ok(o) => r matches Ok(x) && crate::feature::option_text(x) == o,
            Err(e) => r matches Err(err) && reports_lower(err, e),
        },
{
    match text {
        None => Ok(None),
        Some(t) => match lower_name(t.as_str()) {
            Ok(n) => Ok(Some(n)),
            Err(e) => Err(e),
        },
    }
}

fn copy_option(text: &Option<String>) -> (r: Option<String>)
    ensures
        option_view(r) == option_view(*text),
{
    match text {
        None => None,
        Some(t) => Some(string_of(t.as_str())),
    }
}

/// Lower an identified feature.
pub fn lower_feature(feature: &IdentifiedFeature) -> (r: Result<Feature, Error>)
    ensures
        match lower_feature_spec(feature.model()) {
            Ok(m) => r matches Ok(f) && feature_is(f, m),
            Err(e) => r matches Err(err) && reports_lower(err, e),
        },
{
    match feature {
        IdentifiedFeature::Reply(names) => match lower_names(names) {
            Ok(ns) => Ok(Feature::Reply(ns)),
            Err(e) => Err(e),
        },
        IdentifiedFeature::Event { stream, events } => {
            let stream = match lower_option_name(stream) {
                Ok(s) => s,
                Err(e) => return Err(e),
            };
            let events = match lower_names(events) {
                Ok(v) => v,
                Err(e) => return Err(e),
            };
            Ok(Feature::Event(EventFeature::new(stream, events)))
        },
        IdentifiedFeature::Observable { filter, operation_event, effect_event } => {
            let operation = match lower_option_name(operation_event) {
                Ok(s) => s,
                Err(e) => return Err(e),
            };
            let effect = match lower_option_name(effect_event) {
                Ok(s) => s,
                Err(e) => return Err(e),
            };
            let copied = copy_option(filter);
            let observable = ObservableFeature::new(copied, operation, effect);
            Ok(Feature::Observable(observable))
        },
        IdentifiedFeature::Upgrade(value) => match lower_upgrade(value) {
            Ok(u) => Ok(Feature::Upgrade(u)),
            Err(e) => Err(e),
        },
    }
}

} // verus!
