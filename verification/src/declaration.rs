//! Declarations of the schema model and the storage-compatibility
//! relation between two versions of a declaration body: two bodies
//! store alike when their shapes, variant names, engines and field
//! types agree position for position (field names do not matter).
use vstd::prelude::*;
use crate::expression::{ExpressionModel, TypeExpression};
use crate::name::{FieldName, Name};
use crate::text::str_equal;

verus! {

#[derive(Clone, Copy, Debug, PartialEq, Eq, Hash, Structural)]
pub enum Engine {
    Assert,
    Mutate,
    Retract,
    Match,
    Subscribe,
    Validate,
}

#[derive(Debug, PartialEq, Eq)]
pub struct Field {
    name: Option<FieldName>,
    expression: TypeExpression,
}

#[derive(Debug, PartialEq, Eq)]
pub enum Payload {
    Unit,
    Type(TypeExpression),
    Fields(Vec<Field>),
}

#[derive(Debug, PartialEq, Eq)]
pub struct Variant {
    name: Name,
    payload: Payload,
    engine: Option<Engine>,
}

#[derive(Debug, PartialEq, Eq)]
pub enum DeclarationBody {
    Enum { variants: Vec<Variant> },
    Newtype(TypeExpression),
    Record(Vec<Field>),
    Alias(TypeExpression),
}

#[derive(Debug, PartialEq, Eq)]
pub struct Declaration {
    name: Name,
    body: DeclarationBody,
}

// ── Models ──────────────────────────────────────────────────────────

pub struct FieldModel {
    pub name: Option<Seq<char>>,
    pub expression: ExpressionModel,
}

pub enum PayloadModel {
    Unit,
    Type(ExpressionModel),
    Fields(Seq<FieldModel>),
}

pub struct VariantModel {
    pub name: Seq<char>,
    pub payload: PayloadModel,
    pub engine: Option<Engine>,
}

pub enum BodyModel {
    Enum(Seq<VariantModel>),
    Newtype(ExpressionModel),
    Record(Seq<FieldModel>),
    Alias(ExpressionModel),
}

pub open spec fn expression_models(es: Seq<TypeExpression>) -> Seq<ExpressionModel> {
    Seq::new(es.len(), |i: int| es[i].model())
}

/// Fields with derived names, one per type.
pub open spec fn inferred_field_models(es: Seq<ExpressionModel>) -> Seq<FieldModel> {
    Seq::new(es.len(), |i: int| FieldModel { name: None, expression: es[i] })
}

pub open spec fn field_models(fields: Seq<Field>) -> Seq<FieldModel> {
    Seq::new(fields.len(), |i: int| fields[i].model())
}

pub open spec fn variant_models(variants: Seq<Variant>) -> Seq<VariantModel> {
    Seq::new(variants.len(), |i: int| variants[i].model())
}

impl Field {
    pub closed spec fn model(&self) -> FieldModel {
        FieldModel {
            name: match self.name {
                Some(n) => Some(n.text()),
                None => None,
            },
            expression: self.expression.model(),
        }
    }
}

impl Payload {
    pub open spec fn model(&self) -> PayloadModel {
        match self {
            Payload::Unit => PayloadModel::Unit,
            Payload::Type(e) => PayloadModel::Type(e.model()),
            Payload::Fields(fields) => PayloadModel::Fields(field_models(fields@)),
        }
    }
}

impl Variant {
    pub closed spec fn model(&self) -> VariantModel {
        VariantModel {
            name: self.name.text(),
            payload: self.payload.model(),
            engine: self.engine,
        }
    }
}

impl DeclarationBody {
    pub open spec fn model(&self) -> BodyModel {
        match self {
            DeclarationBody::Enum { variants } => BodyModel::Enum(variant_models(variants@)),
            DeclarationBody::Newtype(e) => BodyModel::Newtype(e.model()),
            DeclarationBody::Record(fields) => BodyModel::Record(field_models(fields@)),
            DeclarationBody::Alias(e) => BodyModel::Alias(e.model()),
        }
    }
}

// ── Storage compatibility ───────────────────────────────────────────

/// Two fields store alike when their types are the same.
pub open spec fn field_storage_matches(a: FieldModel, b: FieldModel) -> bool {
    a.expression == b.expression
}

pub open spec fn fields_storage_match(a: Seq<FieldModel>, b: Seq<FieldModel>) -> bool {
    a.len() == b.len() && forall|i: int|
        0 <= i < a.len() ==> field_storage_matches(#[trigger] a[i], b[i])
}

pub open spec fn payload_storage_matches(a: PayloadModel, b: PayloadModel) -> bool {
    match (a, b) {
        (PayloadModel::Unit, PayloadModel::Unit) => true,
        (PayloadModel::Type(x), PayloadModel::Type(y)) => x == y,
        (PayloadModel::Fields(x), PayloadModel::Fields(y)) => fields_storage_match(x, y),
        _ => false,
    }
}

/// Two variants store alike when name, payload storage and engine agree.
pub open spec fn variant_storage_matches(a: VariantModel, b: VariantModel) -> bool {
    a.name == b.name && payload_storage_matches(a.payload, b.payload) && a.engine == b.engine
}

pub open spec fn body_storage_matches(a: BodyModel, b: BodyModel) -> bool {
    match (a, b) {
        (BodyModel::Enum(x), BodyModel::Enum(y)) => x.len() == y.len() && forall|i: int|
            0 <= i < x.len() ==> variant_storage_matches(#[trigger] x[i], y[i]),
        (BodyModel::Newtype(x), BodyModel::Newtype(y)) => x == y,
        (BodyModel::Alias(x), BodyModel::Alias(y)) => x == y,
        (BodyModel::Record(x), BodyModel::Record(y)) => fields_storage_match(x, y),
        _ => false,
    }
}

/// Every body stores alike with itself.
pub proof fn lemma_storage_matches_reflexive(body: BodyModel)
    ensures
        body_storage_matches(body, body),
{
}

/// Storage compatibility does not depend on which body is the older one.
pub proof fn lemma_storage_matches_symmetric(a: BodyModel, b: BodyModel)
    ensures
        body_storage_matches(a, b) == body_storage_matches(b, a),
{
    match (a, b) {
        (BodyModel::Enum(x), BodyModel::Enum(y)) => {
            if body_storage_matches(a, b) {
                assert forall|i: int| 0 <= i < y.len() implies variant_storage_matches(
                    #[trigger] y[i],
                    x[i],
                ) by {
                    assert(variant_storage_matches(x[i], y[i]));
                }
            }
            if body_storage_matches(b, a) {
                assert forall|i: int| 0 <= i < x.len() implies variant_storage_matches(
                    #[trigger] x[i],
                    y[i],
                ) by {
                    assert(variant_storage_matches(y[i], x[i]));
                }
            }
        },
        (BodyModel::Record(x), BodyModel::Record(y)) => {
            if body_storage_matches(a, b) {
                assert forall|i: int| 0 <= i < y.len() implies field_storage_matches(
                    #[trigger] y[i],
                    x[i],
                ) by {
                    assert(field_storage_matches(x[i], y[i]));
                }
            }
            if body_storage_matches(b, a) {
                assert forall|i: int| 0 <= i < x.len() implies field_storage_matches(
                    #[trigger] x[i],
                    y[i],
                ) by {
                    assert(field_storage_matches(y[i], x[i]));
                }
            }
        },
        _ => {},
    }
}

fn fields_match(current: &Vec<Field>, previous: &Vec<Field>) -> (r: bool)
    ensures
        r == fields_storage_match(field_models(current@), field_models(previous@)),
{
    if current.len() != previous.len() {
        return false;
    }
    let mut i: usize = 0;
    while i < current.len()
        invariant
            current@.len() == previous@.len(),
            0 <= i <= current@.len(),
            forall|k: int|
                0 <= k < i ==> field_storage_matches(
                    #[trigger] field_models(current@)[k],
                    field_models(previous@)[k],
                ),
        decreases current@.len() - i,
    {
        if !current[i].storage_matches(&previous[i]) {
            assert(!field_storage_matches(
                field_models(current@)[i as int],
                field_models(previous@)[i as int],
            ));
            return false;
        }
        i = i + 1;
    }
    true
}

fn copy_fields(fields: &Vec<Field>) -> (r: Vec<Field>)
    ensures
        field_models(r@) == field_models(fields@),
{
    let mut out: Vec<Field> = Vec::new();
    let mut i: usize = 0;
    while i < fields.len()
        invariant
            0 <= i <= fields@.len(),
            out@.len() == i,
            forall|k: int| 0 <= k < i ==> #[trigger] out@[k].model() == fields@[k].model(),
        decreases fields@.len() - i,
    {
        out.push(fields[i].duplicate());
        i = i + 1;
    }
    assert(field_models(out@) =~= field_models(fields@));
    out
}

impl Field {
    /// A field whose name is derived from its type.
    pub fn inferred(expression: TypeExpression) -> (r: Self)
        ensures
            r.model() == (FieldModel { name: None, expression: expression.model() }),
    {
        Field { name: None, expression }
    }

    /// A field with an explicit name.
    pub fn named(name: FieldName, expression: TypeExpression) -> (r: Self)
        ensures
            r.model() == (FieldModel { name: Some(name.text()), expression: expression.model() }),
    {
        Field { name: Some(name), expression }
    }

    pub fn name(&self) -> (r: Option<&FieldName>)
        ensures
            match self.model().name {
                Some(t) => r matches Some(n) && n.text() == t,
                None => r is None,
            },
    {
        match &self.name {
            Some(n) => Some(n),
            None => None,
        }
    }

    pub fn expression(&self) -> (r: &TypeExpression)
        ensures
            r.model() == self.model().expression,
    {
        &self.expression
    }

    /// Whether the two fields store alike: their types are the same.
    pub fn storage_matches(&self, other: &Self) -> (r: bool)
        ensures
            r == field_storage_matches(self.model(), other.model()),
    {
        self.expression.same_as(&other.expression)
    }

    pub fn duplicate(&self) -> (r: Field)
        ensures
            r.model() == self.model(),
    {
        let name = match &self.name {
            Some(n) => Some(n.duplicate()),
            None => None,
        };
        Field { name, expression: self.expression.duplicate() }
    }
}

impl From<TypeExpression> for Field {
    fn from(expression: TypeExpression) -> (r: Self) {
        Field { name: None, expression }
    }
}

impl vstd::std_specs::convert::FromSpecImpl<TypeExpression> for Field {
    open spec fn obeys_from_spec() -> bool {
        true
    }

    closed spec fn from_spec(v: TypeExpression) -> Self {
        Field { name: None, expression: v }
    }
}

impl Payload {
    /// Whether the two payloads store alike.
    pub fn storage_matches(&self, other: &Self) -> (r: bool)
        ensures
            r == payload_storage_matches(self.model(), other.model()),
    {
        match (self, other) {
            (Payload::Unit, Payload::Unit) => true,
            (Payload::Type(current), Payload::Type(previous)) => current.same_as(previous),
            (Payload::Fields(current), Payload::Fields(previous)) => fields_match(
                current,
                previous,
            ),
            _ => false,
        }
    }
}

impl Variant {
    pub fn unit(name: Name) -> (r: Self)
        ensures
            r.model() == (VariantModel {
                name: name.text(),
                payload: PayloadModel::Unit,
                engine: None,
            }),
    {
        Variant { name, payload: Payload::Unit, engine: None }
    }

    pub fn with_type(name: Name, expression: TypeExpression) -> (r: Self)
        ensures
            r.model() == (VariantModel {
                name: name.text(),
                payload: PayloadModel::Type(expression.model()),
                engine: None,
            }),
    {
        Variant { name, payload: Payload::Type(expression), engine: None }
    }

    /// A variant whose fields are the given types, names derived.
    pub fn with_fields(name: Name, fields: Vec<TypeExpression>) -> (r: Self)
        ensures
            r.model() == (VariantModel {
                name: name.text(),
                payload: PayloadModel::Fields(inferred_field_models(expression_models(fields@))),
                engine: None,
            }),
    {
        let entries = inferred_fields(fields);
        let r = Self::with_field_entries(name, entries);
        assert(field_models(entries@) =~= inferred_field_models(expression_models(fields@)));
        r
    }

    pub fn with_field_entries(name: Name, fields: Vec<Field>) -> (r: Self)
        ensures
            r.model() == (VariantModel {
                name: name.text(),
                payload: PayloadModel::Fields(field_models(fields@)),
                engine: None,
            }),
    {
        Variant { name, payload: Payload::Fields(fields), engine: None }
    }

    /// This variant, run by the given engine.
    pub fn with_engine(self, engine: Engine) -> (r: Self)
        ensures
            r.model() == (VariantModel { engine: Some(engine), ..self.model() }),
    {
        let mut v = self;
        v.engine = Some(engine);
        v
    }

    pub fn name(&self) -> (r: &Name)
        ensures
            r.text() == self.model().name,
    {
        &self.name
    }

    pub fn payload(&self) -> (r: &Payload)
        ensures
            r.model() == self.model().payload,
    {
        &self.payload
    }

    pub fn engine(&self) -> (r: Option<Engine>)
        ensures
            r == self.model().engine,
    {
        self.engine
    }

    /// Whether the two variants store alike.
    pub fn storage_matches(&self, other: &Self) -> (r: bool)
        ensures
            r == variant_storage_matches(self.model(), other.model()),
    {
        let same_engine = match (self.engine, other.engine) {
            (None, None) => true,
            (Some(a), Some(b)) => a == b,
            _ => false,
        };
        str_equal(self.name.as_str(), other.name.as_str()) && self.payload.storage_matches(
            &other.payload,
        ) && same_engine
    }
}

/// Fields with derived names, one per type.
pub fn inferred_fields(expressions: Vec<TypeExpression>) -> (r: Vec<Field>)
    ensures
        r@.len() == expressions@.len(),
        forall|i: int|
            0 <= i < r@.len() ==> (#[trigger] r@[i]).model() == (FieldModel {
                name: None,
                expression: expressions@[i].model(),
            }),
{
    let mut out: Vec<Field> = Vec::new();
    let mut i: usize = 0;
    while i < expressions.len()
        invariant
            0 <= i <= expressions@.len(),
            out@.len() == i,
            forall|k: int|
                0 <= k < i ==> (#[trigger] out@[k]).model() == (FieldModel {
                    name: None,
                    expression: expressions@[k].model(),
                }),
        decreases expressions@.len() - i,
    {
        out.push(Field::inferred(expressions[i].duplicate()));
        i = i + 1;
    }
    out
}

impl DeclarationBody {
    /// Whether this body stores alike with `other`.
    pub fn storage_matches(&self, other: &Self) -> (r: bool)
        ensures
            r == body_storage_matches(self.model(), other.model()),
    {
        match (self, other) {
            (DeclarationBody::Enum { variants: current }, DeclarationBody::Enum { variants: previous }) => {
                if current.len() != previous.len() {
                    return false;
                }
                let mut i: usize = 0;
                while i < current.len()
                    invariant
                        *self == (DeclarationBody::Enum { variants: *current }),
                        *other == (DeclarationBody::Enum { variants: *previous }),
                        current@.len() == previous@.len(),
                        0 <= i <= current@.len(),
                        forall|k: int|
                            0 <= k < i ==> variant_storage_matches(
                                #[trigger] variant_models(current@)[k],
                                variant_models(previous@)[k],
                            ),
                    decreases current@.len() - i,
                {
                    if !current[i].storage_matches(&previous[i]) {
                        assert(!variant_storage_matches(
                            variant_models(current@)[i as int],
                            variant_models(previous@)[i as int],
                        ));
                        return false;
                    }
                    i = i + 1;
                }
                true
            },
            (DeclarationBody::Newtype(current), DeclarationBody::Newtype(previous)) => current.same_as(
                previous,
            ),
            (DeclarationBody::Alias(current), DeclarationBody::Alias(previous)) => current.same_as(
                previous,
            ),
            (DeclarationBody::Record(current), DeclarationBody::Record(previous)) => fields_match(
                current,
                previous,
            ),
            _ => false,
        }
    }
}

impl Declaration {
    pub closed spec fn name_text(&self) -> Seq<char> {
        self.name.text()
    }

    pub closed spec fn body_model(&self) -> BodyModel {
        self.body.model()
    }

    pub fn new(name: Name, body: DeclarationBody) -> (r: Self)
        ensures
            r.name_text() == name.text(),
            r.body_model() == body.model(),
    {
        Declaration { name, body }
    }

    pub fn enumeration(name: Name, variants: Vec<Variant>) -> (r: Self)
        ensures
            r.name_text() == name.text(),
            r.body_model() == BodyModel::Enum(variant_models(variants@)),
    {
        Declaration { name, body: DeclarationBody::Enum { variants } }
    }

    pub fn newtype(name: Name, expression: TypeExpression) -> (r: Self)
        ensures
            r.name_text() == name.text(),
            r.body_model() == BodyModel::Newtype(expression.model()),
    {
        Declaration { name, body: DeclarationBody::Newtype(expression) }
    }

    /// A record whose fields are the given types, names derived.
    pub fn record(name: Name, fields: Vec<TypeExpression>) -> (r: Self)
        ensures
            r.name_text() == name.text(),
            r.body_model() == BodyModel::Record(inferred_field_models(expression_models(fields@))),
    {
        let entries = inferred_fields(fields);
        let r = Self::record_fields(name, entries);
        assert(field_models(entries@) =~= inferred_field_models(expression_models(fields@)));
        r
    }

    pub fn record_fields(name: Name, fields: Vec<Field>) -> (r: Self)
        ensures
            r.name_text() == name.text(),
            r.body_model() == BodyModel::Record(field_models(fields@)),
    {
        Declaration { name, body: DeclarationBody::Record(fields) }
    }

    pub fn alias(name: Name, expression: TypeExpression) -> (r: Self)
        ensures
            r.name_text() == name.text(),
            r.body_model() == BodyModel::Alias(expression.model()),
    {
        Declaration { name, body: DeclarationBody::Alias(expression) }
    }

    pub fn name(&self) -> (r: &Name)
        ensures
            r.text() == self.name_text(),
    {
        &self.name
    }

    pub fn body(&self) -> (r: &DeclarationBody)
        ensures
            r.model() == self.body_model(),
    {
        &self.body
    }
}

// ── Structural equality ─────────────────────────────────────────────

impl Field {
    /// Whether the two fields are the same: same name and same type.
    pub fn same_as(&self, other: &Self) -> (r: bool)
        ensures
            r == (self.model() == other.model()),
    {
        let same_name = match (&self.name, &other.name) {
            (None, None) => true,
            (Some(a), Some(b)) => str_equal(a.as_str(), b.as_str()),
            _ => false,
        };
        same_name && self.expression.same_as(&other.expression)
    }
}

fn fields_same(current: &Vec<Field>, previous: &Vec<Field>) -> (r: bool)
    ensures
        r == (field_models(current@) == field_models(previous@)),
{
    if current.len() != previous.len() {
        assert(field_models(current@).len() != field_models(previous@).len());
        return false;
    }
    let mut i: usize = 0;
    while i < current.len()
        invariant
            current@.len() == previous@.len(),
            0 <= i <= current@.len(),
            forall|k: int| 0 <= k < i ==> #[trigger] current@[k].model() == previous@[k].model(),
        decreases current@.len() - i,
    {
        if !current[i].same_as(&previous[i]) {
            assert(field_models(current@)[i as int] != field_models(previous@)[i as int]);
            return false;
        }
        i = i + 1;
    }
    assert(field_models(current@) =~= field_models(previous@));
    true
}

impl Payload {
    pub fn same_as(&self, other: &Self) -> (r: bool)
        ensures
            r == (self.model() == other.model()),
    {
        match (self, other) {
            (Payload::Unit, Payload::Unit) => true,
            (Payload::Type(a), Payload::Type(b)) => a.same_as(b),
            (Payload::Fields(a), Payload::Fields(b)) => fields_same(a, b),
            _ => false,
        }
    }
}

impl Variant {
    pub fn same_as(&self, other: &Self) -> (r: bool)
        ensures
            r == (self.model() == other.model()),
    {
        let same_engine = match (self.engine, other.engine) {
            (None, None) => true,
            (Some(a), Some(b)) => a == b,
            _ => false,
        };
        str_equal(self.name.as_str(), other.name.as_str()) && self.payload.same_as(&other.payload)
            && same_engine
    }

    pub fn duplicate(&self) -> (r: Self)
        ensures
            r.model() == self.model(),
    {
        let payload = match &self.payload {
            Payload::Unit => Payload::Unit,
            Payload::Type(e) => Payload::Type(e.duplicate()),
            Payload::Fields(fields) => Payload::Fields(copy_fields(fields)),
        };
        Variant { name: self.name.duplicate(), payload, engine: self.engine }
    }
}

/// Whether the first `n` variants of two runs are the same.
pub open spec fn same_prefix(a: Seq<VariantModel>, b: Seq<VariantModel>, n: int) -> bool {
    forall|i: int| 0 <= i < n ==> #[trigger] a[i] == b[i]
}

/// Whether the first `n` variants of two runs are the same.
pub fn variants_same_prefix(a: &Vec<Variant>, b: &Vec<Variant>, n: usize) -> (r: bool)
    requires
        n <= a@.len(),
        n <= b@.len(),
    ensures
        r == same_prefix(variant_models(a@), variant_models(b@), n as int),
{
    let mut i: usize = 0;
    while i < n
        invariant
            n <= a@.len(),
            n <= b@.len(),
            0 <= i <= n,
            same_prefix(variant_models(a@), variant_models(b@), i as int),
        decreases n - i,
    {
        if !a[i].same_as(&b[i]) {
            assert(variant_models(a@)[i as int] != variant_models(b@)[i as int]);
            return false;
        }
        i = i + 1;
    }
    true
}

impl DeclarationBody {
    /// Whether the two bodies are the same.
    pub fn same_as(&self, other: &Self) -> (r: bool)
        ensures
            r == (self.model() == other.model()),
    {
        match (self, other) {
            (DeclarationBody::Enum { variants: a }, DeclarationBody::Enum { variants: b }) => {
                if a.len() != b.len() {
                    assert(variant_models(a@).len() != variant_models(b@).len());
                    return false;
                }
                let same = variants_same_prefix(a, b, a.len());
                if same {
                    assert(variant_models(a@) =~= variant_models(b@));
                }
                same
            },
            (DeclarationBody::Newtype(a), DeclarationBody::Newtype(b)) => a.same_as(b),
            (DeclarationBody::Alias(a), DeclarationBody::Alias(b)) => a.same_as(b),
            (DeclarationBody::Record(a), DeclarationBody::Record(b)) => fields_same(a, b),
            _ => false,
        }
    }

    pub fn duplicate(&self) -> (r: Self)
        ensures
            r.model() == self.model(),
    {
        match self {
            DeclarationBody::Enum { variants } => {
                let mut out: Vec<Variant> = Vec::new();
                let mut i: usize = 0;
                while i < variants.len()
                    invariant
                        0 <= i <= variants@.len(),
                        out@.len() == i,
                        forall|k: int| 0 <= k < i ==> #[trigger] out@[k].model() == variants@[k].model(),
                    decreases variants@.len() - i,
                {
                    out.push(variants[i].duplicate());
                    i = i + 1;
                }
                assert(variant_models(out@) =~= variant_models(variants@));
                DeclarationBody::Enum { variants: out }
            },
            DeclarationBody::Newtype(e) => DeclarationBody::Newtype(e.duplicate()),
            DeclarationBody::Record(fields) => DeclarationBody::Record(copy_fields(fields)),
            DeclarationBody::Alias(e) => DeclarationBody::Alias(e.duplicate()),
        }
    }
}

} // verus!
