//! Storage layout of a declaration's fields: a field whose type has a
//! fixed width is stored at the root, any other in a box. A named type
//! has a fixed width when every part of its body does; one walk over the
//! declarations shares the names it has already entered, and a name
//! entered twice counts as not fixed.
use vstd::prelude::*;
use crate::assembled::{AssembledSchema, TypeModel, lemma_local_body_found, local_body, type_named};
use crate::declaration::{
    BodyModel, DeclarationBody, Field, FieldModel, Payload, PayloadModel, VariantModel,
    field_models, variant_models,
};
use crate::error::Error;
use crate::expression::{Container, ExpressionModel, Primitive, TypeExpression, derived_field_name_spec};
use crate::name::{FieldName, Name};
use crate::text::{str_equal, string_of};

verus! {

/// The number of local types whose names have not been entered yet.
pub open spec fn unvisited(ts: Seq<TypeModel>, v: Set<Seq<char>>) -> nat
    decreases ts.len(),
{
    if ts.len() == 0 {
        0
    } else {
        unvisited(ts.drop_last(), v) + match ts.last() {
            TypeModel::Local(n, _) => if v.contains(n) {
                0nat
            } else {
                1nat
            },
            TypeModel::Imported(_, _) => 0nat,
        }
    }
}

proof fn lemma_unvisited_monotone(ts: Seq<TypeModel>, v: Set<Seq<char>>, w: Set<Seq<char>>)
    requires
        v.subset_of(w),
    ensures
        unvisited(ts, w) <= unvisited(ts, v),
    decreases ts.len(),
{
    if ts.len() > 0 {
        lemma_unvisited_monotone(ts.drop_last(), v, w);
    }
}

proof fn lemma_unvisited_drops(ts: Seq<TypeModel>, v: Set<Seq<char>>, n: Seq<char>, i: int)
    requires
        0 <= i < ts.len(),
        ts[i] is Local,
        ts[i]->Local_0 == n,
        !v.contains(n),
    ensures
        unvisited(ts, v.insert(n)) < unvisited(ts, v),
    decreases ts.len(),
{
    if i < ts.len() - 1 {
        assert(ts.drop_last()[i] == ts[i]);
        lemma_unvisited_drops(ts.drop_last(), v, n, i);
        lemma_unvisited_monotone(ts.drop_last(), v, v.insert(n));
        match ts.last() {
            TypeModel::Local(m, _) => {},
            TypeModel::Imported(_, _) => {},
        }
    } else {
        lemma_unvisited_monotone(ts.drop_last(), v, v.insert(n));
    }
}

/// Sizes of the terms a walk descends through.
pub open spec fn expr_size(e: ExpressionModel) -> nat
    decreases e,
{
    match e {
        ExpressionModel::Vector(inner) => 1 + expr_size(*inner),
        ExpressionModel::Optional(inner) => 1 + expr_size(*inner),
        ExpressionModel::Mapping(k, v) => 1 + expr_size(*k) + expr_size(*v),
        _ => 1,
    }
}

pub open spec fn fields_size(fs: Seq<FieldModel>) -> nat
    decreases fs.len(),
{
    if fs.len() == 0 {
        0
    } else {
        1 + expr_size(fs[0].expression) + fields_size(fs.drop_first())
    }
}

pub open spec fn payload_size(p: PayloadModel) -> nat {
    match p {
        PayloadModel::Unit => 0,
        PayloadModel::Type(e) => expr_size(e),
        PayloadModel::Fields(fs) => fields_size(fs),
    }
}

pub open spec fn variants_size(vs: Seq<VariantModel>) -> nat
    decreases vs.len(),
{
    if vs.len() == 0 {
        0
    } else {
        1 + payload_size(vs[0].payload) + variants_size(vs.drop_first())
    }
}

pub open spec fn body_size(b: BodyModel) -> nat {
    match b {
        BodyModel::Enum(vs) => 1 + variants_size(vs),
        BodyModel::Newtype(e) => 1 + expr_size(e),
        BodyModel::Alias(e) => 1 + expr_size(e),
        BodyModel::Record(fs) => 1 + fields_size(fs),
    }
}

/// Whether a primitive has a fixed width.
pub open spec fn primitive_fixed(p: Primitive) -> bool {
    !(p == Primitive::String || p == Primitive::Bytes)
}

/// Whether an expression has a fixed width, with the names entered after
/// the walk.
pub open spec fn fixed_expr_spec(ts: Seq<TypeModel>, e: ExpressionModel, v: Set<Seq<char>>) -> (
    bool,
    Set<Seq<char>>,
)
    decreases unvisited(ts, v), expr_size(e),
{
    match e {
        ExpressionModel::Primitive(p) => (primitive_fixed(p), v),
        ExpressionModel::Named(n) => if v.contains(n) {
            (false, v)
        } else {
            let v2 = v.insert(n);
            match local_body(ts, n) {
                None => (false, v2),
                Some(b) => if unvisited(ts, v2) < unvisited(ts, v) {
                    fixed_body_spec(ts, b, v2)
                } else {
                    (false, v2)
                },
            }
        },
        _ => (false, v),
    }
}

/// Whether every part of a body has a fixed width.
pub open spec fn fixed_body_spec(ts: Seq<TypeModel>, b: BodyModel, v: Set<Seq<char>>) -> (
    bool,
    Set<Seq<char>>,
)
    decreases unvisited(ts, v), body_size(b),
{
    match b {
        BodyModel::Enum(vs) => fixed_variants_spec(ts, vs, v),
        BodyModel::Newtype(e) => fixed_expr_spec(ts, e, v),
        BodyModel::Alias(e) => fixed_expr_spec(ts, e, v),
        BodyModel::Record(fs) => fixed_fields_spec(ts, fs, v),
    }
}

/// Whether every field has a fixed width, stopping at the first that has
/// not.
pub open spec fn fixed_fields_spec(ts: Seq<TypeModel>, fs: Seq<FieldModel>, v: Set<Seq<char>>) -> (
    bool,
    Set<Seq<char>>,
)
    decreases unvisited(ts, v), fields_size(fs),
{
    if fs.len() == 0 {
        (true, v)
    } else {
        let (ok, v1) = fixed_expr_spec(ts, fs[0].expression, v);
        if !ok {
            (false, v1)
        } else if unvisited(ts, v1) <= unvisited(ts, v) {
            fixed_fields_spec(ts, fs.drop_first(), v1)
        } else {
            (false, v1)
        }
    }
}

/// Whether every variant's payload has a fixed width, stopping at the
/// first that has not.
pub open spec fn fixed_variants_spec(ts: Seq<TypeModel>, vs: Seq<VariantModel>, v: Set<Seq<char>>) -> (
    bool,
    Set<Seq<char>>,
)
    decreases unvisited(ts, v), variants_size(vs),
{
    if vs.len() == 0 {
        (true, v)
    } else {
        let (ok, v1) = match vs[0].payload {
            PayloadModel::Unit => (true, v),
            PayloadModel::Type(e) => fixed_expr_spec(ts, e, v),
            PayloadModel::Fields(fs) => fixed_fields_spec(ts, fs, v),
        };
        if !ok {
            (false, v1)
        } else if unvisited(ts, v1) <= unvisited(ts, v) {
            fixed_variants_spec(ts, vs.drop_first(), v1)
        } else {
            (false, v1)
        }
    }
}

// ── The walk ────────────────────────────────────────────────────────

/// The names entered so far, as a set.
pub open spec fn entered(v: Seq<String>) -> Set<Seq<char>> {
    Set::new(|t: Seq<char>| exists|i: int| 0 <= i < v.len() && v[i]@ == t)
}

proof fn lemma_entered_push(v: Seq<String>, s: String)
    ensures
        entered(v.push(s)) == entered(v).insert(s@),
{
    assert forall|t: Seq<char>| entered(v.push(s)).contains(t) == entered(v).insert(s@).contains(t) by {
        if entered(v.push(s)).contains(t) {
            let i = choose|i: int| 0 <= i < v.push(s).len() && v.push(s)[i]@ == t;
            if i < v.len() {
                assert(v[i]@ == t);
            }
        }
        if entered(v).contains(t) {
            let i = choose|i: int| 0 <= i < v.len() && v[i]@ == t;
            assert(v.push(s)[i]@ == t);
        }
        if t == s@ {
            assert(v.push(s)[v.len() as int]@ == t);
        }
    }
    assert(entered(v.push(s)) =~= entered(v).insert(s@));
}

fn entered_contains(v: &Vec<String>, t: &str) -> (r: bool)
    ensures
        r == entered(v@).contains(t@),
{
    let mut i: usize = 0;
    while i < v.len()
        invariant
            0 <= i <= v@.len(),
            forall|k: int| 0 <= k < i ==> (#[trigger] v@[k])@ != t@,
        decreases v@.len() - i,
    {
        if str_equal(v[i].as_str(), t) {
            assert(v@[i as int]@ == t@);
            return true;
        }
        i = i + 1;
    }
    false
}

proof fn lemma_field_size_bound(fs: Seq<FieldModel>, i: int)
    requires
        0 <= i < fs.len(),
    ensures
        expr_size(fs[i].expression) < fields_size(fs),
        fields_size(fs.subrange(i, fs.len() as int)) <= fields_size(fs),
    decreases i,
{
    if i > 0 {
        lemma_field_size_bound(fs.drop_first(), i - 1);
        assert(fs.drop_first()[i - 1] == fs[i]);
        assert(fs.drop_first().subrange(i - 1, fs.drop_first().len() as int) =~= fs.subrange(i, fs.len() as int));
    } else {
        assert(fs.subrange(0, fs.len() as int) =~= fs);
    }
}

proof fn lemma_variant_size_bound(vs: Seq<VariantModel>, i: int)
    requires
        0 <= i < vs.len(),
    ensures
        payload_size(vs[i].payload) < variants_size(vs),
    decreases i,
{
    if i > 0 {
        lemma_variant_size_bound(vs.drop_first(), i - 1);
        assert(vs.drop_first()[i - 1] == vs[i]);
    }
}

fn fixed_expr(schema: &AssembledSchema, e: &TypeExpression, visited: &mut Vec<String>) -> (r: bool)
    requires
        schema.wf(),
    ensures
        (r, entered(final(visited)@)) == fixed_expr_spec(schema.type_list(), e.model(), entered(old(visited)@)),
        entered(old(visited)@).subset_of(entered(final(visited)@)),
    decreases unvisited(schema.type_list(), entered(old(visited)@)), expr_size(e.model()), 1int,
{
    let ghost ts = schema.type_list();
    let ghost v0 = entered(visited@);
    match e {
        TypeExpression::Primitive(p) => p.is_fixed_width(),
        TypeExpression::Named(name) => {
            if entered_contains(visited, name.as_str()) {
                return false;
            }
            let entry = string_of(name.as_str());
            let ghost before = visited@;
            visited.push(entry);
            proof {
                lemma_entered_push(before, entry);
                assert(visited@ == before.push(entry));
            }
            match schema.body(name) {
                None => false,
                Some(body) => {
                    proof {
                        lemma_local_body_found(ts, name.text());
                        let i = choose|i: int| 0 <= i < ts.len() && ts[i] == TypeModel::Local(name.text(), local_body(ts, name.text())->Some_0);
                        lemma_unvisited_drops(ts, v0, name.text(), i);
                    }
                    fixed_body(schema, body, visited)
                },
            }
        },
        TypeExpression::Container(_) => false,
    }
}

fn fixed_body(schema: &AssembledSchema, b: &DeclarationBody, visited: &mut Vec<String>) -> (r: bool)
    requires
        schema.wf(),
    ensures
        (r, entered(final(visited)@)) == fixed_body_spec(schema.type_list(), b.model(), entered(old(visited)@)),
        entered(old(visited)@).subset_of(entered(final(visited)@)),
    decreases unvisited(schema.type_list(), entered(old(visited)@)), body_size(b.model()), 1int,
{
    match b {
        DeclarationBody::Enum { variants } => fixed_variants(schema, variants, visited),
        DeclarationBody::Newtype(e) => fixed_expr(schema, e, visited),
        DeclarationBody::Alias(e) => fixed_expr(schema, e, visited),
        DeclarationBody::Record(fields) => fixed_fields(schema, fields, visited),
    }
}

fn fixed_fields(schema: &AssembledSchema, fields: &Vec<Field>, visited: &mut Vec<String>) -> (r: bool)
    requires
        schema.wf(),
    ensures
        (r, entered(final(visited)@)) == fixed_fields_spec(schema.type_list(), field_models(fields@), entered(old(visited)@)),
        entered(old(visited)@).subset_of(entered(final(visited)@)),
    decreases unvisited(schema.type_list(), entered(old(visited)@)), fields_size(field_models(fields@)), 0int,
{
    let ghost ts = schema.type_list();
    let ghost fs = field_models(fields@);
    let ghost v0 = entered(visited@);
    let mut i: usize = 0;
    assert(fs.subrange(0, fs.len() as int) =~= fs);
    while i < fields.len()
        invariant
            schema.wf(),
            ts == schema.type_list(),
            fs == field_models(fields@),
            0 <= i <= fields@.len(),
            v0 == entered(old(visited)@),
            v0.subset_of(entered(visited@)),
            unvisited(ts, entered(visited@)) <= unvisited(ts, v0),
            fixed_fields_spec(ts, fs, v0) == fixed_fields_spec(ts, fs.subrange(i as int, fs.len() as int), entered(visited@)),
        decreases fields@.len() - i,
    {
        let ghost vi = entered(visited@);
        let ghost sub = fs.subrange(i as int, fs.len() as int);
        proof {
            assert(sub[0] == fs[i as int]);
            assert(sub.drop_first() =~= fs.subrange(i + 1, fs.len() as int));
            lemma_field_size_bound(fs, i as int);
            assert(fs[i as int] == fields@[i as int].model());
        }
        let ok = fixed_expr(schema, fields[i].expression(), visited);
        proof {
            lemma_unvisited_monotone(ts, vi, entered(visited@));
        }
        if !ok {
            return false;
        }
        i = i + 1;
    }
    true
}

fn fixed_variants(schema: &AssembledSchema, variants: &Vec<crate::declaration::Variant>, visited: &mut Vec<String>) -> (r: bool)
    requires
        schema.wf(),
    ensures
        (r, entered(final(visited)@)) == fixed_variants_spec(schema.type_list(), variant_models(variants@), entered(old(visited)@)),
        entered(old(visited)@).subset_of(entered(final(visited)@)),
    decreases unvisited(schema.type_list(), entered(old(visited)@)), variants_size(variant_models(variants@)), 0int,
{
    let ghost ts = schema.type_list();
    let ghost vs = variant_models(variants@);
    let ghost v0 = entered(visited@);
    let mut i: usize = 0;
    assert(vs.subrange(0, vs.len() as int) =~= vs);
    while i < variants.len()
        invariant
            schema.wf(),
            ts == schema.type_list(),
            vs == variant_models(variants@),
            0 <= i <= variants@.len(),
            v0 == entered(old(visited)@),
            v0.subset_of(entered(visited@)),
            unvisited(ts, entered(visited@)) <= unvisited(ts, v0),
            fixed_variants_spec(ts, vs, v0) == fixed_variants_spec(ts, vs.subrange(i as int, vs.len() as int), entered(visited@)),
        decreases variants@.len() - i,
    {
        let ghost vi = entered(visited@);
        let ghost sub = vs.subrange(i as int, vs.len() as int);
        proof {
            assert(sub[0] == vs[i as int]);
            assert(sub.drop_first() =~= vs.subrange(i + 1, vs.len() as int));
            lemma_variant_size_bound(vs, i as int);
            assert(vs[i as int] == variants@[i as int].model());
        }
        let ok = match variants[i].payload() {
            Payload::Unit => true,
            Payload::Type(e) => fixed_expr(schema, e, visited),
            Payload::Fields(fields) => fixed_fields(schema, fields, visited),
        };
        proof {
            lemma_unvisited_monotone(ts, vi, entered(visited@));
        }
        if !ok {
            return false;
        }
        i = i + 1;
    }
    true
}

// ── Layouts ─────────────────────────────────────────────────────────

#[derive(Clone, Copy, Debug, PartialEq, Eq, Hash, Structural)]
pub enum FieldLocation {
    Root,
    Box,
}

/// Where a field of type `e` is stored.
pub open spec fn location_spec(ts: Seq<TypeModel>, e: ExpressionModel) -> FieldLocation {
    if fixed_expr_spec(ts, e, Set::empty()).0 {
        FieldLocation::Root
    } else {
        FieldLocation::Box
    }
}

fn location(schema: &AssembledSchema, e: &TypeExpression) -> (r: FieldLocation)
    requires
        schema.wf(),
    ensures
        r == location_spec(schema.type_list(), e.model()),
{
    let mut visited: Vec<String> = Vec::new();
    assert(entered(visited@) =~= Set::<Seq<char>>::empty());
    if fixed_expr(schema, e, &mut visited) {
        FieldLocation::Root
    } else {
        FieldLocation::Box
    }
}

/// One field's place in a layout.
pub struct FieldLayoutModel {
    pub position: int,
    pub name: Seq<char>,
    pub expression: ExpressionModel,
    pub location: FieldLocation,
}

#[derive(Clone, Debug, PartialEq, Eq)]
pub struct FieldLayout {
    position: usize,
    name: FieldName,
    expression: TypeExpression,
    location: FieldLocation,
}

impl FieldLayout {
    pub closed spec fn model(&self) -> FieldLayoutModel {
        FieldLayoutModel {
            position: self.position as int,
            name: self.name.text(),
            expression: self.expression.model(),
            location: self.location,
        }
    }

    /// A field named after its type.
    pub fn new(position: usize, expression: TypeExpression, location: FieldLocation) -> (r: Self)
        ensures
            r.model() == (FieldLayoutModel {
                position: position as int,
                name: derived_field_name_spec(expression.model()),
                expression: expression.model(),
                location,
            }),
    {
        let name = expression.derived_field_name();
        FieldLayout { position, name, expression, location }
    }

    /// The layout of a schema field: its own name, else one derived from
    /// its type.
    pub fn from_field(position: usize, schema: &AssembledSchema, field: &Field) -> (r: Self)
        requires
            schema.wf(),
        ensures
            r.model() == field_layout_spec(schema.type_list(), position as int, field.model()),
    {
        let expression = field.expression().duplicate();
        let name = match field.name() {
            Some(n) => n.duplicate(),
            None => expression.derived_field_name(),
        };
        let location = location(schema, &expression);
        FieldLayout { position, name, expression, location }
    }

    pub fn position(&self) -> (r: usize)
        ensures
            r as int == self.model().position,
    {
        self.position
    }

    pub fn name(&self) -> (r: &FieldName)
        ensures
            r.text() == self.model().name,
    {
        &self.name
    }

    pub fn expression(&self) -> (r: &TypeExpression)
        ensures
            r.model() == self.model().expression,
    {
        &self.expression
    }

    pub fn location(&self) -> (r: FieldLocation)
        ensures
            r == self.model().location,
    {
        self.location
    }
}

/// The layout of the field at `position`.
pub open spec fn field_layout_spec(ts: Seq<TypeModel>, position: int, f: FieldModel) -> FieldLayoutModel {
    FieldLayoutModel {
        position,
        name: match f.name {
            Some(n) => n,
            None => derived_field_name_spec(f.expression),
        },
        expression: f.expression,
        location: location_spec(ts, f.expression),
    }
}

pub open spec fn fields_layout_spec(ts: Seq<TypeModel>, fs: Seq<FieldModel>) -> Seq<FieldLayoutModel> {
    Seq::new(fs.len(), |i: int| field_layout_spec(ts, i, fs[i]))
}

/// The one field of a single-typed body or payload.
pub open spec fn single_layout_spec(ts: Seq<TypeModel>, e: ExpressionModel) -> Seq<FieldLayoutModel> {
    seq![FieldLayoutModel {
        position: 0,
        name: derived_field_name_spec(e),
        expression: e,
        location: location_spec(ts, e),
    }]
}

/// The fields of a body: none for an enum, the one expression of a
/// newtype or alias, the fields of a record.
pub open spec fn body_layout_spec(ts: Seq<TypeModel>, b: BodyModel) -> Seq<FieldLayoutModel> {
    match b {
        BodyModel::Enum(_) => Seq::empty(),
        BodyModel::Newtype(e) => single_layout_spec(ts, e),
        BodyModel::Alias(e) => single_layout_spec(ts, e),
        BodyModel::Record(fs) => fields_layout_spec(ts, fs),
    }
}

pub open spec fn payload_layout_spec(ts: Seq<TypeModel>, p: PayloadModel) -> Seq<FieldLayoutModel> {
    match p {
        PayloadModel::Unit => Seq::empty(),
        PayloadModel::Type(e) => single_layout_spec(ts, e),
        PayloadModel::Fields(fs) => fields_layout_spec(ts, fs),
    }
}

/// The positions of the fields stored at `location`, in order.
pub open spec fn positions_at(fields: Seq<FieldLayoutModel>, location: FieldLocation) -> Seq<int>
    decreases fields.len(),
{
    if fields.len() == 0 {
        Seq::empty()
    } else {
        let prev = positions_at(fields.drop_last(), location);
        if fields.last().location == location {
            prev.push(fields.last().position)
        } else {
            prev
        }
    }
}

pub open spec fn layout_models(fs: Seq<FieldLayout>) -> Seq<FieldLayoutModel> {
    Seq::new(fs.len(), |i: int| fs[i].model())
}

#[derive(Clone, Debug, PartialEq, Eq)]
pub struct Layout {
    fields: Vec<FieldLayout>,
}

fn fields_layout(schema: &AssembledSchema, fields: &Vec<Field>) -> (r: Vec<FieldLayout>)
    requires
        schema.wf(),
    ensures
        layout_models(r@) == fields_layout_spec(schema.type_list(), field_models(fields@)),
{
    let mut out: Vec<FieldLayout> = Vec::new();
    let mut i: usize = 0;
    while i < fields.len()
        invariant
            schema.wf(),
            0 <= i <= fields@.len(),
            out@.len() == i,
            forall|k: int| 0 <= k < i ==> (#[trigger] out@[k]).model() == field_layout_spec(schema.type_list(), k, fields@[k].model()),
        decreases fields@.len() - i,
    {
        out.push(FieldLayout::from_field(i, schema, &fields[i]));
        i = i + 1;
    }
    assert(layout_models(out@) =~= fields_layout_spec(schema.type_list(), field_models(fields@)));
    out
}

fn single_layout(schema: &AssembledSchema, e: &TypeExpression) -> (r: Vec<FieldLayout>)
    requires
        schema.wf(),
    ensures
        layout_models(r@) == single_layout_spec(schema.type_list(), e.model()),
{
    let loc = location(schema, e);
    let v = vec![FieldLayout::new(0, e.duplicate(), loc)];
    assert(layout_models(v@) =~= single_layout_spec(schema.type_list(), e.model()));
    v
}

impl Layout {
    pub closed spec fn field_list(&self) -> Seq<FieldLayoutModel> {
        layout_models(self.fields@)
    }

    /// The layout of a declaration's body.
    pub fn for_declaration(schema: &AssembledSchema, declaration: &Name) -> (r: Result<Self, Error>)
        requires
            schema.wf(),
        ensures
            match local_body(schema.type_list(), declaration.text()) {
                None => r matches Err(Error::MissingDeclaration { name }) && name.text()
                    == declaration.text(),
                Some(b) => r matches Ok(l) && l.field_list() == body_layout_spec(schema.type_list(), b),
            },
    {
        let body = match schema.body(declaration) {
            Some(b) => b,
            None => return Err(Error::MissingDeclaration { name: declaration.duplicate() }),
        };
        let fields = match body {
            DeclarationBody::Enum { .. } => {
                let v: Vec<FieldLayout> = Vec::new();
                assert(layout_models(v@) =~= Seq::<FieldLayoutModel>::empty());
                v
            },
            DeclarationBody::Newtype(e) => single_layout(schema, e),
            DeclarationBody::Alias(e) => single_layout(schema, e),
            DeclarationBody::Record(fields) => fields_layout(schema, fields),
        };
        Ok(Layout { fields })
    }

    /// The layout of one variant's payload.
    pub fn for_variant(schema: &AssembledSchema, declaration: &Name, variant: &Name) -> (r: Result<Self, Error>)
        requires
            schema.wf(),
        ensures
            match local_body(schema.type_list(), declaration.text()) {
                None => r matches Err(Error::MissingDeclaration { name }) && name.text()
                    == declaration.text(),
                Some(BodyModel::Enum(vs)) => match first_variant_named(vs, variant.text()) {
                    Some(i) => r matches Ok(l) && l.field_list() == payload_layout_spec(schema.type_list(), vs[i].payload),
                    None => r matches Err(Error::MissingVariant { declaration: d, variant: v })
                        && d.text() == declaration.text() && v.text() == variant.text(),
                },
                Some(_) => r matches Err(Error::MissingVariant { declaration: d, variant: v })
                    && d.text() == declaration.text() && v.text() == variant.text(),
            },
    {
        let body = match schema.body(declaration) {
            Some(b) => b,
            None => return Err(Error::MissingDeclaration { name: declaration.duplicate() }),
        };
        let variants = match body {
            DeclarationBody::Enum { variants } => variants,
            _ => {
                return Err(Error::MissingVariant { declaration: declaration.duplicate(), variant: variant.duplicate() });
            },
        };
        let ghost vs = variant_models(variants@);
        let mut i: usize = 0;
        while i < variants.len()
            invariant
                schema.wf(),
                vs == variant_models(variants@),
                local_body(schema.type_list(), declaration.text()) == Some(BodyModel::Enum(vs)),
                0 <= i <= vs.len(),
                forall|k: int| 0 <= k < i ==> (#[trigger] vs[k]).name != variant.text(),
            decreases vs.len() - i,
        {
            assert(vs[i as int] == variants@[i as int].model());
            if str_equal(variants[i].name().as_str(), variant.as_str()) {
                proof {
                    lemma_first_variant_named(vs, variant.text(), i as int);
                }
                let fields = match variants[i].payload() {
                    Payload::Unit => {
                        let v: Vec<FieldLayout> = Vec::new();
                        assert(layout_models(v@) =~= Seq::<FieldLayoutModel>::empty());
                        v
                    },
                    Payload::Type(e) => single_layout(schema, e),
                    Payload::Fields(fields) => fields_layout(schema, fields),
                };
                return Ok(Layout { fields });
            }
            i = i + 1;
        }
        proof {
            lemma_first_variant_absent(vs, variant.text());
        }
        Err(Error::MissingVariant { declaration: declaration.duplicate(), variant: variant.duplicate() })
    }

    pub fn fields(&self) -> (r: &[FieldLayout])
        ensures
            layout_models(r@) == self.field_list(),
    {
        self.fields.as_slice()
    }

    fn positions_for(&self, location: FieldLocation) -> (r: Vec<usize>)
        ensures
            r@.len() == positions_at(self.field_list(), location).len(),
            forall|k: int| 0 <= k < r@.len() ==> r@[k] as int == (#[trigger] positions_at(self.field_list(), location)[k]),
    {
        let ghost fl = self.field_list();
        let mut out: Vec<usize> = Vec::new();
        let mut i: usize = 0;
        while i < self.fields.len()
            invariant
                fl == self.field_list(),
                0 <= i <= fl.len(),
                out@.len() == positions_at(fl.take(i as int), location).len(),
                forall|k: int| 0 <= k < out@.len() ==> out@[k] as int == (#[trigger] positions_at(fl.take(i as int), location)[k]),
            decreases fl.len() - i,
        {
            proof {
                assert(fl.take(i as int + 1).drop_last() =~= fl.take(i as int));
                assert(fl.take(i as int + 1).last() == self.fields@[i as int].model());
            }
            if self.fields[i].location() == location {
                out.push(self.fields[i].position());
            }
            i = i + 1;
        }
        proof {
            assert(fl.take(i as int) =~= fl);
        }
        out
    }

    /// The positions of the fields stored at the root.
    pub fn root_positions(&self) -> (r: Vec<usize>)
        ensures
            r@.len() == positions_at(self.field_list(), FieldLocation::Root).len(),
            forall|k: int| 0 <= k < r@.len() ==> r@[k] as int == (#[trigger] positions_at(self.field_list(), FieldLocation::Root)[k]),
    {
        self.positions_for(FieldLocation::Root)
    }

    /// The positions of the fields stored in a box.
    pub fn box_positions(&self) -> (r: Vec<usize>)
        ensures
            r@.len() == positions_at(self.field_list(), FieldLocation::Box).len(),
            forall|k: int| 0 <= k < r@.len() ==> r@[k] as int == (#[trigger] positions_at(self.field_list(), FieldLocation::Box)[k]),
    {
        self.positions_for(FieldLocation::Box)
    }
}

/// The first variant named `name`.
pub open spec fn first_variant_named(vs: Seq<VariantModel>, name: Seq<char>) -> Option<int>
    decreases vs.len(),
{
    if vs.len() == 0 {
        None
    } else {
        match first_variant_named(vs.drop_last(), name) {
            Some(i) => Some(i),
            None => if vs.last().name == name {
                Some(vs.len() - 1)
            } else {
                None
            },
        }
    }
}

proof fn lemma_first_variant_named(vs: Seq<VariantModel>, name: Seq<char>, i: int)
    requires
        0 <= i < vs.len(),
        vs[i].name == name,
        forall|k: int| 0 <= k < i ==> (#[trigger] vs[k]).name != name,
    ensures
        first_variant_named(vs, name) == Some(i),
    decreases vs.len(),
{
    if i < vs.len() - 1 {
        lemma_first_variant_named(vs.drop_last(), name, i);
    } else {
        lemma_first_variant_absent(vs.drop_last(), name);
    }
}

proof fn lemma_first_variant_absent(vs: Seq<VariantModel>, name: Seq<char>)
    requires
        forall|k: int| 0 <= k < vs.len() ==> (#[trigger] vs[k]).name != name,
    ensures
        first_variant_named(vs, name) is None,
    decreases vs.len(),
{
    if vs.len() > 0 {
        lemma_first_variant_absent(vs.drop_last(), name);
    }
}

/// A field whose type is a container (a vector, an optional or a map) is
/// never of fixed width, so it sits in a box; a primitive field sits at
/// the root exactly when the primitive is neither a string nor bytes.
pub proof fn lemma_containers_sit_in_boxes(ts: Seq<TypeModel>, e: ExpressionModel)
    ensures
        (e is Vector || e is Optional || e is Mapping) ==> location_spec(ts, e) == FieldLocation::Box,
        e matches ExpressionModel::Primitive(p) ==> (location_spec(ts, e) == FieldLocation::Root <==> !(p
            == Primitive::String || p == Primitive::Bytes)),
{
}

} // verus!
