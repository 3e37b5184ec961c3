//! The authored schema document: imports, the ordinary, owner and sema
//! headers, the namespace of declarations and the features, checked as a
//! whole when it is built. Every type name a declaration or a feature
//! mentions must be declared, imported, or (for declarations) possibly
//! covered by an import of everything from another schema; imported
//! names are unique and never shadow a local declaration; no enum
//! repeats a variant name.
use vstd::prelude::*;
use vstd::utf8::*;
use crate::declaration::{
    BodyModel, Declaration, DeclarationBody, Field, FieldModel, Payload, PayloadModel, Variant,
    VariantModel, field_models, variant_models,
};
use crate::expression::{Container, ExpressionModel, TypeExpression};
use crate::feature::Feature;
use crate::header::Header;
use crate::import::{BindingModel, DirectiveModel, ImportDirective, Imports};
use crate::upgrade::{AnnotationModel, UpgradeAnnotation, annotation_models};
use crate::error::Error;
use crate::name::{Name, first_duplicate, first_duplicate_name, lemma_first_duplicate_none, name_texts};
use crate::text::{
    bytes_compare, compare_str, lemma_bytes_compare_antisymmetric, lemma_bytes_compare_transitive,
    lemma_bytes_compare_zero, str_equal,
};

verus! {

broadcast use vstd::utf8::group_utf8_lib;

// ── Namespace ───────────────────────────────────────────────────────

/// One declaration of a namespace, as values.
pub struct EntryModel {
    pub name: Seq<char>,
    pub body: BodyModel,
}

pub open spec fn entry_models(ds: Seq<Declaration>) -> Seq<EntryModel> {
    Seq::new(ds.len(), |i: int| EntryModel { name: ds[i].name_text(), body: ds[i].body_model() })
}

pub open spec fn entry_names(es: Seq<EntryModel>) -> Seq<Seq<char>> {
    Seq::new(es.len(), |i: int| es[i].name)
}

/// Names strictly increasing in byte order.
pub open spec fn names_sorted(keys: Seq<Seq<char>>) -> bool {
    forall|i: int, j: int|
        0 <= i < j < keys.len() ==> bytes_compare(
            encode_utf8(#[trigger] keys[i]),
            encode_utf8(#[trigger] keys[j]),
        ) < 0
}

pub open spec fn occurs(x: EntryModel, s: Seq<EntryModel>) -> bool {
    exists|j: int| 0 <= j < s.len() && s[j] == x
}

/// Two runs hold the same entries, whatever their order.
pub open spec fn same_entries(a: Seq<EntryModel>, b: Seq<EntryModel>) -> bool {
    &&& a.len() == b.len()
    &&& forall|i: int| 0 <= i < a.len() ==> occurs(#[trigger] a[i], b)
    &&& forall|j: int| 0 <= j < b.len() ==> occurs(#[trigger] b[j], a)
}

proof fn lemma_same_entries_push(a: Seq<EntryModel>, b: Seq<EntryModel>, x: EntryModel)
    requires
        same_entries(a, b),
    ensures
        same_entries(a.push(x), b.push(x)),
{
    let a2 = a.push(x);
    let b2 = b.push(x);
    assert forall|i: int| 0 <= i < a2.len() implies occurs(#[trigger] a2[i], b2) by {
        if i == a.len() {
            assert(b2[b.len() as int] == a2[i]);
        } else {
            assert(occurs(a[i], b));
            let j = choose|j: int| 0 <= j < b.len() && b[j] == a[i];
            assert(b2[j] == a2[i]);
        }
    }
    assert forall|j: int| 0 <= j < b2.len() implies occurs(#[trigger] b2[j], a2) by {
        if j == b.len() {
            assert(a2[a.len() as int] == b2[j]);
        } else {
            assert(occurs(b[j], a));
            let i = choose|i: int| 0 <= i < a.len() && a[i] == b[j];
            assert(a2[i] == b2[j]);
        }
    }
}

proof fn lemma_same_entries_transitive(a: Seq<EntryModel>, b: Seq<EntryModel>, c: Seq<EntryModel>)
    requires
        same_entries(a, b),
        same_entries(b, c),
    ensures
        same_entries(a, c),
{
    assert forall|i: int| 0 <= i < a.len() implies occurs(#[trigger] a[i], c) by {
        assert(occurs(a[i], b));
        let j = choose|j: int| 0 <= j < b.len() && b[j] == a[i];
        assert(occurs(b[j], c));
        let k = choose|k: int| 0 <= k < c.len() && c[k] == b[j];
        assert(c[k] == a[i]);
    }
    assert forall|k: int| 0 <= k < c.len() implies occurs(#[trigger] c[k], a) by {
        assert(occurs(c[k], b));
        let j = choose|j: int| 0 <= j < b.len() && b[j] == c[k];
        assert(occurs(b[j], a));
        let i = choose|i: int| 0 <= i < a.len() && a[i] == b[j];
        assert(a[i] == c[k]);
    }
}

/// The body declared under `n` among `es[i..]`.
pub open spec fn body_from(es: Seq<EntryModel>, n: Seq<char>, i: int) -> Option<BodyModel>
    decreases es.len() - i,
{
    if i < 0 || i >= es.len() {
        None
    } else if es[i].name == n {
        Some(es[i].body)
    } else {
        body_from(es, n, i + 1)
    }
}

/// The declarations of a schema, one per name, in name order.
#[derive(Debug, PartialEq, Eq)]
pub struct Namespace {
    entries: Vec<Declaration>,
}

impl Namespace {
    pub closed spec fn entry_list(&self) -> Seq<EntryModel> {
        entry_models(self.entries@)
    }

    pub open spec fn wf(&self) -> bool {
        names_sorted(entry_names(self.entry_list()))
    }

    /// The body declared under `n`.
    pub open spec fn body_of(&self, n: Seq<char>) -> Option<BodyModel> {
        body_from(self.entry_list(), n, 0)
    }

    /// No declarations.
    pub fn empty() -> (r: Self)
        ensures
            r.wf(),
            r.entry_list().len() == 0,
    {
        let r = Namespace { entries: Vec::new() };
        assert(entry_names(r.entry_list()) =~= Seq::<Seq<char>>::empty());
        r
    }

    /// The namespace of the given declarations; refused when a name
    /// repeats (the first repeat is named).
    pub fn declarations(declarations: Vec<Declaration>) -> (r: Result<Self, Error>)
        ensures
            match first_duplicate(entry_names(entry_models(declarations@))) {
                Some(j) => r matches Err(Error::DuplicateDeclaration { name })
                    && name.text() == declarations@[j].name_text(),
                None => r matches Ok(ns) && ns.wf() && same_entries(ns.entry_list(), entry_models(declarations@)),
            },
    {
        let ghost input = entry_models(declarations@);
        let mut names: Vec<Name> = Vec::new();
        let mut i: usize = 0;
        while i < declarations.len()
            invariant
                input == entry_models(declarations@),
                0 <= i <= declarations@.len(),
                name_texts(names@) == entry_names(input).take(i as int),
            decreases declarations@.len() - i,
        {
            let copy = declarations[i].name().duplicate();
            let ghost before = names@;
            names.push(copy);
            assert(name_texts(names@) =~= name_texts(before).push(copy.text()));
            assert(name_texts(names@) =~= entry_names(input).take(i as int + 1));
            i = i + 1;
        }
        assert(entry_names(input).take(declarations@.len() as int) =~= entry_names(input));
        if let Some(j) = first_duplicate_name(names.as_slice()) {
            assert(entry_names(input)[j as int] == declarations@[j as int].name_text());
            return Err(Error::DuplicateDeclaration { name: declarations[j].name().duplicate() });
        }
        proof {
            lemma_first_duplicate_none(entry_names(input));
        }
        let mut ns = Namespace::empty();
        let mut k: usize = 0;
        assert(input.take(0) =~= Seq::<EntryModel>::empty());
        while k < declarations.len()
            invariant
                0 <= k <= declarations@.len(),
                input == entry_models(declarations@),
                crate::name::all_distinct(entry_names(input)),
                ns.wf(),
                same_entries(ns.entry_list(), input.take(k as int)),
            decreases declarations@.len() - k,
        {
            let d = Declaration::new(declarations[k].name().duplicate(), declarations[k].body().duplicate());
            proof {
                assert(input[k as int] == EntryModel { name: d.name_text(), body: d.body_model() });
                assert forall|t: int| 0 <= t < ns.entry_list().len() implies entry_names(ns.entry_list())[t]
                    != d.name_text() by {
                    let e = ns.entry_list()[t];
                    assert(occurs(e, input.take(k as int)));
                    let i = choose|i: int| 0 <= i < k && input.take(k as int)[i] == e;
                    assert(entry_names(input)[i] != entry_names(input)[k as int]);
                }
            }
            let ghost old_entries = ns.entry_list();
            ns.insert_new(d);
            proof {
                let prev = input.take(k as int);
                let next = input.take(k as int + 1);
                assert(next =~= prev.push(input[k as int]));
                lemma_same_entries_push(old_entries, prev, input[k as int]);
                lemma_same_entries_transitive(ns.entry_list(), old_entries.push(input[k as int]), next);
            }
            k = k + 1;
        }
        assert(input.take(declarations@.len() as int) =~= input);
        Ok(ns)
    }

    /// Insert a declaration under a name not yet present, keeping name
    /// order.
    fn insert_new(&mut self, d: Declaration)
        requires
            old(self).wf(),
            forall|t: int| 0 <= t < old(self).entry_list().len() ==> entry_names(old(self).entry_list())[t] != d.name_text(),
        ensures
            final(self).wf(),
            same_entries(
                final(self).entry_list(),
                old(self).entry_list().push(EntryModel { name: d.name_text(), body: d.body_model() }),
            ),
    {
        let ghost es = self.entry_list();
        let ghost keys = entry_names(es);
        let ghost item = EntryModel { name: d.name_text(), body: d.body_model() };
        let ghost key = d.name_text();
        let at = self.insertion_point(&d);
        let ghost old_decls = self.entries@;
        self.entries.insert(at, d);
        proof {
            assert(self.entries@ == old_decls.insert(at as int, d));
            let e2 = self.entry_list();
            let k2 = entry_names(e2);
            assert(e2 =~= es.insert(at as int, item));
            assert(k2 =~= keys.insert(at as int, key));
            assert forall|i: int, j: int| 0 <= i < j < k2.len() implies bytes_compare(
                encode_utf8(#[trigger] k2[i]),
                encode_utf8(#[trigger] k2[j]),
            ) < 0 by {
                if j < at {
                    assert(k2[i] == keys[i] && k2[j] == keys[j]);
                } else if j == at {
                    assert(k2[i] == keys[i]);
                } else if i < at {
                    assert(k2[i] == keys[i] && k2[j] == keys[j - 1]);
                    lemma_bytes_compare_transitive(encode_utf8(keys[i]), encode_utf8(key), encode_utf8(keys[j - 1]));
                } else if i == at {
                    assert(k2[j] == keys[j - 1]);
                } else {
                    assert(k2[i] == keys[i - 1] && k2[j] == keys[j - 1]);
                }
            }
            let target = es.push(item);
            assert forall|i: int| 0 <= i < e2.len() implies occurs(#[trigger] e2[i], target) by {
                if i < at {
                    assert(target[i] == e2[i]);
                } else if i == at {
                    assert(target[es.len() as int] == e2[i]);
                } else {
                    assert(target[i - 1] == e2[i]);
                }
            }
            assert forall|j: int| 0 <= j < target.len() implies occurs(#[trigger] target[j], e2) by {
                if j == es.len() {
                    assert(e2[at as int] == target[j]);
                } else if j < at {
                    assert(e2[j] == target[j]);
                } else {
                    assert(e2[j + 1] == target[j]);
                }
            }
        }
    }

    /// Where a declaration under a name not yet present goes to keep
    /// name order.
    fn insertion_point(&self, d: &Declaration) -> (r: usize)
        requires
            self.wf(),
            forall|t: int| 0 <= t < self.entry_list().len() ==> entry_names(self.entry_list())[t] != d.name_text(),
        ensures
            r <= self.entry_list().len(),
            forall|t: int| 0 <= t < r ==> bytes_compare(
                encode_utf8(#[trigger] entry_names(self.entry_list())[t]),
                encode_utf8(d.name_text()),
            ) < 0,
            forall|t: int| r <= t < self.entry_list().len() ==> bytes_compare(
                encode_utf8(d.name_text()),
                encode_utf8(#[trigger] entry_names(self.entry_list())[t]),
            ) < 0,
    {
        let ghost keys = entry_names(self.entry_list());
        let ghost key = d.name_text();
        let mut at: usize = 0;
        while at < self.entries.len()
            invariant
                self.wf(),
                keys == entry_names(self.entry_list()),
                key == d.name_text(),
                forall|t: int| 0 <= t < keys.len() ==> keys[t] != key,
                0 <= at <= self.entries@.len(),
                forall|t: int| 0 <= t < at ==> bytes_compare(encode_utf8(#[trigger] keys[t]), encode_utf8(key)) < 0,
            decreases self.entries@.len() - at,
        {
            let c = compare_str(d.name().as_str(), self.entries[at].name().as_str());
            proof {
                assert(keys[at as int] == self.entries@[at as int].name_text());
                lemma_bytes_compare_antisymmetric(encode_utf8(key), encode_utf8(keys[at as int]));
                lemma_bytes_compare_zero(encode_utf8(key), encode_utf8(keys[at as int]));
                encode_utf8_decode_utf8(key);
                encode_utf8_decode_utf8(keys[at as int]);
            }
            if c < 0 {
                proof {
                    assert forall|t: int| at <= t < keys.len() implies bytes_compare(
                        encode_utf8(key),
                        encode_utf8(#[trigger] keys[t]),
                    ) < 0 by {
                        if t > at {
                            lemma_bytes_compare_transitive(encode_utf8(key), encode_utf8(keys[at as int]), encode_utf8(keys[t]));
                        }
                    }
                }
                return at;
            }
            at = at + 1;
        }
        at
    }

    /// The declarations in name order.
    pub fn entries(&self) -> (r: &[Declaration])
        ensures
            entry_models(r@) == self.entry_list(),
    {
        self.entries.as_slice()
    }

    /// The body declared under `name`.
    pub fn body(&self, name: &Name) -> (r: Option<&DeclarationBody>)
        ensures
            match self.body_of(name.text()) {
                Some(b) => r matches Some(found) && found.model() == b,
                None => r is None,
            },
    {
        let ghost es = self.entry_list();
        let mut i: usize = 0;
        while i < self.entries.len()
            invariant
                es == self.entry_list(),
                0 <= i <= self.entries@.len(),
                body_from(es, name.text(), 0) == body_from(es, name.text(), i as int),
            decreases self.entries@.len() - i,
        {
            if str_equal(self.entries[i].name().as_str(), name.as_str()) {
                return Some(self.entries[i].body());
            }
            i = i + 1;
        }
        None
    }

    pub fn len(&self) -> (r: usize)
        ensures
            r == self.entry_list().len(),
    {
        self.entries.len()
    }
}

// ── What the checks read ────────────────────────────────────────────

/// The names a type expression mentions, left to right.
pub open spec fn expression_names(e: ExpressionModel) -> Seq<Seq<char>>
    decreases e,
{
    match e {
        ExpressionModel::Primitive(_) => Seq::empty(),
        ExpressionModel::Named(n) => seq![n],
        ExpressionModel::Vector(inner) => expression_names(*inner),
        ExpressionModel::Optional(inner) => expression_names(*inner),
        ExpressionModel::Mapping(k, v) => expression_names(*k) + expression_names(*v),
    }
}

/// The names each field's type mentions.
pub open spec fn field_name_lists(fs: Seq<FieldModel>) -> Seq<Seq<Seq<char>>> {
    Seq::new(fs.len(), |i: int| expression_names(fs[i].expression))
}

/// The names the fields' types mention, field by field.
pub open spec fn field_names(fs: Seq<FieldModel>) -> Seq<Seq<char>> {
    field_name_lists(fs).flatten()
}

pub open spec fn payload_names(p: PayloadModel) -> Seq<Seq<char>> {
    match p {
        PayloadModel::Unit => Seq::empty(),
        PayloadModel::Type(e) => expression_names(e),
        PayloadModel::Fields(fs) => field_names(fs),
    }
}

/// The names each variant's payload mentions.
pub open spec fn variant_name_lists(vs: Seq<VariantModel>) -> Seq<Seq<Seq<char>>> {
    Seq::new(vs.len(), |i: int| payload_names(vs[i].payload))
}

/// The names the variants' payloads mention, variant by variant.
pub open spec fn variant_names_used(vs: Seq<VariantModel>) -> Seq<Seq<char>> {
    variant_name_lists(vs).flatten()
}

/// The names a declaration body mentions, in order.
pub open spec fn body_names(b: BodyModel) -> Seq<Seq<char>> {
    match b {
        BodyModel::Enum(vs) => variant_names_used(vs),
        BodyModel::Newtype(e) => expression_names(e),
        BodyModel::Record(fs) => field_names(fs),
        BodyModel::Alias(e) => expression_names(e),
    }
}

pub open spec fn annotation_required(a: AnnotationModel) -> Seq<Seq<char>> {
    match a {
        AnnotationModel::Migrate(n) => seq![n],
        AnnotationModel::RenamedFrom(current, _) => seq![current],
        AnnotationModel::Custom(n, _) => seq![n],
        _ => Seq::empty(),
    }
}

/// The names an upgrade feature requires: those it migrates, renames
/// to, or migrates by hand.
pub open spec fn annotation_names(a: Seq<AnnotationModel>) -> Seq<Seq<char>> {
    annotation_lists(a).flatten()
}

pub open spec fn annotation_lists(a: Seq<AnnotationModel>) -> Seq<Seq<Seq<char>>> {
    Seq::new(a.len(), |i: int| annotation_required(a[i]))
}

pub open spec fn table_type_texts(es: Seq<crate::feature::StorageDescriptorEntry>) -> Seq<Seq<char>> {
    Seq::new(es.len(), |i: int| es[i].table_type_text())
}

pub open spec fn option_names(n: Option<Seq<char>>) -> Seq<Seq<char>> {
    match n {
        Some(t) => seq![t],
        None => Seq::empty(),
    }
}

/// The names a feature requires to be declared or imported: replies,
/// events, observed events, upgrade targets and storage table types.
pub open spec fn feature_names(f: Feature) -> Seq<Seq<char>> {
    match f {
        Feature::Reply(names) => name_texts(names@),
        Feature::Event(e) => e.event_texts(),
        Feature::Observable(o) => option_names(o.operation_event_text()) + option_names(o.effect_event_text()),
        Feature::Upgrade(u) => annotation_names(u.annotation_list()),
        Feature::EffectTable(_) => Seq::empty(),
        Feature::FanOutTargets(_) => Seq::empty(),
        Feature::StorageDescriptor(s) => table_type_texts(s.entry_list()),
    }
}

pub open spec fn feature_name_lists(fs: Seq<Feature>) -> Seq<Seq<Seq<char>>> {
    Seq::new(fs.len(), |i: int| feature_names(fs[i]))
}

/// The names the features require, feature by feature.
pub open spec fn features_names(fs: Seq<Feature>) -> Seq<Seq<char>> {
    feature_name_lists(fs).flatten()
}

// ── What the checks decide ──────────────────────────────────────────

/// An imported name with the binding it came through, first match.
pub open spec fn imported_by(m: Seq<(Seq<char>, Seq<char>)>, n: Seq<char>) -> Option<Seq<char>>
    decreases m.len(),
{
    if m.len() == 0 {
        None
    } else if m[0].0 == n {
        Some(m[0].1)
    } else {
        imported_by(m.drop_first(), n)
    }
}

/// What a name may refer to: the namespace, the imported names, and
/// whether an import of everything is still unresolved.
pub struct Scope {
    pub entries: Seq<EntryModel>,
    pub imported: Seq<(Seq<char>, Seq<char>)>,
    pub open: bool,
}

pub open spec fn known(sc: Scope, n: Seq<char>) -> bool {
    body_from(sc.entries, n, 0) is Some || imported_by(sc.imported, n) is Some || sc.open
}

/// The first name not known in the scope.
pub open spec fn first_unknown(sc: Scope, ns: Seq<Seq<char>>) -> Option<Seq<char>>
    decreases ns.len(),
{
    if ns.len() == 0 {
        None
    } else if !known(sc, ns[0]) {
        Some(ns[0])
    } else {
        first_unknown(sc, ns.drop_first())
    }
}

/// What the checks of an authored schema report.
pub enum DocError {
    DuplicateVariant(Seq<char>, Seq<char>),
    UnknownType(Seq<char>),
    ImportCollision(Seq<char>, Seq<char>),
    DuplicateResolvedName(Seq<char>, Seq<char>),
    DuplicateImportedName(Seq<char>, Seq<char>, Seq<char>),
}

pub open spec fn reports(e: Error, d: DocError) -> bool {
    match d {
        DocError::DuplicateVariant(decl, v) => e matches Error::DuplicateVariant { declaration, variant }
            && declaration.text() == decl && variant.text() == v,
        DocError::UnknownType(n) => e matches Error::UnknownType { name } && name.text() == n,
        DocError::ImportCollision(n, b) => e matches Error::ImportCollisionWithLocal { name, binding }
            && name.text() == n && binding.text() == b,
        DocError::DuplicateResolvedName(b, n) => e matches Error::DuplicateResolvedImportName { binding, name }
            && binding.text() == b && name.text() == n,
        DocError::DuplicateImportedName(n, first, second) => e matches Error::DuplicateImportedName {
            name,
            first_binding,
            second_binding,
        } && name.text() == n && first_binding.text() == first && second_binding.text() == second,
    }
}

pub open spec fn variant_texts(vs: Seq<VariantModel>) -> Seq<Seq<char>> {
    Seq::new(vs.len(), |i: int| vs[i].name)
}

/// The first enum, in name order, that repeats a variant name, with the
/// first repeated variant.
pub open spec fn variants_error(es: Seq<EntryModel>) -> Option<DocError>
    decreases es.len(),
{
    if es.len() == 0 {
        None
    } else {
        match variants_error(es.drop_last()) {
            Some(e) => Some(e),
            None => match es.last().body {
                BodyModel::Enum(vs) => match first_duplicate(variant_texts(vs)) {
                    Some(j) => Some(DocError::DuplicateVariant(es.last().name, variant_texts(vs)[j])),
                    None => None,
                },
                _ => None,
            },
        }
    }
}

/// Record the names one binding imports, after `m`: a name listed twice
/// by the binding, or imported already by another, is refused.
pub open spec fn record_names(
    m: Seq<(Seq<char>, Seq<char>)>,
    binding: Seq<char>,
    names: Seq<Seq<char>>,
    i: int,
) -> Result<Seq<(Seq<char>, Seq<char>)>, DocError>
    decreases names.len() - i,
{
    if i < 0 || i >= names.len() {
        Ok(m)
    } else if names.take(i).contains(names[i]) {
        Err(DocError::DuplicateResolvedName(binding, names[i]))
    } else {
        match imported_by(m, names[i]) {
            Some(first) => Err(DocError::DuplicateImportedName(names[i], first, binding)),
            None => record_names(m.push((names[i], binding)), binding, names, i + 1),
        }
    }
}

/// The names the selective imports bring, binding by binding in name
/// order, and whether any binding imports everything.
pub open spec fn selected_imports(bs: Seq<BindingModel>) -> Result<(Seq<(Seq<char>, Seq<char>)>, bool), DocError>
    decreases bs.len(),
{
    if bs.len() == 0 {
        Ok((Seq::empty(), false))
    } else {
        match selected_imports(bs.drop_last()) {
            Err(e) => Err(e),
            Ok((m, open)) => match bs.last().directive {
                DirectiveModel::Import(_, names) => match record_names(m, bs.last().binding, names, 0) {
                    Err(e) => Err(e),
                    Ok(m2) => Ok((m2, open)),
                },
                DirectiveModel::ImportAll(_) => Ok((m, true)),
            },
        }
    }
}

/// The first declaration, in name order, that mentions an unknown name
/// or shares its name with an imported one.
pub open spec fn declarations_error(sc: Scope, es: Seq<EntryModel>) -> Option<DocError>
    decreases es.len(),
{
    if es.len() == 0 {
        None
    } else {
        match declarations_error(sc, es.drop_last()) {
            Some(e) => Some(e),
            None => match first_unknown(sc, body_names(es.last().body)) {
                Some(n) => Some(DocError::UnknownType(n)),
                None => match imported_by(sc.imported, es.last().name) {
                    Some(b) => Some(DocError::ImportCollision(es.last().name, b)),
                    None => None,
                },
            },
        }
    }
}

/// What building a schema from these parts reports: repeated variants,
/// then import conflicts, then unknown names in declarations and import
/// collisions, then unknown names in features, where an unresolved
/// import of everything does not count.
pub open spec fn authored_error(es: Seq<EntryModel>, bs: Seq<BindingModel>, fs: Seq<Feature>) -> Option<DocError> {
    match variants_error(es) {
        Some(e) => Some(e),
        None => match selected_imports(bs) {
            Err(e) => Some(e),
            Ok((m, open)) => match declarations_error(Scope { entries: es, imported: m, open }, es) {
                Some(e) => Some(e),
                None => match first_unknown(Scope { entries: es, imported: m, open: false }, features_names(fs)) {
                    Some(n) => Some(DocError::UnknownType(n)),
                    None => None,
                },
            },
        },
    }
}

// ── Lemmas about the first unknown name ─────────────────────────────

proof fn lemma_first_unknown_concat(sc: Scope, a: Seq<Seq<char>>, b: Seq<Seq<char>>)
    ensures
        first_unknown(sc, a + b) == match first_unknown(sc, a) {
            Some(n) => Some(n),
            None => first_unknown(sc, b),
        },
    decreases a.len(),
{
    if a.len() > 0 {
        assert((a + b)[0] == a[0]);
        assert((a + b).drop_first() =~= a.drop_first() + b);
        lemma_first_unknown_concat(sc, a.drop_first(), b);
    } else {
        assert(a + b =~= b);
    }
}

proof fn lemma_flatten_take_step(xs: Seq<Seq<Seq<char>>>, k: int)
    requires
        0 <= k < xs.len(),
    ensures
        xs.take(k + 1).flatten() == xs.take(k).flatten() + xs[k],
{
    assert(xs.take(k + 1) =~= xs.take(k).push(xs[k]));
    xs.take(k).lemma_flatten_push(xs[k]);
}

/// Once a prefix of the lists holds an unknown name, the first unknown
/// name of them all is that one.
proof fn lemma_first_unknown_flat_prefix(sc: Scope, xs: Seq<Seq<Seq<char>>>, k: int)
    requires
        0 <= k <= xs.len(),
        first_unknown(sc, xs.take(k).flatten()) is Some,
    ensures
        first_unknown(sc, xs.flatten()) == first_unknown(sc, xs.take(k).flatten()),
    decreases xs.len() - k,
{
    if k < xs.len() {
        lemma_flatten_take_step(xs, k);
        lemma_first_unknown_concat(sc, xs.take(k).flatten(), xs[k]);
        lemma_first_unknown_flat_prefix(sc, xs, k + 1);
    } else {
        assert(xs.take(k) =~= xs);
    }
}

/// With no unknown name in a prefix, the next list decides.
proof fn lemma_first_unknown_flat_step(sc: Scope, xs: Seq<Seq<Seq<char>>>, k: int)
    requires
        0 <= k < xs.len(),
        first_unknown(sc, xs.take(k).flatten()) is None,
    ensures
        first_unknown(sc, xs.take(k + 1).flatten()) == first_unknown(sc, xs[k]),
{
    lemma_flatten_take_step(xs, k);
    lemma_first_unknown_concat(sc, xs.take(k).flatten(), xs[k]);
}

// ── The checks, executed ────────────────────────────────────────────

pub open spec fn pair_texts(v: Seq<(Name, Name)>) -> Seq<(Seq<char>, Seq<char>)> {
    Seq::new(v.len(), |i: int| (v[i].0.text(), v[i].1.text()))
}

pub open spec fn scope_of(ns: &Namespace, imported: &Vec<(Name, Name)>, open: bool) -> Scope {
    Scope { entries: ns.entry_list(), imported: pair_texts(imported@), open }
}

pub open spec fn unknown_result(r: Result<(), Error>, m: Option<Seq<char>>) -> bool {
    match m {
        Some(n) => r matches Err(e) && reports(e, DocError::UnknownType(n)),
        None => r is Ok,
    }
}

/// The binding an imported name came through.
fn binding_of<'a>(imported: &'a Vec<(Name, Name)>, name: &Name) -> (r: Option<&'a Name>)
    ensures
        match imported_by(pair_texts(imported@), name.text()) {
            Some(b) => r matches Some(found) && found.text() == b,
            None => r is None,
        },
{
    let ghost m = pair_texts(imported@);
    let mut i: usize = 0;
    assert(m.subrange(0, m.len() as int) =~= m);
    while i < imported.len()
        invariant
            m == pair_texts(imported@),
            0 <= i <= imported@.len(),
            imported_by(m, name.text()) == imported_by(m.subrange(i as int, m.len() as int), name.text()),
        decreases imported@.len() - i,
    {
        let ghost rest = m.subrange(i as int, m.len() as int);
        assert(rest[0] == m[i as int]);
        assert(rest.drop_first() =~= m.subrange(i + 1, m.len() as int));
        if str_equal(imported[i].0.as_str(), name.as_str()) {
            return Some(&imported[i].1);
        }
        i = i + 1;
    }
    assert(m.subrange(i as int, m.len() as int) =~= Seq::<(Seq<char>, Seq<char>)>::empty());
    None
}

/// Whether `name` is declared, imported, or possibly covered by an
/// import of everything.
fn is_known(ns: &Namespace, imported: &Vec<(Name, Name)>, open: bool, name: &Name) -> (r: bool)
    ensures
        r == known(scope_of(ns, imported, open), name.text()),
{
    ns.body(name).is_some() || binding_of(imported, name).is_some() || open
}

fn check_expression(
    ns: &Namespace,
    imported: &Vec<(Name, Name)>,
    open: bool,
    expression: &TypeExpression,
) -> (r: Result<(), Error>)
    ensures
        unknown_result(r, first_unknown(scope_of(ns, imported, open), expression_names(expression.model()))),
    decreases expression,
{
    let ghost sc = scope_of(ns, imported, open);
    match expression {
        TypeExpression::Primitive(_) => {
            assert(expression_names(expression.model()) =~= Seq::<Seq<char>>::empty());
            Ok(())
        },
        TypeExpression::Named(name) => {
            let ghost one = seq![name.text()];
            assert(one.drop_first() =~= Seq::<Seq<char>>::empty());
            assert(first_unknown(sc, one.drop_first()) is None);
            assert(expression_names(expression.model()) == one);
            if is_known(ns, imported, open, name) {
                assert(first_unknown(sc, one) is None);
                Ok(())
            } else {
                assert(first_unknown(sc, one) == Some(name.text()));
                Err(Error::UnknownType { name: name.duplicate() })
            }
        },
        TypeExpression::Container(container) => match container {
            Container::Vector(inner) => check_expression(ns, imported, open, inner),
            Container::Optional(inner) => check_expression(ns, imported, open, inner),
            Container::Mapping { key, value } => {
                proof {
                    lemma_first_unknown_concat(sc, expression_names(key.model()), expression_names(value.model()));
                }
                assert(expression_names(expression.model()) == expression_names(key.model()) + expression_names(value.model()));
                let first = check_expression(ns, imported, open, key);
                if first.is_err() {
                    return first;
                }
                check_expression(ns, imported, open, value)
            },
        },
    }
}

fn check_fields(
    ns: &Namespace,
    imported: &Vec<(Name, Name)>,
    open: bool,
    fields: &[Field],
) -> (r: Result<(), Error>)
    ensures
        unknown_result(r, first_unknown(scope_of(ns, imported, open), field_names(field_models(fields@)))),
{
    let ghost sc = scope_of(ns, imported, open);
    let ghost lists = field_name_lists(field_models(fields@));
    let mut i: usize = 0;
    assert(lists.take(0).flatten() =~= Seq::<Seq<char>>::empty());
    while i < fields.len()
        invariant
            sc == scope_of(ns, imported, open),
            lists == field_name_lists(field_models(fields@)),
            0 <= i <= fields@.len(),
            first_unknown(sc, lists.take(i as int).flatten()) is None,
        decreases fields@.len() - i,
    {
        proof {
            lemma_first_unknown_flat_step(sc, lists, i as int);
            assert(lists[i as int] == expression_names(fields@[i as int].model().expression));
        }
        let step = check_expression(ns, imported, open, fields[i].expression());
        if step.is_err() {
            proof {
                lemma_first_unknown_flat_prefix(sc, lists, i as int + 1);
            }
            return step;
        }
        i = i + 1;
    }
    assert(lists.take(fields@.len() as int) =~= lists);
    Ok(())
}

fn check_payload(
    ns: &Namespace,
    imported: &Vec<(Name, Name)>,
    open: bool,
    payload: &Payload,
) -> (r: Result<(), Error>)
    ensures
        unknown_result(r, first_unknown(scope_of(ns, imported, open), payload_names(payload.model()))),
{
    match payload {
        Payload::Unit => Ok(()),
        Payload::Type(expression) => check_expression(ns, imported, open, expression),
        Payload::Fields(fields) => check_fields(ns, imported, open, fields.as_slice()),
    }
}

fn check_body(
    ns: &Namespace,
    imported: &Vec<(Name, Name)>,
    open: bool,
    body: &DeclarationBody,
) -> (r: Result<(), Error>)
    ensures
        unknown_result(r, first_unknown(scope_of(ns, imported, open), body_names(body.model()))),
{
    match body {
        DeclarationBody::Enum { variants } => {
            let ghost sc = scope_of(ns, imported, open);
            let ghost lists = variant_name_lists(variant_models(variants@));
            let mut i: usize = 0;
            assert(lists.take(0).flatten() =~= Seq::<Seq<char>>::empty());
            while i < variants.len()
                invariant
                    sc == scope_of(ns, imported, open),
                    body.model() == BodyModel::Enum(variant_models(variants@)),
                    lists == variant_name_lists(variant_models(variants@)),
                    0 <= i <= variants@.len(),
                    first_unknown(sc, lists.take(i as int).flatten()) is None,
                decreases variants@.len() - i,
            {
                proof {
                    lemma_first_unknown_flat_step(sc, lists, i as int);
                    assert(lists[i as int] == payload_names(variants@[i as int].model().payload));
                }
                let step = check_payload(ns, imported, open, variants[i].payload());
                if step.is_err() {
                    proof {
                        lemma_first_unknown_flat_prefix(sc, lists, i as int + 1);
                    }
                    return step;
                }
                i = i + 1;
            }
            assert(lists.take(variants@.len() as int) =~= lists);
            Ok(())
        },
        DeclarationBody::Newtype(expression) => check_expression(ns, imported, open, expression),
        DeclarationBody::Alias(expression) => check_expression(ns, imported, open, expression),
        DeclarationBody::Record(fields) => check_fields(ns, imported, open, fields.as_slice()),
    }
}

/// The error a check reported, against the model's.
pub open spec fn doc_result(r: Result<(), Error>, m: Option<DocError>) -> bool {
    match m {
        Some(d) => r matches Err(e) && reports(e, d),
        None => r is Ok,
    }
}

proof fn lemma_declarations_error_prefix(sc: Scope, es: Seq<EntryModel>, k: int)
    requires
        0 <= k <= es.len(),
        declarations_error(sc, es.take(k)) is Some,
    ensures
        declarations_error(sc, es) == declarations_error(sc, es.take(k)),
    decreases es.len() - k,
{
    if k < es.len() {
        assert(es.take(k + 1).drop_last() =~= es.take(k));
        lemma_declarations_error_prefix(sc, es, k + 1);
    } else {
        assert(es.take(k) =~= es);
    }
}

/// Every declaration's body names known, and no declaration named like
/// an imported name.
fn check_declarations(ns: &Namespace, imported: &Vec<(Name, Name)>, open: bool) -> (r: Result<(), Error>)
    ensures
        doc_result(r, declarations_error(scope_of(ns, imported, open), ns.entry_list())),
{
    let ghost sc = scope_of(ns, imported, open);
    let ghost es = ns.entry_list();
    let entries = ns.entries();
    let mut i: usize = 0;
    while i < entries.len()
        invariant
            sc == scope_of(ns, imported, open),
            es == ns.entry_list(),
            entry_models(entries@) == es,
            0 <= i <= entries@.len(),
            declarations_error(sc, es.take(i as int)) is None,
        decreases entries@.len() - i,
    {
        proof {
            assert(es.take(i as int + 1).drop_last() =~= es.take(i as int));
            assert(es.take(i as int + 1).last() == es[i as int]);
            assert(es[i as int].body == entries@[i as int].body_model());
            assert(es[i as int].name == entries@[i as int].name_text());
        }
        let body = check_body(ns, imported, open, entries[i].body());
        if body.is_err() {
            proof {
                lemma_declarations_error_prefix(sc, es, i as int + 1);
            }
            return body;
        }
        match binding_of(imported, entries[i].name()) {
            Some(binding) => {
                proof {
                    lemma_declarations_error_prefix(sc, es, i as int + 1);
                }
                return Err(Error::ImportCollisionWithLocal {
                    name: entries[i].name().duplicate(),
                    binding: binding.duplicate(),
                });
            },
            None => {},
        }
        i = i + 1;
    }
    assert(es.take(entries@.len() as int) =~= es);
    Ok(())
}

proof fn lemma_variants_error_prefix(es: Seq<EntryModel>, k: int)
    requires
        0 <= k <= es.len(),
        variants_error(es.take(k)) is Some,
    ensures
        variants_error(es) == variants_error(es.take(k)),
    decreases es.len() - k,
{
    if k < es.len() {
        assert(es.take(k + 1).drop_last() =~= es.take(k));
        lemma_variants_error_prefix(es, k + 1);
    } else {
        assert(es.take(k) =~= es);
    }
}

/// No enum repeats a variant name.
fn check_variants(ns: &Namespace) -> (r: Result<(), Error>)
    ensures
        doc_result(r, variants_error(ns.entry_list())),
{
    let ghost es = ns.entry_list();
    let entries = ns.entries();
    let mut i: usize = 0;
    while i < entries.len()
        invariant
            es == ns.entry_list(),
            entry_models(entries@) == es,
            0 <= i <= entries@.len(),
            variants_error(es.take(i as int)) is None,
        decreases entries@.len() - i,
    {
        proof {
            assert(es.take(i as int + 1).drop_last() =~= es.take(i as int));
            assert(es.take(i as int + 1).last() == es[i as int]);
            assert(es[i as int].body == entries@[i as int].body_model());
            assert(es[i as int].name == entries@[i as int].name_text());
        }
        match entries[i].body() {
            DeclarationBody::Enum { variants } => {
                let ghost vs = variant_models(variants@);
                let mut names: Vec<Name> = Vec::new();
                let mut k: usize = 0;
                while k < variants.len()
                    invariant
                        vs == variant_models(variants@),
                        0 <= k <= variants@.len(),
                        name_texts(names@) == variant_texts(vs).take(k as int),
                    decreases variants@.len() - k,
                {
                    let copy = variants[k].name().duplicate();
                    let ghost before = names@;
                    names.push(copy);
                    assert(name_texts(names@) =~= name_texts(before).push(copy.text()));
                    assert(name_texts(names@) =~= variant_texts(vs).take(k as int + 1));
                    k = k + 1;
                }
                assert(variant_texts(vs).take(variants@.len() as int) =~= variant_texts(vs));
                match first_duplicate_name(names.as_slice()) {
                    Some(j) => {
                        proof {
                            lemma_variants_error_prefix(es, i as int + 1);
                        }
                        return Err(Error::DuplicateVariant {
                            declaration: entries[i].name().duplicate(),
                            variant: names[j].duplicate(),
                        });
                    },
                    None => {},
                }
            },
            _ => {},
        }
        i = i + 1;
    }
    assert(es.take(entries@.len() as int) =~= es);
    Ok(())
}

// ── Import resolution ───────────────────────────────────────────────

/// The names the selective imports bring, each with its binding, and
/// whether a binding imports everything.
struct ResolvedImports {
    names: Vec<(Name, Name)>,
    has_unresolved_import_all: bool,
}

/// Record the names `binding` imports.
fn record_import_names(imported: &mut Vec<(Name, Name)>, binding: &Name, names: &[Name]) -> (r: Result<(), Error>)
    ensures
        match record_names(pair_texts(old(imported)@), binding.text(), name_texts(names@), 0) {
            Ok(m) => r is Ok && pair_texts(final(imported)@) == m,
            Err(d) => r matches Err(e) && reports(e, d),
        },
{
    let ghost ns = name_texts(names@);
    let ghost goal = record_names(pair_texts(imported@), binding.text(), ns, 0);
    let mut i: usize = 0;
    while i < names.len()
        invariant
            ns == name_texts(names@),
            0 <= i <= names@.len(),
            goal == record_names(pair_texts(old(imported)@), binding.text(), ns, 0),
            goal == record_names(pair_texts(imported@), binding.text(), ns, i as int),
        decreases names@.len() - i,
    {
        let mut j: usize = 0;
        let mut repeated = false;
        while j < i
            invariant
                ns == name_texts(names@),
                0 <= j <= i < names@.len(),
                repeated == exists|t: int| 0 <= t < j && ns[t] == ns[i as int],
            decreases i - j,
        {
            assert(ns[j as int] == names@[j as int].text() && ns[i as int] == names@[i as int].text());
            if str_equal(names[j].as_str(), names[i].as_str()) {
                repeated = true;
                assert(ns[j as int] == ns[i as int]);
            }
            j = j + 1;
        }
        proof {
            if repeated {
                let t = choose|t: int| 0 <= t < i && ns[t] == ns[i as int];
                assert(ns.take(i as int)[t] == ns[i as int]);
            } else {
                assert forall|t: int| 0 <= t < ns.take(i as int).len() implies ns.take(i as int)[t] != ns[i as int] by {
                    assert(ns.take(i as int)[t] == ns[t]);
                }
            }
        }
        assert(ns[i as int] == names@[i as int].text());
        if repeated {
            return Err(Error::DuplicateResolvedImportName { binding: binding.duplicate(), name: names[i].duplicate() });
        }
        match binding_of(imported, &names[i]) {
            Some(first) => {
                return Err(Error::DuplicateImportedName {
                    name: names[i].duplicate(),
                    first_binding: first.duplicate(),
                    second_binding: binding.duplicate(),
                });
            },
            None => {},
        }
        let ghost before = imported@;
        let entry = (names[i].duplicate(), binding.duplicate());
        imported.push(entry);
        assert(pair_texts(imported@) =~= pair_texts(before).push((ns[i as int], binding.text())));
        i = i + 1;
    }
    Ok(())
}

proof fn lemma_selected_imports_prefix(bs: Seq<BindingModel>, k: int)
    requires
        0 <= k <= bs.len(),
        selected_imports(bs.take(k)) is Err,
    ensures
        selected_imports(bs) == selected_imports(bs.take(k)),
    decreases bs.len() - k,
{
    if k < bs.len() {
        assert(bs.take(k + 1).drop_last() =~= bs.take(k));
        lemma_selected_imports_prefix(bs, k + 1);
    } else {
        assert(bs.take(k) =~= bs);
    }
}

fn resolve_selected_imports(imports: &Imports) -> (r: Result<ResolvedImports, Error>)
    ensures
        match selected_imports(imports.bindings()) {
            Ok((m, open)) => r matches Ok(resolved) && pair_texts(resolved.names@) == m
                && resolved.has_unresolved_import_all == open,
            Err(d) => r matches Err(e) && reports(e, d),
        },
{
    let ghost bs = imports.bindings();
    let entries = imports.entries();
    let mut names: Vec<(Name, Name)> = Vec::new();
    let mut open = false;
    let mut i: usize = 0;
    assert(bs.take(0) =~= Seq::<BindingModel>::empty());
    assert(pair_texts(names@) =~= Seq::<(Seq<char>, Seq<char>)>::empty());
    while i < entries.len()
        invariant
            bs == imports.bindings(),
            crate::import::binding_models(entries@) == bs,
            0 <= i <= entries@.len(),
            selected_imports(bs.take(i as int)) == Ok::<(Seq<(Seq<char>, Seq<char>)>, bool), DocError>((pair_texts(names@), open)),
        decreases entries@.len() - i,
    {
        proof {
            assert(bs.take(i as int + 1).drop_last() =~= bs.take(i as int));
            assert(bs.take(i as int + 1).last() == bs[i as int]);
            assert(bs[i as int].binding == entries@[i as int].0.text());
            assert(bs[i as int].directive == entries@[i as int].1.model());
        }
        match &entries[i].1 {
            ImportDirective::Import { names: selected, .. } => {
                let recorded = record_import_names(&mut names, &entries[i].0, selected.as_slice());
                match recorded {
                    Err(e) => {
                        proof {
                            lemma_selected_imports_prefix(bs, i as int + 1);
                        }
                        return Err(e);
                    },
                    Ok(()) => {},
                }
            },
            ImportDirective::ImportAll { .. } => {
                open = true;
            },
        }
        i = i + 1;
    }
    assert(bs.take(entries@.len() as int) =~= bs);
    Ok(ResolvedImports { names, has_unresolved_import_all: open })
}

// ── Feature names ───────────────────────────────────────────────────

fn copy_names(names: &[Name]) -> (r: Vec<Name>)
    ensures
        name_texts(r@) == name_texts(names@),
{
    let mut out: Vec<Name> = Vec::new();
    let mut i: usize = 0;
    while i < names.len()
        invariant
            0 <= i <= names@.len(),
            name_texts(out@) == name_texts(names@).take(i as int),
        decreases names@.len() - i,
    {
        let copy = names[i].duplicate();
        let ghost before = out@;
        out.push(copy);
        assert(name_texts(out@) =~= name_texts(before).push(copy.text()));
        assert(name_texts(out@) =~= name_texts(names@).take(i as int + 1));
        i = i + 1;
    }
    assert(name_texts(names@).take(names@.len() as int) =~= name_texts(names@));
    out
}

/// The names a feature requires, in order.
fn required_names(feature: &Feature) -> (r: Vec<Name>)
    ensures
        name_texts(r@) == feature_names(*feature),
{
    match feature {
        Feature::Reply(names) => copy_names(names.as_slice()),
        Feature::Event(event) => copy_names(event.events()),
        Feature::Observable(observable) => {
            let mut out: Vec<Name> = Vec::new();
            match observable.operation_event() {
                Some(n) => out.push(n.duplicate()),
                None => {},
            }
            let ghost first = out@;
            match observable.effect_event() {
                Some(n) => out.push(n.duplicate()),
                None => {},
            }
            assert(name_texts(out@) =~= option_names(observable.operation_event_text()) + option_names(observable.effect_event_text()));
            out
        },
        Feature::Upgrade(upgrade) => {
            let annotations = upgrade.annotations();
            let ghost lists = annotation_lists(annotation_models(annotations@));
            let mut out: Vec<Name> = Vec::new();
            let mut k: usize = 0;
            assert(lists.take(0).flatten() =~= Seq::<Seq<char>>::empty());
            assert(name_texts(out@) =~= Seq::<Seq<char>>::empty());
            while k < annotations.len()
                invariant
                    lists == annotation_lists(annotation_models(annotations@)),
                    0 <= k <= annotations@.len(),
                    name_texts(out@) == lists.take(k as int).flatten(),
                decreases annotations@.len() - k,
            {
                let ghost before = out@;
                proof {
                    lemma_flatten_take_step(lists, k as int);
                    assert(lists[k as int] == annotation_required(annotations@[k as int].model()));
                }
                match &annotations[k] {
                    UpgradeAnnotation::Migrate(n) => {
                        out.push(n.duplicate());
                        assert(name_texts(out@) =~= name_texts(before) + lists[k as int]);
                    },
                    UpgradeAnnotation::RenamedFrom { current, .. } => {
                        out.push(current.duplicate());
                        assert(name_texts(out@) =~= name_texts(before) + lists[k as int]);
                    },
                    UpgradeAnnotation::Custom { name, .. } => {
                        out.push(name.duplicate());
                        assert(name_texts(out@) =~= name_texts(before) + lists[k as int]);
                    },
                    _ => {
                        assert(name_texts(out@) =~= name_texts(before) + lists[k as int]);
                    },
                }
                k = k + 1;
            }
            assert(lists.take(annotations@.len() as int) =~= lists);
            out
        },
        Feature::EffectTable(_) => {
            let out: Vec<Name> = Vec::new();
            assert(name_texts(out@) =~= Seq::<Seq<char>>::empty());
            out
        },
        Feature::FanOutTargets(_) => {
            let out: Vec<Name> = Vec::new();
            assert(name_texts(out@) =~= Seq::<Seq<char>>::empty());
            out
        },
        Feature::StorageDescriptor(storage) => {
            let entries = storage.entries();
            let ghost texts = table_type_texts(storage.entry_list());
            let mut out: Vec<Name> = Vec::new();
            let mut k: usize = 0;
            while k < entries.len()
                invariant
                    entries@ == storage.entry_list(),
                    texts == table_type_texts(storage.entry_list()),
                    0 <= k <= entries@.len(),
                    name_texts(out@) == texts.take(k as int),
                decreases entries@.len() - k,
            {
                let ghost before = out@;
                let copy = entries[k].table_type().duplicate();
                out.push(copy);
                assert(name_texts(out@) =~= name_texts(before).push(copy.text()));
                assert(name_texts(out@) =~= texts.take(k as int + 1));
                k = k + 1;
            }
            assert(texts.take(entries@.len() as int) =~= texts);
            out
        },
    }
}

/// The first of the names that is neither declared nor imported.
fn check_names(ns: &Namespace, imported: &Vec<(Name, Name)>, names: &[Name]) -> (r: Result<(), Error>)
    ensures
        unknown_result(r, first_unknown(scope_of(ns, imported, false), name_texts(names@))),
{
    let ghost sc = scope_of(ns, imported, false);
    let ghost texts = name_texts(names@);
    let mut i: usize = 0;
    assert(texts.subrange(0, texts.len() as int) =~= texts);
    while i < names.len()
        invariant
            sc == scope_of(ns, imported, false),
            texts == name_texts(names@),
            0 <= i <= names@.len(),
            first_unknown(sc, texts) == first_unknown(sc, texts.subrange(i as int, texts.len() as int)),
        decreases names@.len() - i,
    {
        let ghost rest = texts.subrange(i as int, texts.len() as int);
        assert(rest[0] == texts[i as int]);
        assert(rest.drop_first() =~= texts.subrange(i + 1, texts.len() as int));
        if !is_known(ns, imported, false, &names[i]) {
            return Err(Error::UnknownType { name: names[i].duplicate() });
        }
        i = i + 1;
    }
    assert(texts.subrange(i as int, texts.len() as int) =~= Seq::<Seq<char>>::empty());
    Ok(())
}

/// Every name the features require is declared or imported.
fn check_features(ns: &Namespace, imported: &Vec<(Name, Name)>, features: &[Feature]) -> (r: Result<(), Error>)
    ensures
        unknown_result(r, first_unknown(scope_of(ns, imported, false), features_names(features@))),
{
    let ghost sc = scope_of(ns, imported, false);
    let ghost lists = feature_name_lists(features@);
    let mut i: usize = 0;
    assert(lists.take(0).flatten() =~= Seq::<Seq<char>>::empty());
    while i < features.len()
        invariant
            sc == scope_of(ns, imported, false),
            lists == feature_name_lists(features@),
            0 <= i <= features@.len(),
            first_unknown(sc, lists.take(i as int).flatten()) is None,
        decreases features@.len() - i,
    {
        proof {
            lemma_first_unknown_flat_step(sc, lists, i as int);
        }
        let required = required_names(&features[i]);
        let step = check_names(ns, imported, required.as_slice());
        if step.is_err() {
            proof {
                lemma_first_unknown_flat_prefix(sc, lists, i as int + 1);
            }
            return step;
        }
        i = i + 1;
    }
    assert(lists.take(features@.len() as int) =~= lists);
    Ok(())
}

// ── The schema document ─────────────────────────────────────────────

/// The first variant named `n` among `vs[i..]`.
pub open spec fn variant_from(vs: Seq<VariantModel>, n: Seq<char>, i: int) -> Option<VariantModel>
    decreases vs.len() - i,
{
    if i < 0 || i >= vs.len() {
        None
    } else if vs[i].name == n {
        Some(vs[i])
    } else {
        variant_from(vs, n, i + 1)
    }
}

/// The authored document is the schema value itself.
pub type Document = Schema;

/// An authored schema: imports, the three headers, the namespace and the
/// features, checked when built.
#[derive(Debug, PartialEq, Eq)]
pub struct Schema {
    imports: Imports,
    ordinary_header: Header,
    owner_header: Header,
    sema_header: Header,
    namespace: Namespace,
    features: Vec<Feature>,
}

impl Schema {
    pub closed spec fn imports_of(&self) -> Imports {
        self.imports
    }

    pub closed spec fn ordinary_header_of(&self) -> Header {
        self.ordinary_header
    }

    pub closed spec fn owner_header_of(&self) -> Header {
        self.owner_header
    }

    pub closed spec fn sema_header_of(&self) -> Header {
        self.sema_header
    }

    pub closed spec fn namespace_of(&self) -> Namespace {
        self.namespace
    }

    pub closed spec fn feature_list(&self) -> Seq<Feature> {
        self.features@
    }

    /// Build a schema from its parts. Refused, with the first problem
    /// found, when an enum repeats a variant name, when imported names
    /// clash, when a declaration mentions a name that is neither declared
    /// nor imported (an unresolved import of everything may cover it) or
    /// shares its name with an imported one, or when a feature requires a
    /// name that is neither declared nor imported.
    pub fn new(
        imports: Imports,
        ordinary_header: Header,
        owner_header: Header,
        sema_header: Header,
        namespace: Namespace,
        features: Vec<Feature>,
    ) -> (r: Result<Self, Error>)
        ensures
            match authored_error(namespace.entry_list(), imports.bindings(), features@) {
                Some(d) => r matches Err(e) && reports(e, d),
                None => r matches Ok(s) && s.imports_of() == imports && s.ordinary_header_of() == ordinary_header
                    && s.owner_header_of() == owner_header && s.sema_header_of() == sema_header
                    && s.namespace_of() == namespace && s.feature_list() == features@,
            },
    {
        let checked = check_variants(&namespace);
        if let Err(e) = checked {
            return Err(e);
        }
        let resolved = match resolve_selected_imports(&imports) {
            Ok(resolved) => resolved,
            Err(e) => {
                return Err(e);
            },
        };
        let declared = check_declarations(&namespace, &resolved.names, resolved.has_unresolved_import_all);
        if let Err(e) = declared {
            return Err(e);
        }
        let featured = check_features(&namespace, &resolved.names, features.as_slice());
        if let Err(e) = featured {
            return Err(e);
        }
        Ok(Schema { imports, ordinary_header, owner_header, sema_header, namespace, features })
    }

    pub fn imports(&self) -> (r: &Imports)
        ensures
            *r == self.imports_of(),
    {
        &self.imports
    }

    pub fn ordinary_header(&self) -> (r: &Header)
        ensures
            *r == self.ordinary_header_of(),
    {
        &self.ordinary_header
    }

    pub fn owner_header(&self) -> (r: &Header)
        ensures
            *r == self.owner_header_of(),
    {
        &self.owner_header
    }

    pub fn sema_header(&self) -> (r: &Header)
        ensures
            *r == self.sema_header_of(),
    {
        &self.sema_header
    }

    pub fn namespace(&self) -> (r: &Namespace)
        ensures
            *r == self.namespace_of(),
    {
        &self.namespace
    }

    pub fn features(&self) -> (r: &[Feature])
        ensures
            r@ == self.feature_list(),
    {
        self.features.as_slice()
    }

    /// The body declared under `name`.
    pub fn declaration_body(&self, name: &Name) -> (r: Option<&DeclarationBody>)
        ensures
            match self.namespace_of().body_of(name.text()) {
                Some(b) => r matches Some(found) && found.model() == b,
                None => r is None,
            },
    {
        self.namespace.body(name)
    }

    /// The variant `variant` of the enum `declaration`: an error when no
    /// such declaration exists, when it is no enum, or when it has no
    /// such variant.
    pub fn variant(&self, declaration: &Name, variant: &Name) -> (r: Result<&Variant, Error>)
        ensures
            match self.namespace_of().body_of(declaration.text()) {
                None => r matches Err(Error::MissingDeclaration { name }) && name.text() == declaration.text(),
                Some(BodyModel::Enum(vs)) => match variant_from(vs, variant.text(), 0) {
                    Some(v) => r matches Ok(found) && found.model() == v,
                    None => r matches Err(Error::MissingVariant { declaration: d, variant: v })
                        && d.text() == declaration.text() && v.text() == variant.text(),
                },
                Some(_) => r matches Err(Error::MissingVariant { declaration: d, variant: v })
                    && d.text() == declaration.text() && v.text() == variant.text(),
            },
    {
        let body = match self.namespace.body(declaration) {
            Some(body) => body,
            None => {
                return Err(Error::MissingDeclaration { name: declaration.duplicate() });
            },
        };
        match body {
            DeclarationBody::Enum { variants } => {
                let ghost vs = variant_models(variants@);
                let mut i: usize = 0;
                while i < variants.len()
                    invariant
                        vs == variant_models(variants@),
                        self.namespace_of().body_of(declaration.text()) == Some(BodyModel::Enum(vs)),
                        0 <= i <= variants@.len(),
                        variant_from(vs, variant.text(), 0) == variant_from(vs, variant.text(), i as int),
                    decreases variants@.len() - i,
                {
                    assert(vs[i as int] == variants@[i as int].model());
                    if str_equal(variants[i].name().as_str(), variant.as_str()) {
                        return Ok(&variants[i]);
                    }
                    i = i + 1;
                }
                Err(Error::MissingVariant { declaration: declaration.duplicate(), variant: variant.duplicate() })
            },
            _ => Err(Error::MissingVariant { declaration: declaration.duplicate(), variant: variant.duplicate() }),
        }
    }
}

// ── Laws ────────────────────────────────────────────────────────────

proof fn lemma_first_unknown_none(sc: Scope, ns: Seq<Seq<char>>)
    requires
        first_unknown(sc, ns) is None,
    ensures
        forall|i: int| 0 <= i < ns.len() ==> known(sc, #[trigger] ns[i]),
    decreases ns.len(),
{
    if ns.len() > 0 {
        lemma_first_unknown_none(sc, ns.drop_first());
        assert forall|i: int| 0 <= i < ns.len() implies known(sc, #[trigger] ns[i]) by {
            if i > 0 {
                assert(ns[i] == ns.drop_first()[i - 1]);
            }
        }
    }
}

proof fn lemma_declarations_error_none(sc: Scope, es: Seq<EntryModel>)
    requires
        declarations_error(sc, es) is None,
    ensures
        forall|i: int| 0 <= i < es.len() ==> first_unknown(sc, body_names(#[trigger] es[i].body)) is None
            && imported_by(sc.imported, es[i].name) is None,
    decreases es.len(),
{
    if es.len() > 0 {
        lemma_declarations_error_none(sc, es.drop_last());
        assert forall|i: int| 0 <= i < es.len() implies first_unknown(sc, body_names(#[trigger] es[i].body)) is None
            && imported_by(sc.imported, es[i].name) is None by {
            if i < es.len() - 1 {
                assert(es[i] == es.drop_last()[i]);
            }
        }
    }
}

/// A schema that builds is closed: every name a declaration mentions is
/// declared, imported, or possibly covered by an import of everything;
/// no declaration shares its name with an imported one; and every name a
/// feature requires is declared or imported.
pub proof fn lemma_built_schema_is_closed(es: Seq<EntryModel>, bs: Seq<BindingModel>, fs: Seq<Feature>)
    requires
        authored_error(es, bs, fs) is None,
    ensures
        selected_imports(bs) matches Ok((m, open)) && {
            &&& forall|i: int, k: int| 0 <= i < es.len() && 0 <= k < body_names(es[i].body).len()
                ==> known(Scope { entries: es, imported: m, open }, #[trigger] body_names(es[i].body)[k])
            &&& forall|i: int| 0 <= i < es.len() ==> imported_by(m, #[trigger] es[i].name) is None
            &&& forall|k: int| 0 <= k < features_names(fs).len()
                ==> known(Scope { entries: es, imported: m, open: false }, #[trigger] features_names(fs)[k])
        },
{
    assert(variants_error(es) is None);
    assert(selected_imports(bs) is Ok);
    let (m, open) = selected_imports(bs)->Ok_0;
    let sc = Scope { entries: es, imported: m, open };
    let strict = Scope { entries: es, imported: m, open: false };
    assert(declarations_error(sc, es) is None);
    assert(first_unknown(strict, features_names(fs)) is None);
    lemma_declarations_error_none(sc, es);
    assert forall|i: int| 0 <= i < es.len() implies imported_by(m, #[trigger] es[i].name) is None by {
        assert(first_unknown(sc, body_names(es[i].body)) is None);
        assert(imported_by(sc.imported, es[i].name) is None);
    }
    assert forall|i: int, k: int| 0 <= i < es.len() && 0 <= k < body_names(es[i].body).len()
        implies known(sc, #[trigger] body_names(es[i].body)[k]) by {
        lemma_first_unknown_none(sc, body_names(es[i].body));
    }
    lemma_first_unknown_none(strict, features_names(fs));
}

} // verus!
