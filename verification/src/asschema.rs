//! The assembled schema value: identity, imports, the input and output
//! root enums, and the namespace of declarations, with the type
//! references they use.
use vstd::prelude::*;
use crate::name::{snake_case, snake_case_spec};
use crate::text::{chars_of, str_equal, string_of};
pub use crate::schema_node::{SchemaNode, SchemaNodeData, SchemaNodePair, SchemaNodeValue};

verus! {

/// A schema name as written, possibly namespaced by `:` segments.
#[derive(Clone, Debug, Eq, Hash, PartialEq)]
pub struct Name(String);

/// The pieces of `t` between the separators `sep`.
pub open spec fn split_spec(t: Seq<char>, sep: char) -> Seq<Seq<char>>
    decreases t.len(),
{
    if t.len() == 0 {
        seq![Seq::empty()]
    } else {
        let prev = split_spec(t.drop_last(), sep);
        if t.last() == sep {
            prev.push(Seq::empty())
        } else {
            prev.update(prev.len() - 1, prev.last().push(t.last()))
        }
    }
}

proof fn lemma_split_nonempty(t: Seq<char>, sep: char)
    ensures
        split_spec(t, sep).len() >= 1,
    decreases t.len(),
{
    if t.len() > 0 {
        lemma_split_nonempty(t.drop_last(), sep);
    }
}

impl Name {
    pub closed spec fn text(&self) -> Seq<char> {
        self.0@
    }

    pub fn new(value: &str) -> (r: Self)
        ensures
            r.text() == value@,
    {
        Name(string_of(value))
    }

    pub fn as_str(&self) -> (r: &str)
        ensures
            r@ == self.text(),
    {
        self.0.as_str()
    }

    pub fn duplicate(&self) -> (r: Self)
        ensures
            r.text() == self.text(),
    {
        Name(self.0.clone())
    }

    /// The `:`-separated segments of the name.
    pub fn namespace_segments(&self) -> (r: Vec<String>)
        ensures
            r@.len() == split_spec(self.text(), ':').len(),
            forall|i: int| 0 <= i < r@.len() ==> (#[trigger] r@[i])@ == split_spec(self.text(), ':')[i],
    {
        let chars = chars_of(self.0.as_str());
        let mut out: Vec<String> = Vec::new();
        let mut current = String::new();
        let mut i: usize = 0;
        while i < chars.len()
            invariant
                chars@ == self.text(),
                0 <= i <= chars@.len(),
                out@.len() + 1 == split_spec(chars@.take(i as int), ':').len(),
                forall|k: int| 0 <= k < out@.len() ==> (#[trigger] out@[k])@ == split_spec(chars@.take(i as int), ':')[k],
                current@ == split_spec(chars@.take(i as int), ':').last(),
            decreases chars@.len() - i,
        {
            let ghost prev = split_spec(chars@.take(i as int), ':');
            proof {
                assert(chars@.take(i as int + 1).drop_last() =~= chars@.take(i as int));
                assert(chars@.take(i as int + 1).last() == chars@[i as int]);
                lemma_split_nonempty(chars@.take(i as int), ':');
            }
            if chars[i] == ':' {
                let finished = current;
                out.push(finished);
                current = String::new();
            } else {
                crate::text::push_char(&mut current, chars[i]);
            }
            i = i + 1;
        }
        out.push(current);
        proof {
            assert(chars@.take(chars@.len() as int) =~= chars@);
        }
        out
    }

    /// The last `:`-separated segment of the name.
    pub fn local_part(&self) -> (r: String)
        ensures
            r@ == split_spec(self.text(), ':').last(),
    {
        let mut segments = self.namespace_segments();
        proof {
            lemma_split_nonempty(self.text(), ':');
        }
        match segments.pop() {
            Some(last) => last,
            None => String::new(),
        }
    }

    /// The snake-case field name of the local part.
    pub fn field_name(&self) -> (r: String)
        ensures
            r@ == snake_case_spec(split_spec(self.text(), ':').last()),
    {
        let local = self.local_part();
        snake_case(local.as_str())
    }
}

/// The component name and authored version of a schema.
#[derive(Clone, Debug, Eq, PartialEq)]
pub struct SchemaIdentity {
    component: Name,
    version: String,
}

impl SchemaIdentity {
    pub closed spec fn component_text(&self) -> Seq<char> {
        self.component.text()
    }

    pub closed spec fn version_text(&self) -> Seq<char> {
        self.version@
    }

    pub fn new(component: &str, version: &str) -> (r: Self)
        ensures
            r.component_text() == component@,
            r.version_text() == version@,
    {
        SchemaIdentity { component: Name::new(component), version: string_of(version) }
    }

    pub fn component(&self) -> (r: &Name)
        ensures
            r.text() == self.component_text(),
    {
        &self.component
    }

    pub fn version(&self) -> (r: &str)
        ensures
            r@ == self.version_text(),
    {
        self.version.as_str()
    }
}

/// A type at a reference position: a reserved scalar, a declared name,
/// or a vector, map or optional of references.
#[derive(Debug, Eq, PartialEq)]
pub enum TypeReference {
    String,
    Integer,
    Boolean,
    Path,
    Plain(Name),
    Vector(Box<TypeReference>),
    Mapping(Box<TypeReference>, Box<TypeReference>),
    Optional(Box<TypeReference>),
}

/// The mathematical value of a type reference.
pub enum ReferenceModel {
    String,
    Integer,
    Boolean,
    Path,
    Plain(Seq<char>),
    Vector(Box<ReferenceModel>),
    Mapping(Box<ReferenceModel>, Box<ReferenceModel>),
    Optional(Box<ReferenceModel>),
}

impl TypeReference {
    pub open spec fn model(&self) -> ReferenceModel
        decreases self,
    {
        match self {
            TypeReference::String => ReferenceModel::String,
            TypeReference::Integer => ReferenceModel::Integer,
            TypeReference::Boolean => ReferenceModel::Boolean,
            TypeReference::Path => ReferenceModel::Path,
            TypeReference::Plain(n) => ReferenceModel::Plain(n.text()),
            TypeReference::Vector(inner) => ReferenceModel::Vector(Box::new(inner.model())),
            TypeReference::Mapping(k, v) => ReferenceModel::Mapping(
                Box::new(k.model()),
                Box::new(v.model()),
            ),
            TypeReference::Optional(inner) => ReferenceModel::Optional(Box::new(inner.model())),
        }
    }

    /// A copy with the same model.
    pub fn duplicate(&self) -> (r: Self)
        ensures
            r.model() == self.model(),
        decreases self,
    {
        match self {
            TypeReference::String => TypeReference::String,
            TypeReference::Integer => TypeReference::Integer,
            TypeReference::Boolean => TypeReference::Boolean,
            TypeReference::Path => TypeReference::Path,
            TypeReference::Plain(n) => TypeReference::Plain(n.duplicate()),
            TypeReference::Vector(inner) => TypeReference::Vector(Box::new(inner.duplicate())),
            TypeReference::Mapping(k, v) => TypeReference::Mapping(
                Box::new(k.duplicate()),
                Box::new(v.duplicate()),
            ),
            TypeReference::Optional(inner) => TypeReference::Optional(Box::new(inner.duplicate())),
        }
    }
}

impl Clone for TypeReference {
    fn clone(&self) -> (r: Self)
        ensures
            r.model() == self.model(),
    {
        self.duplicate()
    }
}

pub open spec fn is_reserved_scalar_spec(t: Seq<char>) -> bool {
    t == "String"@ || t == "Integer"@ || t == "Boolean"@ || t == "Path"@
}

impl TypeReference {
    pub fn new(name: &str) -> (r: Self)
        ensures
            match r {
                TypeReference::Plain(n) => n.text() == name@ && !is_reserved_scalar_spec(name@),
                TypeReference::String => name@ == "String"@,
                TypeReference::Integer => name@ == "Integer"@,
                TypeReference::Boolean => name@ == "Boolean"@,
                TypeReference::Path => name@ == "Path"@,
                _ => false,
            },
    {
        Self::from_name(Name::new(name))
    }

    pub fn from_name(name: Name) -> (r: Self)
        ensures
            match r {
                TypeReference::Plain(n) => n.text() == name.text() && !is_reserved_scalar_spec(
                    name.text(),
                ),
                TypeReference::String => name.text() == "String"@,
                TypeReference::Integer => name.text() == "Integer"@,
                TypeReference::Boolean => name.text() == "Boolean"@,
                TypeReference::Path => name.text() == "Path"@,
                _ => false,
            },
    {
        if str_equal(name.as_str(), "String") {
            TypeReference::String
        } else if str_equal(name.as_str(), "Integer") {
            TypeReference::Integer
        } else if str_equal(name.as_str(), "Boolean") {
            TypeReference::Boolean
        } else if str_equal(name.as_str(), "Path") {
            TypeReference::Path
        } else {
            TypeReference::Plain(name)
        }
    }

    pub fn is_reserved_scalar_name(name: &Name) -> (r: bool)
        ensures
            r == is_reserved_scalar_spec(name.text()),
    {
        str_equal(name.as_str(), "String") || str_equal(name.as_str(), "Integer") || str_equal(
            name.as_str(),
            "Boolean",
        ) || str_equal(name.as_str(), "Path")
    }

    /// The reserved name of a scalar leaf.
    pub fn scalar_name(&self) -> (r: Option<&'static str>)
        ensures
            match self {
                TypeReference::String => r matches Some(t) && t@ == "String"@,
                TypeReference::Integer => r matches Some(t) && t@ == "Integer"@,
                TypeReference::Boolean => r matches Some(t) && t@ == "Boolean"@,
                TypeReference::Path => r matches Some(t) && t@ == "Path"@,
                _ => r is None,
            },
    {
        match self {
            TypeReference::String => Some("String"),
            TypeReference::Integer => Some("Integer"),
            TypeReference::Boolean => Some("Boolean"),
            TypeReference::Path => Some("Path"),
            _ => None,
        }
    }

    /// The declared name of a declared-name leaf.
    pub fn plain_name(&self) -> (r: Option<&Name>)
        ensures
            match self {
                TypeReference::Plain(n) => r == Some(n),
                _ => r is None,
            },
    {
        match self {
            TypeReference::Plain(name) => Some(name),
            _ => None,
        }
    }

    pub fn is_plain(&self) -> (r: bool)
        ensures
            r == (self is Plain),
    {
        match self {
            TypeReference::Plain(_) => true,
            _ => false,
        }
    }
}

#[derive(Clone, Debug, Eq, PartialEq)]
pub struct ImportDeclaration {
    pub local_name: Name,
    pub source: TypeReference,
}

#[derive(Clone, Copy, Debug, Eq, PartialEq, Structural)]
pub enum Visibility {
    Public,
    Private,
}

#[derive(Clone, Debug, Eq, PartialEq)]
pub struct FieldDeclaration {
    pub name: Name,
    pub reference: TypeReference,
}

/// The fields of a struct, in source order, keyed by field name.
#[derive(Clone, Debug, Eq, PartialEq)]
pub struct StructFieldMap {
    entries: Vec<FieldDeclaration>,
}

impl StructFieldMap {
    pub closed spec fn entry_list(&self) -> Seq<FieldDeclaration> {
        self.entries@
    }

    pub fn new(entries: Vec<FieldDeclaration>) -> (r: Self)
        ensures
            r.entry_list() == entries@,
    {
        StructFieldMap { entries }
    }

    pub fn entries(&self) -> (r: &[FieldDeclaration])
        ensures
            r@ == self.entry_list(),
    {
        self.entries.as_slice()
    }

    pub fn len(&self) -> (r: usize)
        ensures
            r == self.entry_list().len(),
    {
        self.entries.len()
    }

    pub fn is_empty(&self) -> (r: bool)
        ensures
            r == (self.entry_list().len() == 0),
    {
        self.entries.len() == 0
    }

    pub fn first(&self) -> (r: Option<&FieldDeclaration>)
        ensures
            self.entry_list().len() > 0 ==> r == Some(&self.entry_list()[0]),
            self.entry_list().len() == 0 ==> r is None,
    {
        if self.entries.len() > 0 {
            Some(&self.entries[0])
        } else {
            None
        }
    }
}

#[derive(Clone, Debug, Eq, PartialEq)]
pub struct NewtypeDeclaration {
    pub name: Name,
    pub reference: TypeReference,
}

impl NewtypeDeclaration {
    pub fn new(name: Name, reference: TypeReference) -> (r: Self)
        ensures
            r == (NewtypeDeclaration { name, reference }),
    {
        NewtypeDeclaration { name, reference }
    }
}

#[derive(Clone, Debug, Eq, PartialEq)]
pub struct StructDeclaration {
    pub name: Name,
    pub fields: StructFieldMap,
}

impl StructDeclaration {
    pub fn new(name: Name, fields: Vec<FieldDeclaration>) -> (r: Self)
        ensures
            r.name == name,
            r.fields.entry_list() == fields@,
    {
        StructDeclaration { name, fields: StructFieldMap::new(fields) }
    }
}

#[derive(Clone, Debug, Eq, PartialEq)]
pub struct EnumVariant {
    pub name: Name,
    pub payload: Option<TypeReference>,
}

#[derive(Clone, Debug, Eq, PartialEq)]
pub struct EnumDeclaration {
    pub name: Name,
    pub variants: Vec<EnumVariant>,
}

impl EnumDeclaration {
    pub fn new(name: Name, variants: Vec<EnumVariant>) -> (r: Self)
        ensures
            r == (EnumDeclaration { name, variants }),
    {
        EnumDeclaration { name, variants }
    }
}

#[derive(Clone, Debug, Eq, PartialEq)]
pub enum TypeDeclaration {
    Struct(StructDeclaration),
    Enum(EnumDeclaration),
    Newtype(NewtypeDeclaration),
}

impl TypeDeclaration {
    pub open spec fn name_of(&self) -> Name {
        match self {
            TypeDeclaration::Struct(d) => d.name,
            TypeDeclaration::Enum(d) => d.name,
            TypeDeclaration::Newtype(d) => d.name,
        }
    }

    pub fn name(&self) -> (r: &Name)
        ensures
            *r == self.name_of(),
    {
        match self {
            TypeDeclaration::Struct(d) => &d.name,
            TypeDeclaration::Enum(d) => &d.name,
            TypeDeclaration::Newtype(d) => &d.name,
        }
    }
}

#[derive(Clone, Debug, Eq, PartialEq)]
pub struct Declaration {
    visibility: Visibility,
    name: Name,
    value: TypeDeclaration,
}

impl Declaration {
    pub closed spec fn visibility_of(&self) -> Visibility {
        self.visibility
    }

    pub closed spec fn name_text(&self) -> Seq<char> {
        self.name.text()
    }

    pub closed spec fn value_of(&self) -> TypeDeclaration {
        self.value
    }

    pub fn public(value: TypeDeclaration) -> (r: Self)
        ensures
            r.visibility_of() == Visibility::Public,
            r.name_text() == value.name_of().text(),
            r.value_of() == value,
    {
        Self::new(Visibility::Public, value)
    }

    pub fn private(value: TypeDeclaration) -> (r: Self)
        ensures
            r.visibility_of() == Visibility::Private,
            r.name_text() == value.name_of().text(),
            r.value_of() == value,
    {
        Self::new(Visibility::Private, value)
    }

    fn new(visibility: Visibility, value: TypeDeclaration) -> (r: Self)
        ensures
            r.visibility_of() == visibility,
            r.name_text() == value.name_of().text(),
            r.value_of() == value,
    {
        let name = value.name().duplicate();
        Declaration { visibility, name, value }
    }

    pub fn name(&self) -> (r: &Name)
        ensures
            r.text() == self.name_text(),
    {
        &self.name
    }

    pub fn visibility(&self) -> (r: Visibility)
        ensures
            r == self.visibility_of(),
    {
        self.visibility
    }

    pub fn is_private(&self) -> (r: bool)
        ensures
            r == (self.visibility_of() == Visibility::Private),
    {
        self.visibility == Visibility::Private
    }

    pub fn value(&self) -> (r: &TypeDeclaration)
        ensures
            *r == self.value_of(),
    {
        &self.value
    }
}

// ── Values of declarations ──────────────────────────────────────────

pub struct FieldDeclModel {
    pub name: Seq<char>,
    pub reference: ReferenceModel,
}

pub struct VariantDeclModel {
    pub name: Seq<char>,
    pub payload: Option<ReferenceModel>,
}

pub enum TypeDeclModel {
    Struct(Seq<char>, Seq<FieldDeclModel>),
    Enum(Seq<char>, Seq<VariantDeclModel>),
    Newtype(Seq<char>, ReferenceModel),
}

pub struct DeclModel {
    pub visibility: Visibility,
    pub name: Seq<char>,
    pub value: TypeDeclModel,
}

pub struct ImportDeclModel {
    pub local_name: Seq<char>,
    pub source: ReferenceModel,
}

pub open spec fn field_decl_models(fs: Seq<FieldDeclaration>) -> Seq<FieldDeclModel> {
    Seq::new(fs.len(), |i: int| FieldDeclModel { name: fs[i].name.text(), reference: fs[i].reference.model() })
}

pub open spec fn variant_decl_models(vs: Seq<EnumVariant>) -> Seq<VariantDeclModel> {
    Seq::new(
        vs.len(),
        |i: int|
            VariantDeclModel {
                name: vs[i].name.text(),
                payload: match vs[i].payload {
                    Some(r) => Some(r.model()),
                    None => None,
                },
            },
    )
}

impl EnumDeclaration {
    pub open spec fn decl_model(&self) -> TypeDeclModel {
        TypeDeclModel::Enum(self.name.text(), variant_decl_models(self.variants@))
    }

    /// A copy with the same value.
    pub fn duplicate(&self) -> (r: Self)
        ensures
            r.decl_model() == self.decl_model(),
    {
        let mut variants: Vec<EnumVariant> = Vec::new();
        let mut i: usize = 0;
        while i < self.variants.len()
            invariant
                0 <= i <= self.variants@.len(),
                variant_decl_models(variants@) == variant_decl_models(self.variants@).take(i as int),
            decreases self.variants@.len() - i,
        {
            let v = &self.variants[i];
            let payload = match &v.payload {
                Some(r) => Some(r.duplicate()),
                None => None,
            };
            let copy = EnumVariant { name: v.name.duplicate(), payload };
            let ghost before = variants@;
            let ghost cm = variant_decl_models(seq![copy])[0];
            assert(cm == variant_decl_models(self.variants@)[i as int]);
            variants.push(copy);
            assert(variants@ == before.push(copy));
            assert(variant_decl_models(variants@) =~= variant_decl_models(before).push(cm));
            assert(variant_decl_models(variants@) =~= variant_decl_models(self.variants@).take(i as int + 1));
            i = i + 1;
        }
        assert(variant_decl_models(self.variants@).take(self.variants@.len() as int) =~= variant_decl_models(self.variants@));
        EnumDeclaration { name: self.name.duplicate(), variants }
    }
}

impl TypeDeclaration {
    pub open spec fn model(&self) -> TypeDeclModel {
        match self {
            TypeDeclaration::Struct(d) => TypeDeclModel::Struct(
                d.name.text(),
                field_decl_models(d.fields.entry_list()),
            ),
            TypeDeclaration::Enum(d) => d.decl_model(),
            TypeDeclaration::Newtype(d) => TypeDeclModel::Newtype(d.name.text(), d.reference.model()),
        }
    }

    /// A copy with the same value.
    pub fn duplicate(&self) -> (r: Self)
        ensures
            r.model() == self.model(),
    {
        match self {
            TypeDeclaration::Struct(d) => {
                let entries = d.fields.entries();
                let mut fields: Vec<FieldDeclaration> = Vec::new();
                let mut i: usize = 0;
                while i < entries.len()
                    invariant
                        entries@ == d.fields.entry_list(),
                        0 <= i <= entries@.len(),
                        field_decl_models(fields@) == field_decl_models(entries@).take(i as int),
                    decreases entries@.len() - i,
                {
                    let f = &entries[i];
                    let copy = FieldDeclaration { name: f.name.duplicate(), reference: f.reference.duplicate() };
                    let ghost before = fields@;
                    let ghost cm = field_decl_models(seq![copy])[0];
                    assert(cm == field_decl_models(entries@)[i as int]);
                    fields.push(copy);
                    assert(fields@ == before.push(copy));
                    assert(field_decl_models(fields@) =~= field_decl_models(before).push(cm));
                    assert(field_decl_models(fields@) =~= field_decl_models(entries@).take(i as int + 1));
                    i = i + 1;
                }
                assert(field_decl_models(entries@).take(entries@.len() as int) =~= field_decl_models(entries@));
                TypeDeclaration::Struct(StructDeclaration::new(d.name.duplicate(), fields))
            },
            TypeDeclaration::Enum(d) => TypeDeclaration::Enum(d.duplicate()),
            TypeDeclaration::Newtype(d) => TypeDeclaration::Newtype(
                NewtypeDeclaration { name: d.name.duplicate(), reference: d.reference.duplicate() },
            ),
        }
    }
}


impl Declaration {
    pub closed spec fn model(&self) -> DeclModel {
        DeclModel { visibility: self.visibility, name: self.name.text(), value: self.value.model() }
    }

    /// A copy with the same value.
    pub fn duplicate(&self) -> (r: Self)
        ensures
            r.model() == self.model(),
    {
        Declaration { visibility: self.visibility, name: self.name.duplicate(), value: self.value.duplicate() }
    }
}

/// A declaration's model carries its name.
pub proof fn lemma_declaration_model_name(d: Declaration)
    ensures
        d.model().name == d.name_text(),
        d.model().visibility == d.visibility_of(),
        d.model().value == d.value_of().model(),
{
}

impl ImportDeclaration {
    pub open spec fn model(&self) -> ImportDeclModel {
        ImportDeclModel { local_name: self.local_name.text(), source: self.source.model() }
    }

    pub fn duplicate(&self) -> (r: Self)
        ensures
            r.model() == self.model(),
    {
        ImportDeclaration { local_name: self.local_name.duplicate(), source: self.source.duplicate() }
    }
}

/// The first declaration of a run named `name`, if any.
pub open spec fn first_declaration_named(ds: Seq<Declaration>, name: Seq<char>) -> Option<int>
    decreases ds.len(),
{
    if ds.len() == 0 {
        None
    } else {
        match first_declaration_named(ds.drop_last(), name) {
            Some(i) => Some(i),
            None => if ds.last().name_text() == name {
                Some(ds.len() - 1)
            } else {
                None
            },
        }
    }
}

proof fn lemma_first_declaration(ds: Seq<Declaration>, name: Seq<char>, i: int)
    requires
        0 <= i <= ds.len(),
        forall|j: int| 0 <= j < i ==> (#[trigger] ds[j]).name_text() != name,
    ensures
        first_declaration_named(ds.take(i), name) is None,
    decreases i,
{
    if i > 0 {
        assert(ds.take(i).drop_last() =~= ds.take(i - 1));
        lemma_first_declaration(ds, name, i - 1);
    }
}

proof fn lemma_first_declaration_extend(ds: Seq<Declaration>, name: Seq<char>, n: int)
    requires
        0 <= n <= ds.len(),
        first_declaration_named(ds.take(n), name) is Some,
    ensures
        first_declaration_named(ds, name) == first_declaration_named(ds.take(n), name),
    decreases ds.len() - n,
{
    if n < ds.len() {
        assert(ds.take(n + 1).drop_last() =~= ds.take(n));
        lemma_first_declaration_extend(ds, name, n + 1);
    } else {
        assert(ds.take(n) =~= ds);
    }
}

/// The assembled schema value.
#[derive(Clone, Debug, Eq, PartialEq)]
pub struct Asschema {
    identity: SchemaIdentity,
    imports: Vec<ImportDeclaration>,
    input: EnumDeclaration,
    output: EnumDeclaration,
    namespace: Vec<Declaration>,
}

impl Asschema {
    pub closed spec fn identity_of(&self) -> SchemaIdentity {
        self.identity
    }

    pub closed spec fn import_list(&self) -> Seq<ImportDeclaration> {
        self.imports@
    }

    pub closed spec fn input_of(&self) -> EnumDeclaration {
        self.input
    }

    pub closed spec fn output_of(&self) -> EnumDeclaration {
        self.output
    }

    pub closed spec fn declarations(&self) -> Seq<Declaration> {
        self.namespace@
    }

    pub fn new(
        identity: SchemaIdentity,
        imports: Vec<ImportDeclaration>,
        input: EnumDeclaration,
        output: EnumDeclaration,
        namespace: Vec<Declaration>,
    ) -> (r: Self)
        ensures
            r.identity_of() == identity,
            r.import_list() == imports@,
            r.input_of() == input,
            r.output_of() == output,
            r.declarations() == namespace@,
    {
        Asschema { identity, imports, input, output, namespace }
    }

    pub fn identity(&self) -> (r: &SchemaIdentity)
        ensures
            *r == self.identity_of(),
    {
        &self.identity
    }

    pub fn imports(&self) -> (r: &[ImportDeclaration])
        ensures
            r@ == self.import_list(),
    {
        self.imports.as_slice()
    }

    pub fn input(&self) -> (r: &EnumDeclaration)
        ensures
            *r == self.input_of(),
    {
        &self.input
    }

    pub fn output(&self) -> (r: &EnumDeclaration)
        ensures
            *r == self.output_of(),
    {
        &self.output
    }

    pub fn input_and_output(&self) -> (r: [&EnumDeclaration; 2])
        ensures
            *r@[0] == self.input_of(),
            *r@[1] == self.output_of(),
    {
        [&self.input, &self.output]
    }

    /// The input or output root enum named `name`, input first.
    pub fn root_named(&self, name: &str) -> (r: Option<&EnumDeclaration>)
        ensures
            self.input_of().name.text() == name@ ==> r == Some(&self.input_of()),
            self.input_of().name.text() != name@ && self.output_of().name.text() == name@ ==> r
                == Some(&self.output_of()),
            self.input_of().name.text() != name@ && self.output_of().name.text() != name@ ==> r
                is None,
    {
        if str_equal(self.input.name.as_str(), name) {
            Some(&self.input)
        } else if str_equal(self.output.name.as_str(), name) {
            Some(&self.output)
        } else {
            None
        }
    }

    pub fn namespace(&self) -> (r: &[Declaration])
        ensures
            r@ == self.declarations(),
    {
        self.namespace.as_slice()
    }

    /// The value of the first namespace declaration named `name`.
    pub fn type_named(&self, name: &str) -> (r: Option<&TypeDeclaration>)
        ensures
            match first_declaration_named(self.declarations(), name@) {
                Some(i) => r == Some(&self.declarations()[i].value_of()),
                None => r is None,
            },
    {
        let ghost ds = self.namespace@;
        let mut i: usize = 0;
        while i < self.namespace.len()
            invariant
                ds == self.namespace@,
                0 <= i <= ds.len(),
                forall|j: int| 0 <= j < i ==> (#[trigger] ds[j]).name_text() != name@,
            decreases ds.len() - i,
        {
            if str_equal(self.namespace[i].name().as_str(), name) {
                proof {
                    lemma_first_declaration(ds, name@, i as int);
                    let t = ds.take(i as int + 1);
                    assert(t.drop_last() =~= ds.take(i as int));
                    assert(t.last() == ds[i as int]);
                    lemma_first_declaration_extend(ds, name@, i as int + 1);
                }
                return Some(self.namespace[i].value());
            }
            i = i + 1;
        }
        proof {
            lemma_first_declaration(ds, name@, i as int);
            assert(ds.take(i as int) =~= ds);
        }
        None
    }
}

/// An assembled schema as a stored artifact.
#[derive(Clone, Debug, Eq, PartialEq)]
pub struct AsschemaArtifact {
    asschema: Asschema,
}

impl AsschemaArtifact {
    pub closed spec fn content(&self) -> Asschema {
        self.asschema
    }

    pub fn new(asschema: Asschema) -> (r: Self)
        ensures
            r.content() == asschema,
    {
        AsschemaArtifact { asschema }
    }

    pub fn asschema(&self) -> (r: &Asschema)
        ensures
            *r == self.content(),
    {
        &self.asschema
    }

    pub fn into_asschema(self) -> (r: Asschema)
        ensures
            r == self.content(),
    {
        self.asschema
    }
}

} // verus!
