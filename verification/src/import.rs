//! Imports of a schema: each binding name maps to a directive that
//! imports some or all names of another schema. Bindings are unique and
//! kept in name order; resolved names are unique per binding.
use vstd::prelude::*;
use vstd::utf8::*;
use crate::error::Error;
use crate::name::{
    Name, all_distinct, first_duplicate, first_duplicate_name, lemma_first_duplicate_none,
    name_texts,
};
use crate::text::{
    bytes_compare, compare_str, lemma_bytes_compare_antisymmetric, lemma_bytes_compare_transitive,
    lemma_bytes_compare_zero, str_equal, string_of,
};

verus! {

broadcast use vstd::utf8::group_utf8_lib;

#[derive(Clone, Debug, PartialEq, Eq, Hash)]
pub struct SchemaPath(String);

impl SchemaPath {
    pub closed spec fn text(&self) -> Seq<char> {
        self.0@
    }

    pub fn new(value: &str) -> (r: Self)
        ensures
            r.text() == value@,
    {
        SchemaPath(string_of(value))
    }

    pub fn as_str(&self) -> (r: &str)
        ensures
            r@ == self.text(),
    {
        self.0.as_str()
    }

    pub fn duplicate(&self) -> (r: Self)
        ensures
            r.text() == self.text(),
    {
        SchemaPath(self.0.clone())
    }
}

#[derive(Clone, Debug, PartialEq, Eq)]
pub enum ImportDirective {
    Import { path: SchemaPath, names: Vec<Name> },
    ImportAll { path: SchemaPath },
}

pub enum DirectiveModel {
    Import(Seq<char>, Seq<Seq<char>>),
    ImportAll(Seq<char>),
}

fn duplicate_names(names: &Vec<Name>) -> (r: Vec<Name>)
    ensures
        name_texts(r@) == name_texts(names@),
{
    let mut out: Vec<Name> = Vec::new();
    let mut i: usize = 0;
    while i < names.len()
        invariant
            0 <= i <= names@.len(),
            name_texts(out@) == name_texts(names@).take(i as int),
        decreases names@.len() - i,
    {
        let copy = names[i].duplicate();
        let ghost before = out@;
        let ghost t = copy.text();
        assert(t == name_texts(names@)[i as int]);
        out.push(copy);
        assert(out@ == before.push(copy));
        assert(name_texts(out@) =~= name_texts(before).push(t));
        assert(name_texts(out@) =~= name_texts(names@).take(i as int + 1));
        i = i + 1;
    }
    assert(name_texts(names@).take(names@.len() as int) =~= name_texts(names@));
    out
}

impl ImportDirective {
    pub open spec fn model(&self) -> DirectiveModel {
        match self {
            ImportDirective::Import { path, names } => DirectiveModel::Import(
                path.text(),
                name_texts(names@),
            ),
            ImportDirective::ImportAll { path } => DirectiveModel::ImportAll(path.text()),
        }
    }

    pub fn import(path: SchemaPath, names: Vec<Name>) -> (r: Self)
        ensures
            r.model() == DirectiveModel::Import(path.text(), name_texts(names@)),
    {
        ImportDirective::Import { path, names }
    }

    pub fn import_all(path: SchemaPath) -> (r: Self)
        ensures
            r.model() == DirectiveModel::ImportAll(path.text()),
    {
        ImportDirective::ImportAll { path }
    }

    pub fn path(&self) -> (r: &SchemaPath)
        ensures
            r.text() == match self.model() {
                DirectiveModel::Import(p, _) => p,
                DirectiveModel::ImportAll(p) => p,
            },
    {
        match self {
            ImportDirective::Import { path, .. } => path,
            ImportDirective::ImportAll { path } => path,
        }
    }

    pub fn duplicate(&self) -> (r: Self)
        ensures
            r.model() == self.model(),
    {
        match self {
            ImportDirective::Import { path, names } => ImportDirective::Import {
                path: path.duplicate(),
                names: duplicate_names(names),
            },
            ImportDirective::ImportAll { path } => ImportDirective::ImportAll {
                path: path.duplicate(),
            },
        }
    }
}

/// One binding with its directive, as values.
pub struct BindingModel {
    pub binding: Seq<char>,
    pub directive: DirectiveModel,
}

pub open spec fn binding_models(es: Seq<(Name, ImportDirective)>) -> Seq<BindingModel> {
    Seq::new(es.len(), |i: int| BindingModel { binding: es[i].0.text(), directive: es[i].1.model() })
}

pub open spec fn binding_texts(es: Seq<(Name, ImportDirective)>) -> Seq<Seq<char>> {
    Seq::new(es.len(), |i: int| es[i].0.text())
}

/// Keys strictly increasing in byte order.
pub open spec fn keys_sorted(keys: Seq<Seq<char>>) -> bool {
    forall|i: int, j: int|
        0 <= i < j < keys.len() ==> bytes_compare(
            encode_utf8(#[trigger] keys[i]),
            encode_utf8(#[trigger] keys[j]),
        ) < 0
}

/// Whether `x` occurs in `s`.
pub open spec fn occurs_in(x: BindingModel, s: Seq<BindingModel>) -> bool {
    exists|j: int| 0 <= j < s.len() && s[j] == x
}

/// Two runs hold the same bindings, whatever their order.
pub open spec fn same_bindings(a: Seq<BindingModel>, b: Seq<BindingModel>) -> bool {
    &&& a.len() == b.len()
    &&& forall|i: int| 0 <= i < a.len() ==> occurs_in(#[trigger] a[i], b)
    &&& forall|j: int| 0 <= j < b.len() ==> occurs_in(#[trigger] b[j], a)
}

proof fn lemma_same_bindings_push(a: Seq<BindingModel>, b: Seq<BindingModel>, x: BindingModel)
    requires
        same_bindings(a, b),
    ensures
        same_bindings(a.push(x), b.push(x)),
{
    let a2 = a.push(x);
    let b2 = b.push(x);
    assert forall|i: int| 0 <= i < a2.len() implies occurs_in(#[trigger] a2[i], b2) by {
        if i == a.len() {
            assert(b2[b.len() as int] == a2[i]);
        } else {
            assert(a2[i] == a[i]);
            assert(occurs_in(a[i], b));
            let j = choose|j: int| 0 <= j < b.len() && b[j] == a[i];
            assert(b2[j] == a2[i]);
        }
    }
    assert forall|j: int| 0 <= j < b2.len() implies occurs_in(#[trigger] b2[j], a2) by {
        if j == b.len() {
            assert(a2[a.len() as int] == b2[j]);
        } else {
            assert(b2[j] == b[j]);
            assert(occurs_in(b[j], a));
            let i = choose|i: int| 0 <= i < a.len() && a[i] == b[j];
            assert(a2[i] == b2[j]);
        }
    }
}

proof fn lemma_same_bindings_transitive(
    a: Seq<BindingModel>,
    b: Seq<BindingModel>,
    c: Seq<BindingModel>,
)
    requires
        same_bindings(a, b),
        same_bindings(b, c),
    ensures
        same_bindings(a, c),
{
    assert forall|i: int| 0 <= i < a.len() implies occurs_in(#[trigger] a[i], c) by {
        assert(occurs_in(a[i], b));
        let j = choose|j: int| 0 <= j < b.len() && b[j] == a[i];
        assert(occurs_in(b[j], c));
        let k = choose|k: int| 0 <= k < c.len() && c[k] == b[j];
        assert(c[k] == a[i]);
    }
    assert forall|k: int| 0 <= k < c.len() implies occurs_in(#[trigger] c[k], a) by {
        assert(occurs_in(c[k], b));
        let j = choose|j: int| 0 <= j < b.len() && b[j] == c[k];
        assert(occurs_in(b[j], a));
        let i = choose|i: int| 0 <= i < a.len() && a[i] == b[j];
        assert(a[i] == c[k]);
    }
}

#[derive(Clone, Debug, PartialEq, Eq)]
pub struct Imports {
    entries: Vec<(Name, ImportDirective)>,
}

impl Imports {
    pub closed spec fn bindings(&self) -> Seq<BindingModel> {
        binding_models(self.entries@)
    }

    pub closed spec fn keys(&self) -> Seq<Seq<char>> {
        binding_texts(self.entries@)
    }

    pub open spec fn wf(&self) -> bool {
        &&& keys_sorted(self.keys())
        &&& self.keys().len() == self.bindings().len()
        &&& forall|i: int| 0 <= i < self.keys().len() ==> self.bindings()[i].binding == #[trigger] self.keys()[i]
    }

    /// No imports.
    pub fn empty() -> (r: Self)
        ensures
            r.wf(),
            r.bindings().len() == 0,
    {
        let r = Imports { entries: Vec::new() };
        assert(r.keys() =~= Seq::<Seq<char>>::empty());
        r
    }

    /// The imports of the given bindings; refused when a binding name
    /// repeats (the first repeat is named). The bindings come out in name
    /// order.
    pub fn new(entries: Vec<(Name, ImportDirective)>) -> (r: Result<Self, Error>)
        ensures
            match first_duplicate(binding_texts(entries@)) {
                Some(j) => r matches Err(Error::DuplicateImportBinding { binding })
                    && binding.text() == entries@[j].0.text(),
                None => r matches Ok(imports) && imports.wf() && same_bindings(
                    imports.bindings(),
                    binding_models(entries@),
                ),
            },
    {
        let mut names: Vec<Name> = Vec::new();
        let mut i: usize = 0;
        while i < entries.len()
            invariant
                0 <= i <= entries@.len(),
                name_texts(names@) == binding_texts(entries@).take(i as int),
            decreases entries@.len() - i,
        {
            let copy = entries[i].0.duplicate();
            let ghost before = names@;
            let ghost t = copy.text();
            assert(t == binding_texts(entries@)[i as int]);
            names.push(copy);
            assert(names@ == before.push(copy));
            assert(name_texts(names@) =~= name_texts(before).push(t));
            assert(name_texts(names@) =~= binding_texts(entries@).take(i as int + 1));
            i = i + 1;
        }
        assert(binding_texts(entries@).take(entries@.len() as int) =~= binding_texts(entries@));
        if let Some(j) = first_duplicate_name(names.as_slice()) {
            assert(binding_texts(entries@)[j as int] == entries@[j as int].0.text());
            return Err(Error::DuplicateImportBinding { binding: entries[j].0.duplicate() });
        }
        proof {
            lemma_first_duplicate_none(binding_texts(entries@));
        }
        let ghost input = binding_models(entries@);
        let mut imports = Imports::empty();
        let mut k: usize = 0;
        while k < entries.len()
            invariant
                0 <= k <= entries@.len(),
                input == binding_models(entries@),
                all_distinct(binding_texts(entries@)),
                imports.wf(),
                same_bindings(imports.bindings(), input.take(k as int)),
            decreases entries@.len() - k,
        {
            let binding = entries[k].0.duplicate();
            let directive = entries[k].1.duplicate();
            proof {
                assert(input[k as int].binding == binding.text());
                assert(input[k as int].directive == directive.model());
                assert forall|t: int| 0 <= t < imports.keys().len() implies imports.keys()[t]
                    != binding.text() by {
                    let b = imports.bindings()[t];
                    let i = choose|i: int| 0 <= i < k && input.take(k as int)[i] == b;
                    assert(binding_texts(entries@)[i] != binding_texts(entries@)[k as int]);
                }
            }
            let ghost old_bindings = imports.bindings();
            imports.insert_new(binding, directive);
            proof {
                let prev = input.take(k as int);
                let next = input.take(k as int + 1);
                assert(next =~= prev.push(input[k as int]));
                lemma_same_bindings_push(old_bindings, prev, input[k as int]);
                lemma_same_bindings_transitive(imports.bindings(), old_bindings.push(input[k as int]), next);
            }
            k = k + 1;
        }
        assert(input.take(entries@.len() as int) =~= input);
        Ok(imports)
    }

    /// Insert a binding not yet present, keeping name order.
    fn insert_new(&mut self, binding: Name, directive: ImportDirective)
        requires
            old(self).wf(),
            forall|t: int| 0 <= t < old(self).keys().len() ==> old(self).keys()[t] != binding.text(),
        ensures
            final(self).wf(),
            same_bindings(
                final(self).bindings(),
                old(self).bindings().push(
                    BindingModel { binding: binding.text(), directive: directive.model() },
                ),
            ),
    {
        let ghost keys = self.keys();
        let ghost bs = self.bindings();
        let ghost item = BindingModel { binding: binding.text(), directive: directive.model() };
        let ghost key = binding.text();
        let at = self.insertion_point(&binding);
        let ghost old_entries = self.entries@;
        let ghost t_binding = binding.text();
        let ghost t_directive = directive.model();
        let entry = (binding, directive);
        assert(entry.0.text() == t_binding && entry.1.model() == t_directive);
        self.entries.insert(at, entry);
        proof {
            let new_entries = self.entries@;
            assert(new_entries == old_entries.insert(at as int, entry));
            let k2 = self.keys();
            let b2 = self.bindings();
            assert(k2 =~= keys.insert(at as int, key));
            assert(b2 =~= bs.insert(at as int, item));
            assert forall|i: int, j: int| 0 <= i < j < k2.len() implies bytes_compare(
                encode_utf8(#[trigger] k2[i]),
                encode_utf8(#[trigger] k2[j]),
            ) < 0 by {
                if j < at {
                    assert(k2[i] == keys[i] && k2[j] == keys[j]);
                } else if j == at {
                    assert(k2[i] == keys[i]);
                } else if i < at {
                    assert(k2[i] == keys[i] && k2[j] == keys[j - 1]);
                    lemma_bytes_compare_transitive(
                        encode_utf8(keys[i]),
                        encode_utf8(key),
                        encode_utf8(keys[j - 1]),
                    );
                } else if i == at {
                    assert(k2[j] == keys[j - 1]);
                } else {
                    assert(k2[i] == keys[i - 1] && k2[j] == keys[j - 1]);
                }
            }
            let target = bs.push(item);
            assert forall|i: int| 0 <= i < b2.len() implies occurs_in(#[trigger] b2[i], target) by {
                if i < at {
                    assert(target[i] == b2[i]);
                } else if i == at {
                    assert(target[bs.len() as int] == b2[i]);
                } else {
                    assert(target[i - 1] == b2[i]);
                }
            }
            assert forall|j: int| 0 <= j < target.len() implies occurs_in(#[trigger] target[j], b2) by {
                if j == bs.len() {
                    assert(b2[at as int] == target[j]);
                } else if j < at {
                    assert(b2[j] == target[j]);
                } else {
                    assert(b2[j + 1] == target[j]);
                }
            }
        }
    }

    /// Where a binding not yet present goes to keep name order.
    fn insertion_point(&self, binding: &Name) -> (r: usize)
        requires
            self.wf(),
            forall|t: int| 0 <= t < self.keys().len() ==> self.keys()[t] != binding.text(),
        ensures
            r <= self.keys().len(),
            forall|t: int|
                0 <= t < r ==> bytes_compare(
                    encode_utf8(#[trigger] self.keys()[t]),
                    encode_utf8(binding.text()),
                ) < 0,
            forall|t: int|
                r <= t < self.keys().len() ==> bytes_compare(
                    encode_utf8(binding.text()),
                    encode_utf8(#[trigger] self.keys()[t]),
                ) < 0,
    {
        let ghost keys = self.keys();
        let ghost key = binding.text();
        let mut at: usize = 0;
        while at < self.entries.len()
            invariant
                self.wf(),
                keys == self.keys(),
                key == binding.text(),
                forall|t: int| 0 <= t < keys.len() ==> keys[t] != key,
                0 <= at <= self.entries@.len(),
                forall|t: int|
                    0 <= t < at ==> bytes_compare(encode_utf8(#[trigger] keys[t]), encode_utf8(key))
                        < 0,
            decreases self.entries@.len() - at,
        {
            let c = compare_str(binding.as_str(), self.entries[at].0.as_str());
            proof {
                assert(keys[at as int] == self.entries@[at as int].0.text());
                lemma_bytes_compare_antisymmetric(encode_utf8(key), encode_utf8(keys[at as int]));
                lemma_bytes_compare_zero(encode_utf8(key), encode_utf8(keys[at as int]));
                encode_utf8_decode_utf8(key);
                encode_utf8_decode_utf8(keys[at as int]);
            }
            if c < 0 {
                proof {
                    assert forall|t: int| at <= t < keys.len() implies bytes_compare(
                        encode_utf8(key),
                        encode_utf8(#[trigger] keys[t]),
                    ) < 0 by {
                        if t > at {
                            lemma_bytes_compare_transitive(
                                encode_utf8(key),
                                encode_utf8(keys[at as int]),
                                encode_utf8(keys[t]),
                            );
                        }
                    }
                }
                return at;
            }
            at = at + 1;
        }
        at
    }

    /// The bindings in name order.
    pub fn entries(&self) -> (r: &[(Name, ImportDirective)])
        ensures
            binding_models(r@) == self.bindings(),
    {
        self.entries.as_slice()
    }

    /// The directive bound to `binding`, if any.
    pub fn directive(&self, binding: &Name) -> (r: Option<&ImportDirective>)
        requires
            self.wf(),
        ensures
            match r {
                Some(d) => exists|i: int|
                    0 <= i < self.bindings().len() && self.bindings()[i].binding == binding.text()
                        && self.bindings()[i].directive == d.model(),
                None => forall|i: int|
                    0 <= i < self.bindings().len() ==> #[trigger] self.bindings()[i].binding
                        != binding.text(),
            },
    {
        let mut i: usize = 0;
        while i < self.entries.len()
            invariant
                0 <= i <= self.entries@.len(),
                forall|t: int|
                    0 <= t < i ==> #[trigger] self.bindings()[t].binding != binding.text(),
            decreases self.entries@.len() - i,
        {
            if str_equal(self.entries[i].0.as_str(), binding.as_str()) {
                assert(self.bindings()[i as int].binding == binding.text());
                return Some(&self.entries[i].1);
            }
            i = i + 1;
        }
        None
    }

    pub fn is_empty(&self) -> (r: bool)
        ensures
            r == (self.bindings().len() == 0),
    {
        self.entries.len() == 0
    }
}

impl Default for Imports {
    fn default() -> (r: Self)
        ensures
            r.wf(),
            r.bindings().len() == 0,
    {
        Imports::empty()
    }
}

/// The names an import resolved to, unique per binding.
#[derive(Clone, Debug, PartialEq, Eq)]
pub struct ImportResolution {
    binding: Name,
    names: Vec<Name>,
}

impl ImportResolution {
    pub closed spec fn binding_text(&self) -> Seq<char> {
        self.binding.text()
    }

    pub closed spec fn name_list(&self) -> Seq<Seq<char>> {
        name_texts(self.names@)
    }

    /// A resolution; refused when a name repeats (the first repeat is named).
    pub fn new(binding: Name, names: Vec<Name>) -> (r: Result<Self, Error>)
        ensures
            match first_duplicate(name_texts(names@)) {
                Some(j) => r matches Err(Error::DuplicateResolvedImportName { binding: b, name })
                    && b.text() == binding.text() && name.text() == names@[j].text(),
                None => r matches Ok(res) && res.binding_text() == binding.text() && res.name_list()
                    == name_texts(names@) && all_distinct(res.name_list()),
            },
    {
        match first_duplicate_name(names.as_slice()) {
            Some(j) => {
                let name = names[j].duplicate();
                Err(Error::DuplicateResolvedImportName { binding, name })
            },
            None => {
                proof {
                    lemma_first_duplicate_none(name_texts(names@));
                }
                Ok(ImportResolution { binding, names })
            },
        }
    }

    pub fn binding(&self) -> (r: &Name)
        ensures
            r.text() == self.binding_text(),
    {
        &self.binding
    }

    pub fn names(&self) -> (r: &[Name])
        ensures
            name_texts(r@) == self.name_list(),
    {
        self.names.as_slice()
    }
}

#[derive(Clone, Debug, PartialEq, Eq)]
pub enum ImportedNames {
    All(Vec<Name>),
    Selected(Vec<Name>),
}

impl ImportedNames {
    pub open spec fn name_list(&self) -> Seq<Seq<char>> {
        match self {
            ImportedNames::All(names) => name_texts(names@),
            ImportedNames::Selected(names) => name_texts(names@),
        }
    }

    pub fn names(&self) -> (r: &[Name])
        ensures
            name_texts(r@) == self.name_list(),
    {
        match self {
            ImportedNames::All(names) => names.as_slice(),
            ImportedNames::Selected(names) => names.as_slice(),
        }
    }
}

/// A binding resolved to a schema path and the names it brings in.
#[derive(Clone, Debug, PartialEq, Eq)]
pub struct ImportBinding {
    binding: Name,
    path: SchemaPath,
    names: ImportedNames,
}

impl ImportBinding {
    pub closed spec fn binding_text(&self) -> Seq<char> {
        self.binding.text()
    }

    pub closed spec fn path_text(&self) -> Seq<char> {
        self.path.text()
    }

    pub closed spec fn imported(&self) -> ImportedNames {
        self.names
    }

    pub fn new(binding: Name, path: SchemaPath, names: ImportedNames) -> (r: Self)
        ensures
            r.binding_text() == binding.text(),
            r.path_text() == path.text(),
            r.imported() == names,
    {
        ImportBinding { binding, path, names }
    }

    pub fn binding(&self) -> (r: &Name)
        ensures
            r.text() == self.binding_text(),
    {
        &self.binding
    }

    pub fn path(&self) -> (r: &SchemaPath)
        ensures
            r.text() == self.path_text(),
    {
        &self.path
    }

    pub fn names(&self) -> (r: &ImportedNames)
        ensures
            *r == self.imported(),
    {
        &self.names
    }
}

/// The texts of a run of string slices.
pub open spec fn str_views(v: Seq<&str>) -> Seq<Seq<char>> {
    Seq::new(v.len(), |i: int| v[i]@)
}

/// Where `key` goes in strictly sorted keys, and whether it is there.
pub fn locate_key(keys: &Vec<&str>, key: &str) -> (r: (usize, bool))
    requires
        keys_sorted(str_views(keys@)),
    ensures
        ({
            let names = str_views(keys@);
            let (at, found) = r;
            &&& at <= names.len()
            &&& forall|t: int|
                0 <= t < at ==> bytes_compare(encode_utf8(#[trigger] names[t]), encode_utf8(key@))
                    < 0
            &&& found == (at < names.len() && names[at as int] == key@)
            &&& forall|t: int|
                at <= t < names.len() && names[t] != key@ ==> bytes_compare(
                    encode_utf8(key@),
                    encode_utf8(#[trigger] names[t]),
                ) < 0
            &&& found == names.contains(key@)
        }),
{
    let ghost names = str_views(keys@);
    let ghost k = key@;
    let mut at: usize = 0;
    while at < keys.len()
        invariant
            names == str_views(keys@),
            keys_sorted(names),
            k == key@,
            0 <= at <= keys@.len(),
            forall|t: int|
                0 <= t < at ==> bytes_compare(encode_utf8(#[trigger] names[t]), encode_utf8(k)) < 0,
        decreases keys@.len() - at,
    {
        let c = compare_str(key, keys[at]);
        proof {
            assert(names[at as int] == keys@[at as int]@);
            lemma_bytes_compare_antisymmetric(encode_utf8(k), encode_utf8(names[at as int]));
            lemma_bytes_compare_zero(encode_utf8(k), encode_utf8(names[at as int]));
            encode_utf8_decode_utf8(k);
            encode_utf8_decode_utf8(names[at as int]);
        }
        if c <= 0 {
            proof {
                assert forall|t: int| at <= t < names.len() && names[t] != k implies bytes_compare(
                    encode_utf8(k),
                    encode_utf8(#[trigger] names[t]),
                ) < 0 by {
                    if t > at {
                        assert(bytes_compare(encode_utf8(names[at as int]), encode_utf8(names[t])) < 0);
                        if c < 0 {
                            lemma_bytes_compare_transitive(
                                encode_utf8(k),
                                encode_utf8(names[at as int]),
                                encode_utf8(names[t]),
                            );
                        } else {
                            assert(names[at as int] == k);
                        }
                    }
                }
                if c < 0 {
                    assert(!names.contains(k)) by {
                        if names.contains(k) {
                            let t = choose|t: int| 0 <= t < names.len() && names[t] == k;
                            if t < at {
                                lemma_bytes_compare_zero(encode_utf8(names[t]), encode_utf8(k));
                            } else if t > at {
                                assert(bytes_compare(encode_utf8(names[at as int]), encode_utf8(names[t])) < 0);
                                lemma_bytes_compare_transitive(
                                    encode_utf8(k),
                                    encode_utf8(names[at as int]),
                                    encode_utf8(names[t]),
                                );
                                lemma_bytes_compare_zero(encode_utf8(k), encode_utf8(names[t]));
                            }
                        }
                    }
                }
            }
            return (at, c == 0);
        }
        at = at + 1;
    }
    proof {
        assert(!names.contains(k)) by {
            if names.contains(k) {
                let t = choose|t: int| 0 <= t < names.len() && names[t] == k;
                lemma_bytes_compare_zero(encode_utf8(names[t]), encode_utf8(k));
            }
        }
    }
    (at, false)
}

} // verus!
