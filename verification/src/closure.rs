//! The declaration closure of one named family: the family's root plus
//! every declaration reachable from it through type references (struct
//! fields, variant payloads, newtype targets, and the elements of
//! vectors, maps and optionals), and the imports that reachable names
//! resolve to. Both come out sorted by name, so the closure does not
//! depend on the order of the walk.
use vstd::prelude::*;
use vstd::utf8::*;
use crate::asschema::{
    Asschema, Declaration, DeclModel, FieldDeclModel, ImportDeclModel, ImportDeclaration, Name,
    ReferenceModel, TypeDeclModel, TypeDeclaration, TypeReference, VariantDeclModel, Visibility,
    lemma_declaration_model_name,
};
use crate::engine::SchemaError;
use crate::import::{keys_sorted, locate_key, str_views};
use crate::text::{bytes_compare, lemma_bytes_compare_transitive, lemma_bytes_compare_zero, string_of};

verus! {

broadcast use vstd::utf8::group_utf8_lib;

// ── Stores keyed by name ────────────────────────────────────────────

pub open spec fn decl_names(v: Seq<Declaration>) -> Seq<Seq<char>> {
    Seq::new(v.len(), |i: int| v[i].model().name)
}

/// The last declaration of a run named `k`.
pub open spec fn decl_last(v: Seq<Declaration>, k: Seq<char>) -> Option<DeclModel>
    decreases v.len(),
{
    if v.len() == 0 {
        None
    } else if v.last().model().name == k {
        Some(v.last().model())
    } else {
        decl_last(v.drop_last(), k)
    }
}

/// A run of declarations as a map from name to declaration.
pub open spec fn decl_map(v: Seq<Declaration>) -> Map<Seq<char>, DeclModel> {
    Map::new(|k: Seq<char>| decl_names(v).contains(k), |k: Seq<char>| decl_last(v, k)->Some_0)
}

proof fn lemma_decl_last_found(v: Seq<Declaration>, k: Seq<char>, i: int)
    requires
        keys_sorted(decl_names(v)),
        0 <= i < v.len(),
        v[i].model().name == k,
    ensures
        decl_last(v, k) == Some(v[i].model()),
    decreases v.len(),
{
    if i < v.len() - 1 {
        let names = decl_names(v);
        assert(names[i] == k && names[v.len() - 1] == v.last().model().name);
        assert(bytes_compare(encode_utf8(names[i]), encode_utf8(names[v.len() - 1])) < 0);
        lemma_bytes_compare_zero(encode_utf8(names[i]), encode_utf8(names[v.len() - 1]));
        assert(decl_names(v.drop_last()) =~= names.drop_last());
        lemma_decl_last_found(v.drop_last(), k, i);
    }
}

pub open spec fn import_names(v: Seq<ImportDeclaration>) -> Seq<Seq<char>> {
    Seq::new(v.len(), |i: int| v[i].model().local_name)
}

/// The last import of a run bound to `k`.
pub open spec fn import_last(v: Seq<ImportDeclaration>, k: Seq<char>) -> Option<ImportDeclModel>
    decreases v.len(),
{
    if v.len() == 0 {
        None
    } else if v.last().model().local_name == k {
        Some(v.last().model())
    } else {
        import_last(v.drop_last(), k)
    }
}

/// A run of imports as a map from local name to import.
pub open spec fn import_map(v: Seq<ImportDeclaration>) -> Map<Seq<char>, ImportDeclModel> {
    Map::new(|k: Seq<char>| import_names(v).contains(k), |k: Seq<char>| import_last(v, k)->Some_0)
}

proof fn lemma_import_last_found(v: Seq<ImportDeclaration>, k: Seq<char>, i: int)
    requires
        keys_sorted(import_names(v)),
        0 <= i < v.len(),
        v[i].model().local_name == k,
    ensures
        import_last(v, k) == Some(v[i].model()),
    decreases v.len(),
{
    if i < v.len() - 1 {
        let names = import_names(v);
        assert(names[i] == k && names[v.len() - 1] == v.last().model().local_name);
        assert(bytes_compare(encode_utf8(names[i]), encode_utf8(names[v.len() - 1])) < 0);
        lemma_bytes_compare_zero(encode_utf8(names[i]), encode_utf8(names[v.len() - 1]));
        assert(import_names(v.drop_last()) =~= names.drop_last());
        lemma_import_last_found(v.drop_last(), k, i);
    }
}

/// Sortedness after putting a new key at its place.
proof fn lemma_sorted_insert(names: Seq<Seq<char>>, at: int, key: Seq<char>)
    requires
        keys_sorted(names),
        0 <= at <= names.len(),
        forall|t: int| 0 <= t < at ==> bytes_compare(encode_utf8(#[trigger] names[t]), encode_utf8(key)) < 0,
        forall|t: int| at <= t < names.len() ==> bytes_compare(encode_utf8(key), encode_utf8(#[trigger] names[t])) < 0,
    ensures
        keys_sorted(names.insert(at, key)),
{
    let n2 = names.insert(at, key);
    assert forall|i: int, j: int| 0 <= i < j < n2.len() implies bytes_compare(
        encode_utf8(#[trigger] n2[i]),
        encode_utf8(#[trigger] n2[j]),
    ) < 0 by {
        if j < at {
            assert(n2[i] == names[i] && n2[j] == names[j]);
        } else if j == at {
            assert(n2[i] == names[i]);
        } else if i < at {
            assert(n2[i] == names[i] && n2[j] == names[j - 1]);
            lemma_bytes_compare_transitive(encode_utf8(names[i]), encode_utf8(key), encode_utf8(names[j - 1]));
        } else if i == at {
            assert(n2[j] == names[j - 1]);
        } else {
            assert(n2[i] == names[i - 1] && n2[j] == names[j - 1]);
        }
    }
}

fn declaration_keys(store: &Vec<Declaration>) -> (r: Vec<&str>)
    ensures
        str_views(r@) == decl_names(store@),
{
    let mut out: Vec<&str> = Vec::new();
    let mut i: usize = 0;
    while i < store.len()
        invariant
            0 <= i <= store@.len(),
            str_views(out@) == decl_names(store@).take(i as int),
        decreases store@.len() - i,
    {
        proof {
            lemma_declaration_model_name(store@[i as int]);
        }
        let key = store[i].name().as_str();
        let ghost before = out@;
        assert(key@ == decl_names(store@)[i as int]);
        out.push(key);
        assert(out@ == before.push(key));
        assert(str_views(out@) =~= str_views(before).push(key@));
        assert(str_views(out@) =~= decl_names(store@).take(i as int + 1));
        i = i + 1;
    }
    assert(decl_names(store@).take(store@.len() as int) =~= decl_names(store@));
    out
}

fn import_keys(store: &Vec<ImportDeclaration>) -> (r: Vec<&str>)
    ensures
        str_views(r@) == import_names(store@),
{
    let mut out: Vec<&str> = Vec::new();
    let mut i: usize = 0;
    while i < store.len()
        invariant
            0 <= i <= store@.len(),
            str_views(out@) == import_names(store@).take(i as int),
        decreases store@.len() - i,
    {
        let key = store[i].local_name.as_str();
        let ghost before = out@;
        assert(key@ == import_names(store@)[i as int]);
        out.push(key);
        assert(out@ == before.push(key));
        assert(str_views(out@) =~= str_views(before).push(key@));
        assert(str_views(out@) =~= import_names(store@).take(i as int + 1));
        i = i + 1;
    }
    assert(import_names(store@).take(store@.len() as int) =~= import_names(store@));
    out
}

/// Whether a declaration named `name` is stored.
fn has_declaration(store: &Vec<Declaration>, name: &str) -> (r: bool)
    requires
        keys_sorted(decl_names(store@)),
    ensures
        r == decl_map(store@).contains_key(name@),
{
    let keys = declaration_keys(store);
    let (_, found) = locate_key(&keys, name);
    found
}

/// Whether an import bound to `name` is stored.
fn has_import(store: &Vec<ImportDeclaration>, name: &str) -> (r: bool)
    requires
        keys_sorted(import_names(store@)),
    ensures
        r == import_map(store@).contains_key(name@),
{
    let keys = import_keys(store);
    let (_, found) = locate_key(&keys, name);
    found
}

/// Store a declaration under a name not stored yet.
fn insert_declaration(store: &mut Vec<Declaration>, d: Declaration)
    requires
        keys_sorted(decl_names(old(store)@)),
        !decl_map(old(store)@).contains_key(d.model().name),
    ensures
        keys_sorted(decl_names(final(store)@)),
        decl_map(final(store)@) == decl_map(old(store)@).insert(d.model().name, d.model()),
{
    let ghost v = store@;
    let ghost names = decl_names(v);
    let ghost m = d.model();
    let ghost key = m.name;
    proof {
        lemma_declaration_model_name(d);
    }
    let keys = declaration_keys(store);
    let (at, _) = locate_key(&keys, d.name().as_str());
    store.insert(at, d);
    proof {
        let v2 = store@;
        let names2 = decl_names(v2);
        assert(v2 == v.insert(at as int, d));
        assert(names2 =~= names.insert(at as int, key));
        assert forall|t: int| at <= t < names.len() implies bytes_compare(encode_utf8(key), encode_utf8(#[trigger] names[t])) < 0 by {
            assert(names[t] != key);
        }
        lemma_sorted_insert(names, at as int, key);
        assert(v2[at as int] == d);
        assert forall|k: Seq<char>| #[trigger] decl_map(v2).contains_key(k) == decl_map(v).insert(key, m).contains_key(k) by {
            if names2.contains(k) {
                let i = choose|i: int| 0 <= i < names2.len() && names2[i] == k;
                if i < at {
                    assert(names[i] == k);
                } else if i > at {
                    assert(names[i - 1] == k);
                }
            }
            if names.contains(k) {
                let i = choose|i: int| 0 <= i < names.len() && names[i] == k;
                if i < at {
                    assert(names2[i] == k);
                } else {
                    assert(names2[i + 1] == k);
                }
            }
            if k == key {
                assert(names2[at as int] == k);
            }
        }
        assert forall|k: Seq<char>| #[trigger] decl_map(v2).contains_key(k) implies decl_map(v2)[k] == decl_map(v).insert(key, m)[k] by {
            if k == key {
                lemma_decl_last_found(v2, k, at as int);
            } else {
                let i = choose|i: int| 0 <= i < names2.len() && names2[i] == k;
                if i < at {
                    assert(v2[i] == v[i]);
                    lemma_decl_last_found(v2, k, i);
                    lemma_decl_last_found(v, k, i);
                } else {
                    assert(i != at);
                    assert(v2[i] == v[i - 1]);
                    lemma_decl_last_found(v2, k, i);
                    lemma_decl_last_found(v, k, i - 1);
                }
            }
        }
        assert(decl_map(v2) =~= decl_map(v).insert(key, m));
    }
}

/// Store an import under a local name not stored yet.
fn insert_import(store: &mut Vec<ImportDeclaration>, d: ImportDeclaration)
    requires
        keys_sorted(import_names(old(store)@)),
        !import_map(old(store)@).contains_key(d.model().local_name),
    ensures
        keys_sorted(import_names(final(store)@)),
        import_map(final(store)@) == import_map(old(store)@).insert(d.model().local_name, d.model()),
{
    let ghost v = store@;
    let ghost names = import_names(v);
    let ghost m = d.model();
    let ghost key = m.local_name;
    let keys = import_keys(store);
    let (at, _) = locate_key(&keys, d.local_name.as_str());
    store.insert(at, d);
    proof {
        let v2 = store@;
        let names2 = import_names(v2);
        assert(v2 == v.insert(at as int, d));
        assert(names2 =~= names.insert(at as int, key));
        assert forall|t: int| at <= t < names.len() implies bytes_compare(encode_utf8(key), encode_utf8(#[trigger] names[t])) < 0 by {
            assert(names[t] != key);
        }
        lemma_sorted_insert(names, at as int, key);
        assert(v2[at as int] == d);
        assert forall|k: Seq<char>| #[trigger] import_map(v2).contains_key(k) == import_map(v).insert(key, m).contains_key(k) by {
            if names2.contains(k) {
                let i = choose|i: int| 0 <= i < names2.len() && names2[i] == k;
                if i < at {
                    assert(names[i] == k);
                } else if i > at {
                    assert(names[i - 1] == k);
                }
            }
            if names.contains(k) {
                let i = choose|i: int| 0 <= i < names.len() && names[i] == k;
                if i < at {
                    assert(names2[i] == k);
                } else {
                    assert(names2[i + 1] == k);
                }
            }
            if k == key {
                assert(names2[at as int] == k);
            }
        }
        assert forall|k: Seq<char>| #[trigger] import_map(v2).contains_key(k) implies import_map(v2)[k] == import_map(v).insert(key, m)[k] by {
            if k == key {
                lemma_import_last_found(v2, k, at as int);
            } else {
                let i = choose|i: int| 0 <= i < names2.len() && names2[i] == k;
                if i < at {
                    assert(v2[i] == v[i]);
                    lemma_import_last_found(v2, k, i);
                    lemma_import_last_found(v, k, i);
                } else {
                    assert(i != at);
                    assert(v2[i] == v[i - 1]);
                    lemma_import_last_found(v2, k, i);
                    lemma_import_last_found(v, k, i - 1);
                }
            }
        }
        assert(import_map(v2) =~= import_map(v).insert(key, m));
    }
}

// ── The walk ────────────────────────────────────────────────────────

/// What the walk has collected: declarations and imports by name.
pub struct WalkState {
    pub decls: Map<Seq<char>, DeclModel>,
    pub imports: Map<Seq<char>, ImportDeclModel>,
}

pub open spec fn state_of(decls: Seq<Declaration>, imports: Seq<ImportDeclaration>) -> WalkState {
    WalkState { decls: decl_map(decls), imports: import_map(imports) }
}

/// The first namespace declaration named `n`.
pub open spec fn namespace_decl(ns: Seq<Declaration>, n: Seq<char>) -> Option<DeclModel>
    decreases ns.len(),
{
    if ns.len() == 0 {
        None
    } else {
        match namespace_decl(ns.drop_last(), n) {
            Some(d) => Some(d),
            None => if ns.last().model().name == n {
                Some(ns.last().model())
            } else {
                None
            },
        }
    }
}

/// The input or output root enum named `n`, as a public declaration.
pub open spec fn root_decl(s: Asschema, n: Seq<char>) -> Option<DeclModel> {
    if s.input_of().name.text() == n {
        Some(DeclModel { visibility: Visibility::Public, name: n, value: s.input_of().decl_model() })
    } else if s.output_of().name.text() == n {
        Some(DeclModel { visibility: Visibility::Public, name: n, value: s.output_of().decl_model() })
    } else {
        None
    }
}

/// The first import bound to `n`.
pub open spec fn import_decl(is: Seq<ImportDeclaration>, n: Seq<char>) -> Option<ImportDeclModel>
    decreases is.len(),
{
    if is.len() == 0 {
        None
    } else {
        match import_decl(is.drop_last(), n) {
            Some(d) => Some(d),
            None => if is.last().model().local_name == n {
                Some(is.last().model())
            } else {
                None
            },
        }
    }
}

/// The names a walk can enter: the namespace's and the two roots'.
pub open spec fn declarable(s: Asschema) -> Seq<Seq<char>> {
    decl_names(s.declarations()).push(s.input_of().name.text()).push(s.output_of().name.text())
}

/// How many declarable names are not collected yet.
pub open spec fn pending(names: Seq<Seq<char>>, dom: Set<Seq<char>>) -> nat
    decreases names.len(),
{
    if names.len() == 0 {
        0
    } else {
        pending(names.drop_last(), dom) + if dom.contains(names.last()) {
            0nat
        } else {
            1nat
        }
    }
}

proof fn lemma_pending_monotone(names: Seq<Seq<char>>, a: Set<Seq<char>>, b: Set<Seq<char>>)
    requires
        a.subset_of(b),
    ensures
        pending(names, b) <= pending(names, a),
    decreases names.len(),
{
    if names.len() > 0 {
        lemma_pending_monotone(names.drop_last(), a, b);
    }
}

proof fn lemma_pending_drops(names: Seq<Seq<char>>, a: Set<Seq<char>>, n: Seq<char>)
    requires
        names.contains(n),
        !a.contains(n),
    ensures
        pending(names, a.insert(n)) < pending(names, a),
    decreases names.len(),
{
    lemma_pending_monotone(names.drop_last(), a, a.insert(n));
    if names.last() != n {
        let i = choose|i: int| 0 <= i < names.len() && names[i] == n;
        assert(names.drop_last()[i] == n);
        lemma_pending_drops(names.drop_last(), a, n);
    }
}

pub open spec fn ref_size(r: ReferenceModel) -> nat
    decreases r,
{
    match r {
        ReferenceModel::Vector(i) => 1 + ref_size(*i),
        ReferenceModel::Optional(i) => 1 + ref_size(*i),
        ReferenceModel::Mapping(k, v) => 1 + ref_size(*k) + ref_size(*v),
        _ => 1,
    }
}

pub open spec fn fields_refs_size(fs: Seq<FieldDeclModel>) -> nat
    decreases fs.len(),
{
    if fs.len() == 0 {
        0
    } else {
        1 + ref_size(fs[0].reference) + fields_refs_size(fs.drop_first())
    }
}

pub open spec fn variants_refs_size(vs: Seq<VariantDeclModel>) -> nat
    decreases vs.len(),
{
    if vs.len() == 0 {
        0
    } else {
        1 + match vs[0].payload {
            Some(r) => ref_size(r),
            None => 0,
        } + variants_refs_size(vs.drop_first())
    }
}

pub open spec fn value_size(v: TypeDeclModel) -> nat {
    match v {
        TypeDeclModel::Struct(_, fs) => 1 + fields_refs_size(fs),
        TypeDeclModel::Enum(_, vs) => 1 + variants_refs_size(vs),
        TypeDeclModel::Newtype(_, r) => 1 + ref_size(r),
    }
}

pub open spec fn collected(st: WalkState) -> Set<Seq<char>> {
    st.decls.dom()
}

/// Collect a declaration, then everything its value refers to.
pub open spec fn walk_decl(s: Asschema, d: DeclModel, st: WalkState) -> Result<WalkState, Seq<char>>
    decreases pending(declarable(s), collected(st)), 0nat,
{
    if st.decls.contains_key(d.name) {
        Ok(st)
    } else {
        let st2 = WalkState { decls: st.decls.insert(d.name, d), imports: st.imports };
        if pending(declarable(s), collected(st2)) < pending(declarable(s), collected(st)) {
            walk_value(s, d.value, st2)
        } else {
            Err(Seq::empty())
        }
    }
}

pub open spec fn walk_value(s: Asschema, v: TypeDeclModel, st: WalkState) -> Result<WalkState, Seq<char>>
    decreases pending(declarable(s), collected(st)), value_size(v) + 3,
{
    match v {
        TypeDeclModel::Struct(_, fs) => walk_fields(s, fs, st),
        TypeDeclModel::Enum(_, vs) => walk_variants(s, vs, st),
        TypeDeclModel::Newtype(_, r) => walk_ref(s, r, st),
    }
}

pub open spec fn walk_fields(s: Asschema, fs: Seq<FieldDeclModel>, st: WalkState) -> Result<WalkState, Seq<char>>
    decreases pending(declarable(s), collected(st)), fields_refs_size(fs) + 2,
{
    if fs.len() == 0 {
        Ok(st)
    } else {
        match walk_ref(s, fs[0].reference, st) {
            Err(e) => Err(e),
            Ok(st1) => if pending(declarable(s), collected(st1)) <= pending(declarable(s), collected(st)) {
                walk_fields(s, fs.drop_first(), st1)
            } else {
                Err(Seq::empty())
            },
        }
    }
}

pub open spec fn walk_variants(s: Asschema, vs: Seq<VariantDeclModel>, st: WalkState) -> Result<WalkState, Seq<char>>
    decreases pending(declarable(s), collected(st)), variants_refs_size(vs) + 2,
{
    if vs.len() == 0 {
        Ok(st)
    } else {
        let first = match vs[0].payload {
            Some(r) => walk_ref(s, r, st),
            None => Ok(st),
        };
        match first {
            Err(e) => Err(e),
            Ok(st1) => if pending(declarable(s), collected(st1)) <= pending(declarable(s), collected(st)) {
                walk_variants(s, vs.drop_first(), st1)
            } else {
                Err(Seq::empty())
            },
        }
    }
}

/// Follow a type reference to the names it mentions.
pub open spec fn walk_ref(s: Asschema, r: ReferenceModel, st: WalkState) -> Result<WalkState, Seq<char>>
    decreases pending(declarable(s), collected(st)), ref_size(r) + 2,
{
    match r {
        ReferenceModel::Plain(n) => walk_name(s, n, st),
        ReferenceModel::Vector(i) => walk_ref(s, *i, st),
        ReferenceModel::Optional(i) => walk_ref(s, *i, st),
        ReferenceModel::Mapping(k, v) => match walk_ref(s, *k, st) {
            Err(e) => Err(e),
            Ok(st1) => if pending(declarable(s), collected(st1)) <= pending(declarable(s), collected(st)) {
                walk_ref(s, *v, st1)
            } else {
                Err(Seq::empty())
            },
        },
        _ => Ok(st),
    }
}

/// Resolve a name: already collected; a namespace declaration; a root
/// enum; an import; otherwise the walk fails on this name.
pub open spec fn walk_name(s: Asschema, n: Seq<char>, st: WalkState) -> Result<WalkState, Seq<char>>
    decreases pending(declarable(s), collected(st)), 1nat,
{
    if st.decls.contains_key(n) || st.imports.contains_key(n) {
        Ok(st)
    } else {
        match namespace_decl(s.declarations(), n) {
            Some(d) => walk_decl(s, d, st),
            None => match root_decl(s, n) {
                Some(d) => walk_decl(s, d, st),
                None => match import_decl(s.import_list(), n) {
                    Some(i) => Ok(WalkState { decls: st.decls, imports: st.imports.insert(n, i) }),
                    None => Err(n),
                },
            },
        }
    }
}

// ── The walk, executed ──────────────────────────────────────────────

/// The error a walk failing on name `n` reports.
pub open spec fn reports_missing(r: Result<(), SchemaError>, family: Seq<char>, n: Seq<char>) -> bool {
    r matches Err(SchemaError::FamilyReferenceNotFound { family: f, name }) && f@ == family && name@ == n
}

pub open spec fn stores_wf(decls: Seq<Declaration>, imports: Seq<ImportDeclaration>) -> bool {
    keys_sorted(decl_names(decls)) && keys_sorted(import_names(imports))
}

proof fn lemma_namespace_decl_prefix(ns: Seq<Declaration>, n: Seq<char>, k: int)
    requires
        0 <= k <= ns.len(),
        namespace_decl(ns.take(k), n) is Some,
    ensures
        namespace_decl(ns, n) == namespace_decl(ns.take(k), n),
    decreases ns.len() - k,
{
    if k < ns.len() {
        assert(ns.take(k + 1).drop_last() =~= ns.take(k));
        lemma_namespace_decl_prefix(ns, n, k + 1);
    } else {
        assert(ns.take(k) =~= ns);
    }
}

/// The position of the first namespace declaration named `n`.
fn find_namespace_decl(schema: &Asschema, n: &str) -> (r: Option<usize>)
    ensures
        match namespace_decl(schema.declarations(), n@) {
            Some(m) => r matches Some(i) && i < schema.declarations().len()
                && schema.declarations()[i as int].model() == m,
            None => r is None,
        },
{
    let ns = schema.namespace();
    let mut i: usize = 0;
    while i < ns.len()
        invariant
            ns@ == schema.declarations(),
            0 <= i <= ns@.len(),
            namespace_decl(ns@.take(i as int), n@) is None,
        decreases ns@.len() - i,
    {
        proof {
            lemma_declaration_model_name(ns@[i as int]);
            assert(ns@.take(i as int + 1).drop_last() =~= ns@.take(i as int));
            assert(ns@.take(i as int + 1).last() == ns@[i as int]);
        }
        if crate::text::str_equal(ns[i].name().as_str(), n) {
            proof {
                lemma_namespace_decl_prefix(ns@, n@, i as int + 1);
            }
            return Some(i);
        }
        i = i + 1;
    }
    proof {
        assert(ns@.take(i as int) =~= ns@);
    }
    None
}

proof fn lemma_import_decl_name(is: Seq<ImportDeclaration>, n: Seq<char>)
    ensures
        import_decl(is, n) matches Some(m) ==> m.local_name == n,
    decreases is.len(),
{
    if is.len() > 0 {
        lemma_import_decl_name(is.drop_last(), n);
    }
}

proof fn lemma_import_decl_prefix(is: Seq<ImportDeclaration>, n: Seq<char>, k: int)
    requires
        0 <= k <= is.len(),
        import_decl(is.take(k), n) is Some,
    ensures
        import_decl(is, n) == import_decl(is.take(k), n),
    decreases is.len() - k,
{
    if k < is.len() {
        assert(is.take(k + 1).drop_last() =~= is.take(k));
        lemma_import_decl_prefix(is, n, k + 1);
    } else {
        assert(is.take(k) =~= is);
    }
}

/// The position of the first import bound to `n`.
fn find_import(schema: &Asschema, n: &str) -> (r: Option<usize>)
    ensures
        match import_decl(schema.import_list(), n@) {
            Some(m) => r matches Some(i) && i < schema.import_list().len()
                && schema.import_list()[i as int].model() == m,
            None => r is None,
        },
{
    let is = schema.imports();
    let mut i: usize = 0;
    while i < is.len()
        invariant
            is@ == schema.import_list(),
            0 <= i <= is@.len(),
            import_decl(is@.take(i as int), n@) is None,
        decreases is@.len() - i,
    {
        proof {
            assert(is@.take(i as int + 1).drop_last() =~= is@.take(i as int));
            assert(is@.take(i as int + 1).last() == is@[i as int]);
        }
        if crate::text::str_equal(is[i].local_name.as_str(), n) {
            proof {
                lemma_import_decl_prefix(is@, n@, i as int + 1);
            }
            return Some(i);
        }
        i = i + 1;
    }
    proof {
        assert(is@.take(i as int) =~= is@);
    }
    None
}

proof fn lemma_refs_size_bound(fs: Seq<FieldDeclModel>, i: int)
    requires
        0 <= i < fs.len(),
    ensures
        ref_size(fs[i].reference) < fields_refs_size(fs),
    decreases i,
{
    if i > 0 {
        lemma_refs_size_bound(fs.drop_first(), i - 1);
        assert(fs.drop_first()[i - 1] == fs[i]);
    }
}

proof fn lemma_variant_refs_bound(vs: Seq<VariantDeclModel>, i: int)
    requires
        0 <= i < vs.len(),
    ensures
        vs[i].payload matches Some(r) ==> ref_size(r) < variants_refs_size(vs),
    decreases i,
{
    if i > 0 {
        lemma_variant_refs_bound(vs.drop_first(), i - 1);
        assert(vs.drop_first()[i - 1] == vs[i]);
    }
}

fn walk_decl_exec(
    schema: &Asschema,
    family: &str,
    d: Declaration,
    decls: &mut Vec<Declaration>,
    imports: &mut Vec<ImportDeclaration>,
) -> (r: Result<(), SchemaError>)
    requires
        stores_wf(old(decls)@, old(imports)@),
        declarable(*schema).contains(d.model().name),
    ensures
        stores_wf(final(decls)@, final(imports)@),
        r is Ok ==> decl_map(final(decls)@).contains_key(d.model().name),
        collected(state_of(old(decls)@, old(imports)@)).subset_of(collected(state_of(final(decls)@, final(imports)@))),
        match walk_decl(*schema, d.model(), state_of(old(decls)@, old(imports)@)) {
            Ok(st) => r is Ok && state_of(final(decls)@, final(imports)@) == st,
            Err(n) => reports_missing(r, family@, n),
        },
    decreases pending(declarable(*schema), collected(state_of(old(decls)@, old(imports)@))), 0nat,
{
    let ghost st0 = state_of(decls@, imports@);
    proof {
        lemma_declaration_model_name(d);
    }
    if has_declaration(decls, d.name().as_str()) {
        return Ok(());
    }
    let value = d.value().duplicate();
    let ghost m = d.model();
    insert_declaration(decls, d);
    proof {
        let st2 = state_of(decls@, imports@);
        assert(st2.decls == st0.decls.insert(m.name, m));
        assert(collected(st2) =~= collected(st0).insert(m.name));
        lemma_pending_drops(declarable(*schema), collected(st0), m.name);
        assert(value.model() == m.value);
        assert(collected(st2).contains(m.name));
    }
    walk_value_exec(schema, family, &value, decls, imports)
}

fn walk_value_exec(
    schema: &Asschema,
    family: &str,
    v: &TypeDeclaration,
    decls: &mut Vec<Declaration>,
    imports: &mut Vec<ImportDeclaration>,
) -> (r: Result<(), SchemaError>)
    requires
        stores_wf(old(decls)@, old(imports)@),
    ensures
        stores_wf(final(decls)@, final(imports)@),
        collected(state_of(old(decls)@, old(imports)@)).subset_of(collected(state_of(final(decls)@, final(imports)@))),
        match walk_value(*schema, v.model(), state_of(old(decls)@, old(imports)@)) {
            Ok(st) => r is Ok && state_of(final(decls)@, final(imports)@) == st,
            Err(n) => reports_missing(r, family@, n),
        },
    decreases pending(declarable(*schema), collected(state_of(old(decls)@, old(imports)@))), value_size(v.model()) + 3,
{
    match v {
        TypeDeclaration::Struct(d) => walk_fields_exec(schema, family, d.fields.entries(), decls, imports),
        TypeDeclaration::Enum(d) => walk_variants_exec(schema, family, &d.variants, decls, imports),
        TypeDeclaration::Newtype(d) => walk_ref_exec(schema, family, &d.reference, decls, imports),
    }
}

fn walk_fields_exec(
    schema: &Asschema,
    family: &str,
    fields: &[crate::asschema::FieldDeclaration],
    decls: &mut Vec<Declaration>,
    imports: &mut Vec<ImportDeclaration>,
) -> (r: Result<(), SchemaError>)
    requires
        stores_wf(old(decls)@, old(imports)@),
    ensures
        stores_wf(final(decls)@, final(imports)@),
        collected(state_of(old(decls)@, old(imports)@)).subset_of(collected(state_of(final(decls)@, final(imports)@))),
        match walk_fields(*schema, crate::asschema::field_decl_models(fields@), state_of(old(decls)@, old(imports)@)) {
            Ok(st) => r is Ok && state_of(final(decls)@, final(imports)@) == st,
            Err(n) => reports_missing(r, family@, n),
        },
    decreases pending(declarable(*schema), collected(state_of(old(decls)@, old(imports)@))), fields_refs_size(crate::asschema::field_decl_models(fields@)) + 2,
{
    let ghost fs = crate::asschema::field_decl_models(fields@);
    let ghost st0 = state_of(decls@, imports@);
    let mut i: usize = 0;
    assert(fs.subrange(0, fs.len() as int) =~= fs);
    while i < fields.len()
        invariant
            fs == crate::asschema::field_decl_models(fields@),
            st0 == state_of(old(decls)@, old(imports)@),
            stores_wf(decls@, imports@),
            0 <= i <= fields@.len(),
            collected(st0).subset_of(collected(state_of(decls@, imports@))),
            pending(declarable(*schema), collected(state_of(decls@, imports@))) <= pending(declarable(*schema), collected(st0)),
            walk_fields(*schema, fs, st0) == walk_fields(*schema, fs.subrange(i as int, fs.len() as int), state_of(decls@, imports@)),
        decreases fields@.len() - i,
    {
        let ghost sti = state_of(decls@, imports@);
        proof {
            let sub = fs.subrange(i as int, fs.len() as int);
            assert(sub[0] == fs[i as int]);
            assert(sub.drop_first() =~= fs.subrange(i + 1, fs.len() as int));
            lemma_refs_size_bound(fs, i as int);
            assert(fs[i as int].reference == fields@[i as int].reference.model());
        }
        let step = walk_ref_exec(schema, family, &fields[i].reference, decls, imports);
        proof {
            lemma_pending_monotone(declarable(*schema), collected(sti), collected(state_of(decls@, imports@)));
        }
        if step.is_err() {
            return step;
        }
        i = i + 1;
    }
    Ok(())
}

fn walk_variants_exec(
    schema: &Asschema,
    family: &str,
    variants: &Vec<crate::asschema::EnumVariant>,
    decls: &mut Vec<Declaration>,
    imports: &mut Vec<ImportDeclaration>,
) -> (r: Result<(), SchemaError>)
    requires
        stores_wf(old(decls)@, old(imports)@),
    ensures
        stores_wf(final(decls)@, final(imports)@),
        collected(state_of(old(decls)@, old(imports)@)).subset_of(collected(state_of(final(decls)@, final(imports)@))),
        match walk_variants(*schema, crate::asschema::variant_decl_models(variants@), state_of(old(decls)@, old(imports)@)) {
            Ok(st) => r is Ok && state_of(final(decls)@, final(imports)@) == st,
            Err(n) => reports_missing(r, family@, n),
        },
    decreases pending(declarable(*schema), collected(state_of(old(decls)@, old(imports)@))), variants_refs_size(crate::asschema::variant_decl_models(variants@)) + 2,
{
    let ghost vs = crate::asschema::variant_decl_models(variants@);
    let ghost st0 = state_of(decls@, imports@);
    let mut i: usize = 0;
    assert(vs.subrange(0, vs.len() as int) =~= vs);
    while i < variants.len()
        invariant
            vs == crate::asschema::variant_decl_models(variants@),
            st0 == state_of(old(decls)@, old(imports)@),
            stores_wf(decls@, imports@),
            0 <= i <= variants@.len(),
            collected(st0).subset_of(collected(state_of(decls@, imports@))),
            pending(declarable(*schema), collected(state_of(decls@, imports@))) <= pending(declarable(*schema), collected(st0)),
            walk_variants(*schema, vs, st0) == walk_variants(*schema, vs.subrange(i as int, vs.len() as int), state_of(decls@, imports@)),
        decreases variants@.len() - i,
    {
        let ghost sti = state_of(decls@, imports@);
        proof {
            let sub = vs.subrange(i as int, vs.len() as int);
            assert(sub[0] == vs[i as int]);
            assert(sub.drop_first() =~= vs.subrange(i + 1, vs.len() as int));
            lemma_variant_refs_bound(vs, i as int);
        }
        let step = match &variants[i].payload {
            Some(reference) => walk_ref_exec(schema, family, reference, decls, imports),
            None => Ok(()),
        };
        proof {
            lemma_pending_monotone(declarable(*schema), collected(sti), collected(state_of(decls@, imports@)));
        }
        if step.is_err() {
            return step;
        }
        i = i + 1;
    }
    Ok(())
}

fn walk_ref_exec(
    schema: &Asschema,
    family: &str,
    reference: &TypeReference,
    decls: &mut Vec<Declaration>,
    imports: &mut Vec<ImportDeclaration>,
) -> (r: Result<(), SchemaError>)
    requires
        stores_wf(old(decls)@, old(imports)@),
    ensures
        stores_wf(final(decls)@, final(imports)@),
        collected(state_of(old(decls)@, old(imports)@)).subset_of(collected(state_of(final(decls)@, final(imports)@))),
        match walk_ref(*schema, reference.model(), state_of(old(decls)@, old(imports)@)) {
            Ok(st) => r is Ok && state_of(final(decls)@, final(imports)@) == st,
            Err(n) => reports_missing(r, family@, n),
        },
    decreases pending(declarable(*schema), collected(state_of(old(decls)@, old(imports)@))), ref_size(reference.model()) + 2,
{
    match reference {
        TypeReference::Plain(n) => walk_name_exec(schema, family, n, decls, imports),
        TypeReference::Vector(inner) => walk_ref_exec(schema, family, inner, decls, imports),
        TypeReference::Optional(inner) => walk_ref_exec(schema, family, inner, decls, imports),
        TypeReference::Mapping(k, v) => {
            let ghost st0 = state_of(decls@, imports@);
            let first = walk_ref_exec(schema, family, k, decls, imports);
            if first.is_err() {
                return first;
            }
            proof {
                lemma_pending_monotone(declarable(*schema), collected(st0), collected(state_of(decls@, imports@)));
            }
            walk_ref_exec(schema, family, v, decls, imports)
        },
        _ => Ok(()),
    }
}

fn walk_name_exec(
    schema: &Asschema,
    family: &str,
    n: &Name,
    decls: &mut Vec<Declaration>,
    imports: &mut Vec<ImportDeclaration>,
) -> (r: Result<(), SchemaError>)
    requires
        stores_wf(old(decls)@, old(imports)@),
    ensures
        stores_wf(final(decls)@, final(imports)@),
        collected(state_of(old(decls)@, old(imports)@)).subset_of(collected(state_of(final(decls)@, final(imports)@))),
        match walk_name(*schema, n.text(), state_of(old(decls)@, old(imports)@)) {
            Ok(st) => r is Ok && state_of(final(decls)@, final(imports)@) == st,
            Err(missing) => reports_missing(r, family@, missing),
        },
    decreases pending(declarable(*schema), collected(state_of(old(decls)@, old(imports)@))), 1nat,
{
    if has_declaration(decls, n.as_str()) || has_import(imports, n.as_str()) {
        return Ok(());
    }
    match find_namespace_decl(schema, n.as_str()) {
        Some(i) => {
            let d = schema.namespace()[i].duplicate();
            proof {
                let ns = schema.declarations();
                assert(decl_names(ns)[i as int] == ns[i as int].model().name);
                assert(declarable(*schema)[i as int] == d.model().name);
            }
            return walk_decl_exec(schema, family, d, decls, imports);
        },
        None => {},
    }
    match schema.root_named(n.as_str()) {
        Some(root) => {
            let d = Declaration::public(TypeDeclaration::Enum(root.duplicate()));
            proof {
                lemma_declaration_model_name(d);
                let names = declarable(*schema);
                if schema.input_of().name.text() == n.text() {
                    assert(names[names.len() - 2] == n.text());
                } else {
                    assert(names[names.len() - 1] == n.text());
                }
                assert(d.model().name == n.text());
            }
            return walk_decl_exec(schema, family, d, decls, imports);
        },
        None => {},
    }
    proof {
        lemma_import_decl_name(schema.import_list(), n.text());
    }
    match find_import(schema, n.as_str()) {
        Some(i) => {
            let import = schema.imports()[i].duplicate();
            let ghost before = state_of(decls@, imports@);
            insert_import(imports, import);
            proof {
                assert(state_of(decls@, imports@).imports == before.imports.insert(n.text(), import.model()));
            }
            Ok(())
        },
        None => Err(SchemaError::FamilyReferenceNotFound { family: string_of(family), name: string_of(n.as_str()) }),
    }
}

// ── The closure ─────────────────────────────────────────────────────

/// The declaration a family named `n` starts from: a namespace
/// declaration, else an input or output root enum.
pub open spec fn family_root(s: Asschema, n: Seq<char>) -> Option<DeclModel> {
    match namespace_decl(s.declarations(), n) {
        Some(d) => Some(d),
        None => root_decl(s, n),
    }
}

/// The empty walk state.
pub open spec fn empty_state() -> WalkState {
    WalkState { decls: Map::empty(), imports: Map::empty() }
}

/// The transitive declaration closure of one named family: its root's
/// name, the reachable declarations sorted by name, and the reachable
/// imports sorted by local name.
#[derive(Clone, Debug, Eq, PartialEq)]
pub struct FamilyClosure {
    root: Name,
    declarations: Vec<Declaration>,
    imports: Vec<ImportDeclaration>,
}

impl FamilyClosure {
    pub closed spec fn root_text(&self) -> Seq<char> {
        self.root.text()
    }

    pub closed spec fn declaration_list(&self) -> Seq<Declaration> {
        self.declarations@
    }

    pub closed spec fn import_decl_list(&self) -> Seq<ImportDeclaration> {
        self.imports@
    }

    /// The closure's contents as a walk state.
    pub open spec fn state(&self) -> WalkState {
        state_of(self.declaration_list(), self.import_decl_list())
    }

    /// Both groups come sorted by name, each name once.
    pub open spec fn wf(&self) -> bool {
        stores_wf(self.declaration_list(), self.import_decl_list())
    }

    pub fn root(&self) -> (r: &Name)
        ensures
            r.text() == self.root_text(),
    {
        &self.root
    }

    pub fn declarations(&self) -> (r: &[Declaration])
        ensures
            r@ == self.declaration_list(),
    {
        self.declarations.as_slice()
    }

    pub fn imports(&self) -> (r: &[ImportDeclaration])
        ensures
            r@ == self.import_decl_list(),
    {
        self.imports.as_slice()
    }
}

proof fn lemma_namespace_decl_name(ns: Seq<Declaration>, n: Seq<char>)
    ensures
        namespace_decl(ns, n) matches Some(m) ==> m.name == n,
    decreases ns.len(),
{
    if ns.len() > 0 {
        lemma_namespace_decl_name(ns.drop_last(), n);
    }
}

impl Asschema {
    /// The declaration closure of the family named `family_name`: a
    /// namespace declaration or an input/output root enum, and every
    /// declaration and import reachable from it. A root enum enters
    /// the closure as a public enum declaration. The closure is closed:
    /// every name a collected declaration mentions is collected too.
    pub fn family_closure(&self, family_name: &str) -> (r: Result<FamilyClosure, SchemaError>)
        ensures
            match family_root(*self, family_name@) {
                None => r matches Err(SchemaError::FamilyRootNotFound { name }) && name@ == family_name@,
                Some(root) => match walk_decl(*self, root, empty_state()) {
                    Ok(st) => r matches Ok(c) && c.wf() && c.root_text() == family_name@
                        && c.state() == st && c.state().decls.contains_key(family_name@)
                        && walk_closed(c.state()),
                    Err(missing) => r matches Err(SchemaError::FamilyReferenceNotFound { family, name })
                        && family@ == family_name@ && name@ == missing,
                },
            },
    {
        let mut decls: Vec<Declaration> = Vec::new();
        let mut imports: Vec<ImportDeclaration> = Vec::new();
        proof {
            lemma_namespace_decl_name(self.declarations(), family_name@);
            assert(decl_map(decls@) =~= Map::empty());
            assert(import_map(imports@) =~= Map::empty());
        }
        let root: Declaration = match find_namespace_decl(self, family_name) {
            Some(i) => {
                let d = self.namespace()[i].duplicate();
                proof {
                    let ns = self.declarations();
                    assert(decl_names(ns)[i as int] == ns[i as int].model().name);
                    assert(declarable(*self)[i as int] == d.model().name);
                }
                d
            },
            None => match self.root_named(family_name) {
                Some(found) => {
                    let d = Declaration::public(TypeDeclaration::Enum(found.duplicate()));
                    proof {
                        lemma_declaration_model_name(d);
                        let names = declarable(*self);
                        if self.input_of().name.text() == family_name@ {
                            assert(names[names.len() - 2] == family_name@);
                        } else {
                            assert(names[names.len() - 1] == family_name@);
                        }
                    }
                    d
                },
                None => {
                    return Err(SchemaError::FamilyRootNotFound { name: string_of(family_name) });
                },
            },
        };
        proof {
            lemma_declaration_model_name(root);
        }
        let root_name = root.name().duplicate();
        let ghost root_model = root.model();
        let walked = walk_decl_exec(self, family_name, root, &mut decls, &mut imports);
        proof {
            if walk_decl(*self, root_model, empty_state()) is Ok {
                lemma_family_closure_closed(*self, root_model);
            }
        }
        match walked {
            Ok(()) => Ok(FamilyClosure { root: root_name, declarations: decls, imports }),
            Err(e) => Err(e),
        }
    }
}

// ── The closure is closed ───────────────────────────────────────────

/// A name the walk has collected, as a declaration or an import.
pub open spec fn resolved(st: WalkState, n: Seq<char>) -> bool {
    st.decls.contains_key(n) || st.imports.contains_key(n)
}

/// Every name a reference mentions is collected.
pub open spec fn ref_resolved(st: WalkState, r: ReferenceModel) -> bool
    decreases r,
{
    match r {
        ReferenceModel::Plain(n) => resolved(st, n),
        ReferenceModel::Vector(i) => ref_resolved(st, *i),
        ReferenceModel::Optional(i) => ref_resolved(st, *i),
        ReferenceModel::Mapping(k, v) => ref_resolved(st, *k) && ref_resolved(st, *v),
        _ => true,
    }
}

/// Every name a declaration's value mentions is collected.
pub open spec fn value_resolved(st: WalkState, v: TypeDeclModel) -> bool {
    match v {
        TypeDeclModel::Struct(_, fs) => forall|i: int| 0 <= i < fs.len() ==> ref_resolved(st, #[trigger] fs[i].reference),
        TypeDeclModel::Enum(_, vs) => forall|i: int| 0 <= i < vs.len() ==> (#[trigger] vs[i].payload matches Some(r) ==> ref_resolved(st, r)),
        TypeDeclModel::Newtype(_, r) => ref_resolved(st, r),
    }
}

/// A later state keeps everything an earlier one collected.
pub open spec fn grows(st: WalkState, st2: WalkState) -> bool {
    st.decls.submap_of(st2.decls) && st.imports.submap_of(st2.imports)
}

/// Every declaration collected since `st` has all its names collected.
pub open spec fn closed_since(st: WalkState, st2: WalkState) -> bool {
    forall|k: Seq<char>| #[trigger] st2.decls.contains_key(k) && !st.decls.contains_key(k) ==> value_resolved(st2, st2.decls[k].value)
}

/// Every collected declaration has all its names collected.
pub open spec fn walk_closed(st: WalkState) -> bool {
    forall|k: Seq<char>| #[trigger] st.decls.contains_key(k) ==> value_resolved(st, st.decls[k].value)
}

proof fn lemma_ref_resolved_grows(st: WalkState, st2: WalkState, r: ReferenceModel)
    requires
        grows(st, st2),
        ref_resolved(st, r),
    ensures
        ref_resolved(st2, r),
    decreases r,
{
    match r {
        ReferenceModel::Vector(i) => lemma_ref_resolved_grows(st, st2, *i),
        ReferenceModel::Optional(i) => lemma_ref_resolved_grows(st, st2, *i),
        ReferenceModel::Mapping(k, v) => {
            lemma_ref_resolved_grows(st, st2, *k);
            lemma_ref_resolved_grows(st, st2, *v);
        },
        _ => {},
    }
}

proof fn lemma_value_resolved_grows(st: WalkState, st2: WalkState, v: TypeDeclModel)
    requires
        grows(st, st2),
        value_resolved(st, v),
    ensures
        value_resolved(st2, v),
{
    match v {
        TypeDeclModel::Struct(_, fs) => {
            assert forall|i: int| 0 <= i < fs.len() implies ref_resolved(st2, #[trigger] fs[i].reference) by {
                lemma_ref_resolved_grows(st, st2, fs[i].reference);
            }
        },
        TypeDeclModel::Enum(_, vs) => {
            assert forall|i: int| 0 <= i < vs.len() implies (#[trigger] vs[i].payload matches Some(r) ==> ref_resolved(st2, r)) by {
                if let Some(r) = vs[i].payload {
                    lemma_ref_resolved_grows(st, st2, r);
                }
            }
        },
        TypeDeclModel::Newtype(_, r) => lemma_ref_resolved_grows(st, st2, r),
    }
}

/// Closedness composes over two walk steps.
proof fn lemma_closed_since_chain(st: WalkState, st1: WalkState, st2: WalkState)
    requires
        grows(st, st1),
        grows(st1, st2),
        closed_since(st, st1),
        closed_since(st1, st2),
    ensures
        grows(st, st2),
        closed_since(st, st2),
{
    vstd::map_lib::lemma_submap_of_trans(st.decls, st1.decls, st2.decls);
    vstd::map_lib::lemma_submap_of_trans(st.imports, st1.imports, st2.imports);
    assert forall|k: Seq<char>| #[trigger] st2.decls.contains_key(k) && !st.decls.contains_key(k) implies value_resolved(st2, st2.decls[k].value) by {
        if st1.decls.contains_key(k) {
            assert(st1.decls[k] == st2.decls[k]);
            lemma_value_resolved_grows(st1, st2, st1.decls[k].value);
        }
    }
}

proof fn lemma_walk_decl_closed(s: Asschema, d: DeclModel, st: WalkState)
    requires
        walk_decl(s, d, st) is Ok,
    ensures
        grows(st, walk_decl(s, d, st)->Ok_0),
        closed_since(st, walk_decl(s, d, st)->Ok_0),
        walk_decl(s, d, st)->Ok_0.decls.contains_key(d.name),
    decreases pending(declarable(s), collected(st)), 0nat,
{
    if !st.decls.contains_key(d.name) {
        let st1 = WalkState { decls: st.decls.insert(d.name, d), imports: st.imports };
        assert(pending(declarable(s), collected(st1)) < pending(declarable(s), collected(st)));
        assert(walk_decl(s, d, st) == walk_value(s, d.value, st1));
        let st2 = walk_value(s, d.value, st1)->Ok_0;
        lemma_walk_value_closed(s, d.value, st1);
        assert(st1.decls.dom().contains(d.name));
        assert(st1.decls[d.name] == d);
        assert(st1.decls.submap_of(st2.decls));
        assert(st2.decls.dom().contains(d.name) && st1.decls[d.name] == st2.decls[d.name]);
        assert(st2.decls[d.name] == d);
        assert(st.decls.submap_of(st1.decls));
        vstd::map_lib::lemma_submap_of_trans(st.decls, st1.decls, st2.decls);
        assert forall|k: Seq<char>| #[trigger] st2.decls.contains_key(k) && !st.decls.contains_key(k) implies value_resolved(st2, st2.decls[k].value) by {
            if k != d.name {
                assert(!st1.decls.contains_key(k));
            }
        }
    }
}

proof fn lemma_walk_value_closed(s: Asschema, v: TypeDeclModel, st: WalkState)
    requires
        walk_value(s, v, st) is Ok,
    ensures
        grows(st, walk_value(s, v, st)->Ok_0),
        closed_since(st, walk_value(s, v, st)->Ok_0),
        value_resolved(walk_value(s, v, st)->Ok_0, v),
    decreases pending(declarable(s), collected(st)), value_size(v) + 3,
{
    match v {
        TypeDeclModel::Struct(_, fs) => lemma_walk_fields_closed(s, fs, st),
        TypeDeclModel::Enum(_, vs) => lemma_walk_variants_closed(s, vs, st),
        TypeDeclModel::Newtype(_, r) => lemma_walk_ref_closed(s, r, st),
    }
}

proof fn lemma_walk_fields_closed(s: Asschema, fs: Seq<FieldDeclModel>, st: WalkState)
    requires
        walk_fields(s, fs, st) is Ok,
    ensures
        grows(st, walk_fields(s, fs, st)->Ok_0),
        closed_since(st, walk_fields(s, fs, st)->Ok_0),
        forall|i: int| 0 <= i < fs.len() ==> ref_resolved(walk_fields(s, fs, st)->Ok_0, #[trigger] fs[i].reference),
    decreases pending(declarable(s), collected(st)), fields_refs_size(fs) + 2,
{
    if fs.len() > 0 {
        let st1 = walk_ref(s, fs[0].reference, st)->Ok_0;
        let st2 = walk_fields(s, fs, st)->Ok_0;
        lemma_walk_ref_closed(s, fs[0].reference, st);
        lemma_walk_fields_closed(s, fs.drop_first(), st1);
        lemma_closed_since_chain(st, st1, st2);
        lemma_ref_resolved_grows(st1, st2, fs[0].reference);
        assert forall|i: int| 0 <= i < fs.len() implies ref_resolved(st2, #[trigger] fs[i].reference) by {
            if i > 0 {
                assert(fs[i] == fs.drop_first()[i - 1]);
            }
        }
    }
}

proof fn lemma_walk_variants_closed(s: Asschema, vs: Seq<VariantDeclModel>, st: WalkState)
    requires
        walk_variants(s, vs, st) is Ok,
    ensures
        grows(st, walk_variants(s, vs, st)->Ok_0),
        closed_since(st, walk_variants(s, vs, st)->Ok_0),
        forall|i: int| 0 <= i < vs.len() ==> (#[trigger] vs[i].payload matches Some(r) ==> ref_resolved(walk_variants(s, vs, st)->Ok_0, r)),
    decreases pending(declarable(s), collected(st)), variants_refs_size(vs) + 2,
{
    if vs.len() > 0 {
        let first = match vs[0].payload {
            Some(r) => walk_ref(s, r, st),
            None => Ok(st),
        };
        let st1 = first->Ok_0;
        let st2 = walk_variants(s, vs, st)->Ok_0;
        if let Some(r) = vs[0].payload {
            lemma_walk_ref_closed(s, r, st);
        }
        lemma_walk_variants_closed(s, vs.drop_first(), st1);
        lemma_closed_since_chain(st, st1, st2);
        if let Some(r) = vs[0].payload {
            lemma_ref_resolved_grows(st1, st2, r);
        }
        assert forall|i: int| 0 <= i < vs.len() implies (#[trigger] vs[i].payload matches Some(r) ==> ref_resolved(st2, r)) by {
            if i > 0 {
                assert(vs[i] == vs.drop_first()[i - 1]);
            }
        }
    }
}

proof fn lemma_walk_ref_closed(s: Asschema, r: ReferenceModel, st: WalkState)
    requires
        walk_ref(s, r, st) is Ok,
    ensures
        grows(st, walk_ref(s, r, st)->Ok_0),
        closed_since(st, walk_ref(s, r, st)->Ok_0),
        ref_resolved(walk_ref(s, r, st)->Ok_0, r),
    decreases pending(declarable(s), collected(st)), ref_size(r) + 2,
{
    match r {
        ReferenceModel::Plain(n) => lemma_walk_name_closed(s, n, st),
        ReferenceModel::Vector(i) => lemma_walk_ref_closed(s, *i, st),
        ReferenceModel::Optional(i) => lemma_walk_ref_closed(s, *i, st),
        ReferenceModel::Mapping(k, v) => {
            let st1 = walk_ref(s, *k, st)->Ok_0;
            lemma_walk_ref_closed(s, *k, st);
            lemma_walk_ref_closed(s, *v, st1);
            let st2 = walk_ref(s, *v, st1)->Ok_0;
            lemma_closed_since_chain(st, st1, st2);
            lemma_ref_resolved_grows(st1, st2, *k);
        },
        _ => {},
    }
}

proof fn lemma_walk_name_closed(s: Asschema, n: Seq<char>, st: WalkState)
    requires
        walk_name(s, n, st) is Ok,
    ensures
        grows(st, walk_name(s, n, st)->Ok_0),
        closed_since(st, walk_name(s, n, st)->Ok_0),
        resolved(walk_name(s, n, st)->Ok_0, n),
    decreases pending(declarable(s), collected(st)), 1nat,
{
    if !(st.decls.contains_key(n) || st.imports.contains_key(n)) {
        lemma_namespace_decl_name(s.declarations(), n);
        match namespace_decl(s.declarations(), n) {
            Some(d) => lemma_walk_decl_closed(s, d, st),
            None => match root_decl(s, n) {
                Some(d) => lemma_walk_decl_closed(s, d, st),
                None => {
                    let st2 = walk_name(s, n, st)->Ok_0;
                    assert(st2.decls =~= st.decls);
                },
            },
        }
    }
}

/// The closure of a family is closed: every name a collected
/// declaration mentions is itself collected, as a declaration or as an
/// import, and the family's own declaration is among them.
pub proof fn lemma_family_closure_closed(s: Asschema, root: DeclModel)
    requires
        walk_decl(s, root, empty_state()) is Ok,
    ensures
        walk_closed(walk_decl(s, root, empty_state())->Ok_0),
        walk_decl(s, root, empty_state())->Ok_0.decls.contains_key(root.name),
{
    let st = walk_decl(s, root, empty_state())->Ok_0;
    lemma_walk_decl_closed(s, root, empty_state());
    assert forall|k: Seq<char>| #[trigger] st.decls.contains_key(k) implies value_resolved(st, st.decls[k].value) by {
        assert(!empty_state().decls.contains_key(k));
    }
}

} // verus!
