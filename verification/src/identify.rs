//! The identification stage: collect the declared and imported names,
//! then classify every position of a six-position document by its
//! syntactic shape (imports by their head, header roots, namespace
//! bodies, features).
use vstd::prelude::*;
use crate::assembled::Leg;
use crate::error::Error;
use crate::multi_pass::{
    MultiPassDocument, NotaValue, ValueModel, duplicate_values, duplicate_values_from, entry_models, kind_text,
    reports_invalid, value_models,
};
use crate::name::first_duplicate;
use crate::text::{decimal_spec, decimal_text, str_equal, string_of};

verus! {

/// A failure of the stage: its context and message.
pub struct StageError {
    pub context: Seq<char>,
    pub message: Seq<char>,
}

pub open spec fn stage_error(context: Seq<char>, message: Seq<char>) -> StageError {
    StageError { context, message }
}

pub open spec fn reports(err: Error, e: StageError) -> bool {
    reports_invalid(err, e.context, e.message)
}

pub open spec fn quoted(before: Seq<char>, name: Seq<char>, after: Seq<char>) -> Seq<char> {
    before + name + after
}

fn invalid(context: &'static str, message: String) -> (r: Error)
    ensures
        reports_invalid(r, context@, message@),
{
    Error::InvalidSchemaText { context, message }
}

fn text3(a: &str, b: &str, c: &str) -> (r: String)
    ensures
        r@ == a@ + b@ + c@,
{
    let mut s = string_of(a);
    s.append(b);
    s.append(c);
    s
}

// ── Identifiers ─────────────────────────────────────────────────────

pub open spec fn all_identifiers(items: Seq<ValueModel>) -> bool {
    forall|i: int| 0 <= i < items.len() ==> (#[trigger] items[i]) is Identifier
}

pub open spec fn identifier_texts(items: Seq<ValueModel>) -> Seq<Seq<char>> {
    Seq::new(items.len(), |i: int| items[i]->Identifier_0)
}

/// The position of the first value that is not an identifier.
pub open spec fn first_non_identifier(items: Seq<ValueModel>) -> int
    decreases items.len(),
{
    if items.len() == 0 {
        0
    } else if !all_identifiers(items.drop_last()) {
        first_non_identifier(items.drop_last())
    } else {
        items.len() - 1
    }
}

proof fn lemma_first_non_identifier(items: Seq<ValueModel>)
    requires
        !all_identifiers(items),
    ensures
        0 <= first_non_identifier(items) < items.len(),
        !(items[first_non_identifier(items)] is Identifier),
    decreases items.len(),
{
    if !all_identifiers(items.drop_last()) {
        lemma_first_non_identifier(items.drop_last());
    } else {
        if items[items.len() - 1] is Identifier {
            assert forall|i: int| 0 <= i < items.len() implies (#[trigger] items[i]) is Identifier by {
                if i < items.len() - 1 {
                    assert(items.drop_last()[i] == items[i]);
                }
            }
        }
    }
}

/// The identifier texts of a run of values; or the position of the
/// first value that is not an identifier.
fn identifiers_of(items: &[NotaValue]) -> (r: Result<Vec<String>, usize>)
    ensures
        all_identifiers(value_models(items@)) ==> (r matches Ok(v) && v@.len() == items@.len()
            && forall|i: int| 0 <= i < v@.len() ==> (#[trigger] v@[i])@ == identifier_texts(value_models(items@))[i]),
        !all_identifiers(value_models(items@)) ==> (r matches Err(i) && i
            == first_non_identifier(value_models(items@)) && i < items@.len()),
{
    let ghost ms = value_models(items@);
    let mut out: Vec<String> = Vec::new();
    let mut i: usize = 0;
    while i < items.len()
        invariant
            ms == value_models(items@),
            0 <= i <= items@.len(),
            out@.len() == i,
            all_identifiers(ms.take(i as int)),
            forall|k: int| 0 <= k < i ==> (#[trigger] out@[k])@ == ms[k]->Identifier_0,
        decreases items@.len() - i,
    {
        assert(ms[i as int] == items@[i as int].model());
        match items[i].as_identifier() {
            Some(text) => {
                out.push(string_of(text));
                assert(ms.take(i as int + 1).drop_last() =~= ms.take(i as int));
                assert(all_identifiers(ms.take(i as int + 1))) by {
                    assert forall|k: int| 0 <= k < i + 1 implies (#[trigger] ms.take(i as int + 1)[k]) is Identifier by {
                        if k < i {
                            assert(ms.take(i as int)[k] == ms.take(i as int + 1)[k]);
                        }
                    }
                }
            },
            None => {
                proof {
                    let t = ms.take(i as int + 1);
                    assert(t.drop_last() =~= ms.take(i as int));
                    assert(!all_identifiers(t)) by {
                        assert(!(t[i as int] is Identifier));
                    }
                    assert(first_non_identifier(t) == i);
                    lemma_first_non_identifier_prefix(ms, i as int + 1);
                }
                return Err(i);
            },
        }
        i = i + 1;
    }
    proof {
        assert(ms.take(i as int) =~= ms);
    }
    Ok(out)
}

/// Once a prefix holds a non-identifier, the first one stays put.
proof fn lemma_first_non_identifier_prefix(items: Seq<ValueModel>, n: int)
    requires
        0 <= n <= items.len(),
        !all_identifiers(items.take(n)),
    ensures
        !all_identifiers(items),
        first_non_identifier(items) == first_non_identifier(items.take(n)),
    decreases items.len() - n,
{
    if n < items.len() {
        let t = items.take(n + 1);
        assert(t.drop_last() =~= items.take(n));
        assert(!all_identifiers(t)) by {
            let k = choose|k: int| 0 <= k < n && !(items.take(n)[k] is Identifier);
            assert(t[k] == items.take(n)[k]);
        }
        lemma_first_non_identifier_prefix(items, n + 1);
    } else {
        assert(items.take(n) =~= items);
    }
}

// ── Imports ─────────────────────────────────────────────────────────

#[derive(Clone, Copy, Debug, PartialEq, Eq, Structural)]
pub enum ImportKind {
    Import,
    ImportAll,
}

#[derive(Clone, Debug, PartialEq, Eq)]
pub struct IdentifiedImport {
    pub binding: String,
    pub kind: ImportKind,
    pub path: String,
    pub names: Vec<String>,
}

pub struct ImportModel {
    pub binding: Seq<char>,
    pub kind: ImportKind,
    pub path: Seq<char>,
    pub names: Seq<Seq<char>>,
}

pub open spec fn string_views(v: Seq<String>) -> Seq<Seq<char>> {
    Seq::new(v.len(), |i: int| v[i]@)
}

impl IdentifiedImport {
    pub open spec fn model(&self) -> ImportModel {
        ImportModel {
            binding: self.binding@,
            kind: self.kind,
            path: self.path@,
            names: string_views(self.names@),
        }
    }
}

pub open spec fn import_models(v: Seq<IdentifiedImport>) -> Seq<ImportModel> {
    Seq::new(v.len(), |i: int| v[i].model())
}

/// A path given as an identifier or a string.
pub open spec fn path_spec(v: ValueModel) -> Result<Seq<char>, StageError> {
    match v {
        ValueModel::Identifier(t, _) => Ok(t),
        ValueModel::Text(t, _) => Ok(t),
        _ => Err(
            stage_error("pass3"@, "expected identifier or string for path, got "@ + kind_text(v)),
        ),
    }
}

/// The import a directive `(Import path [names])` or `(ImportAll path)`
/// binds under `binding`.
pub open spec fn import_entry_spec(binding: Seq<char>, d: ValueModel) -> Result<ImportModel, StageError> {
    let ctx = "pass3 imports"@;
    match d {
        ValueModel::Record(items, _) => if items.len() == 0 || !(items[0] is Identifier) {
            Err(stage_error(ctx, quoted("binding `"@, binding, "` directive has no head identifier"@)))
        } else {
            let head = items[0]->Identifier_0;
            if head == "Import"@ {
                if items.len() != 3 {
                    Err(stage_error(ctx, quoted("`Import` for binding `"@, binding, "` expected 3 positions, got "@) + decimal_spec(items.len())))
                } else {
                    match path_spec(items[1]) {
                        Err(e) => Err(e),
                        Ok(path) => match items[2] {
                            ValueModel::List(names, _) => if all_identifiers(names) {
                                Ok(ImportModel { binding, kind: ImportKind::Import, path, names: identifier_texts(names) })
                            } else {
                                Err(stage_error(ctx, quoted("`Import` names for `"@, binding, "` must be identifiers"@)))
                            },
                            _ => Err(stage_error(ctx, quoted("`Import` for binding `"@, binding, "` expected a list of names"@))),
                        },
                    }
                }
            } else if head == "ImportAll"@ {
                if items.len() != 2 {
                    Err(stage_error(ctx, quoted("`ImportAll` for binding `"@, binding, "` expected 2 positions, got "@) + decimal_spec(items.len())))
                } else {
                    match path_spec(items[1]) {
                        Err(e) => Err(e),
                        Ok(path) => Ok(ImportModel { binding, kind: ImportKind::ImportAll, path, names: Seq::empty() }),
                    }
                }
            } else {
                Err(stage_error(ctx, quoted("unknown import directive `"@, head, "` for `"@) + binding + "`"@))
            }
        },
        _ => Err(stage_error(ctx, quoted("binding `"@, binding, "` directive must be a record"@))),
    }
}

pub open spec fn entry_keys(entries: Seq<(Seq<char>, ValueModel)>) -> Seq<Seq<char>> {
    Seq::new(entries.len(), |i: int| entries[i].0)
}

/// The imports of the entries of an imports map, in order; a binding
/// seen before is refused.
pub open spec fn imports_spec(entries: Seq<(Seq<char>, ValueModel)>) -> Result<Seq<ImportModel>, StageError>
    decreases entries.len(),
{
    if entries.len() == 0 {
        Ok(Seq::empty())
    } else {
        match imports_spec(entries.drop_last()) {
            Err(e) => Err(e),
            Ok(prev) => {
                let (binding, d) = entries.last();
                if entry_keys(entries.drop_last()).contains(binding) {
                    Err(stage_error("pass3 imports"@, quoted("duplicate import binding `"@, binding, "`"@)))
                } else {
                    match import_entry_spec(binding, d) {
                        Err(e) => Err(e),
                        Ok(m) => Ok(prev.push(m)),
                    }
                }
            },
        }
    }
}

pub open spec fn identify_imports_spec(v: ValueModel) -> Result<Seq<ImportModel>, StageError> {
    match v {
        ValueModel::Mapping(entries, _) => imports_spec(entries),
        _ => Err(stage_error("pass3 imports"@, "imports must be a map"@)),
    }
}

fn identifier_or_string(value: &NotaValue) -> (r: Result<String, Error>)
    ensures
        match path_spec(value.model()) {
            Ok(t) => r matches Ok(s) && s@ == t,
            Err(e) => r matches Err(err) && reports(err, e),
        },
{
    match value {
        NotaValue::Identifier(name, _) => Ok(string_of(name.as_str())),
        NotaValue::String(text, _) => Ok(string_of(text.as_str())),
        _ => {
            let mut message = string_of("expected identifier or string for path, got ");
            message.append(value.kind_name());
            Err(invalid("pass3", message))
        },
    }
}

fn identify_import_entry(binding: &String, directive: &NotaValue) -> (r: Result<IdentifiedImport, Error>)
    ensures
        match import_entry_spec(binding@, directive.model()) {
            Ok(m) => r matches Ok(i) && i.model() == m,
            Err(e) => r matches Err(err) && reports(err, e),
        },
{
    let items = match directive.as_record() {
        Some(items) => items,
        None => {
            return Err(invalid("pass3 imports", text3("binding `", binding.as_str(), "` directive must be a record")));
        },
    };
    let ghost ms = value_models(items@);
    if items.len() == 0 {
        return Err(invalid("pass3 imports", text3("binding `", binding.as_str(), "` directive has no head identifier")));
    }
    assert(ms[0] == items@[0].model());
    let head = match items[0].as_identifier() {
        Some(head) => head,
        None => {
            return Err(invalid("pass3 imports", text3("binding `", binding.as_str(), "` directive has no head identifier")));
        },
    };
    if str_equal(head, "Import") {
        if items.len() != 3 {
            let mut message = text3("`Import` for binding `", binding.as_str(), "` expected 3 positions, got ");
            message.append(decimal_text(items.len()).as_str());
            return Err(invalid("pass3 imports", message));
        }
        assert(ms[1] == items@[1].model());
        assert(ms[2] == items@[2].model());
        let path = match identifier_or_string(&items[1]) {
            Ok(path) => path,
            Err(e) => return Err(e),
        };
        let names_list = match items[2].as_list() {
            Some(list) => list,
            None => {
                return Err(invalid("pass3 imports", text3("`Import` for binding `", binding.as_str(), "` expected a list of names")));
            },
        };
        match identifiers_of(names_list) {
            Ok(names) => {
                let r = IdentifiedImport { binding: string_of(binding.as_str()), kind: ImportKind::Import, path, names };
                assert(string_views(r.names@) =~= identifier_texts(value_models(names_list@)));
                Ok(r)
            },
            Err(_) => Err(invalid("pass3 imports", text3("`Import` names for `", binding.as_str(), "` must be identifiers"))),
        }
    } else if str_equal(head, "ImportAll") {
        if items.len() != 2 {
            let mut message = text3("`ImportAll` for binding `", binding.as_str(), "` expected 2 positions, got ");
            message.append(decimal_text(items.len()).as_str());
            return Err(invalid("pass3 imports", message));
        }
        assert(ms[1] == items@[1].model());
        let path = match identifier_or_string(&items[1]) {
            Ok(path) => path,
            Err(e) => return Err(e),
        };
        let r = IdentifiedImport { binding: string_of(binding.as_str()), kind: ImportKind::ImportAll, path, names: Vec::new() };
        assert(string_views(r.names@) =~= Seq::<Seq<char>>::empty());
        Ok(r)
    } else {
        let mut message = text3("unknown import directive `", head, "` for `");
        message.append(binding.as_str());
        message.append("`");
        Err(invalid("pass3 imports", message))
    }
}

fn key_seen(entries: &[(String, NotaValue)], upto: usize, key: &String) -> (r: bool)
    requires
        upto <= entries@.len(),
    ensures
        r == entry_keys(entry_models(entries@).take(upto as int)).contains(key@),
{
    let ghost keys = entry_keys(entry_models(entries@).take(upto as int));
    let mut i: usize = 0;
    while i < upto
        invariant
            upto <= entries@.len(),
            keys == entry_keys(entry_models(entries@).take(upto as int)),
            0 <= i <= upto,
            forall|k: int| 0 <= k < i ==> keys[k] != key@,
        decreases upto - i,
    {
        assert(keys[i as int] == entries@[i as int].0@);
        if str_equal(entries[i].0.as_str(), key.as_str()) {
            return true;
        }
        i = i + 1;
    }
    false
}

/// The imports of an imports map.
pub fn identify_imports(value: &NotaValue) -> (r: Result<Vec<IdentifiedImport>, Error>)
    ensures
        match identify_imports_spec(value.model()) {
            Ok(ms) => r matches Ok(v) && import_models(v@) == ms,
            Err(e) => r matches Err(err) && reports(err, e),
        },
{
    let entries = match value.as_map() {
        Some(entries) => entries,
        None => return Err(invalid("pass3 imports", string_of("imports must be a map"))),
    };
    let ghost es = entry_models(entries@);
    let mut imports: Vec<IdentifiedImport> = Vec::new();
    let mut i: usize = 0;
    assert(es.take(0) =~= Seq::<(Seq<char>, ValueModel)>::empty());
    assert(import_models(imports@) =~= Seq::<ImportModel>::empty());
    while i < entries.len()
        invariant
            es == entry_models(entries@),
            identify_imports_spec(value.model()) == imports_spec(es),
            0 <= i <= entries@.len(),
            imports_spec(es.take(i as int)) == Ok::<Seq<ImportModel>, StageError>(import_models(imports@)),
        decreases entries@.len() - i,
    {
        let ghost prefix = es.take(i as int + 1);
        proof {
            assert(prefix.drop_last() =~= es.take(i as int));
            assert(prefix.last() == (entries@[i as int].0@, entries@[i as int].1.model()));
        }
        let binding = &entries[i].0;
        if key_seen(entries, i, binding) {
            proof {
                assert(entry_keys(prefix.drop_last()).contains(binding@));
                assert(imports_spec(prefix) == Err::<Seq<ImportModel>, StageError>(stage_error(
                    "pass3 imports"@,
                    quoted("duplicate import binding `"@, binding@, "`"@),
                )));
                lemma_imports_err_prefix(es, i as int + 1);
            }
            return Err(invalid("pass3 imports", text3("duplicate import binding `", binding.as_str(), "`")));
        }
        match identify_import_entry(binding, &entries[i].1) {
            Ok(import) => {
                let ghost before = imports@;
                let ghost im = import.model();
                imports.push(import);
                assert(import_models(imports@) =~= import_models(before).push(im));
            },
            Err(e) => {
                proof {
                    assert(!entry_keys(prefix.drop_last()).contains(binding@));
                    assert(imports_spec(prefix) is Err);
                    lemma_imports_err_prefix(es, i as int + 1);
                }
                return Err(e);
            },
        }
        i = i + 1;
    }
    proof {
        assert(es.take(i as int) =~= es);
    }
    Ok(imports)
}

proof fn lemma_imports_err_prefix(es: Seq<(Seq<char>, ValueModel)>, n: int)
    requires
        0 <= n <= es.len(),
        imports_spec(es.take(n)) is Err,
    ensures
        imports_spec(es) == imports_spec(es.take(n)),
    decreases es.len() - n,
{
    if n < es.len() {
        assert(es.take(n + 1).drop_last() =~= es.take(n));
        lemma_imports_err_prefix(es, n + 1);
    } else {
        assert(es.take(n) =~= es);
    }
}

// ── Header roots ────────────────────────────────────────────────────

#[derive(Clone, Debug, PartialEq, Eq)]
pub struct IdentifiedHeaderRoot {
    pub leg: Leg,
    pub root: String,
    pub endpoints: Vec<String>,
}

pub struct HeaderRootModel {
    pub leg: Leg,
    pub root: Seq<char>,
    pub endpoints: Seq<Seq<char>>,
}

impl IdentifiedHeaderRoot {
    pub open spec fn model(&self) -> HeaderRootModel {
        HeaderRootModel { leg: self.leg, root: self.root@, endpoints: string_views(self.endpoints@) }
    }
}

pub open spec fn root_models(v: Seq<IdentifiedHeaderRoot>) -> Seq<HeaderRootModel> {
    Seq::new(v.len(), |i: int| v[i].model())
}

pub open spec fn leg_text(leg: Leg) -> Seq<char> {
    match leg {
        Leg::Ordinary => "Ordinary"@,
        Leg::Owner => "Owner"@,
        Leg::Sema => "Sema"@,
    }
}

fn leg_name(leg: Leg) -> (r: &'static str)
    ensures
        r@ == leg_text(leg),
{
    match leg {
        Leg::Ordinary => "Ordinary",
        Leg::Owner => "Owner",
        Leg::Sema => "Sema",
    }
}

/// A header root `(Root [Endpoint ...])`.
pub open spec fn root_spec(item: ValueModel, leg: Leg) -> Result<HeaderRootModel, StageError> {
    let ctx = "pass3 header"@;
    match item {
        ValueModel::Record(positions, _) => if positions.len() != 2 {
            Err(stage_error(ctx, "v13 header root requires exactly 2 positions (Root [Endpoints]), got "@ + decimal_spec(positions.len())))
        } else if !(positions[0] is Identifier) {
            Err(stage_error(ctx, "header root must start with an identifier"@))
        } else {
            let root = positions[0]->Identifier_0;
            match positions[1] {
                ValueModel::List(endpoints, _) => if all_identifiers(endpoints) {
                    Ok(HeaderRootModel { leg, root, endpoints: identifier_texts(endpoints) })
                } else {
                    Err(stage_error(ctx, quoted("endpoints under `"@, root, "` must be identifiers, got "@) + kind_text(endpoints[first_non_identifier(endpoints)])))
                },
                _ => Err(stage_error(ctx, quoted("header root `"@, root, "` requires a list of endpoints (v13 shape)"@))),
            }
        },
        _ => Err(stage_error(ctx, "header root must be a record, got "@ + kind_text(item))),
    }
}

pub open spec fn roots_spec(items: Seq<ValueModel>, leg: Leg) -> Result<Seq<HeaderRootModel>, StageError>
    decreases items.len(),
{
    if items.len() == 0 {
        Ok(Seq::empty())
    } else {
        match roots_spec(items.drop_last(), leg) {
            Err(e) => Err(e),
            Ok(prev) => match root_spec(items.last(), leg) {
                Err(e) => Err(e),
                Ok(m) => Ok(prev.push(m)),
            },
        }
    }
}

pub open spec fn identify_header_spec(v: ValueModel, leg: Leg) -> Result<Seq<HeaderRootModel>, StageError> {
    match v {
        ValueModel::List(items, _) => roots_spec(items, leg),
        _ => Err(stage_error("pass3 header"@, "header for "@ + leg_text(leg) + " must be a list"@)),
    }
}

fn identify_root(item: &NotaValue, leg: Leg) -> (r: Result<IdentifiedHeaderRoot, Error>)
    ensures
        match root_spec(item.model(), leg) {
            Ok(m) => r matches Ok(x) && x.model() == m,
            Err(e) => r matches Err(err) && reports(err, e),
        },
{
    let positions = match item.as_record() {
        Some(p) => p,
        None => {
            let mut message = string_of("header root must be a record, got ");
            message.append(item.kind_name());
            return Err(invalid("pass3 header", message));
        },
    };
    let ghost ms = value_models(positions@);
    if positions.len() != 2 {
        let mut message = string_of("v13 header root requires exactly 2 positions (Root [Endpoints]), got ");
        message.append(decimal_text(positions.len()).as_str());
        return Err(invalid("pass3 header", message));
    }
    assert(ms[0] == positions@[0].model());
    assert(ms[1] == positions@[1].model());
    let root = match positions[0].as_identifier() {
        Some(root) => root,
        None => return Err(invalid("pass3 header", string_of("header root must start with an identifier"))),
    };
    let endpoint_list = match positions[1].as_list() {
        Some(list) => list,
        None => {
            return Err(invalid("pass3 header", text3("header root `", root, "` requires a list of endpoints (v13 shape)")));
        },
    };
    match identifiers_of(endpoint_list) {
        Ok(endpoints) => {
            let r = IdentifiedHeaderRoot { leg, root: string_of(root), endpoints };
            assert(string_views(r.endpoints@) =~= identifier_texts(value_models(endpoint_list@)));
            Ok(r)
        },
        Err(index) => {
            assert(value_models(endpoint_list@)[index as int] == endpoint_list@[index as int].model());
            let mut message = text3("endpoints under `", root, "` must be identifiers, got ");
            message.append(endpoint_list[index].kind_name());
            Err(invalid("pass3 header", message))
        },
    }
}

proof fn lemma_roots_err_prefix(items: Seq<ValueModel>, leg: Leg, n: int)
    requires
        0 <= n <= items.len(),
        roots_spec(items.take(n), leg) is Err,
    ensures
        roots_spec(items, leg) == roots_spec(items.take(n), leg),
    decreases items.len() - n,
{
    if n < items.len() {
        assert(items.take(n + 1).drop_last() =~= items.take(n));
        lemma_roots_err_prefix(items, leg, n + 1);
    } else {
        assert(items.take(n) =~= items);
    }
}

/// The header roots of one leg's header list.
pub fn identify_header(value: &NotaValue, leg: Leg) -> (r: Result<Vec<IdentifiedHeaderRoot>, Error>)
    ensures
        match identify_header_spec(value.model(), leg) {
            Ok(ms) => r matches Ok(v) && root_models(v@) == ms,
            Err(e) => r matches Err(err) && reports(err, e),
        },
{
    let items = match value.as_list() {
        Some(items) => items,
        None => return Err(invalid("pass3 header", text3("header for ", leg_name(leg), " must be a list"))),
    };
    let ghost ms = value_models(items@);
    let mut roots: Vec<IdentifiedHeaderRoot> = Vec::new();
    let mut i: usize = 0;
    assert(ms.take(0) =~= Seq::<ValueModel>::empty());
    assert(root_models(roots@) =~= Seq::<HeaderRootModel>::empty());
    while i < items.len()
        invariant
            ms == value_models(items@),
            identify_header_spec(value.model(), leg) == roots_spec(ms, leg),
            0 <= i <= items@.len(),
            roots_spec(ms.take(i as int), leg) == Ok::<Seq<HeaderRootModel>, StageError>(root_models(roots@)),
        decreases items@.len() - i,
    {
        proof {
            assert(ms.take(i as int + 1).drop_last() =~= ms.take(i as int));
            assert(ms.take(i as int + 1).last() == items@[i as int].model());
        }
        match identify_root(&items[i], leg) {
            Ok(root) => {
                let ghost before = roots@;
                let ghost rm = root.model();
                roots.push(root);
                assert(root_models(roots@) =~= root_models(before).push(rm));
            },
            Err(e) => {
                proof {
                    lemma_roots_err_prefix(ms, leg, i as int + 1);
                }
                return Err(e);
            },
        }
        i = i + 1;
    }
    proof {
        assert(ms.take(i as int) =~= ms);
    }
    Ok(roots)
}

// ── Namespace types ─────────────────────────────────────────────────

#[derive(Clone, Debug, PartialEq, Eq)]
pub struct IdentifiedVariant {
    pub name: String,
    pub fields: Vec<NotaValue>,
}

#[derive(Clone, Debug, PartialEq, Eq)]
pub enum IdentifiedTypeBody {
    Enum(Vec<IdentifiedVariant>),
    Record(Vec<NotaValue>),
    Newtype(NotaValue),
    Alias(NotaValue),
}

#[derive(Clone, Debug, PartialEq, Eq)]
pub struct IdentifiedType {
    pub name: String,
    pub body: IdentifiedTypeBody,
}

pub struct VariantShape {
    pub name: Seq<char>,
    pub fields: Seq<ValueModel>,
}

pub enum BodyShape {
    Enum(Seq<VariantShape>),
    Record(Seq<ValueModel>),
    Newtype(ValueModel),
    Alias(ValueModel),
}

pub struct TypeShape {
    pub name: Seq<char>,
    pub body: BodyShape,
}

impl IdentifiedVariant {
    pub open spec fn model(&self) -> VariantShape {
        VariantShape { name: self.name@, fields: value_models(self.fields@) }
    }
}

pub open spec fn variant_shapes(v: Seq<IdentifiedVariant>) -> Seq<VariantShape> {
    Seq::new(v.len(), |i: int| v[i].model())
}

impl IdentifiedTypeBody {
    pub open spec fn model(&self) -> BodyShape {
        match self {
            IdentifiedTypeBody::Enum(vs) => BodyShape::Enum(variant_shapes(vs@)),
            IdentifiedTypeBody::Record(items) => BodyShape::Record(value_models(items@)),
            IdentifiedTypeBody::Newtype(v) => BodyShape::Newtype(v.model()),
            IdentifiedTypeBody::Alias(v) => BodyShape::Alias(v.model()),
        }
    }
}

impl IdentifiedType {
    pub open spec fn model(&self) -> TypeShape {
        TypeShape { name: self.name@, body: self.body.model() }
    }
}

pub open spec fn type_shapes(v: Seq<IdentifiedType>) -> Seq<TypeShape> {
    Seq::new(v.len(), |i: int| v[i].model())
}

/// A variant: a bare identifier is a unit variant, `(Name fields...)` a
/// variant carrying the rest of the record.
pub open spec fn variant_spec(owner: Seq<char>, item: ValueModel) -> Result<VariantShape, StageError> {
    let ctx = "pass3 namespace"@;
    match item {
        ValueModel::Identifier(name, _) => Ok(VariantShape { name, fields: Seq::empty() }),
        ValueModel::Record(items, _) => if items.len() > 0 && items[0] is Identifier {
            Ok(VariantShape { name: items[0]->Identifier_0, fields: items.subrange(1, items.len() as int) })
        } else {
            Err(stage_error(ctx, quoted("data-carrying variant under `"@, owner, "` must start with an identifier"@)))
        },
        _ => Err(stage_error(ctx, quoted("variant under `"@, owner, "` must be identifier or record, got "@) + kind_text(item))),
    }
}

pub open spec fn variants_spec(owner: Seq<char>, items: Seq<ValueModel>) -> Result<Seq<VariantShape>, StageError>
    decreases items.len(),
{
    if items.len() == 0 {
        Ok(Seq::empty())
    } else {
        match variants_spec(owner, items.drop_last()) {
            Err(e) => Err(e),
            Ok(prev) => match variant_spec(owner, items.last()) {
                Err(e) => Err(e),
                Ok(v) => Ok(prev.push(v)),
            },
        }
    }
}

/// A namespace body: a list is an enum, a one-item record a newtype, a
/// longer record a struct, an identifier an alias.
pub open spec fn type_spec(name: Seq<char>, body: ValueModel) -> Result<TypeShape, StageError> {
    let ctx = "pass3 namespace"@;
    match body {
        ValueModel::List(items, _) => match variants_spec(name, items) {
            Err(e) => Err(e),
            Ok(vs) => Ok(TypeShape { name, body: BodyShape::Enum(vs) }),
        },
        ValueModel::Record(items, _) => if items.len() == 0 {
            Err(stage_error(ctx, quoted("namespace record `"@, name, "` must carry at least one type expression"@)))
        } else if items.len() == 1 {
            Ok(TypeShape { name, body: BodyShape::Newtype(items[0]) })
        } else {
            Ok(TypeShape { name, body: BodyShape::Record(items) })
        },
        ValueModel::Identifier(_, _) => Ok(TypeShape { name, body: BodyShape::Alias(body) }),
        _ => Err(stage_error(ctx, quoted("namespace value `"@, name, "` has unsupported shape "@) + kind_text(body))),
    }
}

pub open spec fn types_spec(entries: Seq<(Seq<char>, ValueModel)>) -> Result<Seq<TypeShape>, StageError>
    decreases entries.len(),
{
    if entries.len() == 0 {
        Ok(Seq::empty())
    } else {
        match types_spec(entries.drop_last()) {
            Err(e) => Err(e),
            Ok(prev) => match type_spec(entries.last().0, entries.last().1) {
                Err(e) => Err(e),
                Ok(t) => Ok(prev.push(t)),
            },
        }
    }
}

pub open spec fn identify_types_spec(v: ValueModel) -> Result<Seq<TypeShape>, StageError> {
    match v {
        ValueModel::Mapping(entries, _) => types_spec(entries),
        _ => Err(stage_error("pass3 namespace"@, "namespace must be a map"@)),
    }
}

fn identify_variant(owner: &String, item: &NotaValue) -> (r: Result<IdentifiedVariant, Error>)
    ensures
        match variant_spec(owner@, item.model()) {
            Ok(m) => r matches Ok(x) && x.model() == m,
            Err(e) => r matches Err(err) && reports(err, e),
        },
{
    match item {
        NotaValue::Identifier(name, _) => {
            let r = IdentifiedVariant { name: string_of(name.as_str()), fields: Vec::new() };
            assert(value_models(r.fields@) =~= Seq::<ValueModel>::empty());
            Ok(r)
        },
        NotaValue::Record(items, _) => {
            let ghost ms = value_models(items@);
            assert(item.model()->Record_0 =~= ms);
            if items.len() == 0 {
                return Err(invalid("pass3 namespace", text3("data-carrying variant under `", owner.as_str(), "` must start with an identifier")));
            }
            assert(ms[0] == items@[0].model());
            match items[0].as_identifier() {
                Some(head) => {
                    let fields = duplicate_values_from(items.as_slice(), 1);
                    let r = IdentifiedVariant { name: string_of(head), fields };
                    assert(value_models(items@.subrange(1, items@.len() as int)) =~= ms.subrange(1, ms.len() as int));
                    Ok(r)
                },
                None => Err(invalid("pass3 namespace", text3("data-carrying variant under `", owner.as_str(), "` must start with an identifier"))),
            }
        },
        _ => {
            let mut message = text3("variant under `", owner.as_str(), "` must be identifier or record, got ");
            message.append(item.kind_name());
            Err(invalid("pass3 namespace", message))
        },
    }
}

proof fn lemma_variants_err_prefix(owner: Seq<char>, items: Seq<ValueModel>, n: int)
    requires
        0 <= n <= items.len(),
        variants_spec(owner, items.take(n)) is Err,
    ensures
        variants_spec(owner, items) == variants_spec(owner, items.take(n)),
    decreases items.len() - n,
{
    if n < items.len() {
        assert(items.take(n + 1).drop_last() =~= items.take(n));
        lemma_variants_err_prefix(owner, items, n + 1);
    } else {
        assert(items.take(n) =~= items);
    }
}

fn identify_type(name: &String, body: &NotaValue) -> (r: Result<IdentifiedType, Error>)
    ensures
        match type_spec(name@, body.model()) {
            Ok(m) => r matches Ok(x) && x.model() == m,
            Err(e) => r matches Err(err) && reports(err, e),
        },
{
    match body {
        NotaValue::List(items, _) => {
            let ghost ms = value_models(items@);
            assert(body.model()->List_0 =~= ms);
            let mut variants: Vec<IdentifiedVariant> = Vec::new();
            let mut i: usize = 0;
            assert(ms.take(0) =~= Seq::<ValueModel>::empty());
            assert(variant_shapes(variants@) =~= Seq::<VariantShape>::empty());
            while i < items.len()
                invariant
                    ms == value_models(items@),
                    body.model() is List,
                    body.model()->List_0 == ms,
                    0 <= i <= items@.len(),
                    variants_spec(name@, ms.take(i as int)) == Ok::<Seq<VariantShape>, StageError>(variant_shapes(variants@)),
                decreases items@.len() - i,
            {
                proof {
                    assert(ms.take(i as int + 1).drop_last() =~= ms.take(i as int));
                    assert(ms.take(i as int + 1).last() == items@[i as int].model());
                }
                match identify_variant(name, &items[i]) {
                    Ok(v) => {
                        let ghost before = variants@;
                        let ghost vm = v.model();
                        variants.push(v);
                        assert(variant_shapes(variants@) =~= variant_shapes(before).push(vm));
                    },
                    Err(e) => {
                        proof {
                            lemma_variants_err_prefix(name@, ms, i as int + 1);
                        }
                        return Err(e);
                    },
                }
                i = i + 1;
            }
            proof {
                assert(ms.take(i as int) =~= ms);
            }
            Ok(IdentifiedType { name: string_of(name.as_str()), body: IdentifiedTypeBody::Enum(variants) })
        },
        NotaValue::Record(items, _) => {
            let ghost ms = value_models(items@);
            assert(body.model()->Record_0 =~= ms);
            if items.len() == 0 {
                return Err(invalid("pass3 namespace", text3("namespace record `", name.as_str(), "` must carry at least one type expression")));
            }
            if items.len() == 1 {
                assert(ms[0] == items@[0].model());
                return Ok(IdentifiedType { name: string_of(name.as_str()), body: IdentifiedTypeBody::Newtype(items[0].duplicate()) });
            }
            let copies = duplicate_values(items.as_slice());
            Ok(IdentifiedType { name: string_of(name.as_str()), body: IdentifiedTypeBody::Record(copies) })
        },
        NotaValue::Identifier(_, _) => {
            Ok(IdentifiedType { name: string_of(name.as_str()), body: IdentifiedTypeBody::Alias(body.duplicate()) })
        },
        _ => {
            let mut message = text3("namespace value `", name.as_str(), "` has unsupported shape ");
            message.append(body.kind_name());
            Err(invalid("pass3 namespace", message))
        },
    }
}

proof fn lemma_types_err_prefix(es: Seq<(Seq<char>, ValueModel)>, n: int)
    requires
        0 <= n <= es.len(),
        types_spec(es.take(n)) is Err,
    ensures
        types_spec(es) == types_spec(es.take(n)),
    decreases es.len() - n,
{
    if n < es.len() {
        assert(es.take(n + 1).drop_last() =~= es.take(n));
        lemma_types_err_prefix(es, n + 1);
    } else {
        assert(es.take(n) =~= es);
    }
}

/// The types of a namespace map, in order.
pub fn identify_types(value: &NotaValue) -> (r: Result<Vec<IdentifiedType>, Error>)
    ensures
        match identify_types_spec(value.model()) {
            Ok(ms) => r matches Ok(v) && type_shapes(v@) == ms,
            Err(e) => r matches Err(err) && reports(err, e),
        },
{
    let entries = match value.as_map() {
        Some(entries) => entries,
        None => return Err(invalid("pass3 namespace", string_of("namespace must be a map"))),
    };
    let ghost es = entry_models(entries@);
    let mut types: Vec<IdentifiedType> = Vec::new();
    let mut i: usize = 0;
    assert(es.take(0) =~= Seq::<(Seq<char>, ValueModel)>::empty());
    assert(type_shapes(types@) =~= Seq::<TypeShape>::empty());
    while i < entries.len()
        invariant
            es == entry_models(entries@),
            identify_types_spec(value.model()) == types_spec(es),
            0 <= i <= entries@.len(),
            types_spec(es.take(i as int)) == Ok::<Seq<TypeShape>, StageError>(type_shapes(types@)),
        decreases entries@.len() - i,
    {
        proof {
            assert(es.take(i as int + 1).drop_last() =~= es.take(i as int));
            assert(es.take(i as int + 1).last() == (entries@[i as int].0@, entries@[i as int].1.model()));
        }
        match identify_type(&entries[i].0, &entries[i].1) {
            Ok(t) => {
                let ghost before = types@;
                let ghost tm = t.model();
                types.push(t);
                assert(type_shapes(types@) =~= type_shapes(before).push(tm));
            },
            Err(e) => {
                proof {
                    lemma_types_err_prefix(es, i as int + 1);
                }
                return Err(e);
            },
        }
        i = i + 1;
    }
    proof {
        assert(es.take(i as int) =~= es);
    }
    Ok(types)
}

// ── Features ────────────────────────────────────────────────────────

#[derive(Clone, Debug, PartialEq, Eq)]
pub enum IdentifiedFeature {
    Reply(Vec<String>),
    Event { stream: Option<String>, events: Vec<String> },
    Observable {
        filter: Option<String>,
        operation_event: Option<String>,
        effect_event: Option<String>,
    },
    Upgrade(NotaValue),
}

pub enum FeatureShape {
    Reply(Seq<Seq<char>>),
    Event(Option<Seq<char>>, Seq<Seq<char>>),
    Observable(Option<Seq<char>>, Option<Seq<char>>, Option<Seq<char>>),
    Upgrade(ValueModel),
}

pub open spec fn option_view(o: Option<String>) -> Option<Seq<char>> {
    match o {
        Some(s) => Some(s@),
        None => None,
    }
}

impl IdentifiedFeature {
    pub open spec fn model(&self) -> FeatureShape {
        match self {
            IdentifiedFeature::Reply(names) => FeatureShape::Reply(string_views(names@)),
            IdentifiedFeature::Event { stream, events } => FeatureShape::Event(
                option_view(*stream),
                string_views(events@),
            ),
            IdentifiedFeature::Observable { filter, operation_event, effect_event } => FeatureShape::Observable(
                option_view(*filter),
                option_view(*operation_event),
                option_view(*effect_event),
            ),
            IdentifiedFeature::Upgrade(v) => FeatureShape::Upgrade(v.model()),
        }
    }
}

pub open spec fn feature_shapes(v: Seq<IdentifiedFeature>) -> Seq<FeatureShape> {
    Seq::new(v.len(), |i: int| v[i].model())
}

/// The optional `(belongs Stream)` sub-record of an event feature, and
/// where its event names start.
pub open spec fn event_stream_spec(positions: Seq<ValueModel>) -> Result<(Option<Seq<char>>, int), StageError> {
    if positions.len() > 1 && positions[1] is Record {
        let ri = positions[1]->Record_0;
        let head = if ri.len() > 0 && ri[0] is Identifier {
            Some(ri[0]->Identifier_0)
        } else if ri.len() > 0 && ri[0] is Text {
            Some(ri[0]->Text_0)
        } else {
            None
        };
        if head == Some("belongs"@) {
            if ri.len() > 1 && ri[1] is Identifier {
                Ok((Some(ri[1]->Identifier_0), 2))
            } else {
                Err(stage_error("pass3 features"@, "`(belongs <name>)` requires an identifier"@))
            }
        } else {
            Ok((None, 1))
        }
    } else {
        Ok((None, 1))
    }
}

pub struct ObservableState {
    pub filter: Option<Seq<char>>,
    pub operation_event: Option<Seq<char>>,
    pub effect_event: Option<Seq<char>>,
}

/// One `(key value)` field of an observable feature; a later field with
/// the same key replaces an earlier one.
pub open spec fn observable_step(st: ObservableState, field: ValueModel) -> Result<ObservableState, StageError> {
    let ctx = "pass3 features"@;
    match field {
        ValueModel::Record(fi, _) => if !(fi.len() > 0 && fi[0] is Identifier) {
            Err(stage_error(ctx, "Observable field needs key"@))
        } else {
            let key = fi[0]->Identifier_0;
            let has_value = fi.len() > 1 && fi[1] is Identifier;
            let value = fi[1]->Identifier_0;
            if key == "filter"@ {
                if has_value {
                    Ok(ObservableState { filter: Some(value), ..st })
                } else {
                    Err(stage_error(ctx, "filter value must be identifier"@))
                }
            } else if key == "operation_event"@ {
                if has_value {
                    Ok(ObservableState { operation_event: Some(value), ..st })
                } else {
                    Err(stage_error(ctx, "operation_event value must be identifier"@))
                }
            } else if key == "effect_event"@ {
                if has_value {
                    Ok(ObservableState { effect_event: Some(value), ..st })
                } else {
                    Err(stage_error(ctx, "effect_event value must be identifier"@))
                }
            } else {
                Err(stage_error(ctx, quoted("unknown Observable field `"@, key, "`"@)))
            }
        },
        _ => Err(stage_error(ctx, "Observable field must be a record"@)),
    }
}

pub open spec fn observable_spec(fields: Seq<ValueModel>) -> Result<ObservableState, StageError>
    decreases fields.len(),
{
    if fields.len() == 0 {
        Ok(ObservableState { filter: None, operation_event: None, effect_event: None })
    } else {
        match observable_spec(fields.drop_last()) {
            Err(e) => Err(e),
            Ok(st) => observable_step(st, fields.last()),
        }
    }
}

/// A feature record, classified by its head identifier.
pub open spec fn feature_spec(item: ValueModel) -> Result<FeatureShape, StageError> {
    let ctx = "pass3 features"@;
    match item {
        ValueModel::Record(positions, _) => if !(positions.len() > 0 && positions[0] is Identifier) {
            Err(stage_error(ctx, "feature record must start with an identifier"@))
        } else {
            let head = positions[0]->Identifier_0;
            let rest = positions.subrange(1, positions.len() as int);
            if head == "Reply"@ {
                if all_identifiers(rest) {
                    Ok(FeatureShape::Reply(identifier_texts(rest)))
                } else {
                    Err(stage_error(ctx, "Reply payload must be identifiers"@))
                }
            } else if head == "Event"@ {
                match event_stream_spec(positions) {
                    Err(e) => Err(e),
                    Ok((stream, start)) => {
                        let events = positions.subrange(start, positions.len() as int);
                        if all_identifiers(events) {
                            Ok(FeatureShape::Event(stream, identifier_texts(events)))
                        } else {
                            Err(stage_error(ctx, "Event names must be identifiers"@))
                        }
                    },
                }
            } else if head == "Observable"@ {
                match observable_spec(rest) {
                    Err(e) => Err(e),
                    Ok(st) => Ok(FeatureShape::Observable(st.filter, st.operation_event, st.effect_event)),
                }
            } else if head == "Upgrade"@ {
                Ok(FeatureShape::Upgrade(item))
            } else {
                Err(stage_error(ctx, quoted("unknown feature `"@, head, "`"@)))
            }
        },
        _ => Err(stage_error(ctx, "feature must be a record, got "@ + kind_text(item))),
    }
}

pub open spec fn features_spec(items: Seq<ValueModel>) -> Result<Seq<FeatureShape>, StageError>
    decreases items.len(),
{
    if items.len() == 0 {
        Ok(Seq::empty())
    } else {
        match features_spec(items.drop_last()) {
            Err(e) => Err(e),
            Ok(prev) => match feature_spec(items.last()) {
                Err(e) => Err(e),
                Ok(f) => Ok(prev.push(f)),
            },
        }
    }
}

pub open spec fn identify_features_spec(v: ValueModel) -> Result<Seq<FeatureShape>, StageError> {
    match v {
        ValueModel::List(items, _) => features_spec(items),
        _ => Err(stage_error("pass3 features"@, "features must be a list"@)),
    }
}

fn event_stream(positions: &[NotaValue]) -> (r: Result<(Option<String>, usize), Error>)
    ensures
        match event_stream_spec(value_models(positions@)) {
            Ok((stream, start)) => r matches Ok((s, k)) && option_view(s) == stream && k == start,
            Err(e) => r matches Err(err) && reports(err, e),
        },
{
    let ghost ms = value_models(positions@);
    if positions.len() > 1 {
        assert(ms[1] == positions@[1].model());
        if let Some(record_items) = positions[1].as_record() {
            let ghost ri = value_models(record_items@);
            let head: Option<&str> = if record_items.len() > 0 {
                assert(ri[0] == record_items@[0].model());
                match &record_items[0] {
                    NotaValue::Identifier(text, _) => Some(text.as_str()),
                    NotaValue::String(text, _) => Some(text.as_str()),
                    _ => None,
                }
            } else {
                None
            };
            let is_belongs = match head {
                Some(h) => str_equal(h, "belongs"),
                None => false,
            };
            if is_belongs {
                if record_items.len() > 1 {
                    assert(ri[1] == record_items@[1].model());
                    if let Some(name) = record_items[1].as_identifier() {
                        return Ok((Some(string_of(name)), 2));
                    }
                }
                return Err(invalid("pass3 features", string_of("`(belongs <name>)` requires an identifier")));
            }
            return Ok((None, 1));
        }
    }
    Ok((None, 1))
}

fn observable_fields(fields: &[NotaValue], from: usize) -> (r: Result<(Option<String>, Option<String>, Option<String>), Error>)
    requires
        from <= fields@.len(),
    ensures
        match observable_spec(value_models(fields@).subrange(from as int, fields@.len() as int)) {
            Ok(st) => r matches Ok((f, o, e)) && option_view(f) == st.filter && option_view(o)
                == st.operation_event && option_view(e) == st.effect_event,
            Err(e) => r matches Err(err) && reports(err, e),
        },
{
    let ghost ms = value_models(fields@).subrange(from as int, fields@.len() as int);
    let mut filter: Option<String> = None;
    let mut operation_event: Option<String> = None;
    let mut effect_event: Option<String> = None;
    let mut i: usize = from;
    assert(ms.take(0) =~= Seq::<ValueModel>::empty());
    while i < fields.len()
        invariant
            from <= i <= fields@.len(),
            ms == value_models(fields@).subrange(from as int, fields@.len() as int),
            observable_spec(ms.take(i - from)) == Ok::<ObservableState, StageError>(ObservableState {
                filter: option_view(filter),
                operation_event: option_view(operation_event),
                effect_event: option_view(effect_event),
            }),
        decreases fields@.len() - i,
    {
        let ghost k = i - from;
        proof {
            assert(ms.take(k + 1).drop_last() =~= ms.take(k));
            assert(ms.take(k + 1).last() == fields@[i as int].model());
        }
        let field_items = match fields[i].as_record() {
            Some(items) => items,
            None => {
                proof { lemma_observable_err_prefix(ms, k + 1); }
                return Err(invalid("pass3 features", string_of("Observable field must be a record")));
            },
        };
        let ghost fi = value_models(field_items@);
        let key = if field_items.len() > 0 {
            assert(fi[0] == field_items@[0].model());
            field_items[0].as_identifier()
        } else {
            None
        };
        let key = match key {
            Some(key) => key,
            None => {
                proof { lemma_observable_err_prefix(ms, k + 1); }
                return Err(invalid("pass3 features", string_of("Observable field needs key")));
            },
        };
        let value: Option<&str> = if field_items.len() > 1 {
            assert(fi[1] == field_items@[1].model());
            field_items[1].as_identifier()
        } else {
            None
        };
        if str_equal(key, "filter") {
            match value {
                Some(v) => filter = Some(string_of(v)),
                None => {
                    proof { lemma_observable_err_prefix(ms, k + 1); }
                    return Err(invalid("pass3 features", string_of("filter value must be identifier")));
                },
            }
        } else if str_equal(key, "operation_event") {
            match value {
                Some(v) => operation_event = Some(string_of(v)),
                None => {
                    proof { lemma_observable_err_prefix(ms, k + 1); }
                    return Err(invalid("pass3 features", string_of("operation_event value must be identifier")));
                },
            }
        } else if str_equal(key, "effect_event") {
            match value {
                Some(v) => effect_event = Some(string_of(v)),
                None => {
                    proof { lemma_observable_err_prefix(ms, k + 1); }
                    return Err(invalid("pass3 features", string_of("effect_event value must be identifier")));
                },
            }
        } else {
            proof { lemma_observable_err_prefix(ms, k + 1); }
            return Err(invalid("pass3 features", text3("unknown Observable field `", key, "`")));
        }
        i = i + 1;
    }
    proof {
        assert(ms.take(i - from) =~= ms);
    }
    Ok((filter, operation_event, effect_event))
}

proof fn lemma_observable_err_prefix(fields: Seq<ValueModel>, n: int)
    requires
        0 <= n <= fields.len(),
        observable_spec(fields.take(n)) is Err,
    ensures
        observable_spec(fields) == observable_spec(fields.take(n)),
    decreases fields.len() - n,
{
    if n < fields.len() {
        assert(fields.take(n + 1).drop_last() =~= fields.take(n));
        lemma_observable_err_prefix(fields, n + 1);
    } else {
        assert(fields.take(n) =~= fields);
    }
}

fn identifiers_from(items: &[NotaValue], from: usize) -> (r: Result<Vec<String>, usize>)
    requires
        from <= items@.len(),
    ensures
        ({
            let rest = value_models(items@).subrange(from as int, items@.len() as int);
            &&& all_identifiers(rest) ==> (r matches Ok(v) && string_views(v@) == identifier_texts(rest))
            &&& !all_identifiers(rest) ==> r is Err
        }),
{
    let ghost rest = value_models(items@).subrange(from as int, items@.len() as int);
    let mut out: Vec<String> = Vec::new();
    let mut i: usize = from;
    while i < items.len()
        invariant
            from <= i <= items@.len(),
            rest == value_models(items@).subrange(from as int, items@.len() as int),
            forall|k: int| 0 <= k < i - from ==> (#[trigger] rest[k]) is Identifier,
            string_views(out@) == identifier_texts(rest.take(i - from)),
        decreases items@.len() - i,
    {
        assert(rest[i - from] == items@[i as int].model());
        match items[i].as_identifier() {
            Some(text) => {
                let ghost before = out@;
                let owned = string_of(text);
                let ghost t = owned@;
                assert(t == rest[i - from]->Identifier_0);
                out.push(owned);
                assert(out@ == before.push(owned));
                assert(string_views(out@) =~= string_views(before).push(t));
                assert(rest.take(i - from + 1) =~= rest.take(i - from).push(rest[i - from]));
                assert(string_views(out@) =~= identifier_texts(rest.take(i - from + 1)));
            },
            None => {
                assert(!all_identifiers(rest)) by {
                    assert(!(rest[i - from] is Identifier));
                }
                return Err(i);
            },
        }
        i = i + 1;
    }
    assert(rest.take(i - from) =~= rest);
    Ok(out)
}

fn identify_feature(item: &NotaValue) -> (r: Result<IdentifiedFeature, Error>)
    ensures
        match feature_spec(item.model()) {
            Ok(m) => r matches Ok(x) && x.model() == m,
            Err(e) => r matches Err(err) && reports(err, e),
        },
{
    let positions = match item.as_record() {
        Some(p) => p,
        None => {
            let mut message = string_of("feature must be a record, got ");
            message.append(item.kind_name());
            return Err(invalid("pass3 features", message));
        },
    };
    let ghost ms = value_models(positions@);
    let head = if positions.len() > 0 {
        assert(ms[0] == positions@[0].model());
        positions[0].as_identifier()
    } else {
        None
    };
    let head = match head {
        Some(h) => h,
        None => return Err(invalid("pass3 features", string_of("feature record must start with an identifier"))),
    };
    if str_equal(head, "Reply") {
        match identifiers_from(positions, 1) {
            Ok(names) => Ok(IdentifiedFeature::Reply(names)),
            Err(_) => Err(invalid("pass3 features", string_of("Reply payload must be identifiers"))),
        }
    } else if str_equal(head, "Event") {
        let (stream, start) = match event_stream(positions) {
            Ok(found) => found,
            Err(e) => return Err(e),
        };
        match identifiers_from(positions, start) {
            Ok(events) => Ok(IdentifiedFeature::Event { stream, events }),
            Err(_) => Err(invalid("pass3 features", string_of("Event names must be identifiers"))),
        }
    } else if str_equal(head, "Observable") {
        match observable_fields(positions, 1) {
            Ok((filter, operation_event, effect_event)) => Ok(IdentifiedFeature::Observable { filter, operation_event, effect_event }),
            Err(e) => Err(e),
        }
    } else if str_equal(head, "Upgrade") {
        Ok(IdentifiedFeature::Upgrade(item.duplicate()))
    } else {
        Err(invalid("pass3 features", text3("unknown feature `", head, "`")))
    }
}

proof fn lemma_features_err_prefix(items: Seq<ValueModel>, n: int)
    requires
        0 <= n <= items.len(),
        features_spec(items.take(n)) is Err,
    ensures
        features_spec(items) == features_spec(items.take(n)),
    decreases items.len() - n,
{
    if n < items.len() {
        assert(items.take(n + 1).drop_last() =~= items.take(n));
        lemma_features_err_prefix(items, n + 1);
    } else {
        assert(items.take(n) =~= items);
    }
}

/// The features of a features list, in order.
pub fn identify_features(value: &NotaValue) -> (r: Result<Vec<IdentifiedFeature>, Error>)
    ensures
        match identify_features_spec(value.model()) {
            Ok(ms) => r matches Ok(v) && feature_shapes(v@) == ms,
            Err(e) => r matches Err(err) && reports(err, e),
        },
{
    let items = match value.as_list() {
        Some(items) => items,
        None => return Err(invalid("pass3 features", string_of("features must be a list"))),
    };
    let ghost ms = value_models(items@);
    let mut features: Vec<IdentifiedFeature> = Vec::new();
    let mut i: usize = 0;
    assert(ms.take(0) =~= Seq::<ValueModel>::empty());
    assert(feature_shapes(features@) =~= Seq::<FeatureShape>::empty());
    while i < items.len()
        invariant
            ms == value_models(items@),
            identify_features_spec(value.model()) == features_spec(ms),
            0 <= i <= items@.len(),
            features_spec(ms.take(i as int)) == Ok::<Seq<FeatureShape>, StageError>(feature_shapes(features@)),
        decreases items@.len() - i,
    {
        proof {
            assert(ms.take(i as int + 1).drop_last() =~= ms.take(i as int));
            assert(ms.take(i as int + 1).last() == items@[i as int].model());
        }
        match identify_feature(&items[i]) {
            Ok(f) => {
                let ghost before = features@;
                let ghost fm = f.model();
                features.push(f);
                assert(feature_shapes(features@) =~= feature_shapes(before).push(fm));
            },
            Err(e) => {
                proof {
                    lemma_features_err_prefix(ms, i as int + 1);
                }
                return Err(e);
            },
        }
        i = i + 1;
    }
    proof {
        assert(ms.take(i as int) =~= ms);
    }
    Ok(features)
}

// ── Names and the whole document ────────────────────────────────────

/// The declared and imported names of a document.
#[derive(Clone, Debug, Default, PartialEq, Eq)]
pub struct NameTable {
    /// Namespace keys, each once, in order.
    pub locals: Vec<String>,
    /// Import bindings, each once, in order of first appearance.
    pub imported_bindings: Vec<String>,
}

/// A run of texts with repeats dropped, first appearances kept in order.
pub open spec fn dedup_spec(texts: Seq<Seq<char>>) -> Seq<Seq<char>>
    decreases texts.len(),
{
    if texts.len() == 0 {
        Seq::empty()
    } else {
        let prev = dedup_spec(texts.drop_last());
        if prev.contains(texts.last()) {
            prev
        } else {
            prev.push(texts.last())
        }
    }
}

pub struct NamesModel {
    pub locals: Seq<Seq<char>>,
    pub imported: Seq<Seq<char>>,
}

/// The name table: namespace keys (a key declared twice is refused) and
/// the distinct import bindings.
pub open spec fn collect_names_spec(namespace: ValueModel, imports: ValueModel) -> Result<NamesModel, StageError> {
    let locals = match namespace {
        ValueModel::Mapping(entries, _) => entry_keys(entries),
        _ => Seq::empty(),
    };
    let imported = match imports {
        ValueModel::Mapping(entries, _) => dedup_spec(entry_keys(entries)),
        _ => Seq::empty(),
    };
    match first_duplicate(locals) {
        Some(j) => Err(stage_error("pass3 name collection"@, quoted("duplicate declaration `"@, locals[j], "`"@))),
        None => Ok(NamesModel { locals, imported }),
    }
}

impl NameTable {
    pub open spec fn model(&self) -> NamesModel {
        NamesModel { locals: string_views(self.locals@), imported: string_views(self.imported_bindings@) }
    }
}

fn contains_text(v: &Vec<String>, t: &str) -> (r: bool)
    ensures
        r == string_views(v@).contains(t@),
{
    let mut i: usize = 0;
    while i < v.len()
        invariant
            0 <= i <= v@.len(),
            forall|k: int| 0 <= k < i ==> (#[trigger] v@[k])@ != t@,
        decreases v@.len() - i,
    {
        if str_equal(v[i].as_str(), t) {
            assert(string_views(v@)[i as int] == t@);
            return true;
        }
        i = i + 1;
    }
    assert forall|k: int| 0 <= k < string_views(v@).len() implies string_views(v@)[k] != t@ by {
        assert(v@[k]@ != t@);
    }
    false
}

fn collect_names(document: &MultiPassDocument) -> (r: Result<NameTable, Error>)
    ensures
        match collect_names_spec(document.namespace.model(), document.imports.model()) {
            Ok(m) => r matches Ok(t) && t.model() == m,
            Err(e) => r matches Err(err) && reports(err, e),
        },
{
    let mut locals: Vec<String> = Vec::new();
    let ghost keys = match document.namespace.model() {
        ValueModel::Mapping(entries, _) => entry_keys(entries),
        _ => Seq::<Seq<char>>::empty(),
    };
    if let Some(entries) = document.namespace.as_map() {
        let ghost es = entry_models(entries@);
        let mut i: usize = 0;
        while i < entries.len()
            invariant
                es == entry_models(entries@),
                keys == entry_keys(es),
                keys == match document.namespace.model() {
                    ValueModel::Mapping(entries, _) => entry_keys(entries),
                    _ => Seq::<Seq<char>>::empty(),
                },
                0 <= i <= entries@.len(),
                string_views(locals@) == keys.take(i as int),
                first_duplicate(keys.take(i as int)) is None,
            decreases entries@.len() - i,
        {
            let name = &entries[i].0;
            let ghost t = keys.take(i as int + 1);
            proof {
                assert(t.drop_last() =~= keys.take(i as int));
                assert(t.last() == name@);
            }
            if contains_text(&locals, name.as_str()) {
                proof {
                    assert(first_duplicate(t) == Some(i as int));
                    crate::name::lemma_first_duplicate_prefix(keys, i as int + 1);
                    assert(keys[i as int] == name@);
                }
                return Err(invalid("pass3 name collection", text3("duplicate declaration `", name.as_str(), "`")));
            }
            let ghost before = locals@;
            let owned = string_of(name.as_str());
            locals.push(owned);
            assert(string_views(locals@) =~= t);
            i = i + 1;
        }
        proof {
            assert(keys.take(i as int) =~= keys);
        }
    } else {
        assert(string_views(locals@) =~= keys);
    }
    let mut imported: Vec<String> = Vec::new();
    let ghost bindings = match document.imports.model() {
        ValueModel::Mapping(entries, _) => entry_keys(entries),
        _ => Seq::<Seq<char>>::empty(),
    };
    if let Some(entries) = document.imports.as_map() {
        let ghost es = entry_models(entries@);
        let mut i: usize = 0;
        assert(bindings.take(0) =~= Seq::<Seq<char>>::empty());
        assert(string_views(imported@) =~= Seq::<Seq<char>>::empty());
        while i < entries.len()
            invariant
                es == entry_models(entries@),
                bindings == entry_keys(es),
                0 <= i <= entries@.len(),
                string_views(imported@) == dedup_spec(bindings.take(i as int)),
            decreases entries@.len() - i,
        {
            let binding = &entries[i].0;
            let ghost t = bindings.take(i as int + 1);
            proof {
                assert(t.drop_last() =~= bindings.take(i as int));
                assert(t.last() == binding@);
            }
            if !contains_text(&imported, binding.as_str()) {
                let ghost before = imported@;
                let owned = string_of(binding.as_str());
                let ghost bt = owned@;
                imported.push(owned);
                assert(imported@ == before.push(owned));
                assert(string_views(imported@) =~= string_views(before).push(bt));
            }
            i = i + 1;
        }
        proof {
            assert(bindings.take(i as int) =~= bindings);
        }
    } else {
        assert(string_views(imported@) =~= dedup_spec(bindings));
    }
    Ok(NameTable { locals, imported_bindings: imported })
}

/// A classified position of a document.
#[derive(Clone, Debug, PartialEq, Eq)]
pub enum MacroVariantInstance {
    Import(IdentifiedImport),
    HeaderRoot(IdentifiedHeaderRoot),
    Type(IdentifiedType),
    Feature(IdentifiedFeature),
}

/// A document with every position classified.
#[derive(Clone, Debug, PartialEq, Eq)]
pub struct IdentifiedDocument {
    pub imports: Vec<IdentifiedImport>,
    pub ordinary_routes: Vec<IdentifiedHeaderRoot>,
    pub owner_routes: Vec<IdentifiedHeaderRoot>,
    pub sema_routes: Vec<IdentifiedHeaderRoot>,
    pub types: Vec<IdentifiedType>,
    pub features: Vec<IdentifiedFeature>,
    pub name_table: NameTable,
}

pub struct DocumentModel {
    pub imports: Seq<ImportModel>,
    pub ordinary_routes: Seq<HeaderRootModel>,
    pub owner_routes: Seq<HeaderRootModel>,
    pub sema_routes: Seq<HeaderRootModel>,
    pub types: Seq<TypeShape>,
    pub features: Seq<FeatureShape>,
    pub names: NamesModel,
}

impl IdentifiedDocument {
    pub open spec fn model(&self) -> DocumentModel {
        DocumentModel {
            imports: import_models(self.imports@),
            ordinary_routes: root_models(self.ordinary_routes@),
            owner_routes: root_models(self.owner_routes@),
            sema_routes: root_models(self.sema_routes@),
            types: type_shapes(self.types@),
            features: feature_shapes(self.features@),
            names: self.name_table.model(),
        }
    }
}

/// The identification of a whole document: names first, then imports,
/// the three headers, the namespace types and the features; the first
/// failure in that order is reported.
pub open spec fn identify_spec(d: MultiPassDocument) -> Result<DocumentModel, StageError> {
    match collect_names_spec(d.namespace.model(), d.imports.model()) {
        Err(e) => Err(e),
        Ok(names) => match identify_imports_spec(d.imports.model()) {
            Err(e) => Err(e),
            Ok(imports) => match identify_header_spec(d.ordinary_header.model(), Leg::Ordinary) {
                Err(e) => Err(e),
                Ok(ordinary_routes) => match identify_header_spec(d.owner_header.model(), Leg::Owner) {
                    Err(e) => Err(e),
                    Ok(owner_routes) => match identify_header_spec(d.sema_header.model(), Leg::Sema) {
                        Err(e) => Err(e),
                        Ok(sema_routes) => match identify_types_spec(d.namespace.model()) {
                            Err(e) => Err(e),
                            Ok(types) => match identify_features_spec(d.features.model()) {
                                Err(e) => Err(e),
                                Ok(features) => Ok(DocumentModel {
                                    imports,
                                    ordinary_routes,
                                    owner_routes,
                                    sema_routes,
                                    types,
                                    features,
                                    names,
                                }),
                            },
                        },
                    },
                },
            },
        },
    }
}

/// Classify every position of a document.
pub fn identify(document: &MultiPassDocument) -> (r: Result<IdentifiedDocument, Error>)
    ensures
        match identify_spec(*document) {
            Ok(m) => r matches Ok(d) && d.model() == m,
            Err(e) => r matches Err(err) && reports(err, e),
        },
{
    let name_table = match collect_names(document) {
        Ok(t) => t,
        Err(e) => return Err(e),
    };
    let imports = match identify_imports(&document.imports) {
        Ok(v) => v,
        Err(e) => return Err(e),
    };
    let ordinary_routes = match identify_header(&document.ordinary_header, Leg::Ordinary) {
        Ok(v) => v,
        Err(e) => return Err(e),
    };
    let owner_routes = match identify_header(&document.owner_header, Leg::Owner) {
        Ok(v) => v,
        Err(e) => return Err(e),
    };
    let sema_routes = match identify_header(&document.sema_header, Leg::Sema) {
        Ok(v) => v,
        Err(e) => return Err(e),
    };
    let types = match identify_types(&document.namespace) {
        Ok(v) => v,
        Err(e) => return Err(e),
    };
    let features = match identify_features(&document.features) {
        Ok(v) => v,
        Err(e) => return Err(e),
    };
    Ok(IdentifiedDocument { imports, ordinary_routes, owner_routes, sema_routes, types, features, name_table })
}

} // verus!
