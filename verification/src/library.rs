//! A library of assembled schemas: a core schema that is always
//! implicitly available, plus per-component schemas loaded on demand
//! under unique names. Type names resolve in the component first and
//! then fall through to the core.
use vstd::prelude::*;
use vstd::utf8::*;
use vstd::string::*;
use crate::schema::{
    AssembledModel, AssembledSchema, EntryModel, NamespaceEntry, SchemaError, first_entry_named,
    lemma_first_entry_named_result,
    read_assembled_spec, schema_message_spec,
};
use crate::text::{bytes_compare, compare_str, lemma_bytes_compare_antisymmetric,
    lemma_bytes_compare_transitive, lemma_bytes_compare_zero, string_of, str_equal,
};

verus! {

broadcast use vstd::utf8::group_utf8_lib;

#[derive(Debug, PartialEq, Eq)]
pub enum LibraryError {
    Schema(SchemaError),
    NotLoaded { schema_name: String },
    AlreadyLoaded { schema_name: String },
}

impl From<SchemaError> for LibraryError {
    fn from(error: SchemaError) -> (r: Self) {
        LibraryError::Schema(error)
    }
}

impl vstd::std_specs::convert::FromSpecImpl<SchemaError> for LibraryError {
    open spec fn obeys_from_spec() -> bool {
        true
    }

    open spec fn from_spec(v: SchemaError) -> Self {
        LibraryError::Schema(v)
    }
}

/// The human-readable text of a library error.
pub open spec fn library_message_spec(e: LibraryError) -> Seq<char> {
    match e {
        LibraryError::Schema(error) => "schema: "@ + schema_message_spec(error),
        LibraryError::NotLoaded { schema_name } => "schema `"@ + schema_name@ + "` not loaded"@,
        LibraryError::AlreadyLoaded { schema_name } => "schema `"@ + schema_name@
            + "` already loaded"@,
    }
}

impl LibraryError {
    /// The human-readable text of this error.
    pub fn message(&self) -> (r: String)
        ensures
            r@ == library_message_spec(*self),
    {
        match self {
            LibraryError::Schema(error) => {
                let mut s = string_of("schema: ");
                s.append(error.message().as_str());
                s
            },
            LibraryError::NotLoaded { schema_name } => {
                let mut s = string_of("schema `");
                s.append(schema_name.as_str());
                s.append("` not loaded");
                s
            },
            LibraryError::AlreadyLoaded { schema_name } => {
                let mut s = string_of("schema `");
                s.append(schema_name.as_str());
                s.append("` already loaded");
                s
            },
        }
    }
}

/// The sort key of a schema name: its UTF-8 bytes.
pub open spec fn name_key(name: Seq<char>) -> Seq<u8> {
    encode_utf8(name)
}

/// A library: the core schema plus the loaded schemas, kept sorted by
/// name with no name twice.
pub struct Library {
    core: AssembledSchema,
    loaded: Vec<(String, AssembledSchema)>,
}

/// Whether names are strictly increasing in byte order.
pub open spec fn strictly_sorted(names: Seq<Seq<char>>) -> bool {
    forall|i: int, j: int|
        0 <= i < j < names.len() ==> bytes_compare(
            name_key(#[trigger] names[i]),
            name_key(#[trigger] names[j]),
        ) < 0
}

/// Position of the first occurrence of `name` in a list of names.
pub open spec fn position_of(names: Seq<Seq<char>>, name: Seq<char>) -> Option<int>
    decreases names.len(),
{
    if names.len() == 0 {
        None
    } else if names[0] == name {
        Some(0)
    } else {
        match position_of(names.drop_first(), name) {
            Some(i) => Some(i + 1),
            None => None,
        }
    }
}

proof fn lemma_position_of_first(names: Seq<Seq<char>>, name: Seq<char>, i: int)
    requires
        0 <= i < names.len(),
        names[i] == name,
        forall|j: int| 0 <= j < i ==> names[j] != name,
    ensures
        position_of(names, name) == Some(i),
    decreases names.len(),
{
    if i > 0 {
        assert(names[0] != name);
        lemma_position_of_first(names.drop_first(), name, i - 1);
    }
}

proof fn lemma_position_of_absent(names: Seq<Seq<char>>, name: Seq<char>)
    requires
        forall|j: int| 0 <= j < names.len() ==> names[j] != name,
    ensures
        position_of(names, name) is None,
    decreases names.len(),
{
    if names.len() > 0 {
        lemma_position_of_absent(names.drop_first(), name);
    }
}

proof fn lemma_position_of_result(names: Seq<Seq<char>>, name: Seq<char>)
    ensures
        match position_of(names, name) {
            Some(i) => 0 <= i < names.len() && names[i] == name,
            None => !names.contains(name),
        },
    decreases names.len(),
{
    if names.len() > 0 && names[0] != name {
        lemma_position_of_result(names.drop_first(), name);
        if names.contains(name) {
            let k = choose|k: int| 0 <= k < names.len() && names[k] == name;
            assert(names.drop_first()[k - 1] == name);
        }
    }
}

proof fn lemma_position_of(names: Seq<Seq<char>>, name: Seq<char>, i: int)
    requires
        strictly_sorted(names),
        0 <= i < names.len(),
        names[i] == name,
    ensures
        position_of(names, name) == Some(i),
{
    assert forall|j: int| 0 <= j < i implies names[j] != name by {
        assert(bytes_compare(name_key(names[j]), name_key(names[i])) < 0);
        lemma_bytes_compare_zero(name_key(names[j]), name_key(names[i]));
    }
    lemma_position_of_first(names, name, i);
}

/// What a load does to the loaded schemas, by name: a loaded name is
/// refused; otherwise the source is read and, when it reads, added.
pub enum LoadOutcome {
    Loaded(AssembledModel),
    AlreadyLoaded,
    Failed(SchemaError),
}

pub open spec fn load_step(
    m: Map<Seq<char>, AssembledModel>,
    name: Seq<char>,
    source: Seq<u8>,
) -> (LoadOutcome, Map<Seq<char>, AssembledModel>) {
    if m.contains_key(name) {
        (LoadOutcome::AlreadyLoaded, m)
    } else {
        match read_assembled_spec(source) {
            Ok(s) => (LoadOutcome::Loaded(s), m.insert(name, s)),
            Err(e) => (LoadOutcome::Failed(e), m),
        }
    }
}

/// A name loaded once is refused the second time, whatever the second
/// source, and the loaded schemas stay as the first load left them; a
/// load whose source does not read changes nothing.
pub proof fn lemma_second_load_refused(
    m: Map<Seq<char>, AssembledModel>,
    name: Seq<char>,
    first: Seq<u8>,
    second: Seq<u8>,
)
    ensures
        load_step(m, name, first).0 is Failed ==> load_step(m, name, first).1 == m,
        load_step(m, name, first).0 matches LoadOutcome::Loaded(s) ==> {
            let after = load_step(m, name, first).1;
            &&& after[name] == s
            &&& load_step(after, name, second) == (LoadOutcome::AlreadyLoaded, after)
        },
{
}

impl Library {
    /// The loaded schemas by name.
    pub open spec fn loaded_map(&self) -> Map<Seq<char>, AssembledModel> {
        Map::new(|k: Seq<char>| self.names().contains(k), |k: Seq<char>| self.loaded_schema(k)->Some_0)
    }

    /// The names of the loaded schemas, in their sorted order.
    pub closed spec fn names(&self) -> Seq<Seq<char>> {
        Seq::new(self.loaded@.len(), |i: int| self.loaded@[i].0@)
    }

    /// The loaded schemas, position for position with `names`.
    pub closed spec fn schemas(&self) -> Seq<AssembledModel> {
        Seq::new(self.loaded@.len(), |i: int| self.loaded@[i].1.model())
    }

    pub closed spec fn core_model(&self) -> AssembledModel {
        self.core.model()
    }

    pub open spec fn wf(&self) -> bool {
        &&& strictly_sorted(self.names())
        &&& self.names().len() == self.schemas().len()
    }

    /// The schema loaded under `name`, if any.
    pub open spec fn loaded_schema(&self, name: Seq<char>) -> Option<AssembledModel> {
        match position_of(self.names(), name) {
            Some(i) => Some(self.schemas()[i]),
            None => None,
        }
    }

    /// A library whose core is the schema read from `core_source`, with
    /// nothing else loaded.
    pub fn with_core(core_source: &str) -> (r: Result<Self, LibraryError>)
        ensures
            match read_assembled_spec(core_source.spec_bytes()) {
                Ok(m) => r matches Ok(lib) && lib.wf() && lib.core_model() == m
                    && lib.names().len() == 0,
                Err(e) => r == Err::<Self, LibraryError>(LibraryError::Schema(e)),
            },
    {
        match AssembledSchema::read(core_source) {
            Ok(core) => {
                let lib = Library { core, loaded: Vec::new() };
                assert(lib.names() =~= Seq::<Seq<char>>::empty());
                Ok(lib)
            },
            Err(e) => Err(LibraryError::Schema(e)),
        }
    }

    /// The always-loaded core.
    pub fn core_schema(&self) -> (r: &AssembledSchema)
        ensures
            r.model() == self.core_model(),
    {
        &self.core
    }

    fn find(&self, schema_name: &str) -> (r: Option<usize>)
        requires
            self.wf(),
        ensures
            r matches Some(i) ==> i < self.loaded@.len() && position_of(self.names(), schema_name@)
                == Some(i as int),
            r is None ==> position_of(self.names(), schema_name@) is None,
    {
        let mut i: usize = 0;
        while i < self.loaded.len()
            invariant
                self.wf(),
                0 <= i <= self.loaded@.len(),
                forall|k: int| 0 <= k < i ==> #[trigger] self.names()[k] != schema_name@,
            decreases self.loaded@.len() - i,
        {
            if str_equal(self.loaded[i].0.as_str(), schema_name) {
                proof {
                    assert(self.names()[i as int] == schema_name@);
                    lemma_position_of(self.names(), schema_name@, i as int);
                }
                return Some(i);
            }
            assert(self.names()[i as int] != schema_name@);
            i = i + 1;
        }
        proof {
            lemma_position_of_absent(self.names(), schema_name@);
        }
        None
    }

    /// Load a per-component schema under `schema_name`. A name already
    /// loaded is refused; otherwise the source must read as a schema.
    pub fn load(&mut self, schema_name: &str, source: &str) -> (r: Result<
        &AssembledSchema,
        LibraryError,
    >)
        requires
            old(self).wf(),
        ensures
            final(self).wf(),
            final(self).core_model() == old(self).core_model(),
            r is Ok ==> final(self).names().contains(schema_name@),
            final(self).loaded_map() == load_step(old(self).loaded_map(), schema_name@, source.spec_bytes()).1,
            match load_step(old(self).loaded_map(), schema_name@, source.spec_bytes()).0 {
                LoadOutcome::Loaded(m) => r matches Ok(s) && s.model() == m,
                LoadOutcome::AlreadyLoaded => r matches Err(LibraryError::AlreadyLoaded { schema_name: n })
                    && n@ == schema_name@,
                LoadOutcome::Failed(e) => r == Err::<&AssembledSchema, LibraryError>(LibraryError::Schema(e)),
            },
            old(self).names().contains(schema_name@) ==> (r matches Err(
                LibraryError::AlreadyLoaded { schema_name: n },
            ) && n@ == schema_name@) && *final(self) == *old(self),
            !old(self).names().contains(schema_name@) ==> match read_assembled_spec(
                source.spec_bytes(),
            ) {
                Ok(m) => r matches Ok(s) && s.model() == m && final(self).loaded_schema(
                    schema_name@,
                ) == Some(m) && final(self).names().to_set() == old(self).names().to_set().insert(
                    schema_name@,
                ) && forall|n: Seq<char>|
                    n != schema_name@ ==> #[trigger] final(self).loaded_schema(n) == old(
                        self,
                    ).loaded_schema(n),
                Err(e) => r == Err::<&AssembledSchema, LibraryError>(LibraryError::Schema(e))
                    && *final(self) == *old(self),
            },
    {
        proof {
            lemma_position_of_result(self.names(), schema_name@);
        }
        if let Some(_) = self.find(schema_name) {
            return Err(LibraryError::AlreadyLoaded { schema_name: string_of(schema_name) });
        }
        let assembled = match AssembledSchema::read(source) {
            Ok(a) => a,
            Err(e) => return Err(LibraryError::Schema(e)),
        };
        let at = self.insertion_point(schema_name);
        let ghost names = self.names();
        let ghost schemas = self.schemas();
        let ghost m = assembled.model();
        let entry = (string_of(schema_name), assembled);
        assert(entry.0@ == schema_name@ && entry.1.model() == m);
        self.loaded.insert(at, entry);
        proof {
            let n2 = self.names();
            let s2 = self.schemas();
            assert(n2 =~= names.insert(at as int, schema_name@));
            assert(s2 =~= schemas.insert(at as int, m));
            assert forall|i: int, j: int| 0 <= i < j < n2.len() implies bytes_compare(
                name_key(#[trigger] n2[i]),
                name_key(#[trigger] n2[j]),
            ) < 0 by {
                if j < at {
                    assert(n2[i] == names[i] && n2[j] == names[j]);
                } else if j == at {
                    assert(n2[i] == names[i]);
                } else if i < at {
                    assert(n2[i] == names[i] && n2[j] == names[j - 1]);
                    assert(bytes_compare(name_key(names[i]), name_key(schema_name@)) < 0);
                    assert(bytes_compare(name_key(schema_name@), name_key(names[j - 1])) < 0);
                    lemma_bytes_compare_transitive(
                        name_key(names[i]),
                        name_key(schema_name@),
                        name_key(names[j - 1]),
                    );
                } else if i == at {
                    assert(n2[j] == names[j - 1]);
                } else {
                    assert(n2[i] == names[i - 1] && n2[j] == names[j - 1]);
                }
            }
            lemma_position_of(n2, schema_name@, at as int);
            assert forall|n: Seq<char>| n != schema_name@ implies #[trigger] self.loaded_schema(n)
                == old(self).loaded_schema(n) by {
                if exists|i: int| 0 <= i < names.len() && names[i] == n {
                    let i = choose|i: int| 0 <= i < names.len() && names[i] == n;
                    lemma_position_of(names, n, i);
                    if i < at {
                        assert(n2[i] == n);
                        lemma_position_of(n2, n, i);
                    } else {
                        assert(n2[i + 1] == n);
                        lemma_position_of(n2, n, i + 1);
                    }
                } else {
                    assert(!exists|i: int| 0 <= i < n2.len() && n2[i] == n) by {
                        if exists|i: int| 0 <= i < n2.len() && n2[i] == n {
                            let i = choose|i: int| 0 <= i < n2.len() && n2[i] == n;
                            if i < at {
                                assert(names[i] == n);
                            } else if i > at {
                                assert(names[i - 1] == n);
                            }
                        }
                    }
                    lemma_position_of_absent(names, n);
                    lemma_position_of_absent(n2, n);
                }
            }
            assert forall|n: Seq<char>| n2.to_set().contains(n) == names.to_set().insert(
                schema_name@,
            ).contains(n) by {
                if n2.contains(n) {
                    let i = choose|i: int| 0 <= i < n2.len() && n2[i] == n;
                    if i < at {
                        assert(names[i] == n);
                    } else if i > at {
                        assert(names[i - 1] == n);
                    }
                }
                if names.contains(n) {
                    let i = choose|i: int| 0 <= i < names.len() && names[i] == n;
                    if i < at {
                        assert(n2[i] == n);
                    } else {
                        assert(n2[i + 1] == n);
                    }
                }
                if n == schema_name@ {
                    assert(n2[at as int] == n);
                }
            }
            assert(n2.to_set() =~= names.to_set().insert(schema_name@));
            assert forall|k: Seq<char>| #[trigger] n2.contains(k) == (names.contains(k) || k == schema_name@) by {
                assert(n2.to_set().contains(k) == names.to_set().insert(schema_name@).contains(k));
            }
            assert(!names.contains(schema_name@));
            assert(self.loaded_map() =~= old(self).loaded_map().insert(schema_name@, m));
        }
        Ok(&self.loaded[at].1)
    }

    /// Where a name not yet loaded goes to keep the names sorted.
    fn insertion_point(&self, schema_name: &str) -> (r: usize)
        requires
            self.wf(),
            !self.names().contains(schema_name@),
        ensures
            r <= self.loaded@.len(),
            forall|k: int|
                0 <= k < r ==> bytes_compare(
                    name_key(#[trigger] self.names()[k]),
                    name_key(schema_name@),
                ) < 0,
            forall|k: int|
                r <= k < self.loaded@.len() ==> bytes_compare(
                    name_key(schema_name@),
                    name_key(#[trigger] self.names()[k]),
                ) < 0,
    {
        let mut i: usize = 0;
        while i < self.loaded.len()
            invariant
                self.wf(),
                !self.names().contains(schema_name@),
                0 <= i <= self.loaded@.len(),
                forall|k: int|
                    0 <= k < i ==> bytes_compare(
                        name_key(#[trigger] self.names()[k]),
                        name_key(schema_name@),
                    ) < 0,
            decreases self.loaded@.len() - i,
        {
            let c = compare_str(schema_name, self.loaded[i].0.as_str());
            proof {
                let here = self.names()[i as int];
                assert(here == self.loaded@[i as int].0@);
                lemma_bytes_compare_antisymmetric(name_key(schema_name@), name_key(here));
                lemma_bytes_compare_zero(name_key(schema_name@), name_key(here));
                encode_utf8_decode_utf8(schema_name@);
                encode_utf8_decode_utf8(here);
                if here == schema_name@ {
                    assert(self.names().contains(schema_name@));
                }
            }
            if c < 0 {
                proof {
                    let here = self.names()[i as int];
                    assert forall|k: int| i <= k < self.loaded@.len() implies bytes_compare(
                        name_key(schema_name@),
                        name_key(#[trigger] self.names()[k]),
                    ) < 0 by {
                        if k > i {
                            assert(bytes_compare(name_key(here), name_key(self.names()[k])) < 0);
                            lemma_bytes_compare_transitive(
                                name_key(schema_name@),
                                name_key(here),
                                name_key(self.names()[k]),
                            );
                        }
                    }
                }
                return i;
            }
            i = i + 1;
        }
        i
    }

    /// Look up a loaded per-component schema by name.
    pub fn get(&self, schema_name: &str) -> (r: Option<&AssembledSchema>)
        requires
            self.wf(),
        ensures
            match self.loaded_schema(schema_name@) {
                Some(m) => r matches Some(s) && s.model() == m,
                None => r is None,
            },
    {
        match self.find(schema_name) {
            Some(i) => {
                assert(self.schemas()[i as int] == self.loaded@[i as int].1.model());
                Some(&self.loaded[i].1)
            },
            None => None,
        }
    }

    /// What a type name resolves to: the first entry of that name in the
    /// named component schema, else the first in the core.
    pub open spec fn resolve_spec(&self, schema_name: Seq<char>, key: Seq<u8>) -> Option<
        EntryModel,
    > {
        let in_component = match self.loaded_schema(schema_name) {
            Some(m) => match first_entry_named(m.namespace, key) {
                Some(j) => Some(m.namespace[j]),
                None => None,
            },
            None => None,
        };
        match in_component {
            Some(e) => Some(e),
            None => match first_entry_named(self.core_model().namespace, key) {
                Some(j) => Some(self.core_model().namespace[j]),
                None => None,
            },
        }
    }

    /// Resolve a type name in the named component schema first, then in
    /// the core.
    #[verifier::rlimit(40)]
    pub fn resolve(&self, schema_name: &str, wanted_type: &str) -> (r: Option<&NamespaceEntry>)
        requires
            self.wf(),
        ensures
            match self.resolve_spec(schema_name@, encode_utf8(wanted_type@)) {
                Some(e) => r matches Some(found) && found.model() == e,
                None => r is None,
            },
    {
        let ghost key = encode_utf8(wanted_type@);
        if let Some(i) = self.find(schema_name) {
            let ghost m = self.loaded@[i as int].1.model();
            assert(self.loaded_schema(schema_name@) == Some(m)) by {
                assert(self.schemas()[i as int] == m);
            }
            let hit = self.loaded[i].1.lookup(wanted_type);
            proof {
                lemma_first_entry_named_result(m.namespace, key);
            }
            if let Some(e) = hit {
                proof {
                    let j = first_entry_named(m.namespace, key)->Some_0;
                    assert(m.namespace[j] == self.loaded@[i as int].1.namespace@[j].model());
                }
                return Some(e);
            }
        } else {
            assert(self.loaded_schema(schema_name@) is None);
        }
        assert(self.core_model() == self.core.model());
        let found = self.core.lookup(wanted_type);
        proof {
            lemma_first_entry_named_result(self.core.model().namespace, key);
            if let Some(j) = first_entry_named(self.core.model().namespace, key) {
                assert(self.core.model().namespace[j] == self.core.namespace@[j].model());
            }
        }
        found
    }

    /// The names of the loaded schemas, in sorted order.
    pub fn loaded_names(&self) -> (r: Vec<&str>)
        ensures
            r@.len() == self.names().len(),
            forall|i: int| 0 <= i < r@.len() ==> (#[trigger] r@[i])@ == self.names()[i],
    {
        let mut out: Vec<&str> = Vec::new();
        let mut i: usize = 0;
        while i < self.loaded.len()
            invariant
                0 <= i <= self.loaded@.len(),
                out@.len() == i,
                forall|k: int| 0 <= k < i ==> (#[trigger] out@[k])@ == self.names()[k],
            decreases self.loaded@.len() - i,
        {
            out.push(self.loaded[i].0.as_str());
            i = i + 1;
        }
        out
    }
}

} // verus!
