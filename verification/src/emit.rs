//! Codec rules taken from an assembled schema: which names it declares,
//! how each is shaped, which variant tags each enum carries, and the
//! string-position predicates (bare identifiers, block strings).
use vstd::prelude::*;
use crate::schema::{AssembledSchema, EnumVariant, NamespaceEntry, TypeBody};
use crate::text::{chars_of, contains_char, str_equal};

verus! {

#[derive(Debug, Clone, PartialEq, Eq)]
pub struct EmittedCodec {
    /// Names declared in the schema's namespace, insertion order.
    pub type_names: Vec<String>,
    /// Names that are enum-shaped (variant tag carriers).
    pub enum_names: Vec<String>,
    /// Names that are struct-shaped (positional field vectors); aliases
    /// count here too, delegating to their target.
    pub struct_names: Vec<String>,
    /// Names that are macro-shaped (maps and other invocations).
    pub macro_names: Vec<String>,
    /// Every `(EnumName, VariantName)` pair the schema defines.
    pub variant_index: Vec<(String, String)>,
}

/// The abstract content of an emitted codec.
pub struct CodecModel {
    pub type_names: Seq<Seq<char>>,
    pub enum_names: Seq<Seq<char>>,
    pub struct_names: Seq<Seq<char>>,
    pub macro_names: Seq<Seq<char>>,
    pub variant_index: Seq<(Seq<char>, Seq<char>)>,
}

pub open spec fn string_views(v: Seq<String>) -> Seq<Seq<char>> {
    Seq::new(v.len(), |i: int| v[i]@)
}

pub open spec fn string_pair_views(v: Seq<(String, String)>) -> Seq<(Seq<char>, Seq<char>)> {
    Seq::new(v.len(), |i: int| (v[i].0@, v[i].1@))
}

/// `(owner, variant)` for each variant of an enum named `owner`.
pub open spec fn variant_pairs(owner: Seq<char>, vs: Seq<EnumVariant>) -> Seq<
    (Seq<char>, Seq<char>),
> {
    Seq::new(vs.len(), |i: int| (owner, vs[i].name@))
}

/// The codec emitted from a namespace, entry by entry.
pub open spec fn emit_spec(ns: Seq<NamespaceEntry>) -> CodecModel
    decreases ns.len(),
{
    if ns.len() == 0 {
        CodecModel {
            type_names: Seq::empty(),
            enum_names: Seq::empty(),
            struct_names: Seq::empty(),
            macro_names: Seq::empty(),
            variant_index: Seq::empty(),
        }
    } else {
        let prev = emit_spec(ns.drop_last());
        let entry = ns.last();
        let name = entry.name@;
        let types = prev.type_names.push(name);
        match entry.body {
            TypeBody::Enum { variants } => CodecModel {
                type_names: types,
                enum_names: prev.enum_names.push(name),
                struct_names: prev.struct_names,
                macro_names: prev.macro_names,
                variant_index: prev.variant_index + variant_pairs(name, variants@),
            },
            TypeBody::Struct { .. } | TypeBody::Alias { .. } => CodecModel {
                type_names: types,
                enum_names: prev.enum_names,
                struct_names: prev.struct_names.push(name),
                macro_names: prev.macro_names,
                variant_index: prev.variant_index,
            },
            TypeBody::Mapping { .. } | TypeBody::Macro { .. } => CodecModel {
                type_names: types,
                enum_names: prev.enum_names,
                struct_names: prev.struct_names,
                macro_names: prev.macro_names.push(name),
                variant_index: prev.variant_index,
            },
        }
    }
}

pub open spec fn is_identifier_char_spec(c: char) -> bool {
    ('a' <= c <= 'z') || ('A' <= c <= 'Z') || ('0' <= c <= '9') || c == '-'
}

/// A token that may stand bare at a string position: camelCase or
/// kebab-case, that is, non-empty, starting with an ASCII lower-case
/// letter, and made of ASCII letters, digits and `-` only. (So neither
/// a PascalCase variant nor the reserved literal `None` is ever bare.)
pub open spec fn bare_eligible_spec(t: Seq<char>) -> bool {
    &&& t.len() > 0
    &&& 'a' <= t[0] <= 'z'
    &&& forall|i: int| 0 <= i < t.len() ==> is_identifier_char_spec(#[trigger] t[i])
}

fn is_identifier_char(c: char) -> (r: bool)
    ensures
        r == is_identifier_char_spec(c),
{
    ('a' <= c && c <= 'z') || ('A' <= c && c <= 'Z') || ('0' <= c && c <= '9') || c == '-'
}

fn clone_string(s: &String) -> (r: String)
    ensures
        r@ == s@,
{
    s.clone()
}

impl EmittedCodec {
    pub open spec fn model(&self) -> CodecModel {
        CodecModel {
            type_names: string_views(self.type_names@),
            enum_names: string_views(self.enum_names@),
            struct_names: string_views(self.struct_names@),
            macro_names: string_views(self.macro_names@),
            variant_index: string_pair_views(self.variant_index@),
        }
    }

    /// Emit codec rules from an assembled schema: one type name per
    /// namespace entry, sorted into enum, struct and macro names by its
    /// body, and the variant tags of every enum.
    pub fn emit(schema: &AssembledSchema) -> (r: Self)
        ensures
            r.model() == emit_spec(schema.namespace@),
            r.model().type_names == schema.namespace@.map_values(entry_name()),
            r.model().enum_names == schema.namespace@.filter(enum_entry()).map_values(entry_name()),
            r.model().struct_names == schema.namespace@.filter(struct_entry()).map_values(entry_name()),
            r.model().macro_names == schema.namespace@.filter(macro_entry()).map_values(entry_name()),
            r.model().variant_index == schema.namespace@.map_values(entry_variant_pairs()).flatten(),
    {
        proof {
            lemma_emit_sorts_entries(schema.namespace@);
        }
        let mut type_names: Vec<String> = Vec::new();
        let mut enum_names: Vec<String> = Vec::new();
        let mut struct_names: Vec<String> = Vec::new();
        let mut macro_names: Vec<String> = Vec::new();
        let mut variant_index: Vec<(String, String)> = Vec::new();
        let ghost ns = schema.namespace@;
        let mut i: usize = 0;
        while i < schema.namespace.len()
            invariant
                ns == schema.namespace@,
                0 <= i <= ns.len(),
                string_views(type_names@) == emit_spec(ns.take(i as int)).type_names,
                string_views(enum_names@) == emit_spec(ns.take(i as int)).enum_names,
                string_views(struct_names@) == emit_spec(ns.take(i as int)).struct_names,
                string_views(macro_names@) == emit_spec(ns.take(i as int)).macro_names,
                string_pair_views(variant_index@) == emit_spec(ns.take(i as int)).variant_index,
            decreases ns.len() - i,
        {
            let entry = &schema.namespace[i];
            let ghost prev = emit_spec(ns.take(i as int));
            assert(ns.take(i as int + 1).drop_last() =~= ns.take(i as int));
            assert(ns.take(i as int + 1).last() == ns[i as int]);
            let ghost old_types = type_names@;
            type_names.push(clone_string(&entry.name));
            assert(string_views(type_names@) =~= prev.type_names.push(entry.name@));
            match &entry.body {
                TypeBody::Enum { variants } => {
                    let ghost old_enums = enum_names@;
                    enum_names.push(clone_string(&entry.name));
                    assert(string_views(enum_names@) =~= prev.enum_names.push(entry.name@));
                    let mut j: usize = 0;
                    while j < variants.len()
                        invariant
                            0 <= j <= variants@.len(),
                            string_pair_views(variant_index@) == prev.variant_index
                                + variant_pairs(entry.name@, variants@.take(j as int)),
                        decreases variants@.len() - j,
                    {
                        let pair = (clone_string(&entry.name), clone_string(&variants[j].name));
                        let ghost before = variant_index@;
                        assert(pair.0@ == entry.name@ && pair.1@ == variants@[j as int].name@);
                        variant_index.push(pair);
                        assert(variant_index@ == before.push(pair));
                        assert(variants@.take(j as int + 1) =~= variants@.take(j as int).push(
                            variants@[j as int],
                        ));
                        let ghost lhs = string_pair_views(variant_index@);
                        let ghost rhs = prev.variant_index + variant_pairs(
                            entry.name@,
                            variants@.take(j as int + 1),
                        );
                        assert(string_pair_views(before).len() == before.len());
                        assert(variant_pairs(entry.name@, variants@.take(j as int)).len() == j);
                        assert(before.len() == prev.variant_index.len() + j);
                        assert(variant_index@.len() == before.len() + 1);
                        assert(lhs.len() == rhs.len());
                        assert forall|t: int| 0 <= t < lhs.len() implies lhs[t] == rhs[t] by {
                            if t < before.len() {
                                assert(lhs[t] == string_pair_views(before)[t]);
                            } else {
                                assert(t == before.len());
                                assert(lhs[t] == (pair.0@, pair.1@));
                            }
                        }
                        assert(lhs =~= rhs);
                        j = j + 1;
                    }
                    assert(variants@.take(variants@.len() as int) =~= variants@);
                },
                TypeBody::Struct { .. } | TypeBody::Alias { .. } => {
                    struct_names.push(clone_string(&entry.name));
                    assert(string_views(struct_names@) =~= prev.struct_names.push(entry.name@));
                },
                TypeBody::Mapping { .. } | TypeBody::Macro { .. } => {
                    macro_names.push(clone_string(&entry.name));
                    assert(string_views(macro_names@) =~= prev.macro_names.push(entry.name@));
                },
            }
            i = i + 1;
        }
        assert(ns.take(ns.len() as int) =~= ns);
        EmittedCodec { type_names, enum_names, struct_names, macro_names, variant_index }
    }

    /// Whether a token may stand bare at a string position.
    pub fn is_bare_eligible(&self, text: &str) -> (r: bool)
        ensures
            r == bare_eligible_spec(text@),
    {
        let chars = chars_of(text);
        if chars.len() == 0 {
            return false;
        }
        let first = chars[0];
        if !('a' <= first && first <= 'z') {
            return false;
        }
        let mut i: usize = 0;
        while i < chars.len()
            invariant
                chars@ == text@,
                0 <= i <= chars@.len(),
                forall|k: int| 0 <= k < i ==> is_identifier_char_spec(#[trigger] chars@[k]),
            decreases chars@.len() - i,
        {
            if !is_identifier_char(chars[i]) {
                return false;
            }
            i = i + 1;
        }
        true
    }

    /// Whether a string must be written in the multi-line block form:
    /// exactly when it holds a newline.
    pub fn needs_block_form(&self, text: &str) -> (r: bool)
        ensures
            r == text@.contains('\n'),
    {
        contains_char(text, '\n')
    }

    /// Whether `variant` is a variant tag of the enum `enum_name`.
    pub fn is_known_variant(&self, enum_name: &str, variant: &str) -> (r: bool)
        ensures
            r == exists|i: int|
                0 <= i < self.variant_index@.len() && (#[trigger] self.variant_index@[i]).0@
                    == enum_name@ && self.variant_index@[i].1@ == variant@,
    {
        let mut i: usize = 0;
        while i < self.variant_index.len()
            invariant
                0 <= i <= self.variant_index@.len(),
                forall|k: int|
                    0 <= k < i ==> !((#[trigger] self.variant_index@[k]).0@ == enum_name@
                        && self.variant_index@[k].1@ == variant@),
            decreases self.variant_index@.len() - i,
        {
            let pair = &self.variant_index[i];
            if str_equal(pair.0.as_str(), enum_name) && str_equal(pair.1.as_str(), variant) {
                return true;
            }
            i = i + 1;
        }
        false
    }

    /// Whether the schema declares this name at all.
    pub fn declares(&self, name: &str) -> (r: bool)
        ensures
            r == string_views(self.type_names@).contains(name@),
    {
        let mut i: usize = 0;
        while i < self.type_names.len()
            invariant
                0 <= i <= self.type_names@.len(),
                forall|k: int| 0 <= k < i ==> (#[trigger] self.type_names@[k])@ != name@,
            decreases self.type_names@.len() - i,
        {
            if str_equal(self.type_names[i].as_str(), name) {
                assert(string_views(self.type_names@)[i as int] == name@);
                return true;
            }
            i = i + 1;
        }
        assert forall|k: int| 0 <= k < string_views(self.type_names@).len() implies string_views(
            self.type_names@,
        )[k] != name@ by {
            assert(self.type_names@[k]@ != name@);
        }
        false
    }

    /// The namespace entries of a schema, in order.
    pub fn iter_entries(schema: &AssembledSchema) -> (r: &[NamespaceEntry])
        ensures
            r@ == schema.namespace@,
    {
        schema.namespace.as_slice()
    }
}

/// The emitted codec declares exactly the namespace's names, in order.
pub proof fn lemma_emit_declares_every_entry(ns: Seq<NamespaceEntry>)
    ensures
        emit_spec(ns).type_names == Seq::new(ns.len(), |i: int| ns[i].name@),
    decreases ns.len(),
{
    if ns.len() > 0 {
        lemma_emit_declares_every_entry(ns.drop_last());
        assert(emit_spec(ns).type_names =~= Seq::new(ns.len(), |i: int| ns[i].name@));
    } else {
        assert(emit_spec(ns).type_names =~= Seq::new(ns.len(), |i: int| ns[i].name@));
    }
}

/// Every type name lands in exactly one of the enum, struct and macro
/// lists: their lengths add up to the number of declared names.
pub proof fn lemma_emit_partitions_names(ns: Seq<NamespaceEntry>)
    ensures
        emit_spec(ns).enum_names.len() + emit_spec(ns).struct_names.len()
            + emit_spec(ns).macro_names.len() == emit_spec(ns).type_names.len(),
    decreases ns.len(),
{
    if ns.len() > 0 {
        lemma_emit_partitions_names(ns.drop_last());
    }
}

/// Whether an entry declares an enum.
pub open spec fn enum_entry() -> spec_fn(NamespaceEntry) -> bool {
    |e: NamespaceEntry| e.body is Enum
}

/// Whether an entry declares a struct or an alias.
pub open spec fn struct_entry() -> spec_fn(NamespaceEntry) -> bool {
    |e: NamespaceEntry| e.body is Struct || e.body is Alias
}

/// Whether an entry declares a map or a macro.
pub open spec fn macro_entry() -> spec_fn(NamespaceEntry) -> bool {
    |e: NamespaceEntry| e.body is Mapping || e.body is Macro
}

/// An entry's name.
pub open spec fn entry_name() -> spec_fn(NamespaceEntry) -> Seq<char> {
    |e: NamespaceEntry| e.name@
}

/// The variant index pairs an entry contributes: one per variant of an
/// enum, none otherwise.
pub open spec fn entry_variant_pairs() -> spec_fn(NamespaceEntry) -> Seq<(Seq<char>, Seq<char>)> {
    |e: NamespaceEntry| match e.body {
        TypeBody::Enum { variants } => variant_pairs(e.name@, variants@),
        _ => Seq::empty(),
    }
}

/// Every entry is of exactly one kind: enum, struct or alias, map or
/// macro.
pub proof fn lemma_entry_kinds_partition(e: NamespaceEntry)
    ensures
        enum_entry()(e) || struct_entry()(e) || macro_entry()(e),
        !(enum_entry()(e) && struct_entry()(e)),
        !(enum_entry()(e) && macro_entry()(e)),
        !(struct_entry()(e) && macro_entry()(e)),
{
}

/// Emitting sorts the namespace: the type names are the entries' names
/// in namespace order, and the enum, struct and macro names are the names
/// of the entries of each kind, each in namespace order, so every entry's
/// name lands in exactly the list of its kind.
pub proof fn lemma_emit_sorts_entries(ns: Seq<NamespaceEntry>)
    ensures
        emit_spec(ns).type_names == ns.map_values(entry_name()),
        emit_spec(ns).enum_names == ns.filter(enum_entry()).map_values(entry_name()),
        emit_spec(ns).struct_names == ns.filter(struct_entry()).map_values(entry_name()),
        emit_spec(ns).macro_names == ns.filter(macro_entry()).map_values(entry_name()),
        emit_spec(ns).variant_index == ns.map_values(entry_variant_pairs()).flatten(),
    decreases ns.len(),
{
    if ns.len() == 0 {
        assert(emit_spec(ns).type_names =~= ns.map_values(entry_name()));
        assert(emit_spec(ns).enum_names =~= ns.filter(enum_entry()).map_values(entry_name()));
        assert(emit_spec(ns).struct_names =~= ns.filter(struct_entry()).map_values(entry_name()));
        assert(emit_spec(ns).macro_names =~= ns.filter(macro_entry()).map_values(entry_name()));
        assert(ns.map_values(entry_variant_pairs()) =~= Seq::<Seq<(Seq<char>, Seq<char>)>>::empty());
    } else {
        let prev = ns.drop_last();
        lemma_emit_sorts_entries(prev);
        let e = ns.last();
        assert(prev.push(e) =~= ns);
        prev.lemma_filter_push(e, enum_entry());
        prev.lemma_filter_push(e, struct_entry());
        prev.lemma_filter_push(e, macro_entry());
        assert(ns.map_values(entry_name()) =~= prev.map_values(entry_name()).push(e.name@));
        assert(ns.filter(enum_entry()) == if e.body is Enum {
            prev.filter(enum_entry()).push(e)
        } else {
            prev.filter(enum_entry())
        });
        assert(ns.filter(struct_entry()) == if e.body is Struct || e.body is Alias {
            prev.filter(struct_entry()).push(e)
        } else {
            prev.filter(struct_entry())
        });
        assert(ns.filter(macro_entry()) == if e.body is Mapping || e.body is Macro {
            prev.filter(macro_entry()).push(e)
        } else {
            prev.filter(macro_entry())
        });
        assert(prev.filter(enum_entry()).push(e).map_values(entry_name()) =~= prev.filter(enum_entry()).map_values(entry_name()).push(e.name@));
        assert(prev.filter(struct_entry()).push(e).map_values(entry_name()) =~= prev.filter(struct_entry()).map_values(entry_name()).push(e.name@));
        assert(prev.filter(macro_entry()).push(e).map_values(entry_name()) =~= prev.filter(macro_entry()).map_values(entry_name()).push(e.name@));
        assert(ns.map_values(entry_variant_pairs()) =~= prev.map_values(entry_variant_pairs()).push(entry_variant_pairs()(e)));
        prev.map_values(entry_variant_pairs()).lemma_flatten_push(entry_variant_pairs()(e));
        assert(emit_spec(ns).variant_index =~= emit_spec(prev).variant_index + entry_variant_pairs()(e));
    }
}

} // verus!
