//! The staged schema reader over a generic value tree. A `.schema`
//! document is six top-level values (imports map, ordinary, owner and
//! sema header lists, namespace map, features list). The structural
//! stage checks those six positions; the identification stage collects
//! the declared names and classifies every position by its syntactic
//! shape; the lowering stage turns type expressions, variants, type
//! bodies, features and upgrade annotations into the schema model.
use vstd::prelude::*;
use crate::error::Error;
use crate::text::string_of;

verus! {

/// Byte offsets of a value in its source text.
#[derive(Clone, Copy, Debug, Default, PartialEq, Eq)]
pub struct Span {
    pub start: usize,
    pub end: usize,
}

impl Span {
    pub fn new(start: usize, end: usize) -> (r: Self)
        ensures
            r == (Span { start, end }),
    {
        Span { start, end }
    }

    pub fn empty() -> (r: Self)
        ensures
            r == (Span { start: 0, end: 0 }),
    {
        Span { start: 0, end: 0 }
    }
}

/// The generic value tree: records `( )`, lists `[ ]`, maps `{ }`,
/// identifiers, strings and integers, each with its span.
#[derive(Debug, PartialEq, Eq)]
pub enum NotaValue {
    Record(Vec<NotaValue>, Span),
    List(Vec<NotaValue>, Span),
    Mapping(Vec<(String, NotaValue)>, Span),
    Identifier(String, Span),
    String(String, Span),
    Integer(i128, Span),
}

/// The mathematical value of a `NotaValue`.
pub enum ValueModel {
    Record(Seq<ValueModel>, Span),
    List(Seq<ValueModel>, Span),
    Mapping(Seq<(Seq<char>, ValueModel)>, Span),
    Identifier(Seq<char>, Span),
    Text(Seq<char>, Span),
    Integer(i128, Span),
}

pub open spec fn value_models(vs: Seq<NotaValue>) -> Seq<ValueModel> {
    Seq::new(vs.len(), |i: int| vs[i].model())
}

pub open spec fn entry_models(es: Seq<(String, NotaValue)>) -> Seq<(Seq<char>, ValueModel)> {
    Seq::new(es.len(), |i: int| (es[i].0@, es[i].1.model()))
}

/// The kind a value is named by in messages.
pub open spec fn kind_text(v: ValueModel) -> Seq<char> {
    match v {
        ValueModel::Record(..) => "record"@,
        ValueModel::List(..) => "list"@,
        ValueModel::Mapping(..) => "map"@,
        ValueModel::Identifier(..) => "identifier"@,
        ValueModel::Text(..) => "string"@,
        ValueModel::Integer(..) => "integer"@,
    }
}

pub open spec fn span_of(v: ValueModel) -> Span {
    match v {
        ValueModel::Record(_, s) => s,
        ValueModel::List(_, s) => s,
        ValueModel::Mapping(_, s) => s,
        ValueModel::Identifier(_, s) => s,
        ValueModel::Text(_, s) => s,
        ValueModel::Integer(_, s) => s,
    }
}

impl NotaValue {
    pub open spec fn model(&self) -> ValueModel
        decreases self,
    {
        match self {
            NotaValue::Record(items, s) => ValueModel::Record(
                Seq::new(
                    items@.len(),
                    |i: int|
                        if 0 <= i < items@.len() {
                            items@[i].model()
                        } else {
                            ValueModel::Integer(0, *s)
                        },
                ),
                *s,
            ),
            NotaValue::List(items, s) => ValueModel::List(
                Seq::new(
                    items@.len(),
                    |i: int|
                        if 0 <= i < items@.len() {
                            items@[i].model()
                        } else {
                            ValueModel::Integer(0, *s)
                        },
                ),
                *s,
            ),
            NotaValue::Mapping(entries, s) => ValueModel::Mapping(
                Seq::new(
                    entries@.len(),
                    |i: int|
                        if 0 <= i < entries@.len() {
                            (entries@[i].0@, entries@[i].1.model())
                        } else {
                            (Seq::empty(), ValueModel::Integer(0, *s))
                        },
                ),
                *s,
            ),
            NotaValue::Identifier(t, s) => ValueModel::Identifier(t@, *s),
            NotaValue::String(t, s) => ValueModel::Text(t@, *s),
            NotaValue::Integer(n, s) => ValueModel::Integer(*n, *s),
        }
    }

    /// A copy with the same model.
    pub fn duplicate(&self) -> (r: Self)
        ensures
            r.model() == self.model(),
        decreases self, 1int,
    {
        match self {
            NotaValue::Record(items, s) => {
                let copy = duplicate_values(items);
                let r = NotaValue::Record(copy, *s);
                assert(r.model()->Record_0 =~= value_models(copy@));
                assert(self.model()->Record_0 =~= value_models(items@));
                r
            },
            NotaValue::List(items, s) => {
                let copy = duplicate_values(items);
                let r = NotaValue::List(copy, *s);
                assert(r.model()->List_0 =~= value_models(copy@));
                assert(self.model()->List_0 =~= value_models(items@));
                r
            },
            NotaValue::Mapping(entries, s) => {
                let mut out: Vec<(String, NotaValue)> = Vec::new();
                let mut i: usize = 0;
                while i < entries.len()
                    invariant
                        *self == NotaValue::Mapping(*entries, *s),
                        0 <= i <= entries@.len(),
                        out@.len() == i,
                        forall|k: int|
                            0 <= k < i ==> (#[trigger] out@[k]).0@ == entries@[k].0@ && out@[k].1.model()
                                == entries@[k].1.model(),
                    decreases entries@.len() - i,
                {
                    proof {
                        assert(decreases_to!(*self => (*self)->Mapping_0));
                        assert(decreases_to!(*entries => entries[i as int]));
                        assert(decreases_to!(entries[i as int] => entries[i as int].1));
                    }
                    let value = entries[i].1.duplicate();
                    let key = string_of(entries[i].0.as_str());
                    out.push((key, value));
                    i = i + 1;
                }
                let r = NotaValue::Mapping(out, *s);
                assert(r.model()->Mapping_0 =~= self.model()->Mapping_0);
                r
            },
            NotaValue::Identifier(t, s) => NotaValue::Identifier(string_of(t.as_str()), *s),
            NotaValue::String(t, s) => NotaValue::String(string_of(t.as_str()), *s),
            NotaValue::Integer(n, s) => NotaValue::Integer(*n, *s),
        }
    }

    pub fn span(&self) -> (r: Span)
        ensures
            r == span_of(self.model()),
    {
        match self {
            NotaValue::Record(_, s) => *s,
            NotaValue::List(_, s) => *s,
            NotaValue::Mapping(_, s) => *s,
            NotaValue::Identifier(_, s) => *s,
            NotaValue::String(_, s) => *s,
            NotaValue::Integer(_, s) => *s,
        }
    }

    pub fn kind_name(&self) -> (r: &'static str)
        ensures
            r@ == kind_text(self.model()),
    {
        match self {
            NotaValue::Record(..) => "record",
            NotaValue::List(..) => "list",
            NotaValue::Mapping(..) => "map",
            NotaValue::Identifier(..) => "identifier",
            NotaValue::String(..) => "string",
            NotaValue::Integer(..) => "integer",
        }
    }

    pub fn as_identifier(&self) -> (r: Option<&str>)
        ensures
            match self.model() {
                ValueModel::Identifier(t, _) => r matches Some(x) && x@ == t,
                _ => r is None,
            },
    {
        match self {
            NotaValue::Identifier(name, _) => Some(name.as_str()),
            _ => None,
        }
    }

    pub fn as_record(&self) -> (r: Option<&[NotaValue]>)
        ensures
            match self.model() {
                ValueModel::Record(items, _) => r matches Some(x) && value_models(x@) == items,
                _ => r is None,
            },
    {
        match self {
            NotaValue::Record(items, _) => {
                assert(value_models(items@) =~= self.model()->Record_0);
                Some(items.as_slice())
            },
            _ => None,
        }
    }

    pub fn as_list(&self) -> (r: Option<&[NotaValue]>)
        ensures
            match self.model() {
                ValueModel::List(items, _) => r matches Some(x) && value_models(x@) == items,
                _ => r is None,
            },
    {
        match self {
            NotaValue::List(items, _) => {
                assert(value_models(items@) =~= self.model()->List_0);
                Some(items.as_slice())
            },
            _ => None,
        }
    }

    pub fn as_map(&self) -> (r: Option<&[(String, NotaValue)]>)
        ensures
            match self.model() {
                ValueModel::Mapping(entries, _) => r matches Some(x) && entry_models(x@) == entries,
                _ => r is None,
            },
    {
        match self {
            NotaValue::Mapping(entries, _) => {
                assert(entry_models(entries@) =~= self.model()->Mapping_0);
                Some(entries.as_slice())
            },
            _ => None,
        }
    }
}

impl Clone for NotaValue {
    fn clone(&self) -> (r: Self)
        ensures
            r.model() == self.model(),
    {
        self.duplicate()
    }
}

/// Copies of a run of values.
pub fn duplicate_values(values: &[NotaValue]) -> (r: Vec<NotaValue>)
    ensures
        value_models(r@) == value_models(values@),
    decreases values@, 1int,
{
    let r = duplicate_values_from(values, 0);
    assert(values@.subrange(0, values@.len() as int) =~= values@);
    r
}

/// Copies of the values from position `from` on.
pub fn duplicate_values_from(values: &[NotaValue], from: usize) -> (r: Vec<NotaValue>)
    requires
        from <= values@.len(),
    ensures
        value_models(r@) == value_models(values@.subrange(from as int, values@.len() as int)),
    decreases values@, 0int,
{
    let mut out: Vec<NotaValue> = Vec::new();
    let mut i: usize = from;
    while i < values.len()
        invariant
            from <= i <= values@.len(),
            out@.len() == i - from,
            forall|k: int| 0 <= k < i - from ==> #[trigger] out@[k].model() == values@[k + from].model(),
        decreases values@.len() - i,
    {
        proof {
            assert(decreases_to!(values@ => values@[i as int]));
        }
        out.push(values[i].duplicate());
        i = i + 1;
    }
    assert(value_models(out@) =~= value_models(values@.subrange(from as int, values@.len() as int)));
    out
}

/// The error a stage reports: its context and message.
pub open spec fn reports_invalid(err: Error, context: Seq<char>, message: Seq<char>) -> bool {
    err matches Error::InvalidSchemaText { context: c, message: m } && c@ == context && m@
        == message
}

// ── The structural stage ────────────────────────────────────────────

/// The six positions of a schema document.
#[derive(Clone, Debug, PartialEq, Eq)]
pub struct MultiPassDocument {
    pub imports: NotaValue,
    pub ordinary_header: NotaValue,
    pub owner_header: NotaValue,
    pub sema_header: NotaValue,
    pub namespace: NotaValue,
    pub features: NotaValue,
}

/// The names of the six positions and the kinds they hold.
pub open spec fn position_name(i: int) -> Seq<char> {
    if i == 0 {
        "imports"@
    } else if i == 1 {
        "ordinary header"@
    } else if i == 2 {
        "owner header"@
    } else if i == 3 {
        "sema header"@
    } else if i == 4 {
        "namespace"@
    } else {
        "features"@
    }
}

pub open spec fn position_kind(i: int) -> Seq<char> {
    if i == 0 || i == 4 {
        "map"@
    } else {
        "list"@
    }
}

pub open spec fn kind_message(name: Seq<char>, expected: Seq<char>, found: Seq<char>) -> Seq<char> {
    "position `"@ + name + "` expected "@ + expected + ", got "@ + found
}

/// The first of the six positions whose value has the wrong kind.
pub open spec fn first_misplaced(items: Seq<ValueModel>, i: int) -> Option<int> {
    if kind_text(items[0]) != "map"@ {
        Some(0)
    } else if kind_text(items[1]) != "list"@ {
        Some(1)
    } else if kind_text(items[2]) != "list"@ {
        Some(2)
    } else if kind_text(items[3]) != "list"@ {
        Some(3)
    } else if kind_text(items[4]) != "map"@ {
        Some(4)
    } else if kind_text(items[5]) != "list"@ {
        Some(5)
    } else {
        None
    }
}

/// The structural reading of a whole-document value: a record of six
/// values whose kinds are map, list, list, list, map, list.
pub open spec fn structural_spec(v: ValueModel) -> Result<Seq<ValueModel>, Seq<char>> {
    match v {
        ValueModel::Record(items, _) => if items.len() == 6 {
            match first_misplaced(items, 0) {
                Some(i) => Err(kind_message(position_name(i), position_kind(i), kind_text(items[i]))),
                None => Ok(items),
            }
        } else {
            Err("expected 6-position schema document (synthesised record), got "@ + kind_text(v))
        },
        _ => Err("expected 6-position schema document (synthesised record), got "@ + kind_text(v)),
    }
}

impl MultiPassDocument {
    pub open spec fn models(&self) -> Seq<ValueModel> {
        seq![
            self.imports.model(),
            self.ordinary_header.model(),
            self.owner_header.model(),
            self.sema_header.model(),
            self.namespace.model(),
            self.features.model(),
        ]
    }
}

fn concat_text(a: &str, b: &str) -> (r: String)
    ensures
        r@ == a@ + b@,
{
    let mut s = string_of(a);
    s.append(b);
    s
}

fn enforce_kind(name: &'static str, value: &NotaValue, expected: &str) -> (r: Result<(), Error>)
    ensures
        kind_text(value.model()) == expected@ ==> r is Ok,
        kind_text(value.model()) != expected@ ==> (r matches Err(err) && reports_invalid(
            err,
            "pass2"@,
            kind_message(name@, expected@, kind_text(value.model())),
        )),
{
    let found = value.kind_name();
    if crate::text::str_equal(found, expected) {
        Ok(())
    } else {
        let mut message = concat_text("position `", name);
        message.append("` expected ");
        message.append(expected);
        message.append(", got ");
        message.append(found);
        Err(Error::InvalidSchemaText { context: "pass2", message })
    }
}

/// The six positions of a whole-document record.
pub fn structural(value: NotaValue) -> (r: Result<MultiPassDocument, Error>)
    ensures
        match structural_spec(value.model()) {
            Ok(items) => r matches Ok(doc) && doc.models() == items,
            Err(message) => r matches Err(err) && reports_invalid(err, "pass2"@, message),
        },
{
    if let NotaValue::Record(items, _) = &value {
        if items.len() == 6 {
            let ghost m = value.model();
            proof {
                assert(m->Record_0 =~= value_models(items@));
            }
            return six_to_document(items);
        }
    }
    let mut message = string_of("expected 6-position schema document (synthesised record), got ");
    message.append(value.kind_name());
    Err(Error::InvalidSchemaText { context: "pass2", message })
}

fn six_to_document(items: &Vec<NotaValue>) -> (r: Result<MultiPassDocument, Error>)
    requires
        items@.len() == 6,
    ensures
        match first_misplaced(value_models(items@), 0) {
            Some(i) => r matches Err(err) && reports_invalid(
                err,
                "pass2"@,
                kind_message(position_name(i), position_kind(i), kind_text(items@[i].model())),
            ),
            None => r matches Ok(doc) && doc.models() == value_models(items@),
        },
{
    let ghost ms = value_models(items@);
    proof {
        assert(ms[0] == items@[0].model());
        assert(ms[1] == items@[1].model());
        assert(ms[2] == items@[2].model());
        assert(ms[3] == items@[3].model());
        assert(ms[4] == items@[4].model());
        assert(ms[5] == items@[5].model());
        reveal_strlit("map");
        reveal_strlit("list");
    }
    if let Err(e) = enforce_kind("imports", &items[0], "map") {
        return Err(e);
    }
    if let Err(e) = enforce_kind("ordinary header", &items[1], "list") {
        return Err(e);
    }
    if let Err(e) = enforce_kind("owner header", &items[2], "list") {
        return Err(e);
    }
    if let Err(e) = enforce_kind("sema header", &items[3], "list") {
        return Err(e);
    }
    if let Err(e) = enforce_kind("namespace", &items[4], "map") {
        return Err(e);
    }
    if let Err(e) = enforce_kind("features", &items[5], "list") {
        return Err(e);
    }
    let doc = MultiPassDocument {
        imports: items[0].duplicate(),
        ordinary_header: items[1].duplicate(),
        owner_header: items[2].duplicate(),
        sema_header: items[3].duplicate(),
        namespace: items[4].duplicate(),
        features: items[5].duplicate(),
    };
    assert(doc.models() =~= ms);
    Ok(doc)
}

} // verus!
