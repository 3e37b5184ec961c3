//! Declarative schema macros: a pattern is a structural mirror of one NOTA
//! object with `$name` and `$*name` capture atoms; matching a pattern
//! against an object binds its captures, and a template expands against
//! those bindings into new objects.
use vstd::prelude::*;
use crate::asschema::Name;
use crate::engine::SchemaError;
use crate::macro_node::MacroPosition;
use crate::text::string_of;

verus! {

// ── Objects ─────────────────────────────────────────────────────────

/// The delimiters a NOTA object can be wrapped in.
#[derive(Clone, Copy, Debug, Eq, PartialEq, Structural)]
pub enum MacroDelimiter {
    Parenthesis,
    SquareBracket,
    Brace,
    PipeParenthesis,
    PipeBrace,
}

/// One NOTA object as the macro layer reads it: an atom (its text, and
/// whether NOTA classifies it as a symbol), a pipe text, or a delimited
/// run of objects. It holds no source positions, so two objects are equal
/// exactly when they are written alike.
#[derive(Debug, Eq, PartialEq)]
pub enum NotaBlock {
    Atom(String, bool),
    PipeText(String),
    Delimited(MacroDelimiter, Vec<NotaBlock>),
}

pub enum BlockModel {
    Atom(Seq<char>, bool),
    PipeText(Seq<char>),
    Delimited(MacroDelimiter, Seq<BlockModel>),
}

pub open spec fn block_models(bs: Seq<NotaBlock>) -> Seq<BlockModel> {
    Seq::new(bs.len(), |i: int| bs[i].model())
}

impl NotaBlock {
    pub open spec fn model(&self) -> BlockModel
        decreases self,
    {
        match self {
            NotaBlock::Atom(t, symbol) => BlockModel::Atom(t@, *symbol),
            NotaBlock::PipeText(t) => BlockModel::PipeText(t@),
            NotaBlock::Delimited(d, items) => BlockModel::Delimited(
                *d,
                Seq::new(
                    items@.len(),
                    |i: int|
                        if 0 <= i < items@.len() {
                            items@[i].model()
                        } else {
                            BlockModel::Atom(Seq::empty(), false)
                        },
                ),
            ),
        }
    }

    /// A copy with the same model.
    pub fn duplicate(&self) -> (r: Self)
        ensures
            r.model() == self.model(),
        decreases self, 1int,
    {
        match self {
            NotaBlock::Atom(t, symbol) => NotaBlock::Atom(t.clone(), *symbol),
            NotaBlock::PipeText(t) => NotaBlock::PipeText(t.clone()),
            NotaBlock::Delimited(d, items) => {
                let copy = duplicate_blocks(items.as_slice());
                let r = NotaBlock::Delimited(*d, copy);
                assert(r.model()->Delimited_1 =~= block_models(copy@));
                assert(self.model()->Delimited_1 =~= block_models(items@));
                r
            },
        }
    }

    /// How many objects a delimited object holds; an atom or a pipe text
    /// holds none.
    pub fn holds_root_objects(&self) -> (r: usize)
        ensures
            r == root_object_count(self.model()),
    {
        match self {
            NotaBlock::Delimited(_, items) => items.len(),
            _ => 0,
        }
    }

    /// The atom's text; other objects have none.
    pub fn demote_to_string(&self) -> (r: Option<&str>)
        ensures
            r matches Some(t) ==> demote(self.model()) == Some(t@),
            r is None ==> demote(self.model()) is None,
    {
        match self {
            NotaBlock::Atom(t, _) => Some(t.as_str()),
            _ => None,
        }
    }
}

/// How many objects a delimited object holds.
pub open spec fn root_object_count(b: BlockModel) -> nat {
    match b {
        BlockModel::Delimited(_, os) => os.len(),
        _ => 0,
    }
}

/// The text an object demotes to: an atom's own text.
pub open spec fn demote(b: BlockModel) -> Option<Seq<char>> {
    match b {
        BlockModel::Atom(t, _) => Some(t),
        _ => None,
    }
}

/// Copies of a run of objects.
pub fn duplicate_blocks(blocks: &[NotaBlock]) -> (r: Vec<NotaBlock>)
    ensures
        block_models(r@) == block_models(blocks@),
    decreases blocks@, 0int,
{
    let mut out: Vec<NotaBlock> = Vec::new();
    let mut i: usize = 0;
    while i < blocks.len()
        invariant
            0 <= i <= blocks@.len(),
            out@.len() == i,
            forall|k: int| 0 <= k < i ==> #[trigger] out@[k].model() == blocks@[k].model(),
        decreases blocks@.len() - i,
    {
        proof {
            assert(decreases_to!(blocks@ => blocks@[i as int]));
        }
        out.push(blocks[i].duplicate());
        i = i + 1;
    }
    assert(block_models(out@) =~= block_models(blocks@));
    out
}

impl Clone for NotaBlock {
    fn clone(&self) -> (r: Self)
        ensures
            r.model() == self.model(),
    {
        self.duplicate()
    }
}

/// Whether two objects are written alike.
pub fn same_block(a: &NotaBlock, b: &NotaBlock) -> (r: bool)
    ensures
        r == (a.model() == b.model()),
    decreases a, 1int,
{
    match (a, b) {
        (NotaBlock::Atom(x, p), NotaBlock::Atom(y, q)) => *p == *q && crate::text::str_equal(x.as_str(), y.as_str()),
        (NotaBlock::PipeText(x), NotaBlock::PipeText(y)) => crate::text::str_equal(x.as_str(), y.as_str()),
        (NotaBlock::Delimited(d, xs), NotaBlock::Delimited(e, ys)) => {
            if *d != *e {
                return false;
            }
            let r = same_blocks(xs.as_slice(), ys.as_slice());
            assert(a.model()->Delimited_1 =~= block_models(xs@));
            assert(b.model()->Delimited_1 =~= block_models(ys@));
            r
        },
        _ => false,
    }
}

/// Whether two runs of objects are written alike, object by object.
pub fn same_blocks(xs: &[NotaBlock], ys: &[NotaBlock]) -> (r: bool)
    ensures
        r == (block_models(xs@) == block_models(ys@)),
    decreases xs@, 0int,
{
    if xs.len() != ys.len() {
        assert(block_models(xs@).len() != block_models(ys@).len());
        return false;
    }
    let mut i: usize = 0;
    while i < xs.len()
        invariant
            xs@.len() == ys@.len(),
            0 <= i <= xs@.len(),
            forall|k: int| 0 <= k < i ==> #[trigger] xs@[k].model() == ys@[k].model(),
        decreases xs@.len() - i,
    {
        proof {
            assert(decreases_to!(xs@ => xs@[i as int]));
        }
        if !same_block(&xs[i], &ys[i]) {
            assert(block_models(xs@)[i as int] != block_models(ys@)[i as int]);
            return false;
        }
        i = i + 1;
    }
    assert(block_models(xs@) =~= block_models(ys@));
    true
}

// ── Patterns ────────────────────────────────────────────────────────

/// One object of a macro pattern: a single capture `$name`, a rest
/// capture `$*name` taking a run of objects, a literal atom, or a
/// delimited run of further pattern objects.
#[derive(Debug, Eq, PartialEq)]
pub enum MacroPatternObject {
    Capture(String),
    RestCapture(String),
    Atom(String),
    Delimited(Box<MacroPatternDelimited>),
}

#[derive(Debug, Eq, PartialEq)]
pub struct MacroPatternDelimited {
    delimiter: MacroDelimiter,
    children: Vec<MacroPatternObject>,
}

/// The shape of a pattern (and of a template) object.
pub enum ObjectModel {
    Capture(Seq<char>),
    RestCapture(Seq<char>),
    Atom(Seq<char>),
    Delimited(MacroDelimiter, Seq<ObjectModel>),
}

pub open spec fn pattern_models(ps: Seq<MacroPatternObject>) -> Seq<ObjectModel> {
    Seq::new(ps.len(), |i: int| ps[i].model())
}

impl MacroPatternObject {
    pub closed spec fn model(&self) -> ObjectModel
        decreases self,
    {
        match self {
            MacroPatternObject::Capture(n) => ObjectModel::Capture(n@),
            MacroPatternObject::RestCapture(n) => ObjectModel::RestCapture(n@),
            MacroPatternObject::Atom(t) => ObjectModel::Atom(t@),
            MacroPatternObject::Delimited(data) => ObjectModel::Delimited(
                data.delimiter,
                Seq::new(
                    data.children@.len(),
                    |i: int|
                        if 0 <= i < data.children@.len() {
                            data.children@[i].model()
                        } else {
                            ObjectModel::Atom(Seq::empty())
                        },
                ),
            ),
        }
    }
}

impl MacroPatternDelimited {
    pub closed spec fn delimiter_of(&self) -> MacroDelimiter {
        self.delimiter
    }

    pub closed spec fn child_list(&self) -> Seq<MacroPatternObject> {
        self.children@
    }

    pub fn new(delimiter: MacroDelimiter, children: Vec<MacroPatternObject>) -> (r: Self)
        ensures
            r.delimiter_of() == delimiter,
            r.child_list() == children@,
    {
        MacroPatternDelimited { delimiter, children }
    }

    pub fn delimiter(&self) -> (r: MacroDelimiter)
        ensures
            r == self.delimiter_of(),
    {
        self.delimiter
    }

    pub fn children(&self) -> (r: &[MacroPatternObject])
        ensures
            r@ == self.child_list(),
    {
        self.children.as_slice()
    }
}

proof fn lemma_pattern_delimited_model(p: MacroPatternObject)
    requires
        p is Delimited,
    ensures
        p.model() == ObjectModel::Delimited(
            (p->Delimited_0).delimiter_of(),
            pattern_models((p->Delimited_0).child_list()),
        ),
{
    assert(p.model()->Delimited_1 =~= pattern_models((p->Delimited_0).child_list()));
}

// ── Bindings ────────────────────────────────────────────────────────

/// What a match has bound: single captures to one object each, rest
/// captures to a run of objects, each in the order first bound.
pub struct BindingsModel {
    pub singles: Seq<(Seq<char>, BlockModel)>,
    pub repeated: Seq<(Seq<char>, Seq<BlockModel>)>,
}

/// The value first bound to `n` among `s[i..]`.
pub open spec fn single_from(s: Seq<(Seq<char>, BlockModel)>, n: Seq<char>, i: int) -> Option<BlockModel>
    decreases s.len() - i,
{
    if i < 0 || i >= s.len() {
        None
    } else if s[i].0 == n {
        Some(s[i].1)
    } else {
        single_from(s, n, i + 1)
    }
}

/// The run first bound to `n` among `s[i..]`.
pub open spec fn repeated_from(s: Seq<(Seq<char>, Seq<BlockModel>)>, n: Seq<char>, i: int) -> Option<Seq<BlockModel>>
    decreases s.len() - i,
{
    if i < 0 || i >= s.len() {
        None
    } else if s[i].0 == n {
        Some(s[i].1)
    } else {
        repeated_from(s, n, i + 1)
    }
}

/// Bind `n` to `v`: a name bound before matches only the same object.
pub open spec fn bind_single(bs: BindingsModel, n: Seq<char>, v: BlockModel) -> Option<BindingsModel> {
    match single_from(bs.singles, n, 0) {
        Some(existing) => if existing == v {
            Some(bs)
        } else {
            None
        },
        None => Some(BindingsModel { singles: bs.singles.push((n, v)), repeated: bs.repeated }),
    }
}

/// Bind `n` to the run `vs`: a name bound before to another run is a
/// conflict, reported by its name.
pub open spec fn bind_repeated(bs: BindingsModel, n: Seq<char>, vs: Seq<BlockModel>) -> Result<BindingsModel, Seq<char>> {
    match repeated_from(bs.repeated, n, 0) {
        Some(existing) => if existing == vs {
            Ok(bs)
        } else {
            Err(n)
        },
        None => Ok(BindingsModel { singles: bs.singles, repeated: bs.repeated.push((n, vs)) }),
    }
}

// ── Matching ────────────────────────────────────────────────────────

/// The position of the first rest capture among `cs[i..]`.
pub open spec fn first_rest(cs: Seq<ObjectModel>, i: int) -> Option<int>
    decreases cs.len() - i,
{
    if i < 0 || i >= cs.len() {
        None
    } else if cs[i] is RestCapture {
        Some(i)
    } else {
        first_rest(cs, i + 1)
    }
}

proof fn lemma_first_rest(cs: Seq<ObjectModel>, j: int)
    requires
        0 <= j,
    ensures
        first_rest(cs, j) matches Some(i) ==> j <= i < cs.len() && cs[i] is RestCapture,
    decreases cs.len() - j,
{
    if j < cs.len() {
        lemma_first_rest(cs, j + 1);
    }
}

/// Match one pattern object against one object: `Ok(Some(..))` with the
/// bindings grown on a match, `Ok(None)` on no match, `Err(name)` when a
/// rest capture meets a conflicting earlier binding.
pub open spec fn match_object(p: ObjectModel, b: BlockModel, bs: BindingsModel) -> Result<Option<BindingsModel>, Seq<char>>
    decreases p, 3nat, 0nat,
{
    match p {
        ObjectModel::Capture(n) => Ok(bind_single(bs, n, b)),
        ObjectModel::RestCapture(_) => Ok(None),
        ObjectModel::Atom(e) => if demote(b) == Some(e) {
            Ok(Some(bs))
        } else {
            Ok(None)
        },
        ObjectModel::Delimited(d, cs) => match b {
            BlockModel::Delimited(d2, os) => if d2 == d {
                match_children(cs, os, bs)
            } else {
                Ok(None)
            },
            _ => Ok(None),
        },
    }
}

/// Match the children of a delimited pattern against those of an object:
/// position by position, or around the first rest capture, which takes
/// whatever the patterns before and after it leave.
pub open spec fn match_children(cs: Seq<ObjectModel>, os: Seq<BlockModel>, bs: BindingsModel) -> Result<Option<BindingsModel>, Seq<char>>
    decreases cs, 2nat, 0nat,
{
    match first_rest(cs, 0) {
        Some(r) => match_rest(cs, r, os, bs),
        None => if cs.len() != os.len() {
            Ok(None)
        } else {
            match_pairs(cs, os, 0, 0, cs.len(), bs)
        },
    }
}

pub open spec fn match_rest(cs: Seq<ObjectModel>, r: int, os: Seq<BlockModel>, bs: BindingsModel) -> Result<Option<BindingsModel>, Seq<char>>
    decreases cs, 1nat, 0nat,
{
    if !(0 <= r < cs.len()) {
        Ok(None)
    } else {
        let before = r;
        let after = cs.len() - r - 1;
        if os.len() < before + after {
            Ok(None)
        } else {
            match match_pairs(cs, os, 0, 0, before as nat, bs) {
                Err(e) => Err(e),
                Ok(None) => Ok(None),
                Ok(Some(b1)) => {
                    let end = os.len() - after;
                    match bind_repeated(b1, cs[r]->RestCapture_0, os.subrange(before, end)) {
                        Err(e) => Err(e),
                        Ok(b2) => match_pairs(cs, os, r + 1, end, after as nat, b2),
                    }
                },
            }
        }
    }
}

/// Match `count` pattern objects from `cs[pi]` on against objects from
/// `os[oi]` on, in step, stopping at the first that fails.
pub open spec fn match_pairs(cs: Seq<ObjectModel>, os: Seq<BlockModel>, pi: int, oi: int, count: nat, bs: BindingsModel) -> Result<Option<BindingsModel>, Seq<char>>
    decreases cs, 0nat, count,
{
    if count == 0 {
        Ok(Some(bs))
    } else if !(0 <= pi < cs.len() && 0 <= oi < os.len()) {
        Ok(None)
    } else {
        match match_object(cs[pi], os[oi], bs) {
            Err(e) => Err(e),
            Ok(None) => Ok(None),
            Ok(Some(b1)) => match_pairs(cs, os, pi + 1, oi + 1, (count - 1) as nat, b1),
        }
    }
}

// ── Bindings, executed ──────────────────────────────────────────────

#[derive(Debug)]
struct SingleMacroBinding {
    name: String,
    value: NotaBlock,
}

#[derive(Debug)]
struct RepeatedMacroBinding {
    name: String,
    values: Vec<NotaBlock>,
}

/// The captures a pattern match has bound.
#[derive(Debug)]
pub struct MacroBindings {
    singles: Vec<SingleMacroBinding>,
    repeated: Vec<RepeatedMacroBinding>,
}

/// The error for a capture with nothing bound to it.
pub open spec fn missing_binding(r: SchemaError, n: Seq<char>) -> bool {
    r matches SchemaError::MissingMacroBinding { name } && name@ == n
}

/// The error for a rest capture bound to two different runs.
pub open spec fn conflicting_binding(r: SchemaError, n: Seq<char>) -> bool {
    r matches SchemaError::ConflictingMacroBinding { name } && name@ == n
}

impl MacroBindings {
    pub closed spec fn model(&self) -> BindingsModel {
        BindingsModel {
            singles: Seq::new(
                self.singles@.len(),
                |i: int| (self.singles@[i].name@, self.singles@[i].value.model()),
            ),
            repeated: Seq::new(
                self.repeated@.len(),
                |i: int| (self.repeated@[i].name@, block_models(self.repeated@[i].values@)),
            ),
        }
    }

    /// No captures bound.
    pub fn new() -> (r: Self)
        ensures
            r.model() == (BindingsModel { singles: Seq::empty(), repeated: Seq::empty() }),
    {
        let r = MacroBindings { singles: Vec::new(), repeated: Vec::new() };
        assert(r.model().singles =~= Seq::empty());
        assert(r.model().repeated =~= Seq::empty());
        r
    }

    fn find_single(&self, name: &str) -> (r: Option<usize>)
        ensures
            match single_from(self.model().singles, name@, 0) {
                Some(v) => r matches Some(i) && i < self.singles@.len()
                    && self.singles@[i as int].value.model() == v,
                None => r is None,
            },
    {
        let ghost m = self.model().singles;
        let mut i: usize = 0;
        while i < self.singles.len()
            invariant
                m == self.model().singles,
                0 <= i <= self.singles@.len(),
                single_from(m, name@, 0) == single_from(m, name@, i as int),
            decreases self.singles@.len() - i,
        {
            if crate::text::str_equal(self.singles[i].name.as_str(), name) {
                return Some(i);
            }
            i = i + 1;
        }
        None
    }

    fn find_repeated(&self, name: &str) -> (r: Option<usize>)
        ensures
            match repeated_from(self.model().repeated, name@, 0) {
                Some(v) => r matches Some(i) && i < self.repeated@.len()
                    && block_models(self.repeated@[i as int].values@) == v,
                None => r is None,
            },
    {
        let ghost m = self.model().repeated;
        let mut i: usize = 0;
        while i < self.repeated.len()
            invariant
                m == self.model().repeated,
                0 <= i <= self.repeated@.len(),
                repeated_from(m, name@, 0) == repeated_from(m, name@, i as int),
            decreases self.repeated@.len() - i,
        {
            if crate::text::str_equal(self.repeated[i].name.as_str(), name) {
                return Some(i);
            }
            i = i + 1;
        }
        None
    }

    /// Bind `name` to `value`; false where it was bound to another object.
    pub fn bind_single(&mut self, name: &str, value: &NotaBlock) -> (r: bool)
        ensures
            match bind_single(old(self).model(), name@, value.model()) {
                Some(b) => r && final(self).model() == b,
                None => !r,
            },
    {
        match self.find_single(name) {
            Some(i) => same_block(&self.singles[i].value, value),
            None => {
                let ghost before = self.model();
                self.singles.push(SingleMacroBinding { name: string_of(name), value: value.duplicate() });
                assert(self.model().singles =~= before.singles.push((name@, value.model())));
                assert(self.model().repeated =~= before.repeated);
                true
            },
        }
    }

    /// Bind `name` to the run `values`; an error where it was bound to
    /// another run.
    pub fn bind_repeated(&mut self, name: &str, values: &[NotaBlock]) -> (r: Result<(), SchemaError>)
        ensures
            match bind_repeated(old(self).model(), name@, block_models(values@)) {
                Ok(b) => r is Ok && final(self).model() == b,
                Err(n) => r matches Err(e) && conflicting_binding(e, n),
            },
    {
        match self.find_repeated(name) {
            Some(i) => {
                if same_blocks(self.repeated[i].values.as_slice(), values) {
                    Ok(())
                } else {
                    Err(SchemaError::ConflictingMacroBinding { name: string_of(name) })
                }
            },
            None => {
                let ghost before = self.model();
                let copy = duplicate_blocks(values);
                self.repeated.push(RepeatedMacroBinding { name: string_of(name), values: copy });
                assert(self.model().repeated =~= before.repeated.push((name@, block_models(values@))));
                assert(self.model().singles =~= before.singles);
                Ok(())
            },
        }
    }

    /// The object bound to the single capture `name`.
    pub fn single(&self, name: &str) -> (r: Result<&NotaBlock, SchemaError>)
        ensures
            match single_from(self.model().singles, name@, 0) {
                Some(v) => r matches Ok(b) && b.model() == v,
                None => r matches Err(e) && missing_binding(e, name@),
            },
    {
        match self.find_single(name) {
            Some(i) => Ok(&self.singles[i].value),
            None => Err(SchemaError::MissingMacroBinding { name: string_of(name) }),
        }
    }

    /// The run bound to the rest capture `name`.
    pub fn repeated(&self, name: &str) -> (r: Result<&[NotaBlock], SchemaError>)
        ensures
            match repeated_from(self.model().repeated, name@, 0) {
                Some(v) => r matches Ok(bs) && block_models(bs@) == v,
                None => r matches Err(e) && missing_binding(e, name@),
            },
    {
        match self.find_repeated(name) {
            Some(i) => Ok(self.repeated[i].values.as_slice()),
            None => Err(SchemaError::MissingMacroBinding { name: string_of(name) }),
        }
    }
}

// ── Matching, executed ──────────────────────────────────────────────

/// What a match call returned, against the outcome its model gives.
pub open spec fn match_result(
    r: Result<bool, SchemaError>,
    m: Result<Option<BindingsModel>, Seq<char>>,
    after: BindingsModel,
) -> bool {
    match m {
        Err(n) => r matches Err(e) && conflicting_binding(e, n),
        Ok(Some(b)) => r matches Ok(true) && after == b,
        Ok(None) => r matches Ok(false),
    }
}

impl MacroPatternObject {
    fn as_rest_capture_name(&self) -> (r: Option<&str>)
        ensures
            match self.model() {
                ObjectModel::RestCapture(n) => r matches Some(t) && t@ == n,
                _ => r is None,
            },
    {
        match self {
            MacroPatternObject::RestCapture(name) => Some(name.as_str()),
            _ => None,
        }
    }

    /// Match this pattern object against `object`, binding its captures.
    pub fn matches_block(&self, object: &NotaBlock, bindings: &mut MacroBindings) -> (r: Result<bool, SchemaError>)
        ensures
            match_result(r, match_object(self.model(), object.model(), old(bindings).model()), final(bindings).model()),
        decreases self, 3int,
    {
        match self {
            MacroPatternObject::Capture(name) => Ok(bindings.bind_single(name.as_str(), object)),
            MacroPatternObject::RestCapture(_) => Ok(false),
            MacroPatternObject::Atom(expected) => match object.demote_to_string() {
                Some(text) => Ok(crate::text::str_equal(text, expected.as_str())),
                None => Ok(false),
            },
            MacroPatternObject::Delimited(data) => {
                proof {
                    lemma_pattern_delimited_model(*self);
                }
                match object {
                    NotaBlock::Delimited(d, objects) => {
                        assert(object.model()->Delimited_1 =~= block_models(objects@));
                        if *d == data.delimiter {
                            pattern_children_matches(data.children.as_slice(), objects.as_slice(), bindings)
                        } else {
                            Ok(false)
                        }
                    },
                    _ => Ok(false),
                }
            },
        }
    }
}

/// The position of the first rest capture among the children.
fn rest_capture_index(children: &[MacroPatternObject]) -> (r: Option<usize>)
    ensures
        match r {
            Some(j) => first_rest(pattern_models(children@), 0) == Some(j as int),
            None => first_rest(pattern_models(children@), 0) is None,
        },
{
    let ghost cs = pattern_models(children@);
    let mut i: usize = 0;
    while i < children.len()
        invariant
            cs == pattern_models(children@),
            0 <= i <= children@.len(),
            first_rest(cs, 0) == first_rest(cs, i as int),
        decreases children@.len() - i,
    {
        if children[i].as_rest_capture_name().is_some() {
            return Some(i);
        }
        i = i + 1;
    }
    None
}

/// Match the children of a delimited pattern against `objects`.
fn pattern_children_matches(
    children: &[MacroPatternObject],
    objects: &[NotaBlock],
    bindings: &mut MacroBindings,
) -> (r: Result<bool, SchemaError>)
    ensures
        match_result(
            r,
            match_children(pattern_models(children@), block_models(objects@), old(bindings).model()),
            final(bindings).model(),
        ),
    decreases children@, 2int,
{
    proof {
        lemma_first_rest(pattern_models(children@), 0);
    }
    match rest_capture_index(children) {
        Some(rest_index) => {
            assert(first_rest(pattern_models(children@), 0) == Some(rest_index as int));
            assert(pattern_models(children@)[rest_index as int] == children@[rest_index as int].model());
            matches_with_rest_capture(children, rest_index, objects, bindings)
        },
        None => {
            if children.len() != objects.len() {
                return Ok(false);
            }
            match_run(children, objects, 0, 0, children.len(), bindings)
        },
    }
}

/// Match around the rest capture at `rest_index`: the patterns before it
/// take the first objects, those after it the last, and the rest capture
/// binds the run between.
fn matches_with_rest_capture(
    children: &[MacroPatternObject],
    rest_index: usize,
    objects: &[NotaBlock],
    bindings: &mut MacroBindings,
) -> (r: Result<bool, SchemaError>)
    requires
        rest_index < children@.len(),
        children@[rest_index as int].model() is RestCapture,
    ensures
        match_result(
            r,
            match_rest(pattern_models(children@), rest_index as int, block_models(objects@), old(bindings).model()),
            final(bindings).model(),
        ),
    decreases children@, 1int,
{
    let ghost cs = pattern_models(children@);
    let ghost os = block_models(objects@);
    let before = rest_index;
    let after = children.len() - rest_index - 1;
    if objects.len() < before + after {
        return Ok(false);
    }
    let prefix = match_run(children, objects, 0, 0, before, bindings);
    match prefix {
        Ok(true) => {},
        _ => {
            return prefix;
        },
    }
    let repeated_end = objects.len() - after;
    let capture_name = match children[rest_index].as_rest_capture_name() {
        Some(name) => name,
        None => {
            return Ok(false);
        },
    };
    let run = &objects[before..repeated_end];
    assert(block_models(run@) =~= os.subrange(before as int, repeated_end as int));
    let bound = bindings.bind_repeated(capture_name, run);
    match bound {
        Ok(()) => {},
        Err(e) => {
            return Err(e);
        },
    }
    match_run(children, objects, rest_index + 1, repeated_end, after, bindings)
}

/// Match `count` pattern objects from `pi` on against objects from `oi`
/// on, in step, stopping at the first that does not match.
fn match_run(
    children: &[MacroPatternObject],
    objects: &[NotaBlock],
    pi: usize,
    oi: usize,
    count: usize,
    bindings: &mut MacroBindings,
) -> (r: Result<bool, SchemaError>)
    requires
        pi + count <= children@.len(),
        oi + count <= objects@.len(),
    ensures
        match_result(
            r,
            match_pairs(pattern_models(children@), block_models(objects@), pi as int, oi as int, count as nat, old(bindings).model()),
            final(bindings).model(),
        ),
    decreases children@, 0int,
{
    let ghost cs = pattern_models(children@);
    let ghost os = block_models(objects@);
    let ghost goal = match_pairs(cs, os, pi as int, oi as int, count as nat, bindings.model());
    let pattern_total = children.len();
    let object_total = objects.len();
    let mut k: usize = 0;
    while k < count
        invariant
            pi + count <= children@.len(),
            oi + count <= objects@.len(),
            cs == pattern_models(children@),
            os == block_models(objects@),
            0 <= k <= count,
            pattern_total == children@.len(),
            object_total == objects@.len(),
            goal == match_pairs(pattern_models(children@), block_models(objects@), pi as int, oi as int, count as nat, old(bindings).model()),
            goal == match_pairs(cs, os, pi + k, oi + k, (count - k) as nat, bindings.model()),
        decreases count - k,
    {
        let at_pattern = pi + k;
        let at_object = oi + k;
        proof {
            assert(decreases_to!(children@ => children@[pi + k]));
            assert(cs.len() == children@.len() && os.len() == objects@.len());
            assert(cs[pi + k] == children@[pi + k].model());
            assert(os[oi + k] == objects@[oi + k].model());
        }
        let ghost bk = bindings.model();
        let ghost rest = (count - k) as nat;
        assert(rest > 0);
        assert(match_pairs(cs, os, pi + k, oi + k, rest, bk) == match match_object(cs[pi + k], os[oi + k], bk) {
            Err(e) => Err(e),
            Ok(None) => Ok(None),
            Ok(Some(b1)) => match_pairs(cs, os, pi + k + 1, oi + k + 1, (rest - 1) as nat, b1),
        });
        let step = children[at_pattern].matches_block(&objects[at_object], bindings);
        match step {
            Ok(true) => {},
            _ => {
                return step;
            },
        }
        k = k + 1;
    }
    Ok(true)
}

// ── Notation ────────────────────────────────────────────────────────

pub open spec fn opening_text(d: MacroDelimiter) -> Seq<char> {
    match d {
        MacroDelimiter::Parenthesis => "("@,
        MacroDelimiter::SquareBracket => "["@,
        MacroDelimiter::Brace => "{"@,
        MacroDelimiter::PipeParenthesis => "(|"@,
        MacroDelimiter::PipeBrace => "{|"@,
    }
}

pub open spec fn closing_text(d: MacroDelimiter) -> Seq<char> {
    match d {
        MacroDelimiter::Parenthesis => ")"@,
        MacroDelimiter::SquareBracket => "]"@,
        MacroDelimiter::Brace => "}"@,
        MacroDelimiter::PipeParenthesis => "|)"@,
        MacroDelimiter::PipeBrace => "|}"@,
    }
}

/// The parts joined by single spaces.
pub open spec fn spaced(parts: Seq<Seq<char>>) -> Seq<char>
    decreases parts.len(),
{
    if parts.len() == 0 {
        Seq::empty()
    } else if parts.len() == 1 {
        parts[0]
    } else {
        spaced(parts.drop_last()) + " "@ + parts.last()
    }
}

/// The parts, spaced, inside the delimiter's two ends.
pub open spec fn wrapped(d: MacroDelimiter, parts: Seq<Seq<char>>) -> Seq<char> {
    opening_text(d) + spaced(parts) + closing_text(d)
}

impl MacroDelimiter {
    pub fn opening(&self) -> (r: &'static str)
        ensures
            r@ == opening_text(*self),
    {
        match self {
            MacroDelimiter::Parenthesis => "(",
            MacroDelimiter::SquareBracket => "[",
            MacroDelimiter::Brace => "{",
            MacroDelimiter::PipeParenthesis => "(|",
            MacroDelimiter::PipeBrace => "{|",
        }
    }

    pub fn closing(&self) -> (r: &'static str)
        ensures
            r@ == closing_text(*self),
    {
        match self {
            MacroDelimiter::Parenthesis => ")",
            MacroDelimiter::SquareBracket => "]",
            MacroDelimiter::Brace => "}",
            MacroDelimiter::PipeParenthesis => "|)",
            MacroDelimiter::PipeBrace => "|}",
        }
    }

    /// The parts, spaced, inside this delimiter.
    pub fn wrap_children(&self, parts: &Vec<String>) -> (r: String)
        ensures
            r@ == wrapped(*self, crate::emit::string_views(parts@)),
    {
        let ghost views = crate::emit::string_views(parts@);
        let mut out = string_of(self.opening());
        let ghost open = out@;
        let mut i: usize = 0;
        while i < parts.len()
            invariant
                views == crate::emit::string_views(parts@),
                open == opening_text(*self),
                0 <= i <= parts@.len(),
                out@ == open + spaced(views.take(i as int)),
            decreases parts@.len() - i,
        {
            let ghost before = out@;
            proof {
                assert(views.take(i as int + 1).drop_last() =~= views.take(i as int));
                assert(views.take(i as int + 1).last() == parts@[i as int]@);
            }
            if i > 0 {
                out.append(" ");
                out.append(parts[i].as_str());
                assert(out@ =~= open + spaced(views.take(i as int + 1)));
            } else {
                out.append(parts[i].as_str());
                assert(views.take(1).len() == 1);
                assert(out@ =~= open + spaced(views.take(i as int + 1)));
            }
            i = i + 1;
        }
        assert(views.take(parts@.len() as int) =~= views);
        out.append(self.closing());
        out
    }
}

/// How an object is written, in its most compact form.
pub open spec fn block_text(b: BlockModel) -> Seq<char>
    decreases b,
{
    match b {
        BlockModel::Atom(t, _) => t,
        BlockModel::PipeText(t) => "[|"@ + t + "|]"@,
        BlockModel::Delimited(d, os) => wrapped(d, block_texts(os)),
    }
}

/// How each object of a run is written.
pub open spec fn block_texts(os: Seq<BlockModel>) -> Seq<Seq<char>>
    decreases os,
{
    Seq::new(os.len(), |i: int| if 0 <= i < os.len() { block_text(os[i]) } else { Seq::empty() })
}

impl NotaBlock {
    /// How this object is written, in its most compact form.
    pub fn compact_notation(&self) -> (r: String)
        ensures
            r@ == block_text(self.model()),
        decreases self,
    {
        match self {
            NotaBlock::Atom(t, _) => string_of(t.as_str()),
            NotaBlock::PipeText(t) => {
                let mut out = string_of("[|");
                out.append(t.as_str());
                out.append("|]");
                out
            },
            NotaBlock::Delimited(d, items) => {
                let mut parts: Vec<String> = Vec::new();
                let mut i: usize = 0;
                while i < items.len()
                    invariant
                        *self == NotaBlock::Delimited(*d, *items),
                        0 <= i <= items@.len(),
                        parts@.len() == i,
                        forall|k: int| 0 <= k < i ==> (#[trigger] parts@[k])@ == block_text(items@[k].model()),
                    decreases items@.len() - i,
                {
                    proof {
                        assert(decreases_to!(*self => (*self)->Delimited_1));
                        assert(decreases_to!(items@ => items@[i as int]));
                    }
                    parts.push(items[i].compact_notation());
                    i = i + 1;
                }
                let r = d.wrap_children(&parts);
                let ghost os = self.model()->Delimited_1;
                assert(crate::emit::string_views(parts@) =~= block_texts(os));
                r
            },
        }
    }
}

// ── Reading patterns and templates from objects ─────────────────────

/// An atom read as a capture: `$*name` is a rest capture, `$name` a
/// single one; an atom not starting with `$` is no capture.
pub open spec fn capture_of(t: Seq<char>) -> Option<(Seq<char>, bool)> {
    if t.len() > 0 && t[0] == '$' {
        if t.len() >= 2 && t[1] == '*' {
            Some((t.subrange(2, t.len() as int), true))
        } else {
            Some((t.subrange(1, t.len() as int), false))
        }
    } else {
        None
    }
}

/// The error for a capture atom with an empty name.
pub open spec fn invalid_capture(e: SchemaError, t: Seq<char>) -> bool {
    e matches SchemaError::InvalidMacroCapture { found } && found@ == t
}

struct CaptureName {
    name: String,
    rest: bool,
}

impl CaptureName {
    fn from_token(token: &str) -> (r: Result<Option<CaptureName>, SchemaError>)
        ensures
            match capture_of(token@) {
                None => r matches Ok(None),
                Some((n, rest)) => if n.len() == 0 {
                    r matches Err(e) && invalid_capture(e, token@)
                } else {
                    r matches Ok(Some(c)) && c.name@ == n && c.rest == rest
                },
            },
    {
        let chars = crate::text::chars_of(token);
        if chars.len() == 0 || chars[0] != '$' {
            return Ok(None);
        }
        let rest = chars.len() >= 2 && chars[1] == '*';
        let start: usize = if rest { 2 } else { 1 };
        let mut tail: Vec<char> = Vec::new();
        let mut i: usize = start;
        while i < chars.len()
            invariant
                chars@ == token@,
                start <= i <= chars@.len(),
                tail@ == chars@.subrange(start as int, i as int),
            decreases chars@.len() - i,
        {
            tail.push(chars[i]);
            i = i + 1;
            assert(tail@ =~= chars@.subrange(start as int, i as int));
        }
        if tail.len() == 0 {
            return Err(SchemaError::InvalidMacroCapture { found: string_of(token) });
        }
        let name = crate::text::string_from_chars(&tail);
        Ok(Some(CaptureName { name, rest }))
    }
}

/// The pattern or template object an object reads as: capture atoms
/// become captures, other atoms literal atoms, a pipe text the atom of its
/// notation, and a delimited object the same delimiter around its
/// children read in turn. `Err` carries an invalid capture atom.
pub open spec fn object_of(b: BlockModel) -> Result<ObjectModel, Seq<char>>
    decreases b, 1nat,
{
    match b {
        BlockModel::Atom(t, _) => match capture_of(t) {
            None => Ok(ObjectModel::Atom(t)),
            Some((n, rest)) => if n.len() == 0 {
                Err(t)
            } else if rest {
                Ok(ObjectModel::RestCapture(n))
            } else {
                Ok(ObjectModel::Capture(n))
            },
        },
        BlockModel::PipeText(_) => Ok(ObjectModel::Atom(block_text(b))),
        BlockModel::Delimited(d, os) => match objects_of(os, os.len()) {
            Err(e) => Err(e),
            Ok(cs) => Ok(ObjectModel::Delimited(d, cs)),
        },
    }
}

/// The first `n` objects of a run, read in order; the first failure wins.
pub open spec fn objects_of(os: Seq<BlockModel>, n: nat) -> Result<Seq<ObjectModel>, Seq<char>>
    decreases os, 0nat, n,
{
    if n == 0 || n > os.len() {
        Ok(Seq::empty())
    } else {
        match objects_of(os, (n - 1) as nat) {
            Err(e) => Err(e),
            Ok(prev) => match object_of(os[n - 1]) {
                Err(e) => Err(e),
                Ok(c) => Ok(prev.push(c)),
            },
        }
    }
}

/// A failure reading a prefix of a run is the failure reading it all.
proof fn lemma_objects_of_err(os: Seq<BlockModel>, k: nat, n: nat)
    requires
        1 <= k <= n <= os.len(),
        objects_of(os, k) is Err,
    ensures
        objects_of(os, n) == objects_of(os, k),
    decreases n - k,
{
    if n > k {
        lemma_objects_of_err(os, k, (n - 1) as nat);
    }
}

impl MacroPatternObject {
    /// Read a pattern object from a NOTA object.
    pub fn from_block(object: &NotaBlock) -> (r: Result<Self, SchemaError>)
        ensures
            match object_of(object.model()) {
                Ok(m) => r matches Ok(p) && p.model() == m,
                Err(t) => r matches Err(e) && invalid_capture(e, t),
            },
        decreases object,
    {
        match object {
            NotaBlock::Atom(text, _) => {
                match CaptureName::from_token(text.as_str()) {
                    Err(e) => Err(e),
                    Ok(Some(capture)) => if capture.rest {
                        Ok(MacroPatternObject::RestCapture(capture.name))
                    } else {
                        Ok(MacroPatternObject::Capture(capture.name))
                    },
                    Ok(None) => Ok(MacroPatternObject::Atom(string_of(text.as_str()))),
                }
            },
            NotaBlock::PipeText(_) => Ok(MacroPatternObject::Atom(object.compact_notation())),
            NotaBlock::Delimited(d, items) => {
                let ghost os = object.model()->Delimited_1;
                assert(os =~= block_models(items@));
                let mut children: Vec<MacroPatternObject> = Vec::new();
                assert(pattern_models(children@) =~= Seq::empty());
                let mut i: usize = 0;
                while i < items.len()
                    invariant
                        *object == NotaBlock::Delimited(*d, *items),
                        os == block_models(items@),
                        object.model() == BlockModel::Delimited(*d, os),
                        0 <= i <= items@.len(),
                        objects_of(os, i as nat) == Ok::<Seq<ObjectModel>, Seq<char>>(pattern_models(children@)),
                    decreases items@.len() - i,
                {
                    proof {
                        assert(decreases_to!(*object => (*object)->Delimited_1));
                        assert(decreases_to!(items@ => items@[i as int]));
                    }
                    assert(os[i as int] == items@[i as int].model());
                    let child = MacroPatternObject::from_block(&items[i]);
                    match child {
                        Err(e) => {
                            proof {
                                assert(object_of(os[i as int]) is Err);
                                assert(objects_of(os, (i + 1) as nat) == Err::<Seq<ObjectModel>, Seq<char>>(object_of(os[i as int])->Err_0));
                                lemma_objects_of_err(os, (i + 1) as nat, os.len());
                            }
                            return Err(e);
                        },
                        Ok(c) => {
                            let ghost before = children@;
                            children.push(c);
                            assert(pattern_models(children@) =~= pattern_models(before).push(c.model()));
                        },
                    }
                    i = i + 1;
                }
                let r = MacroPatternObject::Delimited(Box::new(MacroPatternDelimited::new(*d, children)));
                proof {
                    lemma_pattern_delimited_model(r);
                }
                Ok(r)
            },
        }
    }
}

// ── Writing patterns back ───────────────────────────────────────────

/// How a pattern or template object is written: `$name`, `$*name`, the
/// atom, or the delimited children.
pub open spec fn object_text(o: ObjectModel) -> Seq<char>
    decreases o, 1nat,
{
    match o {
        ObjectModel::Capture(n) => "$"@ + n,
        ObjectModel::RestCapture(n) => "$*"@ + n,
        ObjectModel::Atom(t) => t,
        ObjectModel::Delimited(d, cs) => wrapped(d, object_texts(cs)),
    }
}

pub open spec fn object_texts(cs: Seq<ObjectModel>) -> Seq<Seq<char>>
    decreases cs, 0nat,
{
    Seq::new(cs.len(), |i: int| if 0 <= i < cs.len() { object_text(cs[i]) } else { Seq::empty() })
}

/// The captures of a pattern, written `$name` or `$*name`, in the order
/// they occur.
pub open spec fn capture_names_of(o: ObjectModel) -> Seq<Seq<char>>
    decreases o, 1nat,
{
    match o {
        ObjectModel::Capture(n) => seq!["$"@ + n],
        ObjectModel::RestCapture(n) => seq!["$*"@ + n],
        ObjectModel::Atom(_) => Seq::empty(),
        ObjectModel::Delimited(_, cs) => capture_name_lists(cs).flatten(),
    }
}

pub open spec fn capture_name_lists(cs: Seq<ObjectModel>) -> Seq<Seq<Seq<char>>>
    decreases cs, 0nat,
{
    Seq::new(cs.len(), |i: int| if 0 <= i < cs.len() { capture_names_of(cs[i]) } else { Seq::empty() })
}

/// `prefix` followed by `name`, as a new string.
fn prefixed(prefix: &str, name: &str) -> (r: String)
    ensures
        r@ == prefix@ + name@,
{
    let mut out = string_of(prefix);
    out.append(name);
    out
}

impl MacroPatternObject {
    /// How this pattern object is written.
    pub fn to_source_notation(&self) -> (r: String)
        ensures
            r@ == object_text(self.model()),
        decreases self,
    {
        match self {
            MacroPatternObject::Capture(name) => prefixed("$", name.as_str()),
            MacroPatternObject::RestCapture(name) => prefixed("$*", name.as_str()),
            MacroPatternObject::Atom(text) => string_of(text.as_str()),
            MacroPatternObject::Delimited(data) => {
                proof {
                    lemma_pattern_delimited_model(*self);
                }
                let ghost cs = pattern_models(data.children@);
                let mut parts: Vec<String> = Vec::new();
                let mut i: usize = 0;
                while i < data.children.len()
                    invariant
                        *self == MacroPatternObject::Delimited(*data),
                        cs == pattern_models(data.children@),
                        0 <= i <= data.children@.len(),
                        parts@.len() == i,
                        forall|k: int| 0 <= k < i ==> (#[trigger] parts@[k])@ == object_text(cs[k]),
                    decreases data.children@.len() - i,
                {
                    proof {
                        assert(decreases_to!(*self => (*self)->Delimited_0));
                        assert(decreases_to!(data.children@ => data.children@[i as int]));
                    }
                    parts.push(data.children[i].to_source_notation());
                    i = i + 1;
                }
                assert(crate::emit::string_views(parts@) =~= object_texts(cs));
                data.delimiter.wrap_children(&parts)
            },
        }
    }

    fn push_capture_names(&self, names: &mut Vec<String>)
        ensures
            crate::emit::string_views(final(names)@) == crate::emit::string_views(old(names)@) + capture_names_of(self.model()),
        decreases self,
    {
        let ghost start = crate::emit::string_views(names@);
        match self {
            MacroPatternObject::Capture(name) => {
                names.push(prefixed("$", name.as_str()));
                assert(crate::emit::string_views(names@) =~= start + capture_names_of(self.model()));
            },
            MacroPatternObject::RestCapture(name) => {
                names.push(prefixed("$*", name.as_str()));
                assert(crate::emit::string_views(names@) =~= start + capture_names_of(self.model()));
            },
            MacroPatternObject::Atom(_) => {
                assert(crate::emit::string_views(names@) =~= start + capture_names_of(self.model()));
            },
            MacroPatternObject::Delimited(data) => {
                proof {
                    lemma_pattern_delimited_model(*self);
                }
                let ghost cs = pattern_models(data.children@);
                let ghost lists = capture_name_lists(cs);
                let mut i: usize = 0;
                assert(lists.take(0).flatten() =~= Seq::empty());
                assert(crate::emit::string_views(names@) =~= start + lists.take(0).flatten());
                while i < data.children.len()
                    invariant
                        *self == MacroPatternObject::Delimited(*data),
                        cs == pattern_models(data.children@),
                        lists == capture_name_lists(cs),
                        0 <= i <= data.children@.len(),
                        crate::emit::string_views(names@) == start + lists.take(i as int).flatten(),
                    decreases data.children@.len() - i,
                {
                    proof {
                        assert(decreases_to!(*self => (*self)->Delimited_0));
                        assert(decreases_to!(data.children@ => data.children@[i as int]));
                    }
                    let ghost before = crate::emit::string_views(names@);
                    data.children[i].push_capture_names(names);
                    proof {
                        assert(lists.take(i as int + 1) =~= lists.take(i as int).push(lists[i as int]));
                        lists.take(i as int).lemma_flatten_push(lists[i as int]);
                        assert(lists[i as int] == capture_names_of(data.children@[i as int].model()));
                        assert(crate::emit::string_views(names@) =~= start + lists.take(i as int + 1).flatten());
                    }
                    i = i + 1;
                }
                assert(lists.take(data.children@.len() as int) =~= lists);
            },
        }
    }
}

// ── Patterns ────────────────────────────────────────────────────────

/// The pattern of a macro definition: one pattern object.
#[derive(Debug, Eq, PartialEq)]
pub struct MacroPattern {
    object: MacroPatternObject,
}

/// What a macro is matched against: one object, or a key/value pair.
#[derive(Clone, Copy, Debug)]
pub enum MacroObject<'a> {
    Block(&'a NotaBlock),
    Pair(MacroPair<'a>),
}

/// A key/value pair of a map, as two objects.
#[derive(Clone, Copy, Debug)]
pub struct MacroPair<'a> {
    pub name: &'a NotaBlock,
    pub definition: &'a NotaBlock,
}

pub enum MacroObjectModel {
    Block(BlockModel),
    Pair(BlockModel, BlockModel),
}

impl<'a> MacroObject<'a> {
    pub open spec fn model(&self) -> MacroObjectModel {
        match *self {
            MacroObject::Block(b) => MacroObjectModel::Block(b.model()),
            MacroObject::Pair(p) => MacroObjectModel::Pair(p.name.model(), p.definition.model()),
        }
    }
}

/// Match a pattern against a pair: the pattern must be a parenthesis
/// with two children, matched against the key and then the value.
pub open spec fn match_pair(p: ObjectModel, key: BlockModel, value: BlockModel, bs: BindingsModel) -> Result<Option<BindingsModel>, Seq<char>> {
    match p {
        ObjectModel::Delimited(d, cs) => if d == MacroDelimiter::Parenthesis && cs.len() == 2 {
            match match_object(cs[0], key, bs) {
                Err(e) => Err(e),
                Ok(None) => Ok(None),
                Ok(Some(b1)) => match_object(cs[1], value, b1),
            }
        } else {
            Ok(None)
        },
        _ => Ok(None),
    }
}

pub open spec fn no_bindings() -> BindingsModel {
    BindingsModel { singles: Seq::empty(), repeated: Seq::empty() }
}

/// Match a pattern against a macro object from no bindings.
pub open spec fn captures_of(p: ObjectModel, o: MacroObjectModel) -> Result<Option<BindingsModel>, Seq<char>> {
    match o {
        MacroObjectModel::Block(b) => match_object(p, b, no_bindings()),
        MacroObjectModel::Pair(k, v) => match_pair(p, k, v, no_bindings()),
    }
}

impl MacroPatternObject {
    fn matches_pair(&self, pair: MacroPair, bindings: &mut MacroBindings) -> (r: Result<bool, SchemaError>)
        ensures
            match_result(r, match_pair(self.model(), pair.name.model(), pair.definition.model(), old(bindings).model()), final(bindings).model()),
    {
        match self {
            MacroPatternObject::Delimited(data) => {
                proof {
                    lemma_pattern_delimited_model(*self);
                }
                if data.delimiter != MacroDelimiter::Parenthesis || data.children.len() != 2 {
                    return Ok(false);
                }
                proof {
                    assert(pattern_models(data.children@)[0] == data.children@[0].model());
                    assert(pattern_models(data.children@)[1] == data.children@[1].model());
                }
                let first = data.children[0].matches_block(pair.name, bindings);
                match first {
                    Ok(true) => {},
                    _ => {
                        return first;
                    },
                }
                data.children[1].matches_block(pair.definition, bindings)
            },
            _ => Ok(false),
        }
    }
}

impl MacroPattern {
    pub closed spec fn model(&self) -> ObjectModel {
        self.object.model()
    }

    pub fn new(object: MacroPatternObject) -> (r: Self)
        ensures
            r.model() == object.model(),
    {
        MacroPattern { object }
    }

    pub fn object(&self) -> (r: &MacroPatternObject)
        ensures
            r.model() == self.model(),
    {
        &self.object
    }

    /// Read a pattern from a NOTA object.
    pub fn from_block(object: &NotaBlock) -> (r: Result<Self, SchemaError>)
        ensures
            match object_of(object.model()) {
                Ok(m) => r matches Ok(p) && p.model() == m,
                Err(t) => r matches Err(e) && invalid_capture(e, t),
            },
    {
        match MacroPatternObject::from_block(object) {
            Ok(o) => Ok(MacroPattern { object: o }),
            Err(e) => Err(e),
        }
    }

    /// Match the pattern against `object`: the bindings on a match,
    /// `None` on no match, an error on a conflicting rest capture.
    pub fn captures(&self, object: MacroObject) -> (r: Result<Option<MacroBindings>, SchemaError>)
        ensures
            match captures_of(self.model(), object.model()) {
                Err(n) => r matches Err(e) && conflicting_binding(e, n),
                Ok(None) => r matches Ok(None),
                Ok(Some(b)) => r matches Ok(Some(found)) && found.model() == b,
            },
    {
        let mut bindings = MacroBindings::new();
        let matched = match object {
            MacroObject::Block(block) => self.object.matches_block(block, &mut bindings),
            MacroObject::Pair(pair) => self.object.matches_pair(pair, &mut bindings),
        };
        match matched {
            Err(e) => Err(e),
            Ok(true) => Ok(Some(bindings)),
            Ok(false) => Ok(None),
        }
    }

    /// The captures of the pattern, written `$name` or `$*name`, in the
    /// order they occur.
    pub fn capture_names(&self) -> (r: Vec<String>)
        ensures
            crate::emit::string_views(r@) == capture_names_of(self.model()),
    {
        let mut names: Vec<String> = Vec::new();
        self.object.push_capture_names(&mut names);
        assert(crate::emit::string_views(Seq::<String>::empty()) =~= Seq::empty());
        assert(crate::emit::string_views(Seq::<String>::empty()) + capture_names_of(self.model()) =~= capture_names_of(self.model()));
        names
    }

    /// How the pattern is written.
    pub fn to_source_notation(&self) -> (r: String)
        ensures
            r@ == object_text(self.model()),
    {
        self.object.to_source_notation()
    }
}

// ── Templates ───────────────────────────────────────────────────────

/// One object of a macro template: a single capture, a rest capture
/// spliced in place, a literal atom, or a delimited run of further
/// template objects.
#[derive(Debug, Eq, PartialEq)]
pub enum MacroTemplateObject {
    Capture(String),
    RestCapture(String),
    Atom(String),
    Delimited(Box<MacroTemplateDelimited>),
}

#[derive(Debug, Eq, PartialEq)]
pub struct MacroTemplateDelimited {
    delimiter: MacroDelimiter,
    children: Vec<MacroTemplateObject>,
}

/// What a template produces: a type declaration, struct fields, enum
/// variants, or a type reference.
#[derive(Debug, Eq, PartialEq)]
pub enum MacroTemplate {
    Type(TypeTemplate),
    Fields(Vec<MacroTemplateObject>),
    Variants(Vec<MacroTemplateObject>),
    Reference(MacroTemplateObject),
}

/// The payload of a type template: the declaration's kind, its name and
/// its body.
#[derive(Debug, Eq, PartialEq)]
pub enum TypeTemplate {
    Struct(MacroTemplateObject, MacroTemplateObject),
    Enum(MacroTemplateObject, MacroTemplateObject),
    Newtype(MacroTemplateObject, MacroTemplateObject),
}

pub open spec fn template_models(ts: Seq<MacroTemplateObject>) -> Seq<ObjectModel> {
    Seq::new(ts.len(), |i: int| ts[i].model())
}

impl MacroTemplateObject {
    pub closed spec fn model(&self) -> ObjectModel
        decreases self,
    {
        match self {
            MacroTemplateObject::Capture(n) => ObjectModel::Capture(n@),
            MacroTemplateObject::RestCapture(n) => ObjectModel::RestCapture(n@),
            MacroTemplateObject::Atom(t) => ObjectModel::Atom(t@),
            MacroTemplateObject::Delimited(data) => ObjectModel::Delimited(
                data.delimiter,
                Seq::new(
                    data.children@.len(),
                    |i: int|
                        if 0 <= i < data.children@.len() {
                            data.children@[i].model()
                        } else {
                            ObjectModel::Atom(Seq::empty())
                        },
                ),
            ),
        }
    }
}

impl MacroTemplateDelimited {
    pub closed spec fn delimiter_of(&self) -> MacroDelimiter {
        self.delimiter
    }

    pub closed spec fn child_list(&self) -> Seq<MacroTemplateObject> {
        self.children@
    }

    pub fn new(delimiter: MacroDelimiter, children: Vec<MacroTemplateObject>) -> (r: Self)
        ensures
            r.delimiter_of() == delimiter,
            r.child_list() == children@,
    {
        MacroTemplateDelimited { delimiter, children }
    }

    pub fn delimiter(&self) -> (r: MacroDelimiter)
        ensures
            r == self.delimiter_of(),
    {
        self.delimiter
    }

    pub fn children(&self) -> (r: &[MacroTemplateObject])
        ensures
            r@ == self.child_list(),
    {
        self.children.as_slice()
    }
}

proof fn lemma_template_delimited_model(t: MacroTemplateObject)
    requires
        t is Delimited,
    ensures
        t.model() == ObjectModel::Delimited(
            (t->Delimited_0).delimiter_of(),
            template_models((t->Delimited_0).child_list()),
        ),
{
    assert(t.model()->Delimited_1 =~= template_models((t->Delimited_0).child_list()));
}

impl MacroTemplateObject {
    /// Read a template object from a NOTA object.
    pub fn from_block(object: &NotaBlock) -> (r: Result<Self, SchemaError>)
        ensures
            match object_of(object.model()) {
                Ok(m) => r matches Ok(t) && t.model() == m,
                Err(t) => r matches Err(e) && invalid_capture(e, t),
            },
        decreases object,
    {
        match object {
            NotaBlock::Atom(text, _) => {
                match CaptureName::from_token(text.as_str()) {
                    Err(e) => Err(e),
                    Ok(Some(capture)) => if capture.rest {
                        Ok(MacroTemplateObject::RestCapture(capture.name))
                    } else {
                        Ok(MacroTemplateObject::Capture(capture.name))
                    },
                    Ok(None) => Ok(MacroTemplateObject::Atom(string_of(text.as_str()))),
                }
            },
            NotaBlock::PipeText(_) => Ok(MacroTemplateObject::Atom(object.compact_notation())),
            NotaBlock::Delimited(d, items) => {
                let ghost os = object.model()->Delimited_1;
                assert(os =~= block_models(items@));
                let mut children: Vec<MacroTemplateObject> = Vec::new();
                assert(template_models(children@) =~= Seq::empty());
                let mut i: usize = 0;
                while i < items.len()
                    invariant
                        *object == NotaBlock::Delimited(*d, *items),
                        os == block_models(items@),
                        object.model() == BlockModel::Delimited(*d, os),
                        0 <= i <= items@.len(),
                        objects_of(os, i as nat) == Ok::<Seq<ObjectModel>, Seq<char>>(template_models(children@)),
                    decreases items@.len() - i,
                {
                    proof {
                        assert(decreases_to!(*object => (*object)->Delimited_1));
                        assert(decreases_to!(items@ => items@[i as int]));
                    }
                    assert(os[i as int] == items@[i as int].model());
                    let child = MacroTemplateObject::from_block(&items[i]);
                    match child {
                        Err(e) => {
                            proof {
                                assert(object_of(os[i as int]) is Err);
                                assert(objects_of(os, (i + 1) as nat) == Err::<Seq<ObjectModel>, Seq<char>>(object_of(os[i as int])->Err_0));
                                lemma_objects_of_err(os, (i + 1) as nat, os.len());
                            }
                            return Err(e);
                        },
                        Ok(c) => {
                            let ghost before = children@;
                            children.push(c);
                            assert(template_models(children@) =~= template_models(before).push(c.model()));
                        },
                    }
                    i = i + 1;
                }
                let r = MacroTemplateObject::Delimited(Box::new(MacroTemplateDelimited::new(*d, children)));
                proof {
                    lemma_template_delimited_model(r);
                }
                Ok(r)
            },
        }
    }

    /// How this template object is written.
    pub fn to_source_notation(&self) -> (r: String)
        ensures
            r@ == object_text(self.model()),
        decreases self,
    {
        match self {
            MacroTemplateObject::Capture(name) => prefixed("$", name.as_str()),
            MacroTemplateObject::RestCapture(name) => prefixed("$*", name.as_str()),
            MacroTemplateObject::Atom(text) => string_of(text.as_str()),
            MacroTemplateObject::Delimited(data) => {
                proof {
                    lemma_template_delimited_model(*self);
                }
                let ghost cs = template_models(data.children@);
                let mut parts: Vec<String> = Vec::new();
                let mut i: usize = 0;
                while i < data.children.len()
                    invariant
                        *self == MacroTemplateObject::Delimited(*data),
                        cs == template_models(data.children@),
                        0 <= i <= data.children@.len(),
                        parts@.len() == i,
                        forall|k: int| 0 <= k < i ==> (#[trigger] parts@[k])@ == object_text(cs[k]),
                    decreases data.children@.len() - i,
                {
                    proof {
                        assert(decreases_to!(*self => (*self)->Delimited_0));
                        assert(decreases_to!(data.children@ => data.children@[i as int]));
                    }
                    parts.push(data.children[i].to_source_notation());
                    i = i + 1;
                }
                assert(crate::emit::string_views(parts@) =~= object_texts(cs));
                data.delimiter.wrap_children(&parts)
            },
        }
    }
}

// ── Expansion ───────────────────────────────────────────────────────

/// An object a template expanded to: a captured object, a literal atom,
/// or a delimited run of expanded objects.
#[derive(Debug, Eq, PartialEq)]
pub enum ExpandedObject {
    Captured(NotaBlock),
    Atom(String),
    Delimited(MacroDelimiter, Vec<ExpandedObject>),
}

pub enum ExpandedModel {
    Captured(BlockModel),
    Atom(Seq<char>),
    Delimited(MacroDelimiter, Seq<ExpandedModel>),
}

pub open spec fn expanded_models(xs: Seq<ExpandedObject>) -> Seq<ExpandedModel> {
    Seq::new(xs.len(), |i: int| xs[i].model())
}

impl ExpandedObject {
    pub open spec fn model(&self) -> ExpandedModel
        decreases self,
    {
        match self {
            ExpandedObject::Captured(b) => ExpandedModel::Captured(b.model()),
            ExpandedObject::Atom(t) => ExpandedModel::Atom(t@),
            ExpandedObject::Delimited(d, items) => ExpandedModel::Delimited(
                *d,
                Seq::new(
                    items@.len(),
                    |i: int|
                        if 0 <= i < items@.len() {
                            items@[i].model()
                        } else {
                            ExpandedModel::Atom(Seq::empty())
                        },
                ),
            ),
        }
    }
}

/// What a template object expands to against the bindings: a single
/// capture its bound object, a rest capture its bound run, an atom
/// itself, a delimited object the same delimiter around the expansions
/// of its children, spliced. `Err` names a capture with nothing bound.
pub open spec fn expansion_of(t: ObjectModel, bs: BindingsModel) -> Result<Seq<ExpandedModel>, Seq<char>>
    decreases t, 1nat,
{
    match t {
        ObjectModel::Capture(n) => match single_from(bs.singles, n, 0) {
            Some(b) => Ok(seq![ExpandedModel::Captured(b)]),
            None => Err(n),
        },
        ObjectModel::RestCapture(n) => match repeated_from(bs.repeated, n, 0) {
            Some(vs) => Ok(all_captured(vs)),
            None => Err(n),
        },
        ObjectModel::Atom(a) => Ok(seq![ExpandedModel::Atom(a)]),
        ObjectModel::Delimited(d, cs) => match expansion_run(cs, bs, cs.len()) {
            Err(e) => Err(e),
            Ok(xs) => Ok(seq![ExpandedModel::Delimited(d, xs)]),
        },
    }
}

/// Each object of a run, as captured.
pub open spec fn all_captured(vs: Seq<BlockModel>) -> Seq<ExpandedModel> {
    Seq::new(vs.len(), |i: int| ExpandedModel::Captured(vs[i]))
}

/// The expansions of the first `n` template objects, spliced together;
/// the first failure wins.
pub open spec fn expansion_run(cs: Seq<ObjectModel>, bs: BindingsModel, n: nat) -> Result<Seq<ExpandedModel>, Seq<char>>
    decreases cs, 0nat, n,
{
    if n == 0 || n > cs.len() {
        Ok(Seq::empty())
    } else {
        match expansion_run(cs, bs, (n - 1) as nat) {
            Err(e) => Err(e),
            Ok(prev) => match expansion_of(cs[n - 1], bs) {
                Err(e) => Err(e),
                Ok(xs) => Ok(prev + xs),
            },
        }
    }
}

proof fn lemma_expansion_run_err(cs: Seq<ObjectModel>, bs: BindingsModel, k: nat, n: nat)
    requires
        1 <= k <= n <= cs.len(),
        expansion_run(cs, bs, k) is Err,
    ensures
        expansion_run(cs, bs, n) == expansion_run(cs, bs, k),
    decreases n - k,
{
    if n > k {
        lemma_expansion_run_err(cs, bs, k, (n - 1) as nat);
    }
}

/// How an expanded object is written, in its most compact form.
pub open spec fn expanded_text(x: ExpandedModel) -> Seq<char>
    decreases x, 1nat,
{
    match x {
        ExpandedModel::Captured(b) => block_text(b),
        ExpandedModel::Atom(t) => t,
        ExpandedModel::Delimited(d, xs) => wrapped(d, expanded_texts(xs)),
    }
}

pub open spec fn expanded_texts(xs: Seq<ExpandedModel>) -> Seq<Seq<char>>
    decreases xs, 0nat,
{
    Seq::new(xs.len(), |i: int| if 0 <= i < xs.len() { expanded_text(xs[i]) } else { Seq::empty() })
}

/// The error for a template that expanded to other than one object.
pub open spec fn wrong_object_count(e: SchemaError, position: Seq<char>, found: nat) -> bool {
    e matches SchemaError::ExpectedTemplateObjectCount { position: p, expected, found: f }
        && p@ == position && expected == 1 && f == found
}

impl ExpandedObject {
    /// The atom text this object demotes to, if it is an atom.
    pub fn demote_to_string(&self) -> (r: Option<&str>)
        ensures
            match self.model() {
                ExpandedModel::Captured(b) => match demote(b) {
                    Some(t) => r matches Some(s) && s@ == t,
                    None => r is None,
                },
                ExpandedModel::Atom(t) => r matches Some(s) && s@ == t,
                ExpandedModel::Delimited(..) => r is None,
            },
    {
        match self {
            ExpandedObject::Captured(b) => b.demote_to_string(),
            ExpandedObject::Atom(t) => Some(t.as_str()),
            ExpandedObject::Delimited(..) => None,
        }
    }

    /// How this expanded object is written, in its most compact form.
    pub fn compact_notation(&self) -> (r: String)
        ensures
            r@ == expanded_text(self.model()),
        decreases self,
    {
        match self {
            ExpandedObject::Captured(b) => b.compact_notation(),
            ExpandedObject::Atom(t) => string_of(t.as_str()),
            ExpandedObject::Delimited(d, items) => {
                let ghost xs = self.model()->Delimited_1;
                assert(xs =~= expanded_models(items@));
                let mut parts: Vec<String> = Vec::new();
                let mut i: usize = 0;
                while i < items.len()
                    invariant
                        *self == ExpandedObject::Delimited(*d, *items),
                        xs == expanded_models(items@),
                        0 <= i <= items@.len(),
                        parts@.len() == i,
                        forall|k: int| 0 <= k < i ==> (#[trigger] parts@[k])@ == expanded_text(xs[k]),
                    decreases items@.len() - i,
                {
                    proof {
                        assert(decreases_to!(*self => (*self)->Delimited_1));
                        assert(decreases_to!(items@ => items@[i as int]));
                    }
                    parts.push(items[i].compact_notation());
                    i = i + 1;
                }
                assert(crate::emit::string_views(parts@) =~= expanded_texts(xs));
                d.wrap_children(&parts)
            },
        }
    }
}

/// The result of an expansion, against the model's.
pub open spec fn expansion_result(r: Result<Vec<ExpandedObject>, SchemaError>, m: Result<Seq<ExpandedModel>, Seq<char>>) -> bool {
    match m {
        Ok(xs) => r matches Ok(v) && expanded_models(v@) == xs,
        Err(n) => r matches Err(e) && missing_binding(e, n),
    }
}

impl MacroTemplateObject {
    /// Expand this template object against the bindings.
    pub fn expand_objects(&self, bindings: &MacroBindings) -> (r: Result<Vec<ExpandedObject>, SchemaError>)
        ensures
            expansion_result(r, expansion_of(self.model(), bindings.model())),
        decreases self,
    {
        let ghost bs = bindings.model();
        match self {
            MacroTemplateObject::Capture(name) => {
                match bindings.single(name.as_str()) {
                    Ok(block) => {
                        let mut out: Vec<ExpandedObject> = Vec::new();
                        out.push(ExpandedObject::Captured(block.duplicate()));
                        assert(expanded_models(out@) =~= expansion_of(self.model(), bs)->Ok_0);
                        Ok(out)
                    },
                    Err(e) => Err(e),
                }
            },
            MacroTemplateObject::RestCapture(name) => {
                match bindings.repeated(name.as_str()) {
                    Ok(blocks) => {
                        let ghost vs = block_models(blocks@);
                        let mut out: Vec<ExpandedObject> = Vec::new();
                        let mut i: usize = 0;
                        while i < blocks.len()
                            invariant
                                vs == block_models(blocks@),
                                0 <= i <= blocks@.len(),
                                expanded_models(out@) == all_captured(vs).take(i as int),
                            decreases blocks@.len() - i,
                        {
                            let ghost before = out@;
                            assert(vs[i as int] == blocks@[i as int].model());
                            let x = ExpandedObject::Captured(blocks[i].duplicate());
                            assert(x.model() == ExpandedModel::Captured(vs[i as int]));
                            out.push(x);
                            assert(out@ == before.push(x));
                            assert(expanded_models(out@) =~= expanded_models(before).push(x.model()));
                            assert(expanded_models(out@) =~= all_captured(vs).take(i as int + 1));
                            i = i + 1;
                        }
                        assert(all_captured(vs).take(blocks@.len() as int) =~= all_captured(vs));
                        assert(expanded_models(out@) =~= expansion_of(self.model(), bs)->Ok_0);
                        Ok(out)
                    },
                    Err(e) => Err(e),
                }
            },
            MacroTemplateObject::Atom(text) => {
                let mut out: Vec<ExpandedObject> = Vec::new();
                out.push(ExpandedObject::Atom(string_of(text.as_str())));
                assert(expanded_models(out@) =~= expansion_of(self.model(), bs)->Ok_0);
                Ok(out)
            },
            MacroTemplateObject::Delimited(data) => {
                proof {
                    lemma_template_delimited_model(*self);
                }
                let ghost cs = template_models(data.children@);
                let mut expanded: Vec<ExpandedObject> = Vec::new();
                assert(expanded_models(expanded@) =~= Seq::empty());
                let mut i: usize = 0;
                while i < data.children.len()
                    invariant
                        *self == MacroTemplateObject::Delimited(*data),
                        cs == template_models(data.children@),
                        self.model() == ObjectModel::Delimited(data.delimiter_of(), cs),
                        bs == bindings.model(),
                        0 <= i <= data.children@.len(),
                        expansion_run(cs, bs, i as nat) == Ok::<Seq<ExpandedModel>, Seq<char>>(expanded_models(expanded@)),
                    decreases data.children@.len() - i,
                {
                    proof {
                        assert(decreases_to!(*self => (*self)->Delimited_0));
                        assert(decreases_to!(data.children@ => data.children@[i as int]));
                        assert(cs[i as int] == data.children@[i as int].model());
                    }
                    let step = data.children[i].expand_objects(bindings);
                    match step {
                        Err(e) => {
                            proof {
                                assert(expansion_run(cs, bs, (i + 1) as nat) == Err::<Seq<ExpandedModel>, Seq<char>>(expansion_of(cs[i as int], bs)->Err_0));
                                lemma_expansion_run_err(cs, bs, (i + 1) as nat, cs.len());
                            }
                            return Err(e);
                        },
                        Ok(mut more) => {
                            let ghost before = expanded@;
                            let ghost added = more@;
                            expanded.append(&mut more);
                            assert(expanded@ == before + added);
                            assert(expanded_models(expanded@) =~= expanded_models(before) + expanded_models(added));
                        },
                    }
                    i = i + 1;
                }
                let out_delimiter = data.delimiter;
                let ghost xs = expanded_models(expanded@);
                let one = ExpandedObject::Delimited(out_delimiter, expanded);
                assert(one.model()->Delimited_1 =~= xs);
                let mut out: Vec<ExpandedObject> = Vec::new();
                out.push(one);
                assert(expanded_models(out@) =~= expansion_of(self.model(), bs)->Ok_0);
                Ok(out)
            },
        }
    }

    /// Expand this template object to exactly one object; `position`
    /// names the place in errors.
    pub fn expand_single(&self, bindings: &MacroBindings, position: &'static str) -> (r: Result<ExpandedObject, SchemaError>)
        ensures
            match expansion_of(self.model(), bindings.model()) {
                Err(n) => r matches Err(e) && missing_binding(e, n),
                Ok(xs) => if xs.len() == 1 {
                    r matches Ok(x) && x.model() == xs[0]
                } else {
                    r matches Err(e) && wrong_object_count(e, position@, xs.len())
                },
            },
    {
        let mut objects = match self.expand_objects(bindings) {
            Ok(objects) => objects,
            Err(e) => {
                return Err(e);
            },
        };
        if objects.len() != 1 {
            return Err(SchemaError::ExpectedTemplateObjectCount { position, expected: 1, found: objects.len() });
        }
        assert(expanded_models(objects@)[0] == objects@[0].model());
        match objects.pop() {
            Some(x) => Ok(x),
            None => Err(SchemaError::ExpectedTemplateObjectCount { position, expected: 1, found: 0 }),
        }
    }
}

// ── Macro definitions ───────────────────────────────────────────────

/// One declarative macro: its name, the position it applies at, the
/// pattern it matches and the template it expands.
#[derive(Debug, Eq, PartialEq)]
pub struct SchemaMacro {
    macro_name: Name,
    macro_position: MacroPosition,
    macro_pattern: MacroPattern,
    macro_template: MacroTemplate,
}

impl SchemaMacro {
    pub closed spec fn name_text(&self) -> Seq<char> {
        self.macro_name.text()
    }

    pub closed spec fn position_of(&self) -> MacroPosition {
        self.macro_position
    }

    pub closed spec fn pattern_model(&self) -> ObjectModel {
        self.macro_pattern.model()
    }

    pub closed spec fn template_of(&self) -> &MacroTemplate {
        &self.macro_template
    }

    pub fn new(
        macro_name: Name,
        macro_position: MacroPosition,
        macro_pattern: MacroPattern,
        macro_template: MacroTemplate,
    ) -> (r: Self)
        ensures
            r.name_text() == macro_name.text(),
            r.position_of() == macro_position,
            r.pattern_model() == macro_pattern.model(),
            r.template_of() == &macro_template,
    {
        SchemaMacro { macro_name, macro_position, macro_pattern, macro_template }
    }

    pub fn name(&self) -> (r: &Name)
        ensures
            r.text() == self.name_text(),
    {
        &self.macro_name
    }

    pub fn position(&self) -> (r: MacroPosition)
        ensures
            r == self.position_of(),
    {
        self.macro_position
    }

    pub fn pattern(&self) -> (r: &MacroPattern)
        ensures
            r.model() == self.pattern_model(),
    {
        &self.macro_pattern
    }

    pub fn template(&self) -> (r: &MacroTemplate)
        ensures
            r == self.template_of(),
    {
        &self.macro_template
    }

    pub fn capture_names(&self) -> (r: Vec<String>)
        ensures
            crate::emit::string_views(r@) == capture_names_of(self.pattern_model()),
    {
        self.macro_pattern.capture_names()
    }

    /// Whether the macro applies to `object` at `position`: the position
    /// is its own and its pattern matches without error.
    pub fn matches(&self, object: MacroObject, position: MacroPosition) -> (r: bool)
        ensures
            r == (position == self.position_of() && captures_of(self.pattern_model(), object.model()) matches Ok(Some(_))),
    {
        if position != self.macro_position {
            return false;
        }
        match self.macro_pattern.captures(object) {
            Ok(Some(_)) => true,
            _ => false,
        }
    }
}

/// One entry of a macro library source.
#[derive(Debug, Eq, PartialEq)]
pub enum MacroLibrarySourceEntry {
    SchemaMacro(SchemaMacro),
}

impl MacroLibrarySourceEntry {
    pub fn definition(&self) -> (r: &SchemaMacro)
        ensures
            match self {
                MacroLibrarySourceEntry::SchemaMacro(d) => r == d,
            },
    {
        match self {
            MacroLibrarySourceEntry::SchemaMacro(definition) => definition,
        }
    }

    pub fn variant_name(&self) -> (r: &'static str)
        ensures
            r@ == "SchemaMacro"@,
    {
        match self {
            MacroLibrarySourceEntry::SchemaMacro(_) => "SchemaMacro",
        }
    }
}

// ── Laws ────────────────────────────────────────────────────────────

proof fn lemma_capture_text(t: Seq<char>)
    ensures
        capture_of(t) matches Some((n, rest)) ==> (if rest { "$*"@ + n } else { "$"@ + n }) == t,
{
    reveal_strlit("$");
    reveal_strlit("$*");
    match capture_of(t) {
        Some((n, rest)) => {
            if rest {
                assert(("$*"@ + n) =~= t);
            } else {
                assert(("$"@ + n) =~= t);
            }
        },
        None => {},
    }
}

proof fn lemma_objects_of_texts(os: Seq<BlockModel>, n: nat)
    requires
        n <= os.len(),
        objects_of(os, n) is Ok,
    ensures
        objects_of(os, n)->Ok_0.len() == n,
        forall|i: int| 0 <= i < n ==> object_of(#[trigger] os[i]) == Ok::<ObjectModel, Seq<char>>(objects_of(os, n)->Ok_0[i]),
    decreases n,
{
    if n > 0 {
        lemma_objects_of_texts(os, (n - 1) as nat);
    }
}

/// Reading a pattern or template object from a NOTA object and writing
/// it back gives the object's own notation: capture atoms keep their
/// sigils, and every delimiter shape is kept.
pub proof fn lemma_object_notation_roundtrip(b: BlockModel)
    ensures
        object_of(b) matches Ok(o) ==> object_text(o) == block_text(b),
    decreases b,
{
    match b {
        BlockModel::Atom(t, _) => {
            lemma_capture_text(t);
        },
        BlockModel::PipeText(_) => {},
        BlockModel::Delimited(d, os) => {
            if objects_of(os, os.len()) is Ok {
                let cs = objects_of(os, os.len())->Ok_0;
                lemma_objects_of_texts(os, os.len());
                assert forall|i: int| 0 <= i < os.len() implies object_texts(cs)[i] == block_texts(os)[i] by {
                    lemma_object_notation_roundtrip(os[i]);
                }
                assert(object_texts(cs) =~= block_texts(os));
            }
        },
    }
}

// ── Expansion undoes matching ───────────────────────────────────────

/// `c` holds every binding of `a`, in the same places, and maybe more.
pub open spec fn extends(a: BindingsModel, c: BindingsModel) -> bool {
    &&& a.singles.len() <= c.singles.len()
    &&& c.singles.take(a.singles.len() as int) == a.singles
    &&& a.repeated.len() <= c.repeated.len()
    &&& c.repeated.take(a.repeated.len() as int) == a.repeated
}

proof fn lemma_extends_trans(a: BindingsModel, b: BindingsModel, c: BindingsModel)
    requires
        extends(a, b),
        extends(b, c),
    ensures
        extends(a, c),
{
    assert(c.singles.take(a.singles.len() as int) =~= c.singles.take(b.singles.len() as int).take(a.singles.len() as int));
    assert(c.repeated.take(a.repeated.len() as int) =~= c.repeated.take(b.repeated.len() as int).take(a.repeated.len() as int));
}

proof fn lemma_extends_refl(a: BindingsModel)
    ensures
        extends(a, a),
{
    assert(a.singles.take(a.singles.len() as int) =~= a.singles);
    assert(a.repeated.take(a.repeated.len() as int) =~= a.repeated);
}

proof fn lemma_single_from_prefix(s: Seq<(Seq<char>, BlockModel)>, t: Seq<(Seq<char>, BlockModel)>, n: Seq<char>, i: int)
    requires
        0 <= i,
        s.len() <= t.len(),
        t.take(s.len() as int) == s,
        single_from(s, n, i) is Some,
    ensures
        single_from(t, n, i) == single_from(s, n, i),
    decreases s.len() - i,
{
    assert(t[i] == t.take(s.len() as int)[i]);
    if s[i].0 != n {
        lemma_single_from_prefix(s, t, n, i + 1);
    }
}

proof fn lemma_repeated_from_prefix(
    s: Seq<(Seq<char>, Seq<BlockModel>)>,
    t: Seq<(Seq<char>, Seq<BlockModel>)>,
    n: Seq<char>,
    i: int,
)
    requires
        0 <= i,
        s.len() <= t.len(),
        t.take(s.len() as int) == s,
        repeated_from(s, n, i) is Some,
    ensures
        repeated_from(t, n, i) == repeated_from(s, n, i),
    decreases s.len() - i,
{
    assert(t[i] == t.take(s.len() as int)[i]);
    if s[i].0 != n {
        lemma_repeated_from_prefix(s, t, n, i + 1);
    }
}

proof fn lemma_single_from_push(s: Seq<(Seq<char>, BlockModel)>, n: Seq<char>, v: BlockModel, i: int)
    requires
        0 <= i <= s.len(),
        single_from(s, n, i) is None,
    ensures
        single_from(s.push((n, v)), n, i) == Some(v),
    decreases s.len() - i,
{
    if i < s.len() {
        lemma_single_from_push(s, n, v, i + 1);
    }
}

proof fn lemma_repeated_from_push(s: Seq<(Seq<char>, Seq<BlockModel>)>, n: Seq<char>, v: Seq<BlockModel>, i: int)
    requires
        0 <= i <= s.len(),
        repeated_from(s, n, i) is None,
    ensures
        repeated_from(s.push((n, v)), n, i) == Some(v),
    decreases s.len() - i,
{
    if i < s.len() {
        lemma_repeated_from_push(s, n, v, i + 1);
    }
}

/// Binding a single capture keeps what was bound and binds the name to
/// the object.
proof fn lemma_bind_single_binds(bs: BindingsModel, n: Seq<char>, v: BlockModel)
    requires
        bind_single(bs, n, v) is Some,
    ensures
        extends(bs, bind_single(bs, n, v)->Some_0),
        single_from((bind_single(bs, n, v)->Some_0).singles, n, 0) == Some(v),
{
    let b2 = bind_single(bs, n, v)->Some_0;
    if single_from(bs.singles, n, 0) is None {
        lemma_single_from_push(bs.singles, n, v, 0);
        assert(b2.singles.take(bs.singles.len() as int) =~= bs.singles);
        assert(b2.repeated.take(bs.repeated.len() as int) =~= bs.repeated);
    } else {
        lemma_extends_refl(bs);
    }
}

/// Binding a rest capture keeps what was bound and binds the name to the
/// run.
proof fn lemma_bind_repeated_binds(bs: BindingsModel, n: Seq<char>, vs: Seq<BlockModel>)
    requires
        bind_repeated(bs, n, vs) is Ok,
    ensures
        extends(bs, bind_repeated(bs, n, vs)->Ok_0),
        repeated_from((bind_repeated(bs, n, vs)->Ok_0).repeated, n, 0) == Some(vs),
{
    let b2 = bind_repeated(bs, n, vs)->Ok_0;
    if repeated_from(bs.repeated, n, 0) is None {
        lemma_repeated_from_push(bs.repeated, n, vs, 0);
        assert(b2.singles.take(bs.singles.len() as int) =~= bs.singles);
        assert(b2.repeated.take(bs.repeated.len() as int) =~= bs.repeated);
    } else {
        lemma_extends_refl(bs);
    }
}

/// A template object expands to exactly one object, written like `b`.
pub open spec fn expands_like(t: ObjectModel, bs: BindingsModel, b: BlockModel) -> bool {
    &&& expansion_of(t, bs) is Ok
    &&& expansion_of(t, bs)->Ok_0.len() == 1
    &&& expanded_text(expansion_of(t, bs)->Ok_0[0]) == block_text(b)
}

proof fn lemma_expanded_texts_concat(a: Seq<ExpandedModel>, b: Seq<ExpandedModel>)
    ensures
        expanded_texts(a + b) == expanded_texts(a) + expanded_texts(b),
{
    assert(expanded_texts(a + b) =~= expanded_texts(a) + expanded_texts(b));
}

/// With each of the first `k` children expanding, the run is the splice
/// of their expansions.
proof fn lemma_expansion_run_splice(cs: Seq<ObjectModel>, bs: BindingsModel, k: nat, texts: Seq<Seq<Seq<char>>>)
    requires
        k <= cs.len(),
        k <= texts.len(),
        forall|i: int| 0 <= i < k ==> #[trigger] expansion_of(cs[i], bs) is Ok
            && expanded_texts(expansion_of(cs[i], bs)->Ok_0) == texts[i],
    ensures
        expansion_run(cs, bs, k) is Ok,
        expanded_texts(expansion_run(cs, bs, k)->Ok_0) == texts.take(k as int).flatten(),
    decreases k,
{
    if k == 0 {
        assert(texts.take(0) =~= Seq::<Seq<Seq<char>>>::empty());
        assert(expanded_texts(Seq::<ExpandedModel>::empty()) =~= Seq::<Seq<char>>::empty());
    } else {
        lemma_expansion_run_splice(cs, bs, (k - 1) as nat, texts);
        let prev = expansion_run(cs, bs, (k - 1) as nat)->Ok_0;
        let x = expansion_of(cs[k - 1], bs)->Ok_0;
        assert(expansion_of(cs[k - 1], bs) is Ok);
        assert(expansion_run(cs, bs, k) == Ok::<Seq<ExpandedModel>, Seq<char>>(prev + x));
        lemma_expanded_texts_concat(prev, x);
        assert(texts.take(k as int) =~= texts.take(k - 1).push(texts[k - 1]));
        texts.take(k - 1).lemma_flatten_push(texts[k - 1]);
    }
}

/// Each text as a one-element run.
pub open spec fn singletons(xs: Seq<Seq<char>>) -> Seq<Seq<Seq<char>>> {
    Seq::new(xs.len(), |i: int| seq![xs[i]])
}

proof fn lemma_flatten_singletons(xs: Seq<Seq<char>>)
    ensures
        singletons(xs).flatten() == xs,
    decreases xs.len(),
{
    if xs.len() > 0 {
        lemma_flatten_singletons(xs.drop_last());
        assert(singletons(xs) =~= singletons(xs.drop_last()).push(seq![xs.last()]));
        singletons(xs.drop_last()).lemma_flatten_push(seq![xs.last()]);
        assert(xs.drop_last().push(xs.last()) =~= xs);
    } else {
        assert(singletons(xs) =~= Seq::<Seq<Seq<char>>>::empty());
    }
}

proof fn lemma_expands_like_texts(t: ObjectModel, bs: BindingsModel, b: BlockModel)
    requires
        expands_like(t, bs, b),
    ensures
        expanded_texts(expansion_of(t, bs)->Ok_0) == seq![block_text(b)],
{
    assert(expanded_texts(expansion_of(t, bs)->Ok_0) =~= seq![block_text(b)]);
}

proof fn lemma_match_object_expands(p: ObjectModel, b: BlockModel, bs: BindingsModel, later: BindingsModel)
    requires
        match_object(p, b, bs) matches Ok(Some(b2)) && extends(b2, later),
    ensures
        extends(bs, match_object(p, b, bs)->Ok_0->Some_0),
        expands_like(p, later, b),
    decreases p, 3nat, 0nat,
{
    let b2 = match_object(p, b, bs)->Ok_0->Some_0;
    match p {
        ObjectModel::Capture(n) => {
            lemma_bind_single_binds(bs, n, b);
            lemma_single_from_prefix(b2.singles, later.singles, n, 0);
            assert(expansion_of(p, later) == Ok::<Seq<ExpandedModel>, Seq<char>>(seq![ExpandedModel::Captured(b)]));
        },
        ObjectModel::Atom(e) => {
            lemma_extends_refl(bs);
            assert(b is Atom);
        },
        ObjectModel::Delimited(d, cs) => {
            let os = b->Delimited_1;
            lemma_match_children_expands(cs, os, bs, later);
            let ys = expansion_run(cs, later, cs.len())->Ok_0;
            assert(expansion_of(p, later) == Ok::<Seq<ExpandedModel>, Seq<char>>(seq![ExpandedModel::Delimited(d, ys)]));
        },
        ObjectModel::RestCapture(_) => {},
    }
}

proof fn lemma_match_children_expands(cs: Seq<ObjectModel>, os: Seq<BlockModel>, bs: BindingsModel, later: BindingsModel)
    requires
        match_children(cs, os, bs) matches Ok(Some(b2)) && extends(b2, later),
    ensures
        extends(bs, match_children(cs, os, bs)->Ok_0->Some_0),
        expansion_run(cs, later, cs.len()) is Ok,
        expanded_texts(expansion_run(cs, later, cs.len())->Ok_0) == block_texts(os),
    decreases cs, 2nat, 0nat,
{
    lemma_first_rest(cs, 0);
    match first_rest(cs, 0) {
        Some(r) => {
            lemma_match_rest_expands(cs, r, os, bs, later);
        },
        None => {
            let n = cs.len();
            lemma_match_pairs_expands(cs, os, 0, 0, n, bs, later);
            let texts = singletons(block_texts(os));
            assert forall|i: int| 0 <= i < n implies #[trigger] expansion_of(cs[i], later) is Ok
                && expanded_texts(expansion_of(cs[i], later)->Ok_0) == texts[i] by {
                assert(expands_like(cs[0 + i], later, os[0 + i]));
                lemma_expands_like_texts(cs[i], later, os[i]);
            }
            lemma_expansion_run_splice(cs, later, n, texts);
            assert(texts.take(n as int) =~= texts);
            lemma_flatten_singletons(block_texts(os));
        },
    }
}

proof fn lemma_match_pairs_expands(
    cs: Seq<ObjectModel>,
    os: Seq<BlockModel>,
    pi: int,
    oi: int,
    count: nat,
    bs: BindingsModel,
    later: BindingsModel,
)
    requires
        0 <= pi,
        0 <= oi,
        match_pairs(cs, os, pi, oi, count, bs) matches Ok(Some(b2)) && extends(b2, later),
    ensures
        extends(bs, match_pairs(cs, os, pi, oi, count, bs)->Ok_0->Some_0),
        count > 0 ==> pi + count <= cs.len() && oi + count <= os.len(),
        forall|k: int| 0 <= k < count ==> expands_like(#[trigger] cs[pi + k], later, os[oi + k]),
    decreases cs, 0nat, count,
{
    if count == 0 {
        lemma_extends_refl(bs);
    } else {
        let b1 = match_object(cs[pi], os[oi], bs)->Ok_0->Some_0;
        let b2 = match_pairs(cs, os, pi, oi, count, bs)->Ok_0->Some_0;
        lemma_match_pairs_expands(cs, os, pi + 1, oi + 1, (count - 1) as nat, b1, later);
        lemma_extends_trans(b1, b2, later);
        lemma_match_object_expands(cs[pi], os[oi], bs, later);
        lemma_extends_trans(bs, b1, b2);
        assert forall|k: int| 0 <= k < count implies expands_like(#[trigger] cs[pi + k], later, os[oi + k]) by {
            if k > 0 {
                assert(cs[(pi + 1) + (k - 1)] == cs[pi + k]);
                assert(os[(oi + 1) + (k - 1)] == os[oi + k]);
            }
        }
    }
}

/// What each child of a pattern with a rest capture at `r` expands to,
/// as texts: one object before and after the rest capture, the bound
/// run at it.
pub open spec fn rest_texts(os: Seq<BlockModel>, r: int, end: int, len: int) -> Seq<Seq<Seq<char>>> {
    Seq::new(
        len as nat,
        |i: int|
            if i < r {
                seq![block_text(os[i])]
            } else if i == r {
                block_texts(os.subrange(r, end))
            } else {
                seq![block_text(os[end + i - r - 1])]
            },
    )
}

proof fn lemma_block_texts_split(os: Seq<BlockModel>, r: int, end: int)
    requires
        0 <= r <= end <= os.len(),
    ensures
        block_texts(os) == block_texts(os.subrange(0, r)) + block_texts(os.subrange(r, end)) + block_texts(
            os.subrange(end, os.len() as int),
        ),
{
    assert(block_texts(os) =~= block_texts(os.subrange(0, r)) + block_texts(os.subrange(r, end)) + block_texts(
        os.subrange(end, os.len() as int),
    ));
}

proof fn lemma_match_rest_expands(cs: Seq<ObjectModel>, r: int, os: Seq<BlockModel>, bs: BindingsModel, later: BindingsModel)
    requires
        0 <= r < cs.len(),
        cs[r] is RestCapture,
        match_rest(cs, r, os, bs) matches Ok(Some(b2)) && extends(b2, later),
    ensures
        extends(bs, match_rest(cs, r, os, bs)->Ok_0->Some_0),
        expansion_run(cs, later, cs.len()) is Ok,
        expanded_texts(expansion_run(cs, later, cs.len())->Ok_0) == block_texts(os),
    decreases cs, 1nat, 0nat,
{
    let len = cs.len() as int;
    let after = len - r - 1;
    let end = os.len() - after;
    let name = cs[r]->RestCapture_0;
    let run = os.subrange(r, end);
    let b1 = match_pairs(cs, os, 0, 0, r as nat, bs)->Ok_0->Some_0;
    let b1r = bind_repeated(b1, name, run)->Ok_0;
    let b2 = match_rest(cs, r, os, bs)->Ok_0->Some_0;
    lemma_match_pairs_expands(cs, os, r + 1, end, after as nat, b1r, later);
    lemma_bind_repeated_binds(b1, name, run);
    lemma_extends_trans(b1r, b2, later);
    lemma_extends_trans(b1, b1r, later);
    lemma_match_pairs_expands(cs, os, 0, 0, r as nat, bs, later);
    lemma_extends_trans(b1, b1r, b2);
    lemma_extends_trans(bs, b1, b2);
    lemma_repeated_from_prefix(b1r.repeated, later.repeated, name, 0);
    let texts = rest_texts(os, r, end, len);
    assert forall|i: int| 0 <= i < len implies #[trigger] expansion_of(cs[i], later) is Ok
        && expanded_texts(expansion_of(cs[i], later)->Ok_0) == texts[i] by {
        if i < r {
            assert(expands_like(cs[0 + i], later, os[0 + i]));
            lemma_expands_like_texts(cs[i], later, os[i]);
        } else if i == r {
            assert(expansion_of(cs[i], later) == Ok::<Seq<ExpandedModel>, Seq<char>>(all_captured(run)));
            assert(expanded_texts(all_captured(run)) =~= block_texts(run));
        } else {
            let k = i - r - 1;
            assert(expands_like(cs[(r + 1) + k], later, os[end + k]));
            lemma_expands_like_texts(cs[i], later, os[end + k]);
        }
    }
    lemma_expansion_run_splice(cs, later, len as nat, texts);
    assert(texts.take(len) =~= texts);
    let front = singletons(block_texts(os.subrange(0, r)));
    let back = singletons(block_texts(os.subrange(end, os.len() as int)));
    assert(texts =~= front + seq![block_texts(run)] + back);
    vstd::seq_lib::lemma_flatten_concat(front + seq![block_texts(run)], back);
    vstd::seq_lib::lemma_flatten_concat(front, seq![block_texts(run)]);
    seq![block_texts(run)].lemma_flatten_one_element();
    lemma_flatten_singletons(block_texts(os.subrange(0, r)));
    lemma_flatten_singletons(block_texts(os.subrange(end, os.len() as int)));
    lemma_block_texts_split(os, r, end);
}

/// Expansion undoes matching: when a pattern matches an object, the
/// same shape read as a template expands, against the bindings the match
/// made or any that extend them, to one object written exactly like the
/// matched one.
pub proof fn lemma_expansion_undoes_match(p: ObjectModel, o: BlockModel, later: BindingsModel)
    requires
        match_object(p, o, no_bindings()) matches Ok(Some(bound)) && extends(bound, later),
    ensures
        expands_like(p, later, o),
{
    lemma_match_object_expands(p, o, no_bindings(), later);
}

} // verus!
