//! Schema nodes: a parenthesized NOTA object read as a tag and the data
//! it carries, before any macro runs. `(Normalize [Topic])` has tag
//! `Normalize` and vector data `[Topic]`; the data is payload, not a type
//! constructor.
use vstd::prelude::*;
use crate::asschema::Name;
use crate::declarative::{BlockModel, MacroDelimiter, NotaBlock, block_models, block_text};
use crate::engine::SchemaError;
use crate::text::string_of;

verus! {

/// The data of a schema node before macro execution: a tag and what it
/// carries.
#[derive(Debug, Eq, PartialEq)]
pub struct SchemaNode {
    tag: Name,
    data: SchemaNodeData,
}

#[derive(Debug, Eq, PartialEq)]
pub enum SchemaNodeData {
    Unit,
    Value(SchemaNodeValue),
    Vector(Vec<SchemaNodeValue>),
    Mapping(Vec<SchemaNodePair>),
}

#[derive(Debug, Eq, PartialEq)]
pub enum SchemaNodeValue {
    Symbol(Name),
    Text(String),
    Node(Box<SchemaNode>),
    Vector(Vec<SchemaNodeValue>),
    Mapping(Vec<SchemaNodePair>),
}

#[derive(Debug, Eq, PartialEq)]
pub struct SchemaNodePair {
    key: Name,
    value: SchemaNodeValue,
}

// ── Models ──────────────────────────────────────────────────────────

pub enum NodeDataModel {
    Unit,
    Value(NodeValueModel),
    Vector(Seq<NodeValueModel>),
    Mapping(Seq<(Seq<char>, NodeValueModel)>),
}

pub enum NodeValueModel {
    Symbol(Seq<char>),
    Text(Seq<char>),
    Node(Seq<char>, Box<NodeDataModel>),
    Vector(Seq<NodeValueModel>),
    Mapping(Seq<(Seq<char>, NodeValueModel)>),
}

impl SchemaNode {
    pub closed spec fn tag_text(&self) -> Seq<char> {
        self.tag.text()
    }

    pub closed spec fn data_model(&self) -> NodeDataModel
        decreases self, 0nat,
    {
        self.data.model()
    }
}

impl SchemaNodeData {
    pub closed spec fn model(&self) -> NodeDataModel
        decreases self, 2nat,
    {
        match self {
            SchemaNodeData::Unit => NodeDataModel::Unit,
            SchemaNodeData::Value(v) => NodeDataModel::Value(v.model()),
            SchemaNodeData::Vector(vs) => NodeDataModel::Vector(
                Seq::new(vs@.len(), |i: int| if 0 <= i < vs@.len() { vs@[i].model() } else { NodeValueModel::Text(Seq::empty()) }),
            ),
            SchemaNodeData::Mapping(ps) => NodeDataModel::Mapping(
                Seq::new(
                    ps@.len(),
                    |i: int|
                        if 0 <= i < ps@.len() {
                            (ps@[i].key.text(), ps@[i].value.model())
                        } else {
                            (Seq::empty(), NodeValueModel::Text(Seq::empty()))
                        },
                ),
            ),
        }
    }
}

impl SchemaNodeValue {
    pub closed spec fn model(&self) -> NodeValueModel
        decreases self, 1nat,
    {
        match self {
            SchemaNodeValue::Symbol(n) => NodeValueModel::Symbol(n.text()),
            SchemaNodeValue::Text(t) => NodeValueModel::Text(t@),
            SchemaNodeValue::Node(node) => NodeValueModel::Node(node.tag.text(), Box::new(node.data.model())),
            SchemaNodeValue::Vector(vs) => NodeValueModel::Vector(
                Seq::new(vs@.len(), |i: int| if 0 <= i < vs@.len() { vs@[i].model() } else { NodeValueModel::Text(Seq::empty()) }),
            ),
            SchemaNodeValue::Mapping(ps) => NodeValueModel::Mapping(
                Seq::new(
                    ps@.len(),
                    |i: int|
                        if 0 <= i < ps@.len() {
                            (ps@[i].key.text(), ps@[i].value.model())
                        } else {
                            (Seq::empty(), NodeValueModel::Text(Seq::empty()))
                        },
                ),
            ),
        }
    }
}

pub open spec fn value_models(vs: Seq<SchemaNodeValue>) -> Seq<NodeValueModel> {
    Seq::new(vs.len(), |i: int| vs[i].model())
}

pub open spec fn pair_models(ps: Seq<SchemaNodePair>) -> Seq<(Seq<char>, NodeValueModel)> {
    Seq::new(ps.len(), |i: int| (ps[i].key_text(), ps[i].value_model()))
}

impl SchemaNodePair {
    pub closed spec fn key_text(&self) -> Seq<char> {
        self.key.text()
    }

    pub closed spec fn value_model(&self) -> NodeValueModel {
        self.value.model()
    }
}

proof fn lemma_data_models(d: SchemaNodeData)
    ensures
        d matches SchemaNodeData::Vector(vs) ==> d.model() == NodeDataModel::Vector(value_models(vs@)),
        d matches SchemaNodeData::Mapping(ps) ==> d.model() == NodeDataModel::Mapping(pair_models(ps@)),
{
    match d {
        SchemaNodeData::Vector(vs) => {
            assert(d.model()->Vector_0 =~= value_models(vs@));
        },
        SchemaNodeData::Mapping(ps) => {
            assert(d.model()->Mapping_0 =~= pair_models(ps@));
        },
        _ => {},
    }
}

proof fn lemma_value_models(v: SchemaNodeValue)
    ensures
        v matches SchemaNodeValue::Vector(vs) ==> v.model() == NodeValueModel::Vector(value_models(vs@)),
        v matches SchemaNodeValue::Mapping(ps) ==> v.model() == NodeValueModel::Mapping(pair_models(ps@)),
{
    match v {
        SchemaNodeValue::Vector(vs) => {
            assert(v.model()->Vector_0 =~= value_models(vs@));
        },
        SchemaNodeValue::Mapping(ps) => {
            assert(v.model()->Mapping_0 =~= pair_models(ps@));
        },
        _ => {},
    }
}

// ── Constructors and getters ────────────────────────────────────────

impl SchemaNode {
    pub fn new(tag: Name, data: SchemaNodeData) -> (r: Self)
        ensures
            r.tag_text() == tag.text(),
            r.data_model() == data.model(),
    {
        SchemaNode { tag, data }
    }

    pub fn tag(&self) -> (r: &Name)
        ensures
            r.text() == self.tag_text(),
    {
        &self.tag
    }

    pub fn data(&self) -> (r: &SchemaNodeData)
        ensures
            r.model() == self.data_model(),
    {
        &self.data
    }
}

impl SchemaNodePair {
    pub fn new(key: Name, value: SchemaNodeValue) -> (r: Self)
        ensures
            r.key_text() == key.text(),
            r.value_model() == value.model(),
    {
        SchemaNodePair { key, value }
    }

    pub fn key(&self) -> (r: &Name)
        ensures
            r.text() == self.key_text(),
    {
        &self.key
    }

    pub fn value(&self) -> (r: &SchemaNodeValue)
        ensures
            r.model() == self.value_model(),
    {
        &self.value
    }
}

// ── Reading nodes from objects ──────────────────────────────────────

/// Why an object does not read as a schema node.
pub enum NodeError {
    Malformed(Seq<char>),
    OddMapEntries(nat),
    NotSymbol(Seq<char>),
}

pub open spec fn reports_node_error(e: SchemaError, d: NodeError) -> bool {
    match d {
        NodeError::Malformed(t) => e matches SchemaError::MalformedSchemaNode { found } && found@ == t,
        NodeError::OddMapEntries(n) => e matches SchemaError::ExpectedEvenMapEntries { found } && found == n,
        NodeError::NotSymbol(t) => e matches SchemaError::ExpectedSymbol { found } && found@ == t,
    }
}

/// A symbol atom names itself; any other object is reported by its
/// notation.
pub open spec fn symbol_of(b: BlockModel) -> Result<Seq<char>, NodeError> {
    match b {
        BlockModel::Atom(t, symbol) => if symbol {
            Ok(t)
        } else {
            Err(NodeError::NotSymbol(block_text(b)))
        },
        _ => Err(NodeError::NotSymbol(block_text(b))),
    }
}

/// A node: a parenthesis holding a symbol tag and at most one datum.
pub open spec fn node_of(b: BlockModel) -> Result<(Seq<char>, NodeDataModel), NodeError>
    decreases b, 1nat, 0nat,
{
    match b {
        BlockModel::Delimited(MacroDelimiter::Parenthesis, os) => if os.len() == 0 {
            Err(NodeError::Malformed(block_text(b)))
        } else {
            match symbol_of(os[0]) {
                Err(e) => Err(e),
                Ok(tag) => if os.len() == 1 {
                    Ok((tag, NodeDataModel::Unit))
                } else if os.len() == 2 {
                    match data_of(os[1]) {
                        Err(e) => Err(e),
                        Ok(d) => Ok((tag, d)),
                    }
                } else {
                    Err(NodeError::Malformed(block_text(b)))
                },
            }
        },
        _ => Err(NodeError::Malformed(block_text(b))),
    }
}

/// A node's datum: a square bracket is a vector of values, a brace a map
/// of symbol keys to values, anything else a single value.
pub open spec fn data_of(b: BlockModel) -> Result<NodeDataModel, NodeError>
    decreases b, 3nat, 0nat,
{
    match b {
        BlockModel::Delimited(MacroDelimiter::SquareBracket, os) => match values_of(os, os.len()) {
            Err(e) => Err(e),
            Ok(vs) => Ok(NodeDataModel::Vector(vs)),
        },
        BlockModel::Delimited(MacroDelimiter::Brace, os) => match pairs_of(os) {
            Err(e) => Err(e),
            Ok(ps) => Ok(NodeDataModel::Mapping(ps)),
        },
        _ => match value_of(b) {
            Err(e) => Err(e),
            Ok(v) => Ok(NodeDataModel::Value(v)),
        },
    }
}

/// A value: a symbol, a pipe text, a nested node, a vector or a map;
/// pipe-delimited objects are refused.
pub open spec fn value_of(b: BlockModel) -> Result<NodeValueModel, NodeError>
    decreases b, 2nat, 0nat,
{
    match b {
        BlockModel::Atom(_, _) => match symbol_of(b) {
            Err(e) => Err(e),
            Ok(t) => Ok(NodeValueModel::Symbol(t)),
        },
        BlockModel::PipeText(t) => Ok(NodeValueModel::Text(t)),
        BlockModel::Delimited(d, os) => if d == MacroDelimiter::Parenthesis {
            match node_of(b) {
                Err(e) => Err(e),
                Ok((tag, data)) => Ok(NodeValueModel::Node(tag, Box::new(data))),
            }
        } else if d == MacroDelimiter::SquareBracket {
            match values_of(os, os.len()) {
                Err(e) => Err(e),
                Ok(vs) => Ok(NodeValueModel::Vector(vs)),
            }
        } else if d == MacroDelimiter::Brace {
            match pairs_of(os) {
                Err(e) => Err(e),
                Ok(ps) => Ok(NodeValueModel::Mapping(ps)),
            }
        } else {
            Err(NodeError::Malformed(block_text(b)))
        },
    }
}

/// The first `n` objects read as values, in order.
pub open spec fn values_of(os: Seq<BlockModel>, n: nat) -> Result<Seq<NodeValueModel>, NodeError>
    decreases os, 0nat, n,
{
    if n == 0 || n > os.len() {
        Ok(Seq::empty())
    } else {
        match values_of(os, (n - 1) as nat) {
            Err(e) => Err(e),
            Ok(prev) => match value_of(os[n - 1]) {
                Err(e) => Err(e),
                Ok(v) => Ok(prev.push(v)),
            },
        }
    }
}

/// The objects read as key/value pairs: an odd count is refused.
pub open spec fn pairs_of(os: Seq<BlockModel>) -> Result<Seq<(Seq<char>, NodeValueModel)>, NodeError>
    decreases os, 1nat, 0nat,
{
    if os.len() % 2 != 0 {
        Err(NodeError::OddMapEntries(os.len()))
    } else {
        pair_run(os, os.len() / 2)
    }
}

/// The first `k` pairs, key then value, in order.
pub open spec fn pair_run(os: Seq<BlockModel>, k: nat) -> Result<Seq<(Seq<char>, NodeValueModel)>, NodeError>
    decreases os, 0nat, k,
{
    if k == 0 || 2 * k > os.len() {
        Ok(Seq::empty())
    } else {
        match pair_run(os, (k - 1) as nat) {
            Err(e) => Err(e),
            Ok(prev) => match symbol_of(os[2 * k - 2]) {
                Err(e) => Err(e),
                Ok(key) => match value_of(os[2 * k - 1]) {
                    Err(e) => Err(e),
                    Ok(v) => Ok(prev.push((key, v))),
                },
            },
        }
    }
}

// ── Reading, executed ───────────────────────────────────────────────

/// The result of a read, against its model.
pub open spec fn node_result<T>(r: Result<T, SchemaError>, m: Result<T, NodeError>) -> bool {
    match m {
        Ok(v) => r matches Ok(x) && x == v,
        Err(e) => r matches Err(x) && reports_node_error(x, e),
    }
}

proof fn lemma_values_of_err(os: Seq<BlockModel>, k: nat, n: nat)
    requires
        1 <= k <= n <= os.len(),
        values_of(os, k) is Err,
    ensures
        values_of(os, n) == values_of(os, k),
    decreases n - k,
{
    if n > k {
        lemma_values_of_err(os, k, (n - 1) as nat);
    }
}

proof fn lemma_pair_run_err(os: Seq<BlockModel>, k: nat, n: nat)
    requires
        1 <= k <= n,
        2 * n <= os.len(),
        pair_run(os, k) is Err,
    ensures
        pair_run(os, n) == pair_run(os, k),
    decreases n - k,
{
    if n > k {
        lemma_pair_run_err(os, k, (n - 1) as nat);
    }
}

/// The symbol an object names.
fn read_symbol(block: &NotaBlock) -> (r: Result<Name, SchemaError>)
    ensures
        match symbol_of(block.model()) {
            Ok(t) => r matches Ok(n) && n.text() == t,
            Err(e) => r matches Err(x) && reports_node_error(x, e),
        },
{
    match block {
        NotaBlock::Atom(text, true) => Ok(Name::new(text.as_str())),
        _ => Err(SchemaError::ExpectedSymbol { found: block.compact_notation() }),
    }
}

/// The objects read as values, in order.
fn read_values(objects: &[NotaBlock]) -> (r: Result<Vec<SchemaNodeValue>, SchemaError>)
    ensures
        match values_of(block_models(objects@), objects@.len() as nat) {
            Ok(vs) => r matches Ok(v) && value_models(v@) == vs,
            Err(e) => r matches Err(x) && reports_node_error(x, e),
        },
    decreases objects@, 0int,
{
    let ghost os = block_models(objects@);
    let mut values: Vec<SchemaNodeValue> = Vec::new();
    let mut i: usize = 0;
    assert(value_models(values@) =~= Seq::<NodeValueModel>::empty());
    while i < objects.len()
        invariant
            os == block_models(objects@),
            0 <= i <= objects@.len(),
            values_of(os, i as nat) == Ok::<Seq<NodeValueModel>, NodeError>(value_models(values@)),
        decreases objects@.len() - i,
    {
        proof {
            assert(decreases_to!(objects@ => objects@[i as int]));
            assert(os[i as int] == objects@[i as int].model());
        }
        match SchemaNodeValue::from_block(&objects[i]) {
            Err(e) => {
                proof {
                    lemma_values_of_err(os, (i + 1) as nat, os.len());
                }
                return Err(e);
            },
            Ok(v) => {
                let ghost before = values@;
                values.push(v);
                assert(value_models(values@) =~= value_models(before).push(v.model()));
            },
        }
        i = i + 1;
    }
    Ok(values)
}

/// The objects read as key/value pairs.
fn read_pairs(objects: &[NotaBlock]) -> (r: Result<Vec<SchemaNodePair>, SchemaError>)
    ensures
        match pairs_of(block_models(objects@)) {
            Ok(ps) => r matches Ok(v) && pair_models(v@) == ps,
            Err(e) => r matches Err(x) && reports_node_error(x, e),
        },
    decreases objects@, 1int,
{
    let ghost os = block_models(objects@);
    if objects.len() % 2 != 0 {
        return Err(SchemaError::ExpectedEvenMapEntries { found: objects.len() });
    }
    let total = objects.len();
    let count = total / 2;
    let mut pairs: Vec<SchemaNodePair> = Vec::new();
    let mut k: usize = 0;
    assert(pair_models(pairs@) =~= Seq::<(Seq<char>, NodeValueModel)>::empty());
    while k < count
        invariant
            os == block_models(objects@),
            objects@.len() % 2 == 0,
            total == objects@.len(),
            count == total / 2,
            0 <= k <= count,
            pair_run(os, k as nat) == Ok::<Seq<(Seq<char>, NodeValueModel)>, NodeError>(pair_models(pairs@)),
        decreases count - k,
    {
        let at = 2 * k;
        proof {
            assert(decreases_to!(objects@ => objects@[at as int + 1]));
            assert(os[at as int] == objects@[at as int].model());
            assert(os[at as int + 1] == objects@[at as int + 1].model());
            assert(2 * (k + 1) - 2 == at && 2 * (k + 1) - 1 == at + 1);
        }
        let key = match read_symbol(&objects[at]) {
            Err(e) => {
                proof {
                    lemma_pair_run_err(os, (k + 1) as nat, count as nat);
                }
                return Err(e);
            },
            Ok(key) => key,
        };
        match SchemaNodeValue::from_block(&objects[at + 1]) {
            Err(e) => {
                proof {
                    lemma_pair_run_err(os, (k + 1) as nat, count as nat);
                }
                return Err(e);
            },
            Ok(value) => {
                let ghost before = pairs@;
                let pair = SchemaNodePair::new(key, value);
                pairs.push(pair);
                assert(pair_models(pairs@) =~= pair_models(before).push((pair.key_text(), pair.value_model())));
            },
        }
        k = k + 1;
    }
    Ok(pairs)
}

impl SchemaNode {
    /// Read a node from a parenthesis holding a symbol tag and at most
    /// one datum.
    pub fn from_block(block: &NotaBlock) -> (r: Result<Self, SchemaError>)
        ensures
            match node_of(block.model()) {
                Ok((tag, data)) => r matches Ok(n) && n.tag_text() == tag && n.data_model() == data,
                Err(e) => r matches Err(x) && reports_node_error(x, e),
            },
        decreases block, 1int,
    {
        let children = match block {
            NotaBlock::Delimited(MacroDelimiter::Parenthesis, children) => children,
            _ => {
                return Err(SchemaError::MalformedSchemaNode { found: block.compact_notation() });
            },
        };
        proof {
            assert(block.model()->Delimited_1 =~= block_models(children@));
            assert(decreases_to!(*block => (*block)->Delimited_1));
        }
        if children.len() == 0 {
            return Err(SchemaError::MalformedSchemaNode { found: block.compact_notation() });
        }
        assert(block_models(children@)[0] == children@[0].model());
        let tag = match read_symbol(&children[0]) {
            Err(e) => {
                return Err(e);
            },
            Ok(tag) => tag,
        };
        if children.len() == 1 {
            return Ok(SchemaNode::new(tag, SchemaNodeData::Unit));
        }
        if children.len() != 2 {
            return Err(SchemaError::MalformedSchemaNode { found: block.compact_notation() });
        }
        proof {
            assert(decreases_to!(children@ => children@[1]));
            assert(block_models(children@)[1] == children@[1].model());
        }
        match SchemaNodeData::from_block(&children[1]) {
            Err(e) => Err(e),
            Ok(data) => Ok(SchemaNode::new(tag, data)),
        }
    }
}

impl SchemaNodeData {
    /// Read a node's datum.
    pub fn from_block(block: &NotaBlock) -> (r: Result<Self, SchemaError>)
        ensures
            match data_of(block.model()) {
                Ok(d) => r matches Ok(x) && x.model() == d,
                Err(e) => r matches Err(x) && reports_node_error(x, e),
            },
        decreases block, 3int,
    {
        match block {
            NotaBlock::Delimited(MacroDelimiter::SquareBracket, children) => {
                proof {
                    assert(block.model()->Delimited_1 =~= block_models(children@));
                    assert(decreases_to!(*block => (*block)->Delimited_1));
                }
                match read_values(children.as_slice()) {
                    Err(e) => Err(e),
                    Ok(values) => {
                        let r = SchemaNodeData::Vector(values);
                        proof {
                            lemma_data_models(r);
                        }
                        Ok(r)
                    },
                }
            },
            NotaBlock::Delimited(MacroDelimiter::Brace, children) => {
                proof {
                    assert(block.model()->Delimited_1 =~= block_models(children@));
                    assert(decreases_to!(*block => (*block)->Delimited_1));
                }
                match read_pairs(children.as_slice()) {
                    Err(e) => Err(e),
                    Ok(pairs) => {
                        let r = SchemaNodeData::Mapping(pairs);
                        proof {
                            lemma_data_models(r);
                        }
                        Ok(r)
                    },
                }
            },
            _ => match SchemaNodeValue::from_block(block) {
                Err(e) => Err(e),
                Ok(value) => Ok(SchemaNodeData::Value(value)),
            },
        }
    }
}

impl SchemaNodeValue {
    /// Read a value.
    pub fn from_block(block: &NotaBlock) -> (r: Result<Self, SchemaError>)
        ensures
            match value_of(block.model()) {
                Ok(v) => r matches Ok(x) && x.model() == v,
                Err(e) => r matches Err(x) && reports_node_error(x, e),
            },
        decreases block, 2int,
    {
        match block {
            NotaBlock::Atom(_, _) => match read_symbol(block) {
                Err(e) => Err(e),
                Ok(name) => Ok(SchemaNodeValue::Symbol(name)),
            },
            NotaBlock::PipeText(text) => Ok(SchemaNodeValue::Text(string_of(text.as_str()))),
            NotaBlock::Delimited(d, children) => {
                proof {
                    assert(block.model()->Delimited_1 =~= block_models(children@));
                    assert(decreases_to!(*block => (*block)->Delimited_1));
                }
                match d {
                    MacroDelimiter::Parenthesis => match SchemaNode::from_block(block) {
                        Err(e) => Err(e),
                        Ok(node) => Ok(SchemaNodeValue::Node(Box::new(node))),
                    },
                    MacroDelimiter::SquareBracket => match read_values(children.as_slice()) {
                        Err(e) => Err(e),
                        Ok(values) => {
                            let r = SchemaNodeValue::Vector(values);
                            proof {
                                lemma_value_models(r);
                            }
                            Ok(r)
                        },
                    },
                    MacroDelimiter::Brace => match read_pairs(children.as_slice()) {
                        Err(e) => Err(e),
                        Ok(pairs) => {
                            let r = SchemaNodeValue::Mapping(pairs);
                            proof {
                                lemma_value_models(r);
                            }
                            Ok(r)
                        },
                    },
                    _ => Err(SchemaError::MalformedSchemaNode { found: block.compact_notation() }),
                }
            },
        }
    }
}

} // verus!
