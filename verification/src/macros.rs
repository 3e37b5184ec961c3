//! Shape interpretation of macro invocations. A macro reads the
//! structural shape of its invocation: a single-identifier map, an
//! identifier-keyed map, a record headed by a name, or a vector.
use vstd::prelude::*;
use crate::kernel::{Node, NodeKind, NodeModel, duplicate_nodes, node_models};
use crate::schema::text_bytes;
use crate::text::string_of;

verus! {

/// The shape a macro invocation took.
#[derive(Debug, PartialEq, Eq)]
pub enum MacroShape {
    /// `{ name }`: exactly one identifier child inside a map.
    SingleIdentifierMap { name: String },
    /// `{ k1 v1 k2 v2 ... }`: even-count map whose keys are all identifiers.
    KeyValueMap { entries: Vec<(String, Node)> },
    /// `(Name fields...)`: a record headed by a name.
    NamedRecord { name: String, fields: Vec<Node> },
    /// `[children...]`: a positional vector.
    Vector { children: Vec<Node> },
    /// None of the recognised shapes.
    Unknown,
}

pub enum ShapeModel {
    SingleIdentifierMap(Seq<u8>),
    KeyValueMap(Seq<(Seq<u8>, NodeModel)>),
    NamedRecord(Seq<u8>, Seq<NodeModel>),
    Vector(Seq<NodeModel>),
    Unknown,
}

pub open spec fn keyed_models(entries: Seq<(String, Node)>) -> Seq<(Seq<u8>, NodeModel)> {
    Seq::new(entries.len(), |i: int| (text_bytes(&entries[i].0), entries[i].1.model()))
}

impl MacroShape {
    pub open spec fn model(&self) -> ShapeModel {
        match self {
            MacroShape::SingleIdentifierMap { name } => ShapeModel::SingleIdentifierMap(
                text_bytes(name),
            ),
            MacroShape::KeyValueMap { entries } => ShapeModel::KeyValueMap(keyed_models(entries@)),
            MacroShape::NamedRecord { name, fields } => ShapeModel::NamedRecord(
                text_bytes(name),
                node_models(fields@),
            ),
            MacroShape::Vector { children } => ShapeModel::Vector(node_models(children@)),
            MacroShape::Unknown => ShapeModel::Unknown,
        }
    }
}

/// Whether every key position `2k` of a map's children is an identifier.
pub open spec fn keys_are_identifiers(cs: Seq<NodeModel>) -> bool {
    forall|k: int| 0 <= k < cs.len() / 2 ==> (#[trigger] cs[2 * k]).kind == NodeKind::Identifier
}

/// The shape of an invocation.
pub open spec fn classify_spec(n: NodeModel) -> ShapeModel {
    let cs = n.children;
    if n.kind == NodeKind::Mapping {
        if cs.len() == 1 {
            if cs[0].kind == NodeKind::Identifier {
                ShapeModel::SingleIdentifierMap(cs[0].text)
            } else {
                ShapeModel::Unknown
            }
        } else if cs.len() % 2 != 0 {
            ShapeModel::Unknown
        } else if keys_are_identifiers(cs) {
            ShapeModel::KeyValueMap(Seq::new(cs.len() / 2, |k: int| (cs[2 * k].text, cs[2 * k + 1])))
        } else {
            ShapeModel::Unknown
        }
    } else if n.kind == NodeKind::Record {
        if cs.len() > 0 && cs[0].kind == NodeKind::Identifier {
            ShapeModel::NamedRecord(cs[0].text, cs.subrange(1, cs.len() as int))
        } else {
            ShapeModel::Unknown
        }
    } else if n.kind == NodeKind::Vector {
        ShapeModel::Vector(cs)
    } else {
        ShapeModel::Unknown
    }
}

/// The shape classifier.
pub struct MacroEngine;

impl MacroEngine {
    pub fn new() -> (r: Self) {
        MacroEngine
    }

    /// Classify the structural shape of a macro invocation.
    pub fn classify(&self, node: &Node) -> (r: MacroShape)
        ensures
            r.model() == classify_spec(node.model()),
    {
        let ghost m = node.model();
        let n = node.children.len();
        assert(m.children.len() == n);
        assert forall|i: int| 0 <= i < n implies m.children[i] == (#[trigger] node.children@[i]).model() by {}
        match node.kind {
            NodeKind::Mapping => {
                if n == 1 {
                    return match node.children[0].as_identifier() {
                        Some(name) => MacroShape::SingleIdentifierMap { name: string_of(name) },
                        None => MacroShape::Unknown,
                    };
                }
                if n % 2 != 0 {
                    return MacroShape::Unknown;
                }
                let ghost target = Seq::new(
                    m.children.len() / 2,
                    |k: int| (m.children[2 * k].text, m.children[2 * k + 1]),
                );
                let mut entries: Vec<(String, Node)> = Vec::new();
                let mut k: usize = 0;
                while k < n / 2
                    invariant
                        n == node.children@.len(),
                        m == node.model(),
                        node.kind == NodeKind::Mapping,
                        m.children.len() == n,
                        n % 2 == 0,
                        n != 1,
                        0 <= k <= n / 2,
                        forall|i: int| 0 <= i < n ==> m.children[i] == (#[trigger] node.children@[i]).model(),
                        target == Seq::new(
                            m.children.len() / 2,
                            |k: int| (m.children[2 * k].text, m.children[2 * k + 1]),
                        ),
                        keyed_models(entries@) == target.take(k as int),
                        entries@.len() == k,
                        forall|j: int| 0 <= j < k ==> (#[trigger] m.children[2 * j]).kind
                            == NodeKind::Identifier,
                    decreases n / 2 - k,
                {
                    let key = &node.children[2 * k];
                    let value = &node.children[2 * k + 1];
                    match key.as_identifier() {
                        Some(name) => {
                            let copy = value.duplicate();
                            let pair = (string_of(name), copy);
                            let ghost before = entries@;
                            assert(text_bytes(&pair.0) == m.children[2 * k].text);
                            assert(pair.1.model() == m.children[2 * k + 1]);
                            entries.push(pair);
                            assert(entries@ == before.push(pair));
                            let ghost lhs = keyed_models(entries@);
                            let ghost rhs = target.take(k as int + 1);
                            assert forall|t: int| 0 <= t < lhs.len() implies lhs[t] == rhs[t] by {
                                if t < k {
                                    assert(lhs[t] == keyed_models(before)[t]);
                                }
                            }
                            assert(lhs =~= rhs);
                        },
                        None => {
                            assert(!keys_are_identifiers(m.children)) by {
                                assert(m.children[2 * (k as int)].kind != NodeKind::Identifier);
                                assert((k as int) < m.children.len() / 2);
                            }
                            assert(m.kind == NodeKind::Mapping);
                            assert(classify_spec(m) == ShapeModel::Unknown);
                            return MacroShape::Unknown;
                        },
                    }
                    k = k + 1;
                }
                assert(target.take(target.len() as int) =~= target);
                MacroShape::KeyValueMap { entries }
            },
            NodeKind::Record => {
                if n == 0 {
                    return MacroShape::Unknown;
                }
                match node.children[0].as_identifier() {
                    Some(name) => {
                        let fields = duplicate_nodes(node.children.as_slice(), 1);
                        assert(node_models(node.children@.subrange(1, n as int)) =~= m.children.subrange(
                            1,
                            n as int,
                        ));
                        MacroShape::NamedRecord { name: string_of(name), fields }
                    },
                    None => MacroShape::Unknown,
                }
            },
            NodeKind::Vector => {
                let children = duplicate_nodes(node.children.as_slice(), 0);
                assert(node.children@.subrange(0, n as int) =~= node.children@);
                assert(node_models(node.children@) =~= m.children);
                MacroShape::Vector { children }
            },
            _ => MacroShape::Unknown,
        }
    }
}

impl Default for MacroEngine {
    fn default() -> (r: Self) {
        MacroEngine::new()
    }
}

} // verus!
