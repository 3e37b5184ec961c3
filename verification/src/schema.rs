//! The three-part schema reader. A schema text holds five top-level
//! blocks: the specifying map `{...}`, the input header `[...]`, the input
//! extras `[...]`, the namespace map `{...}` and the output `[...]`.
//! Reading assembles a flat namespace plus the input and output
//! operation lists.
use vstd::prelude::*;
use vstd::utf8::*;
use vstd::string::*;
use crate::kernel::{
    kernel_message_spec, text_with_number, Kernel, KernelError, Node, NodeKind, NodeModel, duplicate_nodes, node_models,
    parse_sequence_spec,
};
use crate::text::{decimal_spec, str_equal, string_of};

verus! {

broadcast use vstd::utf8::group_utf8_lib;

#[derive(Debug, Clone, Copy, PartialEq, Eq, Structural)]
pub enum SchemaError {
    Kernel(KernelError),
    /// The document did not have the five-block layout.
    WrongLayout { found_blocks: usize, expected: usize },
    SpecifyingNotMap,
    InputHeaderNotVector,
    InputExtrasNotVector,
    NamespaceNotMap,
    OutputNotVector,
    /// A map had a key without a value.
    NamespaceUnpaired,
    NamespaceKeyNotIdentifier,
    MalformedOperation,
}

impl SchemaError {
    /// The schema error standing for a kernel error.
    pub fn from_kernel(error: KernelError) -> (r: Self)
        ensures
            r == SchemaError::Kernel(error),
    {
        SchemaError::Kernel(error)
    }
}

/// The human-readable text of a schema error.
pub open spec fn schema_message_spec(e: SchemaError) -> Seq<char> {
    match e {
        SchemaError::Kernel(k) => "kernel: "@ + kernel_message_spec(k),
        SchemaError::WrongLayout { found_blocks, expected } => "wrong layout: found "@
            + decimal_spec(found_blocks as nat) + " top-level blocks, expected "@ + decimal_spec(
            expected as nat,
        ),
        SchemaError::SpecifyingNotMap => "specifying block must be a `{...}` map"@,
        SchemaError::InputHeaderNotVector => "input header must be a `[...]` vector"@,
        SchemaError::InputExtrasNotVector => "input extras must be a `[...]` vector"@,
        SchemaError::NamespaceNotMap => "namespace block must be a `{...}` map"@,
        SchemaError::OutputNotVector => "output block must be a `[...]` vector"@,
        SchemaError::NamespaceUnpaired => "namespace map has unpaired entries"@,
        SchemaError::NamespaceKeyNotIdentifier => "namespace key must be an identifier"@,
        SchemaError::MalformedOperation => "malformed operation entry"@,
    }
}

impl SchemaError {
    /// The human-readable text of this error.
    pub fn message(&self) -> (r: String)
        ensures
            r@ == schema_message_spec(*self),
    {
        match *self {
            SchemaError::Kernel(k) => {
                let mut s = string_of("kernel: ");
                s.append(k.message().as_str());
                s
            },
            SchemaError::WrongLayout { found_blocks, expected } => {
                let mut s = text_with_number("wrong layout: found ", found_blocks);
                s.append(text_with_number(" top-level blocks, expected ", expected).as_str());
                s
            },
            SchemaError::SpecifyingNotMap => string_of("specifying block must be a `{...}` map"),
            SchemaError::InputHeaderNotVector => string_of("input header must be a `[...]` vector"),
            SchemaError::InputExtrasNotVector => string_of("input extras must be a `[...]` vector"),
            SchemaError::NamespaceNotMap => string_of("namespace block must be a `{...}` map"),
            SchemaError::OutputNotVector => string_of("output block must be a `[...]` vector"),
            SchemaError::NamespaceUnpaired => string_of("namespace map has unpaired entries"),
            SchemaError::NamespaceKeyNotIdentifier => string_of(
                "namespace key must be an identifier",
            ),
            SchemaError::MalformedOperation => string_of("malformed operation entry"),
        }
    }
}

/// Which of the three conceptual parts a section belongs to.
#[derive(Debug, Clone, Copy, PartialEq, Eq, Structural)]
pub enum SchemaSection {
    Specifying,
    Input,
    Output,
}

/// The children of the five top-level blocks.
#[derive(Debug, PartialEq, Eq)]
pub struct ThreePartSchema {
    pub specifying: Vec<Node>,
    pub input_header: Vec<Node>,
    pub input_extras: Vec<Node>,
    pub namespace: Vec<Node>,
    pub output: Vec<Node>,
}

pub struct ThreePartModel {
    pub specifying: Seq<NodeModel>,
    pub input_header: Seq<NodeModel>,
    pub input_extras: Seq<NodeModel>,
    pub namespace: Seq<NodeModel>,
    pub output: Seq<NodeModel>,
}

/// Reading the five-block layout from text `b`.
pub open spec fn three_part_spec(b: Seq<u8>) -> Result<ThreePartModel, SchemaError> {
    match parse_sequence_spec(b, 0) {
        Err(e) => Err(SchemaError::Kernel(e)),
        Ok(nodes) => {
            if nodes.len() != 5 {
                Err(SchemaError::WrongLayout { found_blocks: nodes.len() as usize, expected: 5 })
            } else if nodes[0].kind != NodeKind::Mapping {
                Err(SchemaError::SpecifyingNotMap)
            } else if nodes[1].kind != NodeKind::Vector {
                Err(SchemaError::InputHeaderNotVector)
            } else if nodes[2].kind != NodeKind::Vector {
                Err(SchemaError::InputExtrasNotVector)
            } else if nodes[3].kind != NodeKind::Mapping {
                Err(SchemaError::NamespaceNotMap)
            } else if nodes[4].kind != NodeKind::Vector {
                Err(SchemaError::OutputNotVector)
            } else {
                Ok(
                    ThreePartModel {
                        specifying: nodes[0].children,
                        input_header: nodes[1].children,
                        input_extras: nodes[2].children,
                        namespace: nodes[3].children,
                        output: nodes[4].children,
                    },
                )
            }
        },
    }
}

impl ThreePartSchema {
    pub open spec fn model(&self) -> ThreePartModel {
        ThreePartModel {
            specifying: node_models(self.specifying@),
            input_header: node_models(self.input_header@),
            input_extras: node_models(self.input_extras@),
            namespace: node_models(self.namespace@),
            output: node_models(self.output@),
        }
    }

    /// Read a schema text into the three-part view.
    pub fn read(source: &str) -> (r: Result<Self, SchemaError>)
        ensures
            match r {
                Ok(parts) => three_part_spec(source.spec_bytes()) == Ok::<
                    ThreePartModel,
                    SchemaError,
                >(parts.model()),
                Err(e) => three_part_spec(source.spec_bytes()) == Err::<ThreePartModel, SchemaError>(
                    e,
                ),
            },
    {
        let mut kernel = Kernel::new(source);
        let mut blocks = match kernel.parse_sequence() {
            Ok(blocks) => blocks,
            Err(e) => return Err(SchemaError::Kernel(e)),
        };
        let ghost models = node_models(blocks@);
        if blocks.len() != 5 {
            return Err(SchemaError::WrongLayout { found_blocks: blocks.len(), expected: 5 });
        }
        let output = blocks.pop().unwrap();
        let namespace = blocks.pop().unwrap();
        let input_extras = blocks.pop().unwrap();
        let input_header = blocks.pop().unwrap();
        let specifying = blocks.pop().unwrap();
        proof {
            assert(models[0] == specifying.model());
            assert(models[4] == output.model());
        }
        if specifying.kind != NodeKind::Mapping {
            return Err(SchemaError::SpecifyingNotMap);
        }
        if input_header.kind != NodeKind::Vector {
            return Err(SchemaError::InputHeaderNotVector);
        }
        if input_extras.kind != NodeKind::Vector {
            return Err(SchemaError::InputExtrasNotVector);
        }
        if namespace.kind != NodeKind::Mapping {
            return Err(SchemaError::NamespaceNotMap);
        }
        if output.kind != NodeKind::Vector {
            return Err(SchemaError::OutputNotVector);
        }
        let r = ThreePartSchema {
            specifying: specifying.children,
            input_header: input_header.children,
            input_extras: input_extras.children,
            namespace: namespace.children,
            output: output.children,
        };
        proof {
            assert(r.model().specifying =~= models[0].children);
            assert(r.model().input_header =~= models[1].children);
            assert(r.model().input_extras =~= models[2].children);
            assert(r.model().namespace =~= models[3].children);
            assert(r.model().output =~= models[4].children);
        }
        Ok(r)
    }

    /// Whether the input header declares any operation.
    pub fn has_input(&self) -> (r: bool)
        ensures
            r == (self.input_header@.len() > 0),
    {
        self.input_header.len() != 0
    }

    /// Whether the output declares any reply.
    pub fn has_output(&self) -> (r: bool)
        ensures
            r == (self.output@.len() > 0),
    {
        self.output.len() != 0
    }
}

// ── Namespace entries and operations ─────────────────────────────────

/// One user-defined type binding.
#[derive(Debug, PartialEq, Eq)]
pub struct NamespaceEntry {
    pub name: String,
    pub body: TypeBody,
}

#[derive(Debug, PartialEq, Eq)]
pub enum TypeBody {
    /// `Foo (Variant1 Variant2 ...)`
    Enum { variants: Vec<EnumVariant> },
    /// `Foo [Field1 Field2 ...]`
    Struct { fields: Vec<Node> },
    /// `Foo { key value ... }`
    Mapping { entries: Vec<(Node, Node)> },
    /// Any other value: a macro invocation the macro engine inspects.
    Macro { invocation: Node },
    /// `Foo BareIdentifier`
    Alias { target: String },
}

#[derive(Debug, PartialEq, Eq)]
pub struct EnumVariant {
    pub name: String,
    pub fields: Vec<Node>,
}

/// One operation of an Input section, or one reply of an Output section.
#[derive(Debug, PartialEq, Eq)]
pub struct OperationEntry {
    pub name: String,
    pub payload: Vec<Node>,
}

/// The namespace flattened in insertion order, plus the operations.
#[derive(Debug, PartialEq, Eq)]
pub struct AssembledSchema {
    pub namespace: Vec<NamespaceEntry>,
    pub input_operations: Vec<OperationEntry>,
    pub output_operations: Vec<OperationEntry>,
}

pub struct VariantModel {
    pub name: Seq<u8>,
    pub fields: Seq<NodeModel>,
}

pub enum TypeBodyModel {
    Enum(Seq<VariantModel>),
    Struct(Seq<NodeModel>),
    Mapping(Seq<(NodeModel, NodeModel)>),
    Macro(NodeModel),
    Alias(Seq<u8>),
}

pub struct EntryModel {
    pub name: Seq<u8>,
    pub body: TypeBodyModel,
}

pub struct OperationModel {
    pub name: Seq<u8>,
    pub payload: Seq<NodeModel>,
}

pub struct AssembledModel {
    pub namespace: Seq<EntryModel>,
    pub input_operations: Seq<OperationModel>,
    pub output_operations: Seq<OperationModel>,
}

/// The UTF-8 bytes of a string.
pub open spec fn text_bytes(s: &String) -> Seq<u8> {
    encode_utf8(s@)
}

pub open spec fn pair_models(pairs: Seq<(Node, Node)>) -> Seq<(NodeModel, NodeModel)> {
    Seq::new(pairs.len(), |i: int| (pairs[i].0.model(), pairs[i].1.model()))
}

impl EnumVariant {
    pub open spec fn model(&self) -> VariantModel {
        VariantModel { name: text_bytes(&self.name), fields: node_models(self.fields@) }
    }
}

pub open spec fn variant_models(vs: Seq<EnumVariant>) -> Seq<VariantModel> {
    Seq::new(vs.len(), |i: int| vs[i].model())
}

impl TypeBody {
    pub open spec fn model(&self) -> TypeBodyModel {
        match self {
            TypeBody::Enum { variants } => TypeBodyModel::Enum(variant_models(variants@)),
            TypeBody::Struct { fields } => TypeBodyModel::Struct(node_models(fields@)),
            TypeBody::Mapping { entries } => TypeBodyModel::Mapping(pair_models(entries@)),
            TypeBody::Macro { invocation } => TypeBodyModel::Macro(invocation.model()),
            TypeBody::Alias { target } => TypeBodyModel::Alias(text_bytes(target)),
        }
    }
}

impl NamespaceEntry {
    pub open spec fn model(&self) -> EntryModel {
        EntryModel { name: text_bytes(&self.name), body: self.body.model() }
    }
}

impl OperationEntry {
    pub open spec fn model(&self) -> OperationModel {
        OperationModel { name: text_bytes(&self.name), payload: node_models(self.payload@) }
    }
}

pub open spec fn entry_models(es: Seq<NamespaceEntry>) -> Seq<EntryModel> {
    Seq::new(es.len(), |i: int| es[i].model())
}

pub open spec fn operation_models(os: Seq<OperationEntry>) -> Seq<OperationModel> {
    Seq::new(os.len(), |i: int| os[i].model())
}

/// The variants of an enum body `(...)`, from child `i` on: a bare
/// identifier is a unit variant, `(Name fields...)` a variant with fields.
pub open spec fn enum_variants_spec(cs: Seq<NodeModel>, i: int) -> Result<
    Seq<VariantModel>,
    SchemaError,
>
    decreases cs.len() - i,
{
    if i < 0 || i >= cs.len() {
        Ok(Seq::empty())
    } else {
        let head = cs[i];
        let variant = if head.kind == NodeKind::Identifier {
            Some(VariantModel { name: head.text, fields: Seq::empty() })
        } else if head.kind == NodeKind::Record && head.children.len() > 0
            && head.children[0].kind == NodeKind::Identifier {
            Some(VariantModel { name: head.children[0].text, fields: head.children.skip(1) })
        } else {
            None
        };
        match variant {
            None => Err(SchemaError::MalformedOperation),
            Some(v) => match enum_variants_spec(cs, i + 1) {
                Ok(rest) => Ok(seq![v] + rest),
                Err(e) => Err(e),
            },
        }
    }
}

/// The consecutive key/value pairs of `cs`.
pub open spec fn pairs_of(cs: Seq<NodeModel>) -> Seq<(NodeModel, NodeModel)> {
    Seq::new(cs.len() / 2, |k: int| (cs[2 * k], cs[2 * k + 1]))
}

/// How a namespace value reads as a type body.
pub open spec fn classify_body_spec(v: NodeModel) -> Result<TypeBodyModel, SchemaError> {
    if v.kind == NodeKind::Record {
        match enum_variants_spec(v.children, 0) {
            Ok(vs) => Ok(TypeBodyModel::Enum(vs)),
            Err(e) => Err(e),
        }
    } else if v.kind == NodeKind::Vector {
        Ok(TypeBodyModel::Struct(v.children))
    } else if v.kind == NodeKind::Mapping {
        if v.children.len() % 2 != 0 {
            Err(SchemaError::NamespaceUnpaired)
        } else {
            Ok(TypeBodyModel::Mapping(pairs_of(v.children)))
        }
    } else if v.kind == NodeKind::Identifier {
        Ok(TypeBodyModel::Alias(v.text))
    } else {
        Ok(TypeBodyModel::Macro(v))
    }
}

/// The namespace entries of the pairs of `cs` from pair `k` on.
pub open spec fn namespace_pairs_spec(cs: Seq<NodeModel>, k: int) -> Result<
    Seq<EntryModel>,
    SchemaError,
>
    decreases cs.len() / 2 - k,
{
    if k < 0 || k >= cs.len() / 2 {
        Ok(Seq::empty())
    } else {
        let key = cs[2 * k];
        let value = cs[2 * k + 1];
        if key.kind != NodeKind::Identifier {
            Err(SchemaError::NamespaceKeyNotIdentifier)
        } else {
            match classify_body_spec(value) {
                Err(e) => Err(e),
                Ok(body) => match namespace_pairs_spec(cs, k + 1) {
                    Ok(rest) => Ok(seq![EntryModel { name: key.text, body }] + rest),
                    Err(e) => Err(e),
                },
            }
        }
    }
}

pub open spec fn namespace_spec(cs: Seq<NodeModel>) -> Result<Seq<EntryModel>, SchemaError> {
    if cs.len() % 2 != 0 {
        Err(SchemaError::NamespaceUnpaired)
    } else {
        namespace_pairs_spec(cs, 0)
    }
}

/// The operations `(Name payload...)` of `cs` from child `i` on.
pub open spec fn operations_spec(cs: Seq<NodeModel>, i: int) -> Result<
    Seq<OperationModel>,
    SchemaError,
>
    decreases cs.len() - i,
{
    if i < 0 || i >= cs.len() {
        Ok(Seq::empty())
    } else {
        let node = cs[i];
        if node.kind != NodeKind::Record || node.children.len() == 0
            || node.children[0].kind != NodeKind::Identifier {
            Err(SchemaError::MalformedOperation)
        } else {
            match operations_spec(cs, i + 1) {
                Ok(rest) => Ok(
                    seq![OperationModel { name: node.children[0].text, payload: node.children.skip(1) }]
                        + rest,
                ),
                Err(e) => Err(e),
            }
        }
    }
}

pub open spec fn assemble_spec(parts: ThreePartModel) -> Result<AssembledModel, SchemaError> {
    match namespace_spec(parts.namespace) {
        Err(e) => Err(e),
        Ok(namespace) => match operations_spec(parts.input_header, 0) {
            Err(e) => Err(e),
            Ok(input_operations) => match operations_spec(parts.output, 0) {
                Err(e) => Err(e),
                Ok(output_operations) => Ok(
                    AssembledModel { namespace, input_operations, output_operations },
                ),
            },
        },
    }
}

pub open spec fn read_assembled_spec(b: Seq<u8>) -> Result<AssembledModel, SchemaError> {
    match three_part_spec(b) {
        Err(e) => Err(e),
        Ok(parts) => assemble_spec(parts),
    }
}

/// Index of the first entry named `name`, if any.
pub open spec fn first_entry_named(es: Seq<EntryModel>, name: Seq<u8>) -> Option<int> {
    if exists|i: int| 0 <= i < es.len() && es[i].name == name {
        Some(
            choose|i: int|
                0 <= i < es.len() && es[i].name == name && forall|j: int|
                    0 <= j < i ==> es[j].name != name,
        )
    } else {
        None
    }
}

pub proof fn lemma_first_entry_named_result(es: Seq<EntryModel>, name: Seq<u8>)
    ensures
        match first_entry_named(es, name) {
            Some(i) => 0 <= i < es.len() && es[i].name == name,
            None => forall|j: int| 0 <= j < es.len() ==> es[j].name != name,
        },
{
    if exists|i: int| 0 <= i < es.len() && es[i].name == name {
        let w = choose|i: int| 0 <= i < es.len() && es[i].name == name;
        lemma_least_entry_named(es, name, w);
    }
}

proof fn lemma_least_entry_named(es: Seq<EntryModel>, name: Seq<u8>, w: int)
    requires
        0 <= w < es.len(),
        es[w].name == name,
    ensures
        exists|i: int|
            0 <= i < es.len() && es[i].name == name && forall|j: int|
                0 <= j < i ==> es[j].name != name,
    decreases w,
{
    if exists|j: int| 0 <= j < w && es[j].name == name {
        let v = choose|j: int| 0 <= j < w && es[j].name == name;
        lemma_least_entry_named(es, name, v);
    } else {
        assert(forall|j: int| 0 <= j < w ==> es[j].name != name);
    }
}

proof fn lemma_first_entry_named(es: Seq<EntryModel>, name: Seq<u8>, i: int)
    requires
        0 <= i < es.len(),
        es[i].name == name,
        forall|j: int| 0 <= j < i ==> es[j].name != name,
    ensures
        first_entry_named(es, name) == Some(i),
{
    let k = choose|k: int|
        0 <= k < es.len() && es[k].name == name && forall|j: int| 0 <= j < k ==> es[j].name != name;
    assert(0 <= k < es.len() && es[k].name == name && forall|j: int|
        0 <= j < k ==> es[j].name != name);
    if k < i {
        assert(es[k].name != name);
    }
    if k > i {
        assert(es[i].name != name);
    }
}

impl AssembledSchema {
    pub open spec fn model(&self) -> AssembledModel {
        AssembledModel {
            namespace: entry_models(self.namespace@),
            input_operations: operation_models(self.input_operations@),
            output_operations: operation_models(self.output_operations@),
        }
    }

    /// Assemble the namespace and operations of a three-part view.
    pub fn from_three_part(parts: &ThreePartSchema) -> (r: Result<Self, SchemaError>)
        ensures
            match r {
                Ok(s) => assemble_spec(parts.model()) == Ok::<AssembledModel, SchemaError>(
                    s.model(),
                ),
                Err(e) => assemble_spec(parts.model()) == Err::<AssembledModel, SchemaError>(e),
            },
    {
        let namespace = match read_namespace(&parts.namespace) {
            Ok(n) => n,
            Err(e) => return Err(e),
        };
        let input_operations = match read_operations(&parts.input_header) {
            Ok(o) => o,
            Err(e) => return Err(e),
        };
        let output_operations = match read_operations(&parts.output) {
            Ok(o) => o,
            Err(e) => return Err(e),
        };
        Ok(AssembledSchema { namespace, input_operations, output_operations })
    }

    /// Read and assemble a schema text.
    pub fn read(source: &str) -> (r: Result<Self, SchemaError>)
        ensures
            match r {
                Ok(s) => read_assembled_spec(source.spec_bytes()) == Ok::<
                    AssembledModel,
                    SchemaError,
                >(s.model()),
                Err(e) => read_assembled_spec(source.spec_bytes()) == Err::<
                    AssembledModel,
                    SchemaError,
                >(e),
            },
    {
        let three_part = match ThreePartSchema::read(source) {
            Ok(t) => t,
            Err(e) => return Err(e),
        };
        Self::from_three_part(&three_part)
    }

    /// The first namespace entry named `name`.
    pub fn lookup(&self, name: &str) -> (r: Option<&NamespaceEntry>)
        ensures
            match first_entry_named(self.model().namespace, encode_utf8(name@)) {
                Some(i) => r == Some(&self.namespace@[i]),
                None => r is None,
            },
    {
        let mut i: usize = 0;
        while i < self.namespace.len()
            invariant
                0 <= i <= self.namespace@.len(),
                forall|j: int|
                    0 <= j < i ==> #[trigger] self.model().namespace[j].name != encode_utf8(
                        name@,
                    ),
            decreases self.namespace@.len() - i,
        {
            let hit = str_equal(self.namespace[i].name.as_str(), name);
            proof {
                encode_utf8_decode_utf8(self.namespace@[i as int].name@);
                encode_utf8_decode_utf8(name@);
                assert(self.model().namespace[i as int] == self.namespace@[i as int].model());
            }
            if hit {
                proof {
                    lemma_first_entry_named(self.model().namespace, encode_utf8(name@), i as int);
                }
                return Some(&self.namespace[i]);
            }
            i = i + 1;
        }
        None
    }
}

/// A string copy of an identifier node's text.
fn identifier_text(node: &Node) -> (r: Option<String>)
    ensures
        node.kind == NodeKind::Identifier ==> (r matches Some(s) && text_bytes(&s)
            == node.model().text),
        node.kind != NodeKind::Identifier ==> r is None,
{
    match node.as_identifier() {
        Some(text) => Some(string_of(text)),
        None => None,
    }
}

fn read_namespace(children: &Vec<Node>) -> (r: Result<Vec<NamespaceEntry>, SchemaError>)
    ensures
        match r {
            Ok(es) => namespace_spec(node_models(children@)) == Ok::<Seq<EntryModel>, SchemaError>(
                entry_models(es@),
            ),
            Err(e) => namespace_spec(node_models(children@)) == Err::<Seq<EntryModel>, SchemaError>(
                e,
            ),
        },
{
    let ghost cs = node_models(children@);
    if children.len() % 2 != 0 {
        return Err(SchemaError::NamespaceUnpaired);
    }
    let mut entries: Vec<NamespaceEntry> = Vec::new();
    let mut k: usize = 0;
    let n = children.len();
    let pairs = n / 2;
    proof {
        match namespace_pairs_spec(cs, 0) {
            Ok(rest) => {
                assert(entry_models(entries@) + rest =~= rest);
            },
            Err(_) => {},
        }
    }
    while k < pairs
        invariant
            cs == node_models(children@),
            n == children@.len(),
            cs.len() == n,
            pairs == n / 2,
            cs.len() % 2 == 0,
            0 <= k <= pairs,
            namespace_pairs_spec(cs, 0) == (match namespace_pairs_spec(cs, k as int) {
                Ok(rest) => Ok(entry_models(entries@) + rest),
                Err(e) => Err(e),
            }),
        decreases pairs - k,
    {
        assert(2 * k + 1 < children@.len());
        let key = &children[2 * k];
        let value = &children[2 * k + 1];
        proof {
            assert(cs[2 * k] == key.model());
            assert(cs[2 * k + 1] == value.model());
        }
        let name = match identifier_text(key) {
            Some(name) => name,
            None => return Err(SchemaError::NamespaceKeyNotIdentifier),
        };
        let body = match classify_body(value) {
            Ok(body) => body,
            Err(e) => return Err(e),
        };
        let entry = NamespaceEntry { name, body };
        let ghost old_entries = entries@;
        entries.push(entry);
        proof {
            assert(entry_models(entries@) =~= entry_models(old_entries).push(entry.model()));
            match namespace_pairs_spec(cs, k + 1) {
                Ok(rest) => {
                    assert(entry_models(old_entries) + (seq![entry.model()] + rest)
                        =~= entry_models(entries@) + rest);
                },
                Err(_) => {},
            }
        }
        k = k + 1;
    }
    assert(entry_models(entries@) + Seq::<EntryModel>::empty() =~= entry_models(entries@));
    Ok(entries)
}

fn classify_body(value: &Node) -> (r: Result<TypeBody, SchemaError>)
    ensures
        match r {
            Ok(body) => classify_body_spec(value.model()) == Ok::<TypeBodyModel, SchemaError>(
                body.model(),
            ),
            Err(e) => classify_body_spec(value.model()) == Err::<TypeBodyModel, SchemaError>(e),
        },
{
    let ghost m = value.model();
    assert(m.children == node_models(value.children@)) by {
        assert(m.children =~= node_models(value.children@));
    }
    match value.kind {
        NodeKind::Record => {
            match read_variants(&value.children) {
                Ok(variants) => Ok(TypeBody::Enum { variants }),
                Err(e) => Err(e),
            }
        },
        NodeKind::Vector => {
            let fields = duplicate_nodes(value.children.as_slice(), 0);
            assert(value.children@.subrange(0, value.children@.len() as int) =~= value.children@);
            Ok(TypeBody::Struct { fields })
        },
        NodeKind::Mapping => {
            if value.children.len() % 2 != 0 {
                return Err(SchemaError::NamespaceUnpaired);
            }
            let mut entries: Vec<(Node, Node)> = Vec::new();
            let mut k: usize = 0;
            let n = value.children.len();
            let pairs = n / 2;
            while k < pairs
                invariant
                    n == value.children@.len(),
                    m.children.len() == n,
                    pairs == n / 2,
                    0 <= k <= pairs,
                    m.children == node_models(value.children@),
                    pair_models(entries@) == pairs_of(m.children).take(k as int),
                    entries@.len() == k,
                decreases pairs - k,
            {
                assert(2 * k + 1 < value.children@.len());
                let key = value.children[2 * k].duplicate();
                let val = value.children[2 * k + 1].duplicate();
                let ghost old_entries = entries@;
                let ghost km = key.model();
                let ghost vm = val.model();
                let pair = (key, val);
                assert(pair.0.model() == km && pair.1.model() == vm);
                entries.push(pair);
                assert(entries@ == old_entries.push(pair));
                k = k + 1;
                proof {
                    let j = k - 1;
                    assert(m.children[2 * j] == value.children@[2 * j].model());
                    assert(m.children[2 * j + 1] == value.children@[2 * j + 1].model());
                    assert(pairs_of(m.children)[j] == (m.children[2 * j], m.children[2 * j + 1]));
                    assert(entries@[j] == pair);
                    assert(entries@.len() == k);
                    assert(pair_models(entries@)[j] == (km, vm));
                    assert(pairs_of(m.children).take(k as int)[j] == pairs_of(m.children)[j]);
                    assert forall|t: int| 0 <= t < k implies pair_models(entries@)[t] == pairs_of(
                        m.children,
                    ).take(k as int)[t] by {
                        if t < j {
                            assert(entries@[t] == old_entries[t]);
                            assert(pair_models(old_entries)[t] == pairs_of(m.children).take(
                                j as int,
                            )[t]);
                        }
                    }
                    assert(pair_models(entries@) =~= pairs_of(m.children).take(k as int));
                }
            }
            assert(pairs_of(m.children).take(pairs as int) =~= pairs_of(m.children));
            Ok(TypeBody::Mapping { entries })
        },
        NodeKind::Identifier => Ok(TypeBody::Alias { target: string_of(value.text.as_str()) }),
        _ => Ok(TypeBody::Macro { invocation: value.duplicate() }),
    }
}

fn read_variants(children: &Vec<Node>) -> (r: Result<Vec<EnumVariant>, SchemaError>)
    ensures
        match r {
            Ok(vs) => enum_variants_spec(node_models(children@), 0) == Ok::<
                Seq<VariantModel>,
                SchemaError,
            >(variant_models(vs@)),
            Err(e) => enum_variants_spec(node_models(children@), 0) == Err::<
                Seq<VariantModel>,
                SchemaError,
            >(e),
        },
{
    let ghost cs = node_models(children@);
    let mut variants: Vec<EnumVariant> = Vec::new();
    let mut cursor: usize = 0;
    proof {
        match enum_variants_spec(cs, 0) {
            Ok(rest) => {
                assert(variant_models(variants@) + rest =~= rest);
            },
            Err(_) => {},
        }
    }
    while cursor < children.len()
        invariant
            cs == node_models(children@),
            0 <= cursor <= children@.len(),
            enum_variants_spec(cs, 0) == (match enum_variants_spec(cs, cursor as int) {
                Ok(rest) => Ok(variant_models(variants@) + rest),
                Err(e) => Err(e),
            }),
        decreases children@.len() - cursor,
    {
        let head = &children[cursor];
        let ghost hm = head.model();
        proof {
            assert(cs[cursor as int] == hm);
            assert(hm.children =~= node_models(head.children@));
        }
        let variant = if head.is_identifier() {
            let v = EnumVariant { name: string_of(head.text.as_str()), fields: Vec::new() };
            assert(v.model().fields =~= Seq::<NodeModel>::empty());
            v
        } else if head.is_record() && head.children.len() > 0 && head.children[0].is_identifier() {
            let name = string_of(head.children[0].text.as_str());
            let fields = duplicate_nodes(head.children.as_slice(), 1);
            proof {
                assert(hm.children[0] == head.children@[0].model());
                assert(node_models(head.children@.subrange(1, head.children@.len() as int))
                    =~= hm.children.skip(1));
            }
            EnumVariant { name, fields }
        } else {
            return Err(SchemaError::MalformedOperation);
        };
        let ghost old_variants = variants@;
        variants.push(variant);
        proof {
            assert(variant_models(variants@) =~= variant_models(old_variants).push(variant.model()));
            match enum_variants_spec(cs, cursor + 1) {
                Ok(rest) => {
                    assert(variant_models(old_variants) + (seq![variant.model()] + rest)
                        =~= variant_models(variants@) + rest);
                },
                Err(_) => {},
            }
        }
        cursor = cursor + 1;
    }
    assert(variant_models(variants@) + Seq::<VariantModel>::empty() =~= variant_models(variants@));
    Ok(variants)
}

fn read_operations(children: &Vec<Node>) -> (r: Result<Vec<OperationEntry>, SchemaError>)
    ensures
        match r {
            Ok(os) => operations_spec(node_models(children@), 0) == Ok::<
                Seq<OperationModel>,
                SchemaError,
            >(operation_models(os@)),
            Err(e) => operations_spec(node_models(children@), 0) == Err::<
                Seq<OperationModel>,
                SchemaError,
            >(e),
        },
{
    let ghost cs = node_models(children@);
    let mut entries: Vec<OperationEntry> = Vec::new();
    let mut i: usize = 0;
    proof {
        match operations_spec(cs, 0) {
            Ok(rest) => {
                assert(operation_models(entries@) + rest =~= rest);
            },
            Err(_) => {},
        }
    }
    while i < children.len()
        invariant
            cs == node_models(children@),
            0 <= i <= children@.len(),
            operations_spec(cs, 0) == (match operations_spec(cs, i as int) {
                Ok(rest) => Ok(operation_models(entries@) + rest),
                Err(e) => Err(e),
            }),
        decreases children@.len() - i,
    {
        let node = &children[i];
        let ghost nm = node.model();
        proof {
            assert(cs[i as int] == nm);
            assert(nm.children =~= node_models(node.children@));
        }
        if !node.is_record() || node.children.len() == 0 {
            return Err(SchemaError::MalformedOperation);
        }
        let name = match identifier_text(&node.children[0]) {
            Some(name) => name,
            None => {
                assert(nm.children[0] == node.children@[0].model());
                return Err(SchemaError::MalformedOperation);
            },
        };
        let payload = duplicate_nodes(node.children.as_slice(), 1);
        let entry = OperationEntry { name, payload };
        proof {
            assert(nm.children[0] == node.children@[0].model());
            assert(node_models(node.children@.subrange(1, node.children@.len() as int))
                =~= nm.children.skip(1));
        }
        let ghost old_entries = entries@;
        entries.push(entry);
        proof {
            assert(operation_models(entries@) =~= operation_models(old_entries).push(entry.model()));
            match operations_spec(cs, i + 1) {
                Ok(rest) => {
                    assert(operation_models(old_entries) + (seq![entry.model()] + rest)
                        =~= operation_models(entries@) + rest);
                },
                Err(_) => {},
            }
        }
        i = i + 1;
    }
    assert(operation_models(entries@) + Seq::<OperationModel>::empty() =~= operation_models(
        entries@,
    ));
    Ok(entries)
}

} // verus!
