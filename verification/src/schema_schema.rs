//! The schema-schema: the built-in macros that read a `.schema` file's
//! implied root struct. Its five positional fields are the imports map,
//! the input header vector, the input extras vector, the namespace map
//! and the output vector; each built-in macro checks the shape of its
//! field and lowers it to an assembled node.
use vstd::prelude::*;
use vstd::utf8::*;
use vstd::string::*;
use crate::block_query::{
    BlockKind, Classification, SymbolKind, classification_spec, qualifies_as_camel_spec,
    qualifies_as_pascal_spec,
};
use crate::blocks::{Block, BlockModel, DelimiterKind, block_models, parse_blocks_spec, BlockParser};
use crate::kernel::{kernel_message_spec, Kernel, KernelError, Node, node_models, parse_sequence_spec};
use crate::schema::{AssembledModel, AssembledSchema, SchemaError, ThreePartSchema, read_assembled_spec};
use crate::text::{decimal_spec, decimal_text, push_char, str_equal, string_of};

verus! {

broadcast use vstd::utf8::group_utf8_lib;

/// What can go wrong applying a macro.
#[derive(Debug, Clone, PartialEq, Eq)]
pub enum MacroError {
    /// The block did not satisfy the macro's shape.
    ShapeMismatch { macro_name: String, reason: String },
    /// A domain-level failure with its explanation.
    Domain { macro_name: String, message: String },
    /// The block did not match any registered macro.
    NoMacroMatched { block_summary: String },
}

/// The human-readable text of a macro error.
pub open spec fn macro_message_spec(e: MacroError) -> Seq<char> {
    match e {
        MacroError::ShapeMismatch { macro_name, reason } => "macro `"@ + macro_name@
            + "` shape mismatch: "@ + reason@,
        MacroError::Domain { macro_name, message } => "macro `"@ + macro_name@ + "`: "@
            + message@,
        MacroError::NoMacroMatched { block_summary } => "no macro matched for block: "@
            + block_summary@,
    }
}

impl MacroError {
    /// The human-readable text of this error.
    pub fn message(&self) -> (r: String)
        ensures
            r@ == macro_message_spec(*self),
    {
        match self {
            MacroError::ShapeMismatch { macro_name, reason } => {
                let mut s = concat3("macro `", macro_name.as_str(), "` shape mismatch: ");
                s.append(reason.as_str());
                s
            },
            MacroError::Domain { macro_name, message } => {
                let mut s = concat3("macro `", macro_name.as_str(), "`: ");
                s.append(message.as_str());
                s
            },
            MacroError::NoMacroMatched { block_summary } => {
                let mut s = string_of("no macro matched for block: ");
                s.append(block_summary.as_str());
                s
            },
        }
    }

    /// The macro error standing for a kernel error.
    pub fn from_kernel(error: KernelError) -> (r: Self)
        ensures
            r matches MacroError::Domain { macro_name, message } && macro_name@ == "<kernel>"@
                && message@ == kernel_message_spec(error),
    {
        MacroError::Domain { macro_name: string_of("<kernel>"), message: error.message() }
    }
}

/// The output of a macro's lowering step.
#[derive(Debug, Clone, PartialEq, Eq)]
pub enum AssembledNode {
    /// The imports section's table.
    ImportsTable { entries: Vec<ImportEntry> },
    /// The operations of an input or output vector.
    InputOutputStruct {
        input_operations: Vec<OperationDeclaration>,
        output_operations: Vec<OperationDeclaration>,
    },
    /// The user-defined types of the namespace section.
    Namespace { entries: Vec<NamespaceDeclaration> },
    /// Output of a domain-specific macro.
    Domain { tag: String, payload: String },
}

/// One import: a local name bound to an import source.
#[derive(Debug, Clone, PartialEq, Eq)]
pub struct ImportEntry {
    pub local_name: String,
    pub source: String,
}

/// One operation declaration `(Tag Payload...)`.
#[derive(Debug, Clone, PartialEq, Eq)]
pub struct OperationDeclaration {
    pub tag: String,
    pub payload_types: Vec<String>,
}

/// One user-defined type declaration of the namespace section.
#[derive(Debug, Clone, PartialEq, Eq)]
pub struct NamespaceDeclaration {
    pub name: String,
    pub body_source: String,
}

/// Declarations in insertion order, resolved by name.
#[derive(Debug, Clone)]
pub struct NamespaceTable {
    entries: Vec<NamespaceDeclaration>,
}

/// Index of the first declaration named `name`, if any.
pub open spec fn first_declaration_named(ds: Seq<NamespaceDeclaration>, name: Seq<char>) -> Option<
    int,
>
    decreases ds.len(),
{
    if ds.len() == 0 {
        None
    } else {
        match first_declaration_named(ds.drop_last(), name) {
            Some(i) => Some(i),
            None => if ds.last().name@ == name {
                Some(ds.len() - 1)
            } else {
                None
            },
        }
    }
}

proof fn lemma_first_declaration_named(ds: Seq<NamespaceDeclaration>, name: Seq<char>, i: int)
    requires
        0 <= i <= ds.len(),
        forall|j: int| 0 <= j < i ==> ds[j].name@ != name,
    ensures
        first_declaration_named(ds.take(i), name) is None,
        i < ds.len() && ds[i].name@ == name ==> first_declaration_named(ds.take(i + 1), name)
            == Some(i),
        i < ds.len() && ds[i].name@ != name ==> first_declaration_named(ds.take(i + 1), name)
            is None,
    decreases i,
{
    if i > 0 {
        lemma_first_declaration_named(ds, name, i - 1);
        assert(ds.take(i).drop_last() =~= ds.take(i - 1));
    }
    if i < ds.len() {
        assert(ds.take(i + 1).drop_last() =~= ds.take(i));
    }
}

impl NamespaceTable {
    pub closed spec fn declarations(&self) -> Seq<NamespaceDeclaration> {
        self.entries@
    }

    /// An empty table.
    pub fn new() -> (r: Self)
        ensures
            r.declarations() == Seq::<NamespaceDeclaration>::empty(),
    {
        NamespaceTable { entries: Vec::new() }
    }

    /// Append a declaration.
    pub fn insert(&mut self, declaration: NamespaceDeclaration)
        ensures
            final(self).declarations() == old(self).declarations().push(declaration),
    {
        self.entries.push(declaration);
    }

    /// The declarations, in insertion order.
    pub fn entries(&self) -> (r: &[NamespaceDeclaration])
        ensures
            r@ == self.declarations(),
    {
        self.entries.as_slice()
    }

    /// The first declaration named `name`.
    pub fn resolve(&self, name: &str) -> (r: Option<&NamespaceDeclaration>)
        ensures
            match first_declaration_named(self.declarations(), name@) {
                Some(i) => r == Some(&self.declarations()[i]),
                None => r is None,
            },
    {
        let mut i: usize = 0;
        while i < self.entries.len()
            invariant
                0 <= i <= self.entries@.len(),
                forall|j: int| 0 <= j < i ==> (#[trigger] self.entries@[j]).name@ != name@,
            decreases self.entries@.len() - i,
        {
            if str_equal(self.entries[i].name.as_str(), name) {
                proof {
                    lemma_first_declaration_named(self.entries@, name@, i as int);
                    lemma_first_declaration_prefix(self.entries@, name@, i as int + 1);
                }
                return Some(&self.entries[i]);
            }
            i = i + 1;
        }
        proof {
            lemma_first_declaration_named(self.entries@, name@, i as int);
            assert(self.entries@.take(i as int) =~= self.entries@);
        }
        None
    }
}

/// Once a prefix has a first match, every longer prefix has the same one.
proof fn lemma_first_declaration_prefix(ds: Seq<NamespaceDeclaration>, name: Seq<char>, n: int)
    requires
        0 <= n <= ds.len(),
        first_declaration_named(ds.take(n), name) is Some,
    ensures
        first_declaration_named(ds, name) == first_declaration_named(ds.take(n), name),
    decreases ds.len() - n,
{
    if n < ds.len() {
        assert(ds.take(n + 1).drop_last() =~= ds.take(n));
        lemma_first_declaration_prefix(ds, name, n + 1);
    } else {
        assert(ds.take(n) =~= ds);
    }
}

impl Default for NamespaceTable {
    fn default() -> (r: Self)
        ensures
            r.declarations() == Seq::<NamespaceDeclaration>::empty(),
    {
        NamespaceTable::new()
    }
}

// ── Shape predicates ────────────────────────────────────────────────

/// A brace block holding alternating PascalCase keys and parenthesis
/// values (or nothing at all).
pub open spec fn imports_map_spec(m: BlockModel) -> bool {
    let ro = m.root_objects;
    &&& m.delimiter == DelimiterKind::Brace
    &&& ro.len() == 0 || (ro.len() % 2 == 0 && forall|k: int|
        0 <= k < ro.len() / 2 ==> qualifies_as_pascal_spec(#[trigger] ro[2 * k])
            && ro[2 * k + 1].delimiter == DelimiterKind::Parenthesis)
}

/// A square-bracket block whose items are all parenthesis records headed
/// by a PascalCase tag.
pub open spec fn operation_vector_spec(m: BlockModel) -> bool {
    let ro = m.root_objects;
    &&& m.delimiter == DelimiterKind::SquareBracket
    &&& forall|i: int|
        0 <= i < ro.len() ==> (#[trigger] ro[i]).delimiter == DelimiterKind::Parenthesis
            && ro[i].root_objects.len() > 0 && qualifies_as_pascal_spec(ro[i].root_objects[0])
}

/// A brace block whose keys are PascalCase or camelCase symbols (or
/// nothing at all); the values are not constrained.
pub open spec fn namespace_map_spec(m: BlockModel) -> bool {
    let ro = m.root_objects;
    &&& m.delimiter == DelimiterKind::Brace
    &&& ro.len() == 0 || (ro.len() % 2 == 0 && forall|k: int|
        0 <= k < ro.len() / 2 ==> qualifies_as_pascal_spec(#[trigger] ro[2 * k])
            || qualifies_as_camel_spec(ro[2 * k]))
}

proof fn lemma_root_models(b: &Block)
    ensures
        b.model().root_objects.len() == b.root_objects@.len(),
        forall|i: int|
            0 <= i < b.root_objects@.len() ==> b.model().root_objects[i]
                == (#[trigger] b.root_objects@[i]).model(),
{
}

// ── Lowering helpers ────────────────────────────────────────────────

/// The text a namespace value is summarised by.
pub open spec fn body_summary_spec(value: Block) -> Seq<char> {
    let count = decimal_spec(value.root_objects@.len());
    match value.delimiter {
        DelimiterKind::Parenthesis => "(parenthesis "@ + count + " elements)"@,
        DelimiterKind::SquareBracket => "(square-bracket "@ + count + " elements)"@,
        DelimiterKind::Brace => "(brace "@ + count + " elements)"@,
        DelimiterKind::Leaf => match classification_spec(value.model()) {
            Some(Classification::QualifiedSymbol(_)) => "(alias `"@ + value.leaf_text@ + "`)"@,
            _ => "(leaf)"@,
        },
    }
}

/// The label of one operation payload: a PascalCase symbol's own text,
/// or a parenthesis record's root-object texts joined by spaces in
/// parentheses.
pub open spec fn payload_label_spec(b: Block) -> Option<Seq<char>> {
    if classification_spec(b.model()) == Some(Classification::QualifiedSymbol(
        SymbolKind::PascalCase,
    )) {
        Some(b.leaf_text@)
    } else if b.delimiter == DelimiterKind::Parenthesis {
        Some("("@ + joined_leaf_texts(b.root_objects@) + ")"@)
    } else {
        None
    }
}

/// The leaf texts of blocks, separated by single spaces.
pub open spec fn joined_leaf_texts(bs: Seq<Block>) -> Seq<char>
    decreases bs.len(),
{
    if bs.len() == 0 {
        Seq::empty()
    } else if bs.len() == 1 {
        bs[0].leaf_text@
    } else {
        joined_leaf_texts(bs.drop_last()) + " "@ + bs.last().leaf_text@
    }
}

/// The labels of the payloads `ps`, skipping those without one.
pub open spec fn payload_labels(ps: Seq<Block>) -> Seq<Seq<char>>
    decreases ps.len(),
{
    if ps.len() == 0 {
        Seq::empty()
    } else {
        let prev = payload_labels(ps.drop_last());
        match payload_label_spec(ps.last()) {
            Some(label) => prev.push(label),
            None => prev,
        }
    }
}

pub open spec fn string_views(v: Seq<String>) -> Seq<Seq<char>> {
    Seq::new(v.len(), |i: int| v[i]@)
}

fn copy_text(s: &String) -> (r: String)
    ensures
        r@ == s@,
{
    s.clone()
}

fn concat3(a: &str, b: &str, c: &str) -> (r: String)
    ensures
        r@ == a@ + b@ + c@,
{
    let mut s = string_of(a);
    s.append(b);
    s.append(c);
    s
}

/// What an imports map lowers to: one entry per key, named by the key's
/// text, whose source is the decimal count of the value's root objects.
pub open spec fn imports_lowered(block: Block, node: AssembledNode) -> bool {
    node matches AssembledNode::ImportsTable { entries } && entries@.len()
        == block.root_objects@.len() / 2 && forall|k: int|
        0 <= k < entries@.len() ==> (#[trigger] entries@[k]).local_name@
            == block.root_objects@[2 * k].leaf_text@ && entries@[k].source@ == decimal_spec(
            block.root_objects@[2 * k + 1].root_objects@.len(),
        )
}

/// What an operation vector lowers to: one declaration per record,
/// tagged by its first root object's text, with the labels of the rest.
pub open spec fn operations_lowered(block: Block, node: AssembledNode) -> bool {
    node matches AssembledNode::InputOutputStruct { input_operations, output_operations }
        && output_operations@.len() == 0 && input_operations@.len() == block.root_objects@.len()
        && forall|i: int|
        0 <= i < input_operations@.len() ==> (#[trigger] input_operations@[i]).tag@
            == block.root_objects@[i].root_objects@[0].leaf_text@ && string_views(
            input_operations@[i].payload_types@,
        ) == payload_labels(block.root_objects@[i].root_objects@.drop_first())
}

/// What a namespace map lowers to: one declaration per key, named by the
/// key's text, whose body is summarised by the value's shape.
pub open spec fn namespace_lowered(block: Block, node: AssembledNode) -> bool {
    node matches AssembledNode::Namespace { entries } && entries@.len()
        == block.root_objects@.len() / 2 && forall|k: int|
        0 <= k < entries@.len() ==> (#[trigger] entries@[k]).name@
            == block.root_objects@[2 * k].leaf_text@ && entries@[k].body_source@
            == body_summary_spec(block.root_objects@[2 * k + 1])
}

/// The imports/exports section macro.
pub struct ImportsSectionMacro;

impl ImportsSectionMacro {
    /// Whether a block looks like an imports map.
    pub fn looks_like_imports_map(block: &Block) -> (r: bool)
        ensures
            r == imports_map_spec(block.model()),
    {
        proof {
            lemma_root_models(block);
        }
        let ghost m = block.model();
        if !block.is_brace() {
            return false;
        }
        let count = block.holds_root_objects();
        if count == 0 {
            return true;
        }
        if count % 2 != 0 {
            return false;
        }
        let mut index: usize = 0;
        while index < count / 2
            invariant
                m == block.model(),
                m.delimiter == DelimiterKind::Brace,
                count == block.root_objects@.len(),
                count % 2 == 0,
                count > 0,
                0 <= index <= count / 2,
                m.root_objects.len() == count,
                forall|i: int|
                    0 <= i < count ==> m.root_objects[i] == (#[trigger] block.root_objects@[i]).model(),
                forall|k: int|
                    0 <= k < index ==> qualifies_as_pascal_spec(#[trigger] m.root_objects[2 * k])
                        && m.root_objects[2 * k + 1].delimiter == DelimiterKind::Parenthesis,
            decreases count / 2 - index,
        {
            let key_at = index * 2;
            let value_at = key_at + 1;
            let key = match block.root_object_at(key_at) {
                Some(candidate) => candidate,
                None => return false,
            };
            let value = match block.root_object_at(value_at) {
                Some(candidate) => candidate,
                None => return false,
            };
            if !key.qualifies_as_pascal_case_symbol() {
                assert(!qualifies_as_pascal_spec(m.root_objects[2 * index as int]));
                return false;
            }
            if !value.is_parenthesis() {
                assert(m.root_objects[2 * index as int + 1].delimiter != DelimiterKind::Parenthesis);
                return false;
            }
            index = index + 1;
        }
        true
    }

    /// The macro's registered name.
    pub fn name(&self) -> (r: &'static str)
        ensures
            r@ == "imports_section"@,
    {
        "imports_section"
    }

    /// Whether this macro handles the block.
    pub fn matches_shape(&self, block: &Block) -> (r: bool)
        ensures
            r == imports_map_spec(block.model()),
    {
        Self::looks_like_imports_map(block)
    }

    /// Lower an imports map: one entry per key, named by the key's text,
    /// whose source is the decimal count of the value's root objects.
    pub fn lower(&self, block: &Block) -> (r: Result<AssembledNode, MacroError>)
        ensures
            r matches Ok(node) && imports_lowered(*block, node),
    {
        let count = block.holds_root_objects();
        let mut entries: Vec<ImportEntry> = Vec::new();
        let mut index: usize = 0;
        while index < count / 2
            invariant
                count == block.root_objects@.len(),
                0 <= index <= count / 2,
                entries@.len() == index,
                forall|k: int|
                    0 <= k < index ==> (#[trigger] entries@[k]).local_name@
                        == block.root_objects@[2 * k].leaf_text@ && entries@[k].source@
                        == decimal_spec(block.root_objects@[2 * k + 1].root_objects@.len()),
            decreases count / 2 - index,
        {
            let key = &block.root_objects[index * 2];
            let value = &block.root_objects[index * 2 + 1];
            entries.push(
                ImportEntry {
                    local_name: copy_text(&key.leaf_text),
                    source: decimal_text(value.root_objects.len()),
                },
            );
            index = index + 1;
        }
        Ok(AssembledNode::ImportsTable { entries })
    }
}

/// The input/output struct macro: a vector of operation records.
pub struct InputOutputStructMacro;

impl InputOutputStructMacro {
    /// Whether the block looks like a sequence of `(Tag Payload...)`
    /// operation records.
    pub fn looks_like_operation_vector(block: &Block) -> (r: bool)
        ensures
            r == operation_vector_spec(block.model()),
    {
        proof {
            lemma_root_models(block);
        }
        let ghost m = block.model();
        if !block.is_square_bracket() {
            return false;
        }
        let count = block.holds_root_objects();
        if count == 0 {
            return true;
        }
        let mut index: usize = 0;
        while index < count
            invariant
                m == block.model(),
                m.delimiter == DelimiterKind::SquareBracket,
                count == block.root_objects@.len(),
                0 <= index <= count,
                m.root_objects.len() == count,
                forall|i: int|
                    0 <= i < count ==> m.root_objects[i] == (#[trigger] block.root_objects@[i]).model(),
                forall|i: int|
                    0 <= i < index ==> (#[trigger] m.root_objects[i]).delimiter
                        == DelimiterKind::Parenthesis && m.root_objects[i].root_objects.len() > 0
                        && qualifies_as_pascal_spec(m.root_objects[i].root_objects[0]),
            decreases count - index,
        {
            let item = match block.root_object_at(index) {
                Some(item) => item,
                None => return false,
            };
            proof {
                lemma_root_models(item);
            }
            if !item.is_parenthesis() {
                return false;
            }
            let tag = match item.root_object_at(0) {
                Some(tag) => tag,
                None => return false,
            };
            if !tag.qualifies_as_pascal_case_symbol() {
                return false;
            }
            index = index + 1;
        }
        true
    }

    /// The macro's registered name.
    pub fn name(&self) -> (r: &'static str)
        ensures
            r@ == "input_output_struct"@,
    {
        "input_output_struct"
    }

    /// Whether this macro handles the block.
    pub fn matches_shape(&self, block: &Block) -> (r: bool)
        ensures
            r == operation_vector_spec(block.model()),
    {
        Self::looks_like_operation_vector(block)
    }

    /// The label of one payload block, if it has one.
    fn payload_label_for(block: &Block) -> (r: Option<String>)
        ensures
            match payload_label_spec(*block) {
                Some(label) => r matches Some(s) && s@ == label,
                None => r is None,
            },
    {
        if let Some(Classification::QualifiedSymbol(SymbolKind::PascalCase)) = block.classification() {
            return Some(copy_text(&block.leaf_text));
        }
        if block.is_parenthesis() {
            let mut buffer = string_of("(");
            let inner_count = block.holds_root_objects();
            let mut index: usize = 0;
            while index < inner_count
                invariant
                    inner_count == block.root_objects@.len(),
                    0 <= index <= inner_count,
                    buffer@ == "("@ + joined_leaf_texts(block.root_objects@.take(index as int)),
                decreases inner_count - index,
            {
                let ghost before = buffer@;
                if index > 0 {
                    push_char(&mut buffer, ' ');
                }
                buffer.append(block.root_objects[index].leaf_text.as_str());
                proof {
                    let bs = block.root_objects@.take(index as int + 1);
                    assert(bs.drop_last() =~= block.root_objects@.take(index as int));
                    if index == 0 {
                        assert(joined_leaf_texts(block.root_objects@.take(0)) =~= Seq::<
                            char,
                        >::empty());
                        assert(buffer@ =~= "("@ + joined_leaf_texts(bs));
                    } else {
                        reveal_strlit(" ");
                        assert(" "@ =~= seq![' ']);
                        assert(buffer@ =~= "("@ + joined_leaf_texts(bs));
                    }
                }
                index = index + 1;
            }
            assert(block.root_objects@.take(inner_count as int) =~= block.root_objects@);
            buffer.append(")");
            return Some(buffer);
        }
        None
    }

    /// Lower an operation vector: one declaration per record, tagged by
    /// its first root object's text, with the labels of the rest.
    pub fn lower(&self, block: &Block) -> (r: Result<AssembledNode, MacroError>)
        requires
            operation_vector_spec(block.model()),
        ensures
            r matches Ok(node) && operations_lowered(*block, node),
    {
        proof {
            lemma_root_models(block);
        }
        let mut operations: Vec<OperationDeclaration> = Vec::new();
        let count = block.holds_root_objects();
        let mut index: usize = 0;
        while index < count
            invariant
                operation_vector_spec(block.model()),
                count == block.root_objects@.len(),
                block.model().root_objects.len() == count,
                forall|i: int|
                    0 <= i < count ==> block.model().root_objects[i]
                        == (#[trigger] block.root_objects@[i]).model(),
                0 <= index <= count,
                operations@.len() == index,
                forall|i: int|
                    0 <= i < index ==> (#[trigger] operations@[i]).tag@
                        == block.root_objects@[i].root_objects@[0].leaf_text@ && string_views(
                        operations@[i].payload_types@,
                    ) == payload_labels(block.root_objects@[i].root_objects@.drop_first()),
            decreases count - index,
        {
            let item = &block.root_objects[index];
            proof {
                lemma_root_models(item);
                assert(block.model().root_objects[index as int] == item.model());
            }
            let tag = &item.root_objects[0];
            let mut payload_types: Vec<String> = Vec::new();
            let inner = item.holds_root_objects();
            let mut payload_index: usize = 1;
            while payload_index < inner
                invariant
                    inner == item.root_objects@.len(),
                    inner > 0,
                    1 <= payload_index <= inner,
                    string_views(payload_types@) == payload_labels(
                        item.root_objects@.subrange(1, payload_index as int),
                    ),
                decreases inner - payload_index,
            {
                let payload = &item.root_objects[payload_index];
                let label = Self::payload_label_for(payload);
                let ghost before = payload_types@;
                let ghost ps = item.root_objects@.subrange(1, payload_index as int + 1);
                assert(ps.drop_last() =~= item.root_objects@.subrange(1, payload_index as int));
                assert(ps.last() == *payload);
                if let Some(text) = label {
                    payload_types.push(text);
                    assert(string_views(payload_types@) =~= string_views(before).push(text@));
                }
                payload_index = payload_index + 1;
            }
            assert(item.root_objects@.subrange(1, inner as int) =~= item.root_objects@.drop_first());
            operations.push(OperationDeclaration { tag: copy_text(&tag.leaf_text), payload_types });
            index = index + 1;
        }
        Ok(
            AssembledNode::InputOutputStruct {
                input_operations: operations,
                output_operations: Vec::new(),
            },
        )
    }
}

/// The namespace section macro: a brace block of type declarations.
pub struct NamespaceSectionMacro;

impl NamespaceSectionMacro {
    /// Whether the block looks like a namespace map.
    pub fn looks_like_namespace_map(block: &Block) -> (r: bool)
        ensures
            r == namespace_map_spec(block.model()),
    {
        proof {
            lemma_root_models(block);
        }
        let ghost m = block.model();
        if !block.is_brace() {
            return false;
        }
        let count = block.holds_root_objects();
        if count == 0 {
            return true;
        }
        if count % 2 != 0 {
            return false;
        }
        let mut index: usize = 0;
        while index < count / 2
            invariant
                m == block.model(),
                m.delimiter == DelimiterKind::Brace,
                count == block.root_objects@.len(),
                count % 2 == 0,
                count > 0,
                0 <= index <= count / 2,
                m.root_objects.len() == count,
                forall|i: int|
                    0 <= i < count ==> m.root_objects[i] == (#[trigger] block.root_objects@[i]).model(),
                forall|k: int|
                    0 <= k < index ==> qualifies_as_pascal_spec(#[trigger] m.root_objects[2 * k])
                        || qualifies_as_camel_spec(m.root_objects[2 * k]),
            decreases count / 2 - index,
        {
            let key = match block.root_object_at(index * 2) {
                Some(item) => item,
                None => return false,
            };
            if !(key.qualifies_as_pascal_case_symbol() || key.qualifies_as_camel_case_symbol()) {
                assert(!(qualifies_as_pascal_spec(m.root_objects[2 * index as int])
                    || qualifies_as_camel_spec(m.root_objects[2 * index as int])));
                return false;
            }
            index = index + 1;
        }
        true
    }

    /// The macro's registered name.
    pub fn name(&self) -> (r: &'static str)
        ensures
            r@ == "namespace_section"@,
    {
        "namespace_section"
    }

    /// Whether this macro handles the block.
    pub fn matches_shape(&self, block: &Block) -> (r: bool)
        ensures
            r == namespace_map_spec(block.model()),
    {
        Self::looks_like_namespace_map(block)
    }

    fn body_summary(value: &Block) -> (r: String)
        ensures
            r@ == body_summary_spec(*value),
    {
        let count = decimal_text(value.holds_root_objects());
        match value.delimiter_block_kind() {
            Some(BlockKind::Parenthesis) => concat3("(parenthesis ", count.as_str(), " elements)"),
            Some(BlockKind::SquareBracket) => concat3(
                "(square-bracket ",
                count.as_str(),
                " elements)",
            ),
            Some(BlockKind::Brace) => concat3("(brace ", count.as_str(), " elements)"),
            None => match value.classification() {
                Some(Classification::QualifiedSymbol(_)) => concat3(
                    "(alias `",
                    value.leaf_text.as_str(),
                    "`)",
                ),
                _ => string_of("(leaf)"),
            },
        }
    }

    /// Lower a namespace map: one declaration per key, named by the key's
    /// text, whose body is summarised by the value's shape.
    pub fn lower(&self, block: &Block) -> (r: Result<AssembledNode, MacroError>)
        ensures
            r matches Ok(node) && namespace_lowered(*block, node),
    {
        let count = block.holds_root_objects();
        let mut entries: Vec<NamespaceDeclaration> = Vec::new();
        let mut index: usize = 0;
        while index < count / 2
            invariant
                count == block.root_objects@.len(),
                0 <= index <= count / 2,
                entries@.len() == index,
                forall|k: int|
                    0 <= k < index ==> (#[trigger] entries@[k]).name@
                        == block.root_objects@[2 * k].leaf_text@ && entries@[k].body_source@
                        == body_summary_spec(block.root_objects@[2 * k + 1]),
            decreases count / 2 - index,
        {
            let key = &block.root_objects[index * 2];
            let value = &block.root_objects[index * 2 + 1];
            entries.push(
                NamespaceDeclaration {
                    name: copy_text(&key.leaf_text),
                    body_source: Self::body_summary(value),
                },
            );
            index = index + 1;
        }
        Ok(AssembledNode::Namespace { entries })
    }
}

/// One of the schema-schema's built-in macros.
pub enum BuiltinMacro {
    ImportsSection(ImportsSectionMacro),
    InputOutputStruct(InputOutputStructMacro),
    NamespaceSection(NamespaceSectionMacro),
}

pub open spec fn builtin_name(m: BuiltinMacro) -> Seq<char> {
    match m {
        BuiltinMacro::ImportsSection(_) => "imports_section"@,
        BuiltinMacro::InputOutputStruct(_) => "input_output_struct"@,
        BuiltinMacro::NamespaceSection(_) => "namespace_section"@,
    }
}

pub open spec fn builtin_matches(m: BuiltinMacro, b: BlockModel) -> bool {
    match m {
        BuiltinMacro::ImportsSection(_) => imports_map_spec(b),
        BuiltinMacro::InputOutputStruct(_) => operation_vector_spec(b),
        BuiltinMacro::NamespaceSection(_) => namespace_map_spec(b),
    }
}

pub open spec fn builtin_lowered(m: BuiltinMacro, b: Block, node: AssembledNode) -> bool {
    match m {
        BuiltinMacro::ImportsSection(_) => imports_lowered(b, node),
        BuiltinMacro::InputOutputStruct(_) => operations_lowered(b, node),
        BuiltinMacro::NamespaceSection(_) => namespace_lowered(b, node),
    }
}

impl BuiltinMacro {
    pub fn name(&self) -> (r: &'static str)
        ensures
            r@ == builtin_name(*self),
    {
        match self {
            BuiltinMacro::ImportsSection(m) => m.name(),
            BuiltinMacro::InputOutputStruct(m) => m.name(),
            BuiltinMacro::NamespaceSection(m) => m.name(),
        }
    }

    pub fn matches_shape(&self, block: &Block) -> (r: bool)
        ensures
            r == builtin_matches(*self, block.model()),
    {
        match self {
            BuiltinMacro::ImportsSection(m) => m.matches_shape(block),
            BuiltinMacro::InputOutputStruct(m) => m.matches_shape(block),
            BuiltinMacro::NamespaceSection(m) => m.matches_shape(block),
        }
    }

    /// Lower a block through this macro. The imports and namespace
    /// sections take any block; the input/output struct needs its shape.
    pub fn lower(&self, block: &Block) -> (r: Result<AssembledNode, MacroError>)
        requires
            *self is InputOutputStruct ==> builtin_matches(*self, block.model()),
        ensures
            r matches Ok(node) && builtin_lowered(*self, *block, node),
    {
        match self {
            BuiltinMacro::ImportsSection(m) => m.lower(block),
            BuiltinMacro::InputOutputStruct(m) => m.lower(block),
            BuiltinMacro::NamespaceSection(m) => m.lower(block),
        }
    }
}

/// The built-in macros in registration order.
pub open spec fn default_builtins(ms: Seq<BuiltinMacro>) -> bool {
    &&& ms.len() == 3
    &&& ms[0] is ImportsSection
    &&& ms[1] is InputOutputStruct
    &&& ms[2] is NamespaceSection
}

/// The macro that reads the root struct's field at `position`: the
/// imports map first, the namespace map fourth, operation vectors in the
/// input header, input extras and output fields; none past the fifth.
pub open spec fn macro_for_position(position: int) -> Option<Seq<char>> {
    if position == 0 {
        Some("imports_section"@)
    } else if position == 1 || position == 2 || position == 4 {
        Some("input_output_struct"@)
    } else if position == 3 {
        Some("namespace_section"@)
    } else {
        None
    }
}

pub open spec fn builtin_named(ms: Seq<BuiltinMacro>, name: Seq<char>) -> Option<int>
    decreases ms.len(),
{
    if ms.len() == 0 {
        None
    } else {
        match builtin_named(ms.drop_last(), name) {
            Some(i) => Some(i),
            None => if builtin_name(ms.last()) == name {
                Some(ms.len() - 1)
            } else {
                None
            },
        }
    }
}

pub open spec fn shape_mismatch_reason(position: int, name: Seq<char>) -> Seq<char> {
    "block at position "@ + decimal_spec(position as nat) + " did not match `"@ + name
        + "` shape"@
}

/// The default schema-schema: the built-in macros that read the five
/// positional fields of a `.schema` file's implied root struct.
pub struct SchemaSchema {
    builtin_macros: Vec<BuiltinMacro>,
}

impl SchemaSchema {
    pub closed spec fn macros(&self) -> Seq<BuiltinMacro> {
        self.builtin_macros@
    }

    pub open spec fn wf(&self) -> bool {
        default_builtins(self.macros())
    }

    /// The schema-schema with its three built-in macros.
    pub fn default() -> (r: Self)
        ensures
            r.wf(),
    {
        SchemaSchema {
            builtin_macros: vec![
                BuiltinMacro::ImportsSection(ImportsSectionMacro),
                BuiltinMacro::InputOutputStruct(InputOutputStructMacro),
                BuiltinMacro::NamespaceSection(NamespaceSectionMacro),
            ],
        }
    }

    pub fn builtin_macros(&self) -> (r: &[BuiltinMacro])
        ensures
            r@ == self.macros(),
    {
        self.builtin_macros.as_slice()
    }

    /// The first built-in macro whose shape the block matches.
    pub fn dispatch_for(&self, block: &Block) -> (r: Option<&BuiltinMacro>)
        ensures
            match r {
                Some(m) => exists|i: int|
                    0 <= i < self.macros().len() && self.macros()[i] == *m && builtin_matches(
                        *m,
                        block.model(),
                    ) && forall|j: int|
                        0 <= j < i ==> !builtin_matches(#[trigger] self.macros()[j], block.model()),
                None => forall|j: int|
                    0 <= j < self.macros().len() ==> !builtin_matches(
                        #[trigger] self.macros()[j],
                        block.model(),
                    ),
            },
    {
        let mut i: usize = 0;
        while i < self.builtin_macros.len()
            invariant
                0 <= i <= self.macros().len(),
                forall|j: int|
                    0 <= j < i ==> !builtin_matches(#[trigger] self.macros()[j], block.model()),
            decreases self.macros().len() - i,
        {
            if self.builtin_macros[i].matches_shape(block) {
                return Some(&self.builtin_macros[i]);
            }
            i = i + 1;
        }
        None
    }

    /// The built-in macro registered under `name`.
    pub fn lookup_macro(&self, name: &str) -> (r: Option<&BuiltinMacro>)
        ensures
            match builtin_named(self.macros(), name@) {
                Some(i) => r == Some(&self.macros()[i]),
                None => r is None,
            },
    {
        let ghost ms = self.builtin_macros@;
        let mut i: usize = 0;
        while i < self.builtin_macros.len()
            invariant
                ms == self.builtin_macros@,
                0 <= i <= ms.len(),
                builtin_named(ms.take(i as int), name@) is None,
            decreases ms.len() - i,
        {
            proof {
                assert(ms.take(i as int + 1).drop_last() =~= ms.take(i as int));
                assert(ms.take(i as int + 1).last() == ms[i as int]);
            }
            if crate::text::str_equal(self.builtin_macros[i].name(), name) {
                proof {
                    lemma_builtin_named_extend(ms, name@, i as int + 1);
                }
                return Some(&self.builtin_macros[i]);
            }
            i = i + 1;
        }
        proof {
            assert(ms.take(i as int) =~= ms);
        }
        None
    }

    /// Read a `.schema` text whose five blocks are the positional fields
    /// of the implied root struct.
    pub fn parse_schema_file(&self, source: &str) -> (r: Result<AssembledSchema, SchemaError>)
        ensures
            match r {
                Ok(s) => read_assembled_spec(source.spec_bytes()) == Ok::<
                    AssembledModel,
                    SchemaError,
                >(s.model()),
                Err(e) => read_assembled_spec(source.spec_bytes()) == Err::<
                    AssembledModel,
                    SchemaError,
                >(e),
            },
    {
        let three_part = match ThreePartSchema::read(source) {
            Ok(t) => t,
            Err(e) => return Err(e),
        };
        AssembledSchema::from_three_part(&three_part)
    }

    /// Lower the blocks of a `.schema` text by positional dispatch: the
    /// macro chosen by each of the first five positions must match its
    /// block's shape and lowers it; blocks past the fifth are ignored.
    pub fn lower_via_macros(&self, source: &str) -> (r: Result<Vec<AssembledNode>, MacroError>)
        requires
            self.wf(),
        ensures
            match parse_blocks_spec(source.spec_bytes()) {
                Err(e) => r matches Err(MacroError::Domain { macro_name, message })
                    && macro_name@ == "<parse>"@ && message@ == kernel_message_spec(e),
                Ok(models) => match r {
                    Ok(nodes) => {
                        &&& forall|p: int|
                            0 <= p < models.len() && macro_for_position(p) is Some
                                ==> builtin_matches(
                                self.macros()[position_index(p)],
                                #[trigger] models[p],
                            )
                        &&& nodes@.len() == if models.len() < 5 {
                            models.len() as int
                        } else {
                            5
                        }
                        &&& exists|blocks: Seq<Block>|
                            block_models(blocks) == models && forall|p: int|
                                0 <= p < nodes@.len() ==> builtin_lowered(
                                    self.macros()[position_index(p)],
                                    blocks[p],
                                    #[trigger] nodes@[p],
                                )
                    },
                    Err(err) => exists|p: int|
                        0 <= p < models.len() && p < 5 && !builtin_matches(
                            self.macros()[position_index(p)],
                            models[p],
                        ) && (forall|q: int|
                            0 <= q < p ==> builtin_matches(
                                self.macros()[position_index(q)],
                                #[trigger] models[q],
                            )) && err == MacroError::ShapeMismatch {
                            macro_name: err->ShapeMismatch_macro_name,
                            reason: err->ShapeMismatch_reason,
                        } && err->ShapeMismatch_macro_name@ == macro_for_position(p)->Some_0
                            && err->ShapeMismatch_reason@ == shape_mismatch_reason(
                            p,
                            macro_for_position(p)->Some_0,
                        ),
                },
            },
    {
        let parser = BlockParser::new(source);
        let blocks = match parser.parse_blocks() {
            Ok(blocks) => blocks,
            Err(error) => {
                return Err(
                    MacroError::Domain { macro_name: string_of("<parse>"), message: error.message() },
                );
            },
        };
        let ghost models = block_models(blocks@);
        let mut outputs: Vec<AssembledNode> = Vec::new();
        let mut position: usize = 0;
        while position < blocks.len()
            invariant
                self.wf(),
                models == block_models(blocks@),
                parse_blocks_spec(source.spec_bytes()) == Ok::<Seq<BlockModel>, KernelError>(models),
                0 <= position <= blocks@.len(),
                outputs@.len() == if position < 5 {
                    position as int
                } else {
                    5
                },
                forall|q: int|
                    0 <= q < position && macro_for_position(q) is Some ==> builtin_matches(
                        self.macros()[position_index(q)],
                        #[trigger] models[q],
                    ),
                forall|q: int|
                    0 <= q < outputs@.len() ==> builtin_lowered(
                        self.macros()[position_index(q)],
                        blocks@[q],
                        #[trigger] outputs@[q],
                    ),
            decreases blocks@.len() - position,
        {
            if position >= 5 {
                position = position + 1;
                continue;
            }
            let index = if position == 0 {
                0
            } else if position == 3 {
                2
            } else {
                1
            };
            assert(index as int == position_index(position as int));
            let chosen = &self.builtin_macros[index];
            let block = &blocks[position];
            assert(models[position as int] == block.model());
            if !chosen.matches_shape(block) {
                let name = chosen.name();
                let mut reason = string_of("block at position ");
                reason.append(decimal_text(position).as_str());
                reason.append(" did not match `");
                reason.append(name);
                reason.append("` shape");
                let err = MacroError::ShapeMismatch { macro_name: string_of(name), reason };
                proof {
                    let p = position as int;
                    assert(builtin_name(self.macros()[position_index(p)]) == macro_for_position(
                        p,
                    )->Some_0);
                    assert(forall|q: int|
                        0 <= q < p ==> macro_for_position(q) is Some);
                    assert(forall|q: int|
                        0 <= q < p ==> builtin_matches(
                            self.macros()[position_index(q)],
                            #[trigger] models[q],
                        ));
                    assert(!builtin_matches(self.macros()[position_index(p)], models[p]));
                    assert(err->ShapeMismatch_macro_name@ == macro_for_position(p)->Some_0);
                    assert(err->ShapeMismatch_reason@ == shape_mismatch_reason(
                        p,
                        macro_for_position(p)->Some_0,
                    ));
                    assert(err == MacroError::ShapeMismatch {
                        macro_name: err->ShapeMismatch_macro_name,
                        reason: err->ShapeMismatch_reason,
                    });
                }
                return Err(err);
            }
            let node = match chosen.lower(block) {
                Ok(node) => node,
                Err(e) => return Err(e),
            };
            outputs.push(node);
            position = position + 1;
        }
        Ok(outputs)
    }
}

/// The index of the built-in macro that reads `position`.
pub open spec fn position_index(position: int) -> int {
    if position == 0 {
        0
    } else if position == 3 {
        2
    } else {
        1
    }
}

proof fn lemma_builtin_named_extend(ms: Seq<BuiltinMacro>, name: Seq<char>, n: int)
    requires
        0 <= n <= ms.len(),
        builtin_named(ms.take(n), name) is Some,
    ensures
        builtin_named(ms, name) == builtin_named(ms.take(n), name),
    decreases ms.len() - n,
{
    if n < ms.len() {
        assert(ms.take(n + 1).drop_last() =~= ms.take(n));
        lemma_builtin_named_extend(ms, name, n + 1);
    } else {
        assert(ms.take(n) =~= ms);
    }
}

/// Entry points from source text.
pub struct SchemaSchemaTextEntry;

impl SchemaSchemaTextEntry {
    /// Parse a string into raw kernel nodes.
    pub fn parse_raw(source: &str) -> (r: Result<Vec<Node>, KernelError>)
        ensures
            match r {
                Ok(nodes) => parse_sequence_spec(source.spec_bytes(), 0) == Ok::<
                    Seq<crate::kernel::NodeModel>,
                    KernelError,
                >(node_models(nodes@)),
                Err(e) => parse_sequence_spec(source.spec_bytes(), 0) == Err::<
                    Seq<crate::kernel::NodeModel>,
                    KernelError,
                >(e),
            },
    {
        let mut kernel = Kernel::new(source);
        kernel.parse_sequence()
    }
}

} // verus!
