//! The structural-query surface on `Block`: factual delimiter checks
//! (`is_*`), alphabet-only qualification (`qualifies_as_*`), and the
//! highest classification a block qualifies for.
use vstd::prelude::*;
use vstd::string::*;
use crate::blocks::{
    Block, BlockModel, DelimiterKind, SourceSpan, block_spans, joined_slices, join_block_slices,
    span_fits,
};
use crate::kernel::NodeKind;
use crate::text::{is_ascii_digit, is_ascii_lower, is_ascii_lower_spec, is_ascii_upper, is_ascii_upper_spec, is_ascii_digit_spec};

verus! {

#[derive(Debug, Clone, Copy, PartialEq, Eq, Structural)]
pub enum SymbolKind {
    PascalCase,
    CamelCase,
    KebabCase,
    /// A symbol of none of the three case classes, such as one with a
    /// leading `_` or one mixing upper case and dashes.
    Other,
}

#[derive(Debug, Clone, Copy, PartialEq, Eq, Structural)]
pub enum LiteralKind {
    Integer,
    Float,
    Bytes,
    BracketString,
    BlockString,
}

#[derive(Debug, Clone, Copy, PartialEq, Eq, Structural)]
pub enum BlockKind {
    Parenthesis,
    SquareBracket,
    Brace,
}

/// The highest classification a block qualifies for: a delimited block,
/// then a symbol, then a string, then a literal.
#[derive(Debug, Clone, Copy, PartialEq, Eq, Structural)]
pub enum Classification {
    Block(BlockKind),
    QualifiedSymbol(SymbolKind),
    String,
    Literal(LiteralKind),
}

pub open spec fn qualifies_as_symbol_spec(m: BlockModel) -> bool {
    m.leaf_kind == Some(NodeKind::Identifier) && m.leaf_text.len() > 0
}

pub open spec fn qualifies_as_pascal_spec(m: BlockModel) -> bool {
    &&& qualifies_as_symbol_spec(m)
    &&& is_ascii_upper_spec(m.leaf_text[0])
    &&& !m.leaf_text.contains(45u8)
}

pub open spec fn qualifies_as_camel_spec(m: BlockModel) -> bool {
    &&& qualifies_as_symbol_spec(m)
    &&& is_ascii_lower_spec(m.leaf_text[0])
    &&& !m.leaf_text.contains(45u8)
}

pub open spec fn is_kebab_byte(c: u8) -> bool {
    is_ascii_lower_spec(c) || is_ascii_digit_spec(c) || c == 45
}

pub open spec fn qualifies_as_kebab_spec(m: BlockModel) -> bool {
    &&& qualifies_as_symbol_spec(m)
    &&& m.leaf_text.contains(45u8)
    &&& forall|i: int| 0 <= i < m.leaf_text.len() ==> is_kebab_byte(#[trigger] m.leaf_text[i])
}

pub open spec fn block_kind_spec(d: DelimiterKind) -> Option<BlockKind> {
    match d {
        DelimiterKind::Parenthesis => Some(BlockKind::Parenthesis),
        DelimiterKind::SquareBracket => Some(BlockKind::SquareBracket),
        DelimiterKind::Brace => Some(BlockKind::Brace),
        DelimiterKind::Leaf => None,
    }
}

pub open spec fn classification_spec(m: BlockModel) -> Option<Classification> {
    if block_kind_spec(m.delimiter) is Some {
        Some(Classification::Block(block_kind_spec(m.delimiter)->Some_0))
    } else if qualifies_as_pascal_spec(m) {
        Some(Classification::QualifiedSymbol(SymbolKind::PascalCase))
    } else if qualifies_as_camel_spec(m) {
        Some(Classification::QualifiedSymbol(SymbolKind::CamelCase))
    } else if qualifies_as_kebab_spec(m) {
        Some(Classification::QualifiedSymbol(SymbolKind::KebabCase))
    } else if qualifies_as_symbol_spec(m) {
        Some(Classification::QualifiedSymbol(SymbolKind::Other))
    } else if m.leaf_kind == Some(NodeKind::InlineString) || m.leaf_kind == Some(
        NodeKind::BlockString,
    ) {
        Some(Classification::String)
    } else if m.leaf_kind == Some(NodeKind::Integer) {
        Some(Classification::Literal(LiteralKind::Integer))
    } else if m.leaf_kind == Some(NodeKind::Float) {
        Some(Classification::Literal(LiteralKind::Float))
    } else if m.leaf_kind == Some(NodeKind::Bytes) {
        Some(Classification::Literal(LiteralKind::Bytes))
    } else {
        None
    }
}

fn bytes_contain(bytes: &[u8], x: u8) -> (r: bool)
    ensures
        r == bytes@.contains(x),
{
    let mut i: usize = 0;
    while i < bytes.len()
        invariant
            0 <= i <= bytes@.len(),
            forall|k: int| 0 <= k < i ==> bytes@[k] != x,
        decreases bytes@.len() - i,
    {
        if bytes[i] == x {
            return true;
        }
        i = i + 1;
    }
    false
}

impl Block {
    pub fn is_square_bracket(&self) -> (r: bool)
        ensures
            r == (self.delimiter == DelimiterKind::SquareBracket),
    {
        self.delimiter == DelimiterKind::SquareBracket
    }

    pub fn is_parenthesis(&self) -> (r: bool)
        ensures
            r == (self.delimiter == DelimiterKind::Parenthesis),
    {
        self.delimiter == DelimiterKind::Parenthesis
    }

    pub fn is_brace(&self) -> (r: bool)
        ensures
            r == (self.delimiter == DelimiterKind::Brace),
    {
        self.delimiter == DelimiterKind::Brace
    }

    /// Whether the leaf is a non-empty identifier.
    pub fn qualifies_as_symbol(&self) -> (r: bool)
        ensures
            r == qualifies_as_symbol_spec(self.model()),
    {
        let is_identifier = match self.leaf_kind {
            Some(NodeKind::Identifier) => true,
            _ => false,
        };
        is_identifier && self.leaf_text.as_str().as_bytes().len() > 0
    }

    /// A symbol with a leading ASCII uppercase letter and no dash.
    pub fn qualifies_as_pascal_case_symbol(&self) -> (r: bool)
        ensures
            r == qualifies_as_pascal_spec(self.model()),
    {
        if !self.qualifies_as_symbol() {
            return false;
        }
        let bytes = self.leaf_text.as_str().as_bytes();
        Self::first_byte_uppercase_ascii(bytes) && !bytes_contain(bytes, 45)
    }

    /// A symbol with a leading ASCII lowercase letter and no dash.
    pub fn qualifies_as_camel_case_symbol(&self) -> (r: bool)
        ensures
            r == qualifies_as_camel_spec(self.model()),
    {
        if !self.qualifies_as_symbol() {
            return false;
        }
        let bytes = self.leaf_text.as_str().as_bytes();
        Self::first_byte_lowercase_ascii(bytes) && !bytes_contain(bytes, 45)
    }

    /// A symbol holding a dash and only lowercase letters, digits and
    /// dashes.
    pub fn qualifies_as_kebab_case_symbol(&self) -> (r: bool)
        ensures
            r == qualifies_as_kebab_spec(self.model()),
    {
        if !self.qualifies_as_symbol() {
            return false;
        }
        let bytes = self.leaf_text.as_str().as_bytes();
        if !bytes_contain(bytes, 45) {
            return false;
        }
        let mut i: usize = 0;
        while i < bytes.len()
            invariant
                0 <= i <= bytes@.len(),
                bytes@ == self.model().leaf_text,
                forall|k: int| 0 <= k < i ==> is_kebab_byte(#[trigger] bytes@[k]),
            decreases bytes@.len() - i,
        {
            let c = bytes[i];
            if !(is_ascii_lower(c) || is_ascii_digit(c) || c == 45) {
                assert(bytes@ == self.model().leaf_text);
                assert(!is_kebab_byte(self.model().leaf_text[i as int]));
                return false;
            }
            i = i + 1;
        }
        assert(bytes@ == self.model().leaf_text);
        assert forall|k: int| 0 <= k < self.model().leaf_text.len() implies is_kebab_byte(
            #[trigger] self.model().leaf_text[k],
        ) by {
            assert(is_kebab_byte(bytes@[k]));
        }
        true
    }

    /// Whether the leaf is an inline or block bracket string.
    pub fn qualifies_as_string(&self) -> (r: bool)
        ensures
            r == (self.leaf_kind == Some(NodeKind::InlineString) || self.leaf_kind == Some(
                NodeKind::BlockString,
            )),
    {
        match self.leaf_kind {
            Some(NodeKind::InlineString) | Some(NodeKind::BlockString) => true,
            _ => false,
        }
    }

    /// Whether the leaf is a numeric or byte literal.
    pub fn qualifies_as_literal(&self) -> (r: bool)
        ensures
            r == (self.leaf_kind == Some(NodeKind::Integer) || self.leaf_kind == Some(
                NodeKind::Float,
            ) || self.leaf_kind == Some(NodeKind::Bytes)),
    {
        match self.leaf_kind {
            Some(NodeKind::Integer) | Some(NodeKind::Float) | Some(NodeKind::Bytes) => true,
            _ => false,
        }
    }

    /// The highest classification this block qualifies for.
    pub fn classification(&self) -> (r: Option<Classification>)
        ensures
            r == classification_spec(self.model()),
            self.delimiter == DelimiterKind::Leaf && qualifies_as_symbol_spec(self.model()) ==> r matches Some(
                Classification::QualifiedSymbol(_),
            ),
    {
        if let Some(block_kind) = self.delimiter_block_kind() {
            return Some(Classification::Block(block_kind));
        }
        if self.qualifies_as_pascal_case_symbol() {
            return Some(Classification::QualifiedSymbol(SymbolKind::PascalCase));
        }
        if self.qualifies_as_camel_case_symbol() {
            return Some(Classification::QualifiedSymbol(SymbolKind::CamelCase));
        }
        if self.qualifies_as_kebab_case_symbol() {
            return Some(Classification::QualifiedSymbol(SymbolKind::KebabCase));
        }
        if self.qualifies_as_symbol() {
            return Some(Classification::QualifiedSymbol(SymbolKind::Other));
        }
        match self.leaf_kind {
            Some(NodeKind::InlineString) => Some(Classification::String),
            Some(NodeKind::BlockString) => Some(Classification::String),
            Some(NodeKind::Integer) => Some(Classification::Literal(LiteralKind::Integer)),
            Some(NodeKind::Float) => Some(Classification::Literal(LiteralKind::Float)),
            Some(NodeKind::Bytes) => Some(Classification::Literal(LiteralKind::Bytes)),
            _ => None,
        }
    }

    /// The block kind of a delimited block; `None` for leaves.
    pub fn delimiter_block_kind(&self) -> (r: Option<BlockKind>)
        ensures
            r == block_kind_spec(self.delimiter),
    {
        match self.delimiter {
            DelimiterKind::Parenthesis => Some(BlockKind::Parenthesis),
            DelimiterKind::SquareBracket => Some(BlockKind::SquareBracket),
            DelimiterKind::Brace => Some(BlockKind::Brace),
            DelimiterKind::Leaf => None,
        }
    }

    pub fn source_span(&self) -> (r: SourceSpan)
        ensures
            r == self.span,
    {
        self.span
    }

    fn first_byte_uppercase_ascii(text: &[u8]) -> (r: bool)
        ensures
            r == (text@.len() > 0 && is_ascii_upper_spec(text@[0])),
    {
        text.len() > 0 && is_ascii_upper(text[0])
    }

    fn first_byte_lowercase_ascii(text: &[u8]) -> (r: bool)
        ensures
            r == (text@.len() > 0 && is_ascii_lower_spec(text@[0])),
    {
        text.len() > 0 && is_ascii_lower(text[0])
    }
}

/// Rejoins blocks by concatenating their source slices.
pub struct BlockReassembler;

impl BlockReassembler {
    /// The blocks' exact source slices joined with single spaces.
    pub fn reemit_concatenated(source: &str, blocks: &[&Block]) -> (r: String)
        requires
            forall|i: int|
                0 <= i < blocks@.len() ==> span_fits(#[trigger] blocks@[i].span, source.spec_bytes()),
        ensures
            r@ == joined_slices(source.spec_bytes(), block_spans(blocks@)),
    {
        join_block_slices(source, blocks)
    }
}

/// A literal leaf classifies by its own node kind: an integer leaf as an
/// integer literal, a float leaf as a float literal, a byte leaf as a
/// byte literal; and a literal classification comes only from a leaf of
/// that kind.
pub proof fn lemma_literal_classification_follows_kind(m: BlockModel)
    ensures
        m.delimiter == DelimiterKind::Leaf && m.leaf_kind == Some(NodeKind::Integer) ==> classification_spec(m)
            == Some(Classification::Literal(LiteralKind::Integer)),
        m.delimiter == DelimiterKind::Leaf && m.leaf_kind == Some(NodeKind::Float) ==> classification_spec(m)
            == Some(Classification::Literal(LiteralKind::Float)),
        m.delimiter == DelimiterKind::Leaf && m.leaf_kind == Some(NodeKind::Bytes) ==> classification_spec(m)
            == Some(Classification::Literal(LiteralKind::Bytes)),
        classification_spec(m) == Some(Classification::Literal(LiteralKind::Integer)) ==> m.leaf_kind == Some(
            NodeKind::Integer,
        ),
        classification_spec(m) == Some(Classification::Literal(LiteralKind::Float)) ==> m.leaf_kind == Some(
            NodeKind::Float,
        ),
        classification_spec(m) == Some(Classification::Literal(LiteralKind::Bytes)) ==> m.leaf_kind == Some(
            NodeKind::Bytes,
        ),
{
}

} // verus!
