//! Block-by-block parsing: every parsed NOTA object becomes a `Block`
//! that carries its delimiter kind, its line/column span on the source
//! text, and its root objects, each itself a `Block`.
use vstd::prelude::*;
use vstd::utf8::*;
use vstd::string::*;
use crate::kernel::{
    Kernel, KernelError, Node, NodeKind, NodeModel, node_models, node_within, node_nested, nodes_laid_out, parse_sequence_spec, lex_spec, skip_comments_spec, lemma_lex_tokens_ordered, lemma_skip_comments_ge, lemma_parse_top_nested, lemma_node_within_child,
};
use crate::text::{push_char, str_slice};

verus! {

broadcast use vstd::utf8::group_utf8_lib;

/// A position on the source text: 1-based line and column, plus the
/// byte offset.
#[derive(Debug, Clone, Copy, PartialEq, Eq, Structural)]
pub struct SourcePosition {
    pub line: u32,
    pub column: u32,
    pub byte_offset: usize,
}

impl SourcePosition {
    pub fn at_start() -> (r: Self)
        ensures
            r == (SourcePosition { line: 1, column: 1, byte_offset: 0 }),
    {
        SourcePosition { line: 1, column: 1, byte_offset: 0 }
    }
}

/// A range on the source text; `end` is exclusive.
#[derive(Debug, Clone, Copy, PartialEq, Eq, Structural)]
pub struct SourceSpan {
    pub start: SourcePosition,
    pub end: SourcePosition,
}

/// A span whose byte range lies on character boundaries of `b`.
pub open spec fn span_fits(span: SourceSpan, b: Seq<u8>) -> bool {
    &&& span.start.byte_offset <= span.end.byte_offset <= b.len()
    &&& is_char_boundary(b, span.start.byte_offset as int)
    &&& is_char_boundary(b, span.end.byte_offset as int)
}

/// The bytes a span covers.
pub open spec fn span_bytes(span: SourceSpan, b: Seq<u8>) -> Seq<u8> {
    b.subrange(span.start.byte_offset as int, span.end.byte_offset as int)
}

impl SourceSpan {
    /// The exact part of `source` this span covers.
    pub fn slice<'src>(&self, source: &'src str) -> (r: &'src str)
        requires
            span_fits(*self, source.spec_bytes()),
        ensures
            r.spec_bytes() == span_bytes(*self, source.spec_bytes()),
    {
        str_slice(source, self.start.byte_offset, self.end.byte_offset)
    }
}

#[derive(Debug, Clone, Copy, PartialEq, Eq, Structural)]
pub enum DelimiterKind {
    Parenthesis,
    SquareBracket,
    Brace,
    Leaf,
}

/// The mathematical value of a `Block`; leaf text is held as UTF-8 bytes.
pub struct BlockModel {
    pub delimiter: DelimiterKind,
    pub span: SourceSpan,
    pub root_objects: Seq<BlockModel>,
    pub leaf_text: Seq<u8>,
    pub leaf_kind: Option<NodeKind>,
}

/// A typed, positioned unit of NOTA source.
#[derive(Debug, PartialEq, Eq)]
pub struct Block {
    pub delimiter: DelimiterKind,
    pub span: SourceSpan,
    pub root_objects: Vec<Block>,
    /// Leaf text for leaves; empty for delimited blocks.
    pub leaf_text: String,
    /// The leaf's token kind; `None` for delimited blocks.
    pub leaf_kind: Option<NodeKind>,
}

pub open spec fn default_block_model() -> BlockModel {
    BlockModel {
        delimiter: DelimiterKind::Leaf,
        span: SourceSpan {
            start: SourcePosition { line: 1, column: 1, byte_offset: 0 },
            end: SourcePosition { line: 1, column: 1, byte_offset: 0 },
        },
        root_objects: Seq::empty(),
        leaf_text: Seq::empty(),
        leaf_kind: None,
    }
}

pub open spec fn block_models(blocks: Seq<Block>) -> Seq<BlockModel> {
    Seq::new(blocks.len(), |i: int| blocks[i].model())
}


impl Clone for Block {
    fn clone(&self) -> (r: Block)
        ensures
            r.model() == self.model(),
    {
        self.duplicate()
    }
}

impl Block {
    pub open spec fn model(&self) -> BlockModel
        decreases self,
    {
        BlockModel {
            delimiter: self.delimiter,
            span: self.span,
            root_objects: Seq::new(
                self.root_objects@.len(),
                |i: int|
                    if 0 <= i < self.root_objects@.len() {
                        self.root_objects@[i].model()
                    } else {
                        default_block_model()
                    },
            ),
            leaf_text: encode_utf8(self.leaf_text@),
            leaf_kind: self.leaf_kind,
        }
    }

    /// A copy of this block with the same model.
    pub fn duplicate(&self) -> (r: Block)
        ensures
            r.model() == self.model(),
        decreases self,
    {
        let mut children: Vec<Block> = Vec::new();
        let mut i: usize = 0;
        while i < self.root_objects.len()
            invariant
                0 <= i <= self.root_objects@.len(),
                children@.len() == i,
                forall|k: int|
                    0 <= k < i ==> #[trigger] children@[k].model()
                        == self.root_objects@[k].model(),
            decreases self.root_objects@.len() - i,
        {
            let child = self.root_objects[i].duplicate();
            children.push(child);
            i = i + 1;
        }
        let r = Block {
            delimiter: self.delimiter,
            span: self.span,
            root_objects: children,
            leaf_text: self.leaf_text.as_str().to_owned(),
            leaf_kind: self.leaf_kind,
        };
        assert forall|k: int| 0 <= k < self.root_objects@.len() implies r.model().root_objects[k]
            == self.model().root_objects[k] by {
            assert(r.root_objects@[k].model() == self.root_objects@[k].model());
        }
        assert(r.model().root_objects =~= self.model().root_objects);
        r
    }

    pub fn is_parenthesis_block(&self) -> (r: bool)
        ensures
            r == (self.delimiter == DelimiterKind::Parenthesis),
    {
        self.delimiter == DelimiterKind::Parenthesis
    }

    pub fn is_square_bracket_block(&self) -> (r: bool)
        ensures
            r == (self.delimiter == DelimiterKind::SquareBracket),
    {
        self.delimiter == DelimiterKind::SquareBracket
    }

    pub fn is_brace_block(&self) -> (r: bool)
        ensures
            r == (self.delimiter == DelimiterKind::Brace),
    {
        self.delimiter == DelimiterKind::Brace
    }

    pub fn is_leaf(&self) -> (r: bool)
        ensures
            r == (self.delimiter == DelimiterKind::Leaf),
    {
        self.delimiter == DelimiterKind::Leaf
    }

    pub fn holds_single_root_object(&self) -> (r: bool)
        ensures
            r == (self.root_objects@.len() == 1),
    {
        self.root_objects.len() == 1
    }

    /// How many root objects this block holds.
    pub fn holds_root_objects(&self) -> (r: usize)
        ensures
            r == self.root_objects@.len(),
    {
        self.root_objects.len()
    }

    /// The root object at index `n`, if there is one.
    pub fn root_object_at(&self, n: usize) -> (r: Option<&Block>)
        ensures
            n < self.root_objects@.len() ==> r == Some(&self.root_objects@[n as int]),
            n >= self.root_objects@.len() ==> r is None,
    {
        if n < self.root_objects.len() {
            Some(&self.root_objects[n])
        } else {
            None
        }
    }

    /// Whether the second root object is a square-bracket block.
    pub fn second_root_object_is_a_square_bracket_object(&self) -> (r: bool)
        ensures
            r == (self.root_objects@.len() >= 2 && self.root_objects@[1].delimiter
                == DelimiterKind::SquareBracket),
    {
        match self.root_object_at(1) {
            Some(block) => block.is_square_bracket_block(),
            None => false,
        }
    }

    /// Whether the second root object is an identifier leaf.
    pub fn second_root_object_qualifies_as_a_symbol(&self) -> (r: bool)
        ensures
            r == (self.root_objects@.len() >= 2 && self.root_objects@[1].delimiter
                == DelimiterKind::Leaf && self.root_objects@[1].leaf_kind == Some(
                NodeKind::Identifier,
            )),
    {
        match self.root_object_at(1) {
            Some(block) => block.is_leaf() && block.leaf_kind == Some(NodeKind::Identifier),
            None => false,
        }
    }

    pub fn holds_two_root_objects(&self) -> (r: bool)
        ensures
            r == (self.root_objects@.len() == 2),
    {
        self.root_objects.len() == 2
    }

    /// The exact part of the source text this block spans.
    pub fn reemit<'src>(&self, source: &'src str) -> (r: &'src str)
        requires
            span_fits(self.span, source.spec_bytes()),
        ensures
            r.spec_bytes() == span_bytes(self.span, source.spec_bytes()),
            r@ == decode_utf8(span_bytes(self.span, source.spec_bytes())),
    {
        let r = self.span.slice(source);
        proof {
            vstd::utf8::encode_utf8_decode_utf8(r@);
        }
        r
    }
}

// ── Line and column projection ───────────────────────────────────────

/// How many newlines precede byte offset `off`.
pub open spec fn newlines_before(b: Seq<u8>, off: int) -> nat
    decreases off,
{
    if off <= 0 {
        0
    } else {
        newlines_before(b, off - 1) + if b[off - 1] == 10 {
            1nat
        } else {
            0nat
        }
    }
}

/// The byte offset at which the line holding `off` starts.
pub open spec fn line_start_before(b: Seq<u8>, off: int) -> int
    decreases off,
{
    if off <= 0 {
        0
    } else if b[off - 1] == 10 {
        off
    } else {
        line_start_before(b, off - 1)
    }
}

/// The 1-based column for a distance `d` from the start of the line.
pub open spec fn column_of(d: int) -> u32 {
    if d >= usize::MAX {
        0
    } else {
        (d + 1) as u32
    }
}

/// The line/column position of byte offset `off` of `b`.
pub open spec fn position_of_spec(b: Seq<u8>, off: usize) -> SourcePosition {
    SourcePosition {
        line: (newlines_before(b, off as int) + 1) as u32,
        column: column_of(off - line_start_before(b, off as int)),
        byte_offset: off,
    }
}

/// The start offsets of the lines within the first `n` bytes.
pub open spec fn line_starts_spec(b: Seq<u8>, n: int) -> Seq<usize>
    decreases n,
{
    if n <= 0 {
        seq![0usize]
    } else if b[n - 1] == 10 {
        line_starts_spec(b, n - 1).push(n as usize)
    } else {
        line_starts_spec(b, n - 1)
    }
}

proof fn lemma_line_starts(b: Seq<u8>, n: int)
    requires
        0 <= n <= b.len(),
        b.len() <= usize::MAX,
    ensures
        line_starts_spec(b, n).len() == newlines_before(b, n) + 1,
        line_starts_spec(b, n)[newlines_before(b, n) as int] == line_start_before(b, n),
        forall|i: int, j: int|
            0 <= i < j < line_starts_spec(b, n).len() ==> line_starts_spec(b, n)[i]
                < line_starts_spec(b, n)[j],
        forall|i: int| 0 <= i < line_starts_spec(b, n).len() ==> line_starts_spec(b, n)[i] <= n,
        line_starts_spec(b, n)[0] == 0,
    decreases n,
{
    if n > 0 {
        lemma_line_starts(b, n - 1);
    }
}

proof fn lemma_line_starts_prefix(b: Seq<u8>, m: int, n: int)
    requires
        0 <= m <= n <= b.len(),
        b.len() <= usize::MAX,
    ensures
        line_starts_spec(b, n).len() >= line_starts_spec(b, m).len(),
        forall|i: int|
            0 <= i < line_starts_spec(b, m).len() ==> line_starts_spec(b, n)[i]
                == line_starts_spec(b, m)[i],
        forall|i: int|
            line_starts_spec(b, m).len() <= i < line_starts_spec(b, n).len()
                ==> line_starts_spec(b, n)[i] > m,
    decreases n - m,
{
    if m < n {
        lemma_line_starts_prefix(b, m, n - 1);
        lemma_line_starts(b, n - 1);
    }
}

struct LineIndex {
    line_starts: Vec<usize>,
}

impl LineIndex {
    spec fn wf(&self, b: Seq<u8>) -> bool {
        &&& b.len() <= usize::MAX
        &&& self.line_starts@ == line_starts_spec(b, b.len() as int)
    }

    fn build(source: &str) -> (r: Self)
        ensures
            r.wf(source.spec_bytes()),
    {
        let bytes = source.as_bytes();
        let ghost b = bytes@;
        let _byte_count = bytes.len();
        let mut line_starts: Vec<usize> = Vec::new();
        line_starts.push(0);
        let mut index: usize = 0;
        while index < bytes.len()
            invariant
                bytes@ == b,
                b.len() <= usize::MAX,
                0 <= index <= b.len(),
                line_starts@ == line_starts_spec(b, index as int),
            decreases b.len() - index,
        {
            if bytes[index] == 10 {
                line_starts.push(index + 1);
            }
            index = index + 1;
        }
        LineIndex { line_starts }
    }

    fn position_of(&self, byte_offset: usize, Ghost(b): Ghost<Seq<u8>>) -> (r: SourcePosition)
        requires
            self.wf(b),
            byte_offset <= b.len(),
        ensures
            r == position_of_spec(b, byte_offset),
    {
        proof {
            lemma_line_starts(b, b.len() as int);
            lemma_line_starts(b, byte_offset as int);
            lemma_line_starts_prefix(b, byte_offset as int, b.len() as int);
        }
        let ghost starts = self.line_starts@;
        let ghost target = newlines_before(b, byte_offset as int) as int;
        // Find the largest line start at or before the offset.
        let mut lo: usize = 0;
        let mut hi: usize = self.line_starts.len();
        while hi - lo > 1
            invariant
                starts == self.line_starts@,
                0 <= lo < hi <= starts.len(),
                starts[lo as int] <= byte_offset,
                hi == starts.len() || starts[hi as int] > byte_offset,
                forall|i: int, j: int| 0 <= i < j < starts.len() ==> starts[i] < starts[j],
            decreases hi - lo,
        {
            let mid = lo + (hi - lo) / 2;
            if self.line_starts[mid] <= byte_offset {
                lo = mid;
            } else {
                hi = mid;
            }
        }
        proof {
            assert(starts[target] == line_start_before(b, byte_offset as int));
            if (lo as int) < target {
                assert(hi as int <= target);
                if (hi as int) < target {
                    assert(starts[hi as int] < starts[target]);
                }
                assert(starts[hi as int] <= byte_offset);
                assert(false);
            }
            if (lo as int) > target {
                assert(starts[lo as int] > byte_offset);
                assert(false);
            }
        }
        let line_start = self.line_starts[lo];
        let distance = byte_offset - line_start;
        let column: u32 = if distance >= usize::MAX {
            0
        } else {
            (distance + 1) as u32
        };
        SourcePosition { line: (lo + 1) as u32, column, byte_offset }
    }
}

// ── From nodes to blocks ─────────────────────────────────────────────

pub open spec fn delimiter_of(kind: NodeKind) -> DelimiterKind {
    match kind {
        NodeKind::Record => DelimiterKind::Parenthesis,
        NodeKind::Vector => DelimiterKind::SquareBracket,
        NodeKind::Mapping => DelimiterKind::Brace,
        _ => DelimiterKind::Leaf,
    }
}

pub open spec fn is_container_kind(kind: NodeKind) -> bool {
    kind == NodeKind::Record || kind == NodeKind::Vector || kind == NodeKind::Mapping
}

/// The block a parsed node of text `b` becomes.
pub open spec fn block_of_node(b: Seq<u8>, n: NodeModel) -> BlockModel
    decreases n,
{
    BlockModel {
        delimiter: delimiter_of(n.kind),
        span: SourceSpan { start: position_of_spec(b, n.start), end: position_of_spec(b, n.end) },
        root_objects: Seq::new(
            n.children.len(),
            |i: int|
                if 0 <= i < n.children.len() {
                    block_of_node(b, n.children[i])
                } else {
                    default_block_model()
                },
        ),
        leaf_text: if is_container_kind(n.kind) {
            Seq::empty()
        } else {
            n.text
        },
        leaf_kind: if is_container_kind(n.kind) {
            None
        } else {
            Some(n.kind)
        },
    }
}

/// Parsing text `b` into blocks: the kernel's top-level nodes, lifted.
pub open spec fn parse_blocks_spec(b: Seq<u8>) -> Result<Seq<BlockModel>, KernelError> {
    match parse_sequence_spec(b, 0) {
        Ok(nodes) => Ok(Seq::new(nodes.len(), |i: int| block_of_node(b, nodes[i]))),
        Err(e) => Err(e),
    }
}

/// A block spans a non-empty byte range; its root objects lie strictly
/// inside it, in source order without overlap, and nest in turn.
pub open spec fn block_nested(m: BlockModel) -> bool
    decreases m,
{
    &&& m.span.start.byte_offset < m.span.end.byte_offset
    &&& forall|i: int| 0 <= i < m.root_objects.len() ==> m.span.start.byte_offset
        < (#[trigger] m.root_objects[i]).span.start.byte_offset && m.root_objects[i].span.end.byte_offset
        < m.span.end.byte_offset
    &&& forall|i: int, j: int| 0 <= i < j < m.root_objects.len() ==> (#[trigger] m.root_objects[i]).span.end.byte_offset
        <= (#[trigger] m.root_objects[j]).span.start.byte_offset
    &&& forall|i: int| 0 <= i < m.root_objects.len() ==> block_nested(#[trigger] m.root_objects[i])
}

/// Blocks that nest, in source order without overlap, each ending within
/// `len` bytes.
pub open spec fn blocks_laid_out(ms: Seq<BlockModel>, len: nat) -> bool {
    &&& forall|i: int| 0 <= i < ms.len() ==> block_nested(#[trigger] ms[i]) && ms[i].span.end.byte_offset <= len
    &&& forall|i: int, j: int| 0 <= i < j < ms.len() ==> (#[trigger] ms[i]).span.end.byte_offset
        <= (#[trigger] ms[j]).span.start.byte_offset
}

proof fn lemma_block_of_node_nested(b: Seq<u8>, n: NodeModel)
    requires
        node_nested(n),
    ensures
        block_nested(block_of_node(b, n)),
    decreases n,
{
    let m = block_of_node(b, n);
    assert forall|i: int| 0 <= i < m.root_objects.len() implies block_nested(#[trigger] m.root_objects[i]) by {
        assert(m.root_objects[i] == block_of_node(b, n.children[i]));
        lemma_block_of_node_nested(b, n.children[i]);
    }
    assert forall|i: int| 0 <= i < m.root_objects.len() implies m.span.start.byte_offset
        < (#[trigger] m.root_objects[i]).span.start.byte_offset && m.root_objects[i].span.end.byte_offset
        < m.span.end.byte_offset by {
        assert(m.root_objects[i] == block_of_node(b, n.children[i]));
    }
    assert forall|i: int, j: int| 0 <= i < j < m.root_objects.len() implies (#[trigger] m.root_objects[i]).span.end.byte_offset
        <= (#[trigger] m.root_objects[j]).span.start.byte_offset by {
        assert(m.root_objects[i] == block_of_node(b, n.children[i]));
        assert(m.root_objects[j] == block_of_node(b, n.children[j]));
        assert(n.children[i].end <= n.children[j].start);
    }
}

/// Every position of a block and of the blocks inside it is the one its
/// byte offset gives: the line is one more than the line breaks before
/// it, the column counts from the start of that line.
pub open spec fn positions_exact(b: Seq<u8>, m: BlockModel) -> bool
    decreases m,
{
    &&& m.span.start == position_of_spec(b, m.span.start.byte_offset)
    &&& m.span.end == position_of_spec(b, m.span.end.byte_offset)
    &&& forall|i: int| 0 <= i < m.root_objects.len() ==> positions_exact(b, #[trigger] m.root_objects[i])
}

proof fn lemma_block_of_node_positions(b: Seq<u8>, n: NodeModel)
    ensures
        positions_exact(b, block_of_node(b, n)),
    decreases n,
{
    let m = block_of_node(b, n);
    assert forall|i: int| 0 <= i < m.root_objects.len() implies positions_exact(b, #[trigger] m.root_objects[i]) by {
        assert(m.root_objects[i] == block_of_node(b, n.children[i]));
        lemma_block_of_node_positions(b, n.children[i]);
    }
}

/// The blocks parsed from a text lay it out: every block spans a
/// non-empty range within the text, the blocks inside a block lie
/// strictly within it, neighbours come in source order without overlap,
/// and every position is the line and column of its byte offset.
pub proof fn lemma_parse_blocks_layout(b: Seq<u8>)
    requires
        b.len() <= usize::MAX,
        parse_blocks_spec(b) is Ok,
    ensures
        blocks_laid_out(parse_blocks_spec(b)->Ok_0, b.len()),
        forall|i: int| 0 <= i < parse_blocks_spec(b)->Ok_0.len() ==> positions_exact(b, #[trigger] parse_blocks_spec(b)->Ok_0[i]),
{
    let toks = lex_spec(b, 0)->Ok_0;
    lemma_lex_tokens_ordered(b, 0);
    lemma_skip_comments_ge(toks, 0);
    lemma_parse_top_nested(toks, b, skip_comments_spec(toks, 0));
    let ns = parse_sequence_spec(b, 0)->Ok_0;
    let ms = parse_blocks_spec(b)->Ok_0;
    assert forall|k: int| 0 <= k < ms.len() implies block_nested(#[trigger] ms[k]) && ms[k].span.end.byte_offset <= b.len() by {
        assert(ms[k] == block_of_node(b, ns[k]));
        lemma_block_of_node_nested(b, ns[k]);
    }
    assert forall|k: int, j: int| 0 <= k < j < ms.len() implies (#[trigger] ms[k]).span.end.byte_offset
        <= (#[trigger] ms[j]).span.start.byte_offset by {
        assert(ms[k] == block_of_node(b, ns[k]));
        assert(ms[j] == block_of_node(b, ns[j]));
    }
    assert forall|i: int| 0 <= i < ms.len() implies positions_exact(b, #[trigger] ms[i]) by {
        assert(ms[i] == block_of_node(b, ns[i]));
        lemma_block_of_node_positions(b, ns[i]);
    }
}

/// Block parsing entry point over one source text.
pub struct BlockParser<'src> {
    source: &'src str,
}

impl<'src> BlockParser<'src> {
    /// The bytes of the text this parser reads.
    pub closed spec fn text(&self) -> Seq<u8> {
        self.source.spec_bytes()
    }

    pub fn new(source: &'src str) -> (r: Self)
        ensures
            r.text() == source.spec_bytes(),
    {
        BlockParser { source }
    }

    /// Parse the text into its top-level blocks.
    pub fn parse_blocks(&self) -> (r: Result<Vec<Block>, KernelError>)
        ensures
            match r {
                Ok(blocks) => parse_blocks_spec(self.text()) == Ok::<
                    Seq<BlockModel>,
                    KernelError,
                >(block_models(blocks@)) && blocks_laid_out(block_models(blocks@), self.text().len()),
                Err(e) => parse_blocks_spec(self.text()) == Err::<Seq<BlockModel>, KernelError>(
                    e,
                ),
            },
    {
        let mut kernel = Kernel::new(self.source);
        let nodes = match kernel.parse_sequence() {
            Ok(nodes) => nodes,
            Err(e) => return Err(e),
        };
        let ghost b = self.source.spec_bytes();
        let line_index = LineIndex::build(self.source);
        let mut blocks: Vec<Block> = Vec::with_capacity(nodes.len());
        let mut i: usize = 0;
        while i < nodes.len()
            invariant
                line_index.wf(b),
                0 <= i <= nodes@.len(),
                blocks@.len() == i,
                forall|k: int|
                    0 <= k < i ==> #[trigger] blocks@[k].model() == block_of_node(
                        b,
                        nodes@[k].model(),
                    ),
                forall|k: int| 0 <= k < nodes@.len() ==> node_within(#[trigger] nodes@[k].model(), b.len()),
                nodes_laid_out(node_models(nodes@), b.len()),
            decreases nodes@.len() - i,
        {
            let block = Self::node_to_block(&nodes[i], &line_index, Ghost(b));
            blocks.push(block);
            i = i + 1;
        }
        proof {
            let ms = node_models(nodes@);
            assert(block_models(blocks@) =~= Seq::new(
                ms.len(),
                |k: int| block_of_node(b, ms[k]),
            ));
            let bm = block_models(blocks@);
            assert forall|k: int| 0 <= k < bm.len() implies block_nested(#[trigger] bm[k]) && bm[k].span.end.byte_offset <= b.len() by {
                assert(bm[k] == block_of_node(b, ms[k]));
                assert(ms[k] == nodes@[k].model());
                lemma_block_of_node_nested(b, ms[k]);
            }
            assert forall|k: int, j: int| 0 <= k < j < bm.len() implies (#[trigger] bm[k]).span.end.byte_offset
                <= (#[trigger] bm[j]).span.start.byte_offset by {
                assert(bm[k] == block_of_node(b, ms[k]));
                assert(bm[j] == block_of_node(b, ms[j]));
                assert(ms[k].end <= ms[j].start);
            }
        }
        Ok(blocks)
    }

    fn node_to_block(node: &Node, line_index: &LineIndex, Ghost(b): Ghost<Seq<u8>>) -> (r: Block)
        requires
            line_index.wf(b),
            node_within(node.model(), b.len()),
        ensures
            r.model() == block_of_node(b, node.model()),
        decreases node,
    {
        let start = line_index.position_of(node.start, Ghost(b));
        let end = line_index.position_of(node.end, Ghost(b));
        let span = SourceSpan { start, end };
        let delimiter = match node.kind {
            NodeKind::Record => DelimiterKind::Parenthesis,
            NodeKind::Vector => DelimiterKind::SquareBracket,
            NodeKind::Mapping => DelimiterKind::Brace,
            _ => DelimiterKind::Leaf,
        };
        let container = match node.kind {
            NodeKind::Record | NodeKind::Vector | NodeKind::Mapping => true,
            _ => false,
        };
        let leaf_kind = if container {
            None
        } else {
            Some(node.kind)
        };
        let leaf_text = if container {
            String::new()
        } else {
            node.text.as_str().to_owned()
        };
        let mut root_objects: Vec<Block> = Vec::new();
        let mut i: usize = 0;
        while i < node.children.len()
            invariant
                line_index.wf(b),
                node_within(node.model(), b.len()),
                0 <= i <= node.children@.len(),
                root_objects@.len() == i,
                forall|k: int|
                    0 <= k < i ==> #[trigger] root_objects@[k].model() == block_of_node(
                        b,
                        node.children@[k].model(),
                    ),
            decreases node.children@.len() - i,
        {
            proof {
                assert(node.model().children[i as int] == node.children@[i as int].model());
                lemma_node_within_child(node.model(), b.len(), i as int);
            }
            let child = Self::node_to_block(&node.children[i], line_index, Ghost(b));
            root_objects.push(child);
            i = i + 1;
        }
        let r = Block { delimiter, span, root_objects, leaf_text, leaf_kind };
        proof {
            assert forall|k: int| 0 <= k < node.children@.len() implies r.model().root_objects[k]
                == block_of_node(b, node.model()).root_objects[k] by {
                assert(node.model().children[k] == node.children@[k].model());
                assert(r.model().root_objects[k] == r.root_objects@[k].model());
                assert(r.root_objects@[k].model() == block_of_node(b, node.children@[k].model()));
                assert(block_of_node(b, node.model()).root_objects[k] == block_of_node(
                    b,
                    node.model().children[k],
                ));
            }
            assert(r.model().root_objects =~= block_of_node(b, node.model()).root_objects);
            assert(r.model().leaf_text =~= block_of_node(b, node.model()).leaf_text);
        }
        r
    }

    /// Rejoin blocks by concatenating their source slices, one space
    /// between neighbours.
    pub fn reemit_concatenated(source: &str, blocks: &[&Block]) -> (r: String)
        requires
            forall|i: int| 0 <= i < blocks@.len() ==> span_fits(#[trigger] blocks@[i].span, source.spec_bytes()),
        ensures
            r@ == joined_slices(source.spec_bytes(), block_spans(blocks@)),
    {
        join_block_slices(source, blocks)
    }
}

pub open spec fn block_spans(blocks: Seq<&Block>) -> Seq<SourceSpan> {
    Seq::new(blocks.len(), |i: int| blocks[i].span)
}

/// The characters of the spans' slices of `b`, one space between each.
pub open spec fn joined_slices(b: Seq<u8>, spans: Seq<SourceSpan>) -> Seq<char>
    decreases spans.len(),
{
    if spans.len() == 0 {
        Seq::empty()
    } else if spans.len() == 1 {
        decode_utf8(span_bytes(spans[0], b))
    } else {
        joined_slices(b, spans.drop_last()) + seq![' '] + decode_utf8(span_bytes(spans.last(), b))
    }
}

/// Concatenate the source slices of `blocks`, separated by single spaces.
pub fn join_block_slices(source: &str, blocks: &[&Block]) -> (r: String)
    requires
        forall|i: int| 0 <= i < blocks@.len() ==> span_fits(#[trigger] blocks@[i].span, source.spec_bytes()),
    ensures
        r@ == joined_slices(source.spec_bytes(), block_spans(blocks@)),
{
    let ghost b = source.spec_bytes();
    let mut output = String::new();
    let mut index: usize = 0;
    while index < blocks.len()
        invariant
            0 <= index <= blocks@.len(),
            forall|i: int| 0 <= i < blocks@.len() ==> span_fits(#[trigger] blocks@[i].span, b),
            b == source.spec_bytes(),
            output@ == joined_slices(b, block_spans(blocks@).take(index as int)),
        decreases blocks@.len() - index,
    {
        if index > 0 {
            push_char(&mut output, ' ');
        }
        let piece = blocks[index].reemit(source);
        proof {
            decode_utf8_encode_utf8(piece.spec_bytes());
            encode_utf8_decode_utf8(piece@);
        }
        output.append(piece);
        proof {
            let spans = block_spans(blocks@).take(index + 1);
            assert(spans.drop_last() =~= block_spans(blocks@).take(index as int));
            assert(spans.last() == blocks@[index as int].span);
            assert(piece@ == decode_utf8(span_bytes(blocks@[index as int].span, b)));
        }
        index = index + 1;
    }
    assert(block_spans(blocks@).take(blocks@.len() as int) =~= block_spans(blocks@));
    output
}

} // verus!
