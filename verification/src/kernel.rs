//! The bootstrap kernel: lexes NOTA source bytes into tokens and builds
//! the delimiter tree of `Node`s from them.
//!
//! Recognised forms: the three delimiter pairs `( )` `[ ]` `{ }`, inline
//! bracket strings `[text]`, block strings `[| text |]`, line comments
//! `;; ...`, byte literals `#a1b2`, identifiers and numbers.
use vstd::prelude::*;
use vstd::utf8::*;
use vstd::string::*;
use crate::text::{ascii_edge, is_ascii_alnum, is_ascii_alnum_spec, is_ascii_alpha, is_ascii_alpha_spec, is_ascii_digit, is_ascii_digit_spec, is_ascii_hex, is_ascii_hex_spec, lemma_ascii_edge_is_boundary, owned_slice, str_slice, string_of, decimal_spec, decimal_text, push_char};

verus! {

broadcast use vstd::utf8::group_utf8_lib;

/// Kernel failures, each naming the byte position it was found at.
#[derive(Debug, Clone, Copy, PartialEq, Eq, Structural)]
pub enum KernelError {
    UnclosedDelimiter { opener: char, position: usize },
    UnclosedString { position: usize },
    UnclosedBlockString { position: usize },
    UnexpectedClose { closer: char, position: usize },
    InvalidEscape { position: usize },
    InvalidByteLiteral { position: usize },
    InvalidNumber { position: usize },
    UnexpectedEof { position: usize },
    EmptyInput,
}

/// The human-readable text of a kernel error.
pub open spec fn kernel_message_spec(e: KernelError) -> Seq<char> {
    match e {
        KernelError::UnclosedDelimiter { opener, position } => "unclosed `"@.push(opener)
            + "` at byte "@ + decimal_spec(position as nat),
        KernelError::UnclosedString { position } => "unclosed bracket string at byte "@
            + decimal_spec(position as nat),
        KernelError::UnclosedBlockString { position } => "unclosed block string at byte "@
            + decimal_spec(position as nat),
        KernelError::UnexpectedClose { closer, position } => "unexpected `"@.push(closer)
            + "` at byte "@ + decimal_spec(position as nat),
        KernelError::InvalidEscape { position } => "invalid escape at byte "@ + decimal_spec(
            position as nat,
        ),
        KernelError::InvalidByteLiteral { position } => "invalid `#`-prefixed byte literal at byte "@
            + decimal_spec(position as nat),
        KernelError::InvalidNumber { position } => "invalid number at byte "@ + decimal_spec(
            position as nat,
        ),
        KernelError::UnexpectedEof { position } => "unexpected end of input at byte "@
            + decimal_spec(position as nat),
        KernelError::EmptyInput => "empty input"@,
    }
}

/// `prefix` followed by the decimal numeral of `n`.
pub fn text_with_number(prefix: &str, n: usize) -> (r: String)
    ensures
        r@ == prefix@ + decimal_spec(n as nat),
{
    let mut s = string_of(prefix);
    let digits = decimal_text(n);
    s.append(digits.as_str());
    s
}

impl KernelError {
    /// The human-readable text of this error.
    pub fn message(&self) -> (r: String)
        ensures
            r@ == kernel_message_spec(*self),
    {
        match *self {
            KernelError::UnclosedDelimiter { opener, position } => {
                let mut s = string_of("unclosed `");
                push_char(&mut s, opener);
                s.append(text_with_number("` at byte ", position).as_str());
                s
            },
            KernelError::UnclosedString { position } => text_with_number(
                "unclosed bracket string at byte ",
                position,
            ),
            KernelError::UnclosedBlockString { position } => text_with_number(
                "unclosed block string at byte ",
                position,
            ),
            KernelError::UnexpectedClose { closer, position } => {
                let mut s = string_of("unexpected `");
                push_char(&mut s, closer);
                s.append(text_with_number("` at byte ", position).as_str());
                s
            },
            KernelError::InvalidEscape { position } => text_with_number(
                "invalid escape at byte ",
                position,
            ),
            KernelError::InvalidByteLiteral { position } => text_with_number(
                "invalid `#`-prefixed byte literal at byte ",
                position,
            ),
            KernelError::InvalidNumber { position } => text_with_number(
                "invalid number at byte ",
                position,
            ),
            KernelError::UnexpectedEof { position } => text_with_number(
                "unexpected end of input at byte ",
                position,
            ),
            KernelError::EmptyInput => string_of("empty input"),
        }
    }
}

#[derive(Debug, Clone, Copy, PartialEq, Eq, Structural)]
pub enum KernelTokenKind {
    RecordOpen,
    RecordClose,
    VectorOpen,
    VectorClose,
    MapOpen,
    MapClose,
    Identifier,
    Integer,
    Float,
    InlineString,
    BlockString,
    Bytes,
    LineComment,
}

/// One token: its kind and the byte range `start..end` it covers.
#[derive(Debug, Clone, Copy, PartialEq, Eq, Structural)]
pub struct KernelToken {
    pub kind: KernelTokenKind,
    pub start: usize,
    pub end: usize,
}

impl KernelToken {
    /// The source text this token covers.
    pub fn lexeme<'src>(&self, source: &'src str) -> (r: &'src str)
        requires
            self.start <= self.end <= source.spec_bytes().len(),
            is_char_boundary(source.spec_bytes(), self.start as int),
            is_char_boundary(source.spec_bytes(), self.end as int),
        ensures
            r.spec_bytes() == source.spec_bytes().subrange(self.start as int, self.end as int),
    {
        str_slice(source, self.start, self.end)
    }
}

#[derive(Debug, Clone, Copy, PartialEq, Eq, Structural)]
pub enum NodeKind {
    Record,
    Vector,
    Mapping,
    Identifier,
    Integer,
    Float,
    InlineString,
    BlockString,
    Bytes,
}

/// The mathematical value of a `Node`: its text is held as the UTF-8
/// bytes it encodes.
pub struct NodeModel {
    pub kind: NodeKind,
    pub start: usize,
    pub end: usize,
    pub children: Seq<NodeModel>,
    pub text: Seq<u8>,
}

/// A parsed delimiter tree. Leaves carry their text; records, vectors and
/// maps carry children and an empty text.
#[derive(Debug, PartialEq, Eq)]
pub struct Node {
    pub kind: NodeKind,
    pub start: usize,
    pub end: usize,
    pub children: Vec<Node>,
    pub text: String,
}

pub open spec fn default_model() -> NodeModel {
    NodeModel { kind: NodeKind::Record, start: 0, end: 0, children: Seq::empty(), text: Seq::empty() }
}

pub open spec fn node_models(nodes: Seq<Node>) -> Seq<NodeModel> {
    Seq::new(nodes.len(), |i: int| nodes[i].model())
}

pub proof fn lemma_node_within_child(n: NodeModel, len: nat, i: int)
    requires
        node_within(n, len),
        0 <= i < n.children.len(),
    ensures
        node_within(n.children[i], len),
{
    let c = n.children[i];
    assert(c == n.children[i]);
}

/// Every node of a tree lies within a text of `len` bytes.
pub open spec fn node_within(n: NodeModel, len: nat) -> bool
    decreases n,
{
    &&& n.start <= len
    &&& n.end <= len
    &&& forall|i: int| 0 <= i < n.children.len() ==> node_within(#[trigger] n.children[i], len)
}

impl Node {
    pub open spec fn model(&self) -> NodeModel
        decreases self,
    {
        NodeModel {
            kind: self.kind,
            start: self.start,
            end: self.end,
            children: Seq::new(
                self.children@.len(),
                |i: int|
                    if 0 <= i < self.children@.len() {
                        self.children@[i].model()
                    } else {
                        default_model()
                    },
            ),
            text: encode_utf8(self.text@),
        }
    }

    pub fn is_record(&self) -> (r: bool)
        ensures
            r == (self.kind == NodeKind::Record),
    {
        self.kind == NodeKind::Record
    }

    pub fn is_vector(&self) -> (r: bool)
        ensures
            r == (self.kind == NodeKind::Vector),
    {
        self.kind == NodeKind::Vector
    }

    pub fn is_map(&self) -> (r: bool)
        ensures
            r == (self.kind == NodeKind::Mapping),
    {
        self.kind == NodeKind::Mapping
    }

    pub fn is_identifier(&self) -> (r: bool)
        ensures
            r == (self.kind == NodeKind::Identifier),
    {
        self.kind == NodeKind::Identifier
    }

    /// The identifier text, when this node is an identifier.
    pub fn as_identifier(&self) -> (r: Option<&str>)
        ensures
            self.kind == NodeKind::Identifier ==> (r matches Some(s) && s@ == self.text@),
            self.kind != NodeKind::Identifier ==> r is None,
    {
        if self.is_identifier() {
            Some(self.text.as_str())
        } else {
            None
        }
    }

    /// A copy of this node with the same model.
    pub fn duplicate(&self) -> (r: Node)
        ensures
            r.model() == self.model(),
        decreases self,
    {
        let mut children: Vec<Node> = Vec::new();
        let mut i: usize = 0;
        while i < self.children.len()
            invariant
                0 <= i <= self.children@.len(),
                children@.len() == i,
                forall|k: int| 0 <= k < i ==> #[trigger] children@[k].model() == self.children@[k].model(),
            decreases self.children@.len() - i,
        {
            let child = self.children[i].duplicate();
            children.push(child);
            i = i + 1;
        }
        let r = Node {
            kind: self.kind,
            start: self.start,
            end: self.end,
            children,
            text: string_of(self.text.as_str()),
        };
        assert forall|k: int| 0 <= k < self.children@.len() implies r.model().children[k]
            == self.model().children[k] by {
            assert(r.children@[k].model() == self.children@[k].model());
        }
        assert(r.model().children =~= self.model().children);
        r
    }
}

impl Clone for Node {
    fn clone(&self) -> (r: Node)
        ensures
            r.model() == self.model(),
    {
        self.duplicate()
    }
}

pub proof fn lemma_node_models_push(s: Seq<Node>, n: Node)
    ensures
        node_models(s.push(n)) == node_models(s).push(n.model()),
{
    assert(node_models(s.push(n)) =~= node_models(s).push(n.model()));
}

/// Copies of a run of nodes, element for element.
pub fn duplicate_nodes(nodes: &[Node], from: usize) -> (r: Vec<Node>)
    requires
        from <= nodes@.len(),
    ensures
        node_models(r@) == node_models(nodes@.subrange(from as int, nodes@.len() as int)),
{
    let mut out: Vec<Node> = Vec::new();
    let mut i: usize = from;
    while i < nodes.len()
        invariant
            from <= i <= nodes@.len(),
            node_models(out@) == node_models(nodes@.subrange(from as int, i as int)),
        decreases nodes@.len() - i,
    {
        let node = nodes[i].duplicate();
        let ghost before = out@;
        out.push(node);
        i = i + 1;
        proof {
            let sub = nodes@.subrange(from as int, i as int);
            let prev = nodes@.subrange(from as int, i - 1);
            assert(sub =~= prev.push(nodes@[i - 1]));
            assert(out@ =~= before.push(node));
            lemma_node_models_push(before, node);
            lemma_node_models_push(prev, nodes@[i - 1]);
        }
        assert(node_models(out@) =~= node_models(nodes@.subrange(from as int, i as int)));
    }
    out
}

// ── Lexical structure ────────────────────────────────────────────────

pub open spec fn is_layout_byte(c: u8) -> bool {
    c == 32 || c == 9 || c == 10 || c == 13
}

pub open spec fn is_identifier_start_byte(c: u8) -> bool {
    is_ascii_alpha_spec(c) || c == 95
}

pub open spec fn is_identifier_continue_byte(c: u8) -> bool {
    is_ascii_alnum_spec(c) || c == 95 || c == 45
}

/// First offset at or after `i` that is not layout.
pub open spec fn skip_layout_spec(b: Seq<u8>, i: int) -> int
    decreases b.len() - i,
{
    if 0 <= i < b.len() && is_layout_byte(b[i]) {
        skip_layout_spec(b, i + 1)
    } else {
        i
    }
}

/// End of the identifier run starting at `i`.
pub open spec fn scan_identifier_spec(b: Seq<u8>, i: int) -> int
    decreases b.len() - i,
{
    if 0 <= i < b.len() && is_identifier_continue_byte(b[i]) {
        scan_identifier_spec(b, i + 1)
    } else {
        i
    }
}

/// End of the hexadecimal run starting at `i`.
pub open spec fn scan_hex_spec(b: Seq<u8>, i: int) -> int
    decreases b.len() - i,
{
    if 0 <= i < b.len() && is_ascii_hex_spec(b[i]) {
        scan_hex_spec(b, i + 1)
    } else {
        i
    }
}

/// Offset of the first newline at or after `i`, or the end of the text.
pub open spec fn scan_line_spec(b: Seq<u8>, i: int) -> int
    decreases b.len() - i,
{
    if 0 <= i < b.len() && b[i] != 10 {
        scan_line_spec(b, i + 1)
    } else {
        i
    }
}

/// One step of number lexing: whether byte `c` continues a number whose
/// state is (seen a dot, seen a radix letter), and the new state.
pub open spec fn number_step_spec(c: u8, dot: bool, radix: bool) -> Option<(bool, bool)> {
    if is_ascii_digit_spec(c) || c == 95 {
        Some((dot, radix))
    } else if c == 46 && !dot && !radix {
        Some((true, radix))
    } else if (c == 120 || c == 88 || c == 98 || c == 66 || c == 111 || c == 79) && !dot {
        Some((dot, true))
    } else if ((97 <= c <= 102) || (65 <= c <= 70)) && radix {
        Some((dot, radix))
    } else {
        None
    }
}

/// End of the number body starting at `i`, and whether it held a dot.
pub open spec fn scan_number_spec(b: Seq<u8>, i: int, dot: bool, radix: bool) -> (int, bool)
    decreases b.len() - i,
{
    if 0 <= i < b.len() {
        match number_step_spec(b[i], dot, radix) {
            Some((d, r)) => scan_number_spec(b, i + 1, d, r),
            None => (i, dot),
        }
    } else {
        (i, dot)
    }
}

/// What the interior of a `[` holds, as far as the kernel can tell.
pub enum BracketProbe {
    Delimited,
    Unclosed,
    Closed(bool),
}

/// Bytes that may stand inside a bracket without making it a string.
pub open spec fn is_quiet_byte(c: u8) -> bool {
    is_layout_byte(c) || c == 46 || c == 47 || c == 45 || c == 95 || is_ascii_alnum_spec(c)
}

/// Probe the interior of a bracket from offset `i`: a delimiter or comment
/// makes it a vector; otherwise the first `]` closes it, and any byte that
/// cannot stand in a token (`has`) makes it a string.
pub open spec fn probe_spec(b: Seq<u8>, i: int, has: bool) -> BracketProbe
    decreases b.len() - i,
{
    if i < 0 || i >= b.len() {
        BracketProbe::Unclosed
    } else if b[i] == 93 {
        BracketProbe::Closed(has)
    } else if b[i] == 92 {
        if i + 1 >= b.len() {
            BracketProbe::Unclosed
        } else {
            probe_spec(b, i + 2, true)
        }
    } else if b[i] == 40 || b[i] == 41 || b[i] == 123 || b[i] == 125 || b[i] == 91 {
        BracketProbe::Delimited
    } else if b[i] == 59 && i + 1 < b.len() && b[i + 1] == 59 {
        BracketProbe::Delimited
    } else {
        probe_spec(b, i + 1, has || !is_quiet_byte(b[i]))
    }
}

/// End (one past `]`) of the inline string whose body starts at `i`.
pub open spec fn scan_inline_spec(b: Seq<u8>, i: int, start: int) -> Result<int, KernelError>
    decreases b.len() - i,
{
    if i < 0 || i >= b.len() {
        Err(KernelError::UnclosedString { position: start as usize })
    } else if b[i] == 92 {
        if i + 1 >= b.len() {
            Err(KernelError::InvalidEscape { position: (i + 1) as usize })
        } else {
            scan_inline_spec(b, i + 2, start)
        }
    } else if b[i] == 93 {
        Ok(i + 1)
    } else if b[i] == 10 {
        Err(KernelError::UnclosedString { position: start as usize })
    } else {
        scan_inline_spec(b, i + 1, start)
    }
}

/// End (one past `|]`) of the block string whose body starts at `i`.
pub open spec fn scan_block_spec(b: Seq<u8>, i: int) -> Option<int>
    decreases b.len() - i,
{
    if i < 0 || i + 1 >= b.len() {
        None
    } else if b[i] == 124 && b[i + 1] == 93 {
        Some(i + 2)
    } else {
        scan_block_spec(b, i + 1)
    }
}

pub open spec fn token_at(kind: KernelTokenKind, start: int, end: int) -> KernelToken {
    KernelToken { kind, start: start as usize, end: end as usize }
}

pub open spec fn bracket_token_spec(b: Seq<u8>, c: int) -> Result<Option<KernelToken>, KernelError> {
    if c + 1 < b.len() && b[c + 1] == 124 {
        match scan_block_spec(b, c + 2) {
            Some(e) => Ok(Some(token_at(KernelTokenKind::BlockString, c, e))),
            None => Err(KernelError::UnclosedBlockString { position: c as usize }),
        }
    } else {
        match probe_spec(b, c + 1, false) {
            BracketProbe::Delimited => Ok(Some(token_at(KernelTokenKind::VectorOpen, c, c + 1))),
            BracketProbe::Unclosed => Err(KernelError::UnclosedString { position: c as usize }),
            BracketProbe::Closed(has) => {
                if has {
                    match scan_inline_spec(b, c + 1, c) {
                        Ok(e) => Ok(Some(token_at(KernelTokenKind::InlineString, c, e))),
                        Err(err) => Err(err),
                    }
                } else {
                    Ok(Some(token_at(KernelTokenKind::VectorOpen, c, c + 1)))
                }
            },
        }
    }
}

pub open spec fn number_token_spec(b: Seq<u8>, c: int) -> Result<Option<KernelToken>, KernelError> {
    if b[c] == 45 && (c + 1 >= b.len() || !is_ascii_digit_spec(b[c + 1])) {
        Err(KernelError::InvalidNumber { position: c as usize })
    } else {
        let body = if b[c] == 45 { c + 1 } else { c };
        let scanned = scan_number_spec(b, body, false, false);
        let kind = if scanned.1 { KernelTokenKind::Float } else { KernelTokenKind::Integer };
        Ok(Some(token_at(kind, c, scanned.0)))
    }
}

/// The token that starts at the first non-layout byte at or after `from`,
/// `None` at the end of the text.
pub open spec fn next_token_spec(b: Seq<u8>, from: int) -> Result<Option<KernelToken>, KernelError> {
    let c = skip_layout_spec(b, from);
    if c < 0 || c >= b.len() {
        Ok(None)
    } else {
        let x = b[c];
        if x == 40 {
            Ok(Some(token_at(KernelTokenKind::RecordOpen, c, c + 1)))
        } else if x == 41 {
            Ok(Some(token_at(KernelTokenKind::RecordClose, c, c + 1)))
        } else if x == 123 {
            Ok(Some(token_at(KernelTokenKind::MapOpen, c, c + 1)))
        } else if x == 125 {
            Ok(Some(token_at(KernelTokenKind::MapClose, c, c + 1)))
        } else if x == 91 {
            bracket_token_spec(b, c)
        } else if x == 93 {
            Ok(Some(token_at(KernelTokenKind::VectorClose, c, c + 1)))
        } else if x == 59 && c + 1 < b.len() && b[c + 1] == 59 {
            Ok(Some(token_at(KernelTokenKind::LineComment, c, scan_line_spec(b, c + 2))))
        } else if x == 35 {
            let e = scan_hex_spec(b, c + 1);
            let n = e - (c + 1);
            if n == 0 || n % 2 != 0 {
                Err(KernelError::InvalidByteLiteral { position: c as usize })
            } else {
                Ok(Some(token_at(KernelTokenKind::Bytes, c, e)))
            }
        } else if x == 45 || is_ascii_digit_spec(x) {
            number_token_spec(b, c)
        } else if is_identifier_start_byte(x) {
            Ok(Some(token_at(KernelTokenKind::Identifier, c, scan_identifier_spec(b, c))))
        } else {
            Err(KernelError::UnclosedString { position: c as usize })
        }
    }
}

/// The whole token stream from offset `from`, comments included.
pub open spec fn lex_spec(b: Seq<u8>, from: int) -> Result<Seq<KernelToken>, KernelError>
    decreases b.len() - from,
{
    match next_token_spec(b, from) {
        Err(e) => Err(e),
        Ok(None) => Ok(Seq::empty()),
        Ok(Some(t)) => {
            if from < t.end <= b.len() {
                match lex_spec(b, t.end as int) {
                    Ok(rest) => Ok(seq![t] + rest),
                    Err(e) => Err(e),
                }
            } else {
                Ok(seq![t])
            }
        },
    }
}

/// A token lies on character boundaries and, for strings, is framed by
/// its brackets.
pub open spec fn token_wf(b: Seq<u8>, t: KernelToken) -> bool {
    &&& t.start < t.end <= b.len()
    &&& b[t.start as int] < 0x80
    &&& ascii_edge(b, t.end as int)
    &&& (t.kind == KernelTokenKind::InlineString ==> {
        &&& t.end - t.start >= 2
        &&& b[t.start as int] == 91
        &&& b[t.end - 1] == 93
    })
    &&& (t.kind == KernelTokenKind::BlockString ==> {
        &&& t.end - t.start >= 4
        &&& b[t.start as int] == 91
        &&& b[t.start + 1] == 124
        &&& b[t.end - 2] == 124
        &&& b[t.end - 1] == 93
    })
}

pub open spec fn tokens_wf(b: Seq<u8>, toks: Seq<KernelToken>) -> bool {
    forall|i: int| 0 <= i < toks.len() ==> token_wf(b, #[trigger] toks[i])
}

pub open spec fn prepend_tokens(
    acc: Seq<KernelToken>,
    r: Result<Seq<KernelToken>, KernelError>,
) -> Result<Seq<KernelToken>, KernelError> {
    match r {
        Ok(s) => Ok(acc + s),
        Err(e) => Err(e),
    }
}

proof fn lemma_skip_layout_ge(b: Seq<u8>, i: int)
    ensures
        skip_layout_spec(b, i) >= i,
        0 <= i ==> skip_layout_spec(b, i) <= b.len() || skip_layout_spec(b, i) == i,
    decreases b.len() - i,
{
    if 0 <= i < b.len() && is_layout_byte(b[i]) {
        lemma_skip_layout_ge(b, i + 1);
    }
}

proof fn lemma_skip_layout_all(b: Seq<u8>, i: int)
    requires
        0 <= i,
    ensures
        forall|k: int| i <= k < skip_layout_spec(b, i) ==> is_layout_byte(#[trigger] b[k]),
        skip_layout_spec(b, i) >= i,
        skip_layout_spec(b, i) < b.len() ==> !is_layout_byte(b[skip_layout_spec(b, i)]),
    decreases b.len() - i,
{
    if 0 <= i < b.len() && is_layout_byte(b[i]) {
        lemma_skip_layout_all(b, i + 1);
    }
}

/// The next token starts where the layout before it ends.
proof fn lemma_next_token_start(b: Seq<u8>, from: int)
    requires
        0 <= from,
        b.len() <= usize::MAX,
    ensures
        next_token_spec(b, from) matches Ok(Some(t)) ==> t.start == skip_layout_spec(b, from),
        next_token_spec(b, from) matches Ok(None) ==> skip_layout_spec(b, from) >= b.len(),
{
    lemma_skip_layout_all(b, from);
}

proof fn lemma_scan_identifier_bounds(b: Seq<u8>, i: int)
    requires
        0 <= i <= b.len(),
    ensures
        i <= scan_identifier_spec(b, i) <= b.len(),
        i < b.len() && is_identifier_continue_byte(b[i]) ==> scan_identifier_spec(b, i) > i,
    decreases b.len() - i,
{
    if i < b.len() && is_identifier_continue_byte(b[i]) {
        lemma_scan_identifier_bounds(b, i + 1);
    }
}

proof fn lemma_scan_hex_bounds(b: Seq<u8>, i: int)
    requires
        0 <= i <= b.len(),
    ensures
        i <= scan_hex_spec(b, i) <= b.len(),
    decreases b.len() - i,
{
    if i < b.len() && is_ascii_hex_spec(b[i]) {
        lemma_scan_hex_bounds(b, i + 1);
    }
}

proof fn lemma_scan_line_bounds(b: Seq<u8>, i: int)
    requires
        0 <= i <= b.len(),
    ensures
        i <= scan_line_spec(b, i) <= b.len(),
    decreases b.len() - i,
{
    if i < b.len() && b[i] != 10 {
        lemma_scan_line_bounds(b, i + 1);
    }
}

proof fn lemma_scan_number_bounds(b: Seq<u8>, i: int, dot: bool, radix: bool)
    requires
        0 <= i <= b.len(),
    ensures
        i <= scan_number_spec(b, i, dot, radix).0 <= b.len(),
        i < b.len() && is_ascii_digit_spec(b[i]) ==> scan_number_spec(b, i, dot, radix).0 > i,
    decreases b.len() - i,
{
    if i < b.len() {
        match number_step_spec(b[i], dot, radix) {
            Some((d, r)) => lemma_scan_number_bounds(b, i + 1, d, r),
            None => {},
        }
    }
}

proof fn lemma_scan_inline_bounds(b: Seq<u8>, i: int, start: int)
    requires
        0 <= i,
    ensures
        scan_inline_spec(b, i, start) matches Ok(e) ==> i < e <= b.len(),
    decreases b.len() - i,
{
    if 0 <= i < b.len() {
        if b[i] == 92 {
            if i + 1 < b.len() {
                lemma_scan_inline_bounds(b, i + 2, start);
            }
        } else if b[i] != 93 && b[i] != 10 {
            lemma_scan_inline_bounds(b, i + 1, start);
        }
    }
}

proof fn lemma_scan_block_bounds(b: Seq<u8>, i: int)
    requires
        0 <= i,
    ensures
        scan_block_spec(b, i) matches Some(e) ==> i < e <= b.len(),
    decreases b.len() - i,
{
    if 0 <= i && i + 1 < b.len() && !(b[i] == 124 && b[i + 1] == 93) {
        lemma_scan_block_bounds(b, i + 1);
    }
}

/// The next token is non-empty, starts where the layout before it ends
/// and ends within the text.
proof fn lemma_next_token_bounds(b: Seq<u8>, from: int)
    requires
        0 <= from,
        b.len() <= usize::MAX,
    ensures
        next_token_spec(b, from) matches Ok(Some(t)) ==> t.start == skip_layout_spec(b, from) && t.start
            < t.end <= b.len(),
{
    lemma_skip_layout_all(b, from);
    lemma_next_token_start(b, from);
    let c = skip_layout_spec(b, from);
    if 0 <= c < b.len() {
        lemma_scan_identifier_bounds(b, c);
        lemma_scan_hex_bounds(b, c + 1);
        if c + 2 <= b.len() {
            lemma_scan_line_bounds(b, c + 2);
        }
        lemma_scan_number_bounds(b, c, false, false);
        if c + 1 <= b.len() {
            lemma_scan_number_bounds(b, c + 1, false, false);
        }
        lemma_scan_inline_bounds(b, c + 1, c);
        lemma_scan_block_bounds(b, c + 2);
    }
}

/// The tokens of a lexed text are non-empty, in source order without
/// overlap, and within the text.
pub(crate) proof fn lemma_lex_tokens_ordered(b: Seq<u8>, from: int)
    requires
        0 <= from,
        b.len() <= usize::MAX,
        lex_spec(b, from) is Ok,
    ensures
        tokens_ordered(lex_spec(b, from)->Ok_0),
        forall|i: int| 0 <= i < lex_spec(b, from)->Ok_0.len() ==> from <= (#[trigger] lex_spec(b, from)->Ok_0[i]).start
            && lex_spec(b, from)->Ok_0[i].end <= b.len(),
    decreases b.len() - from,
{
    lemma_next_token_bounds(b, from);
    lemma_skip_layout_all(b, from);
    let toks = lex_spec(b, from)->Ok_0;
    match next_token_spec(b, from) {
        Ok(Some(t)) => {
            let rest = lex_spec(b, t.end as int)->Ok_0;
            lemma_lex_tokens_ordered(b, t.end as int);
            assert(toks == seq![t] + rest);
            assert forall|i: int| 0 <= i < toks.len() implies (#[trigger] toks[i]).start < toks[i].end && from <= toks[i].start
                && toks[i].end <= b.len() by {
                if i > 0 {
                    assert(toks[i] == rest[i - 1]);
                }
            }
            assert forall|i: int, j: int| 0 <= i < j < toks.len() implies #[trigger] toks[i].end <= #[trigger] toks[j].start by {
                assert(toks[j] == rest[j - 1]);
                if i > 0 {
                    assert(toks[i] == rest[i - 1]);
                }
            }
        },
        _ => {
            assert(toks.len() == 0);
        },
    }
}

/// A number scan reports a dot exactly when it started with one or the
/// bytes it took hold a `.`.
proof fn lemma_scan_number_dot(b: Seq<u8>, i: int, dot: bool, radix: bool)
    requires
        0 <= i <= b.len(),
    ensures
        ({
            let (e, d) = scan_number_spec(b, i, dot, radix);
            &&& i <= e <= b.len()
            &&& d == (dot || b.subrange(i, e).contains(46u8))
        }),
    decreases b.len() - i,
{
    let (e, d) = scan_number_spec(b, i, dot, radix);
    lemma_scan_number_bounds(b, i, dot, radix);
    if i < b.len() {
        match number_step_spec(b[i], dot, radix) {
            Some((d2, r2)) => {
                lemma_scan_number_dot(b, i + 1, d2, r2);
                assert(scan_number_spec(b, i, dot, radix) == scan_number_spec(b, i + 1, d2, r2));
                assert(d2 == (dot || b[i] == 46u8));
                assert(e >= i + 1);
                let tail = b.subrange(i + 1, e);
                assert(b.subrange(i, e) =~= seq![b[i]] + tail);
                let whole = b.subrange(i, e);
                if tail.contains(46u8) {
                    let k = choose|k: int| 0 <= k < tail.len() && #[trigger] tail[k] == 46u8;
                    assert(whole[k + 1] == 46u8);
                }
                if whole.contains(46u8) {
                    let k = choose|k: int| 0 <= k < whole.len() && #[trigger] whole[k] == 46u8;
                    if k > 0 {
                        assert(tail[k - 1] == 46u8);
                    }
                }
                if b[i] == 46u8 {
                    assert(whole[0] == 46u8);
                }
                assert(whole.contains(46u8) == (b[i] == 46u8 || tail.contains(46u8)));
                assert(d == (d2 || tail.contains(46u8)));
            },
            None => {
                assert(b.subrange(i, e) =~= Seq::<u8>::empty());
            },
        }
    } else {
        assert(b.subrange(i, e) =~= Seq::<u8>::empty());
    }
}

/// A number token is a float exactly when its text holds a `.`, with or
/// without a leading minus sign.
proof fn lemma_next_token_number_kind(b: Seq<u8>, from: int)
    requires
        0 <= from,
        b.len() <= usize::MAX,
    ensures
        next_token_spec(b, from) matches Ok(Some(t)) ==> (t.kind == KernelTokenKind::Integer || t.kind
            == KernelTokenKind::Float) ==> (t.kind == KernelTokenKind::Float <==> b.subrange(
            t.start as int,
            t.end as int,
        ).contains(46u8)),
{
    lemma_next_token_bounds(b, from);
    let c = skip_layout_spec(b, from);
    if 0 <= c < b.len() {
        let x = b[c];
        if (x == 45 || is_ascii_digit_spec(x)) && !(x == 40 || x == 41 || x == 123 || x == 125 || x == 91
            || x == 93 || x == 35) && !(x == 59 && c + 1 < b.len() && b[c + 1] == 59) {
            if !(b[c] == 45 && (c + 1 >= b.len() || !is_ascii_digit_spec(b[c + 1]))) {
                let body = if b[c] == 45 { c + 1 } else { c };
                lemma_scan_number_dot(b, body, false, false);
                let e = scan_number_spec(b, body, false, false).0;
                if body == c + 1 {
                    assert(b.subrange(c, e) =~= seq![b[c]] + b.subrange(c + 1, e));
                    let whole = b.subrange(c, e);
                    let tail = b.subrange(c + 1, e);
                    if whole.contains(46u8) {
                        let k = choose|k: int| 0 <= k < whole.len() && #[trigger] whole[k] == 46u8;
                        assert(k > 0);
                        assert(tail[k - 1] == 46u8);
                    }
                    if tail.contains(46u8) {
                        let k = choose|k: int| 0 <= k < tail.len() && #[trigger] tail[k] == 46u8;
                        assert(whole[k + 1] == 46u8);
                    }
                }
            }
        }
    }
}

/// In a lexed text every number token is a float exactly when its text
/// holds a `.`, whether or not it starts with a minus sign.
pub proof fn lemma_lex_float_iff_dot(b: Seq<u8>, from: int)
    requires
        0 <= from,
        b.len() <= usize::MAX,
        lex_spec(b, from) is Ok,
    ensures
        forall|i: int| 0 <= i < lex_spec(b, from)->Ok_0.len() ==> ((#[trigger] lex_spec(b, from)->Ok_0[i]).kind
            == KernelTokenKind::Integer || lex_spec(b, from)->Ok_0[i].kind == KernelTokenKind::Float) ==> (
        lex_spec(b, from)->Ok_0[i].kind == KernelTokenKind::Float <==> b.subrange(
            lex_spec(b, from)->Ok_0[i].start as int,
            lex_spec(b, from)->Ok_0[i].end as int,
        ).contains(46u8)),
    decreases b.len() - from,
{
    lemma_next_token_bounds(b, from);
    lemma_next_token_number_kind(b, from);
    lemma_skip_layout_all(b, from);
    let toks = lex_spec(b, from)->Ok_0;
    match next_token_spec(b, from) {
        Ok(Some(t)) => {
            let rest = lex_spec(b, t.end as int)->Ok_0;
            lemma_lex_float_iff_dot(b, t.end as int);
            assert(toks == seq![t] + rest);
            assert forall|i: int| 0 <= i < toks.len() implies ((#[trigger] toks[i]).kind == KernelTokenKind::Integer
                || toks[i].kind == KernelTokenKind::Float) ==> (toks[i].kind == KernelTokenKind::Float <==> b.subrange(
                toks[i].start as int,
                toks[i].end as int,
            ).contains(46u8)) by {
                if i > 0 {
                    assert(toks[i] == rest[i - 1]);
                }
            }
        },
        _ => {},
    }
}

/// Whether some token spans byte `k`.
pub open spec fn covered(toks: Seq<KernelToken>, k: int) -> bool {
    exists|i: int| 0 <= i < toks.len() && (#[trigger] toks[i]).start <= k < toks[i].end
}

/// Lexing lays the source out as tokens in source order, each after the
/// one before it, with only spaces, tabs and line breaks between and
/// around them.
pub proof fn lemma_lex_in_source_order(b: Seq<u8>, from: int)
    requires
        0 <= from,
        b.len() <= usize::MAX,
        lex_spec(b, from) matches Ok(toks) && tokens_wf(b, toks),
    ensures
        ({
            let toks = lex_spec(b, from)->Ok_0;
            &&& forall|i: int| 0 <= i < toks.len() ==> from <= #[trigger] toks[i].start
            &&& forall|i: int, j: int| 0 <= i < j < toks.len() ==> #[trigger] toks[i].end <= #[trigger] toks[j].start
            &&& forall|k: int| from <= k < b.len() && !covered(toks, k) ==> is_layout_byte(#[trigger] b[k])
        }),
    decreases b.len() - from,
{
    let toks = lex_spec(b, from)->Ok_0;
    lemma_next_token_start(b, from);
    lemma_skip_layout_all(b, from);
    match next_token_spec(b, from) {
        Ok(Some(t)) => {
            assert(toks.len() > 0 && toks[0] == t) by {
                assert(token_wf(b, toks[0]));
            }
            assert(token_wf(b, t));
            assert(from < t.end <= b.len());
            let rest = lex_spec(b, t.end as int)->Ok_0;
            assert(toks == seq![t] + rest);
            assert forall|i: int| 0 <= i < rest.len() implies token_wf(b, #[trigger] rest[i]) by {
                assert(rest[i] == toks[i + 1]);
            }
            lemma_lex_in_source_order(b, t.end as int);
            assert forall|i: int| 0 <= i < toks.len() implies from <= #[trigger] toks[i].start by {
                if i > 0 {
                    assert(toks[i] == rest[i - 1]);
                }
            }
            assert forall|i: int, j: int| 0 <= i < j < toks.len() implies #[trigger] toks[i].end <= #[trigger] toks[j].start by {
                assert(toks[j] == rest[j - 1]);
                if i > 0 {
                    assert(toks[i] == rest[i - 1]);
                }
            }
            assert forall|k: int| from <= k < b.len() && !covered(toks, k) implies is_layout_byte(#[trigger] b[k]) by {
                if k >= t.end {
                    if covered(rest, k) {
                        let i = choose|i: int| 0 <= i < rest.len() && (#[trigger] rest[i]).start <= k < rest[i].end;
                        assert(toks[i + 1] == rest[i]);
                    }
                } else if k >= t.start {
                    assert(toks[0] == t);
                }
            }
        },
        _ => {},
    }
}

// ── The kernel ──────────────────────────────────────────────────────

/// Lexer and parser state over one source text.
pub struct Kernel<'src> {
    source: &'src str,
    cursor: usize,
}

impl<'src> Kernel<'src> {
    /// The bytes of the source text.
    pub closed spec fn source_bytes(&self) -> Seq<u8> {
        self.source.spec_bytes()
    }

    /// The byte offset lexing continues from.
    pub closed spec fn cursor_at(&self) -> int {
        self.cursor as int
    }

    pub fn new(source: &'src str) -> (r: Self)
        ensures
            r.source_bytes() == source.spec_bytes(),
            r.cursor_at() == 0,
    {
        Kernel { source, cursor: 0 }
    }

    /// The token stream of the source from the cursor, comments kept.
    pub fn lex(&mut self) -> (r: Result<Vec<KernelToken>, KernelError>)
        ensures
            final(self).source_bytes() == old(self).source_bytes(),
            match r {
                Ok(tokens) => {
                    &&& lex_spec(old(self).source_bytes(), old(self).cursor_at()) == Ok::<
                        Seq<KernelToken>,
                        KernelError,
                    >(tokens@)
                    &&& tokens_wf(old(self).source_bytes(), tokens@)
                    &&& forall|i: int, j: int| 0 <= i < j < tokens@.len() ==> #[trigger] tokens@[i].end
                        <= #[trigger] tokens@[j].start
                    &&& forall|i: int| 0 <= i < tokens@.len() ==> old(self).cursor_at() <= #[trigger] tokens@[i].start
                    &&& forall|k: int|
                        old(self).cursor_at() <= k < old(self).source_bytes().len() && !covered(tokens@, k)
                            ==> is_layout_byte(#[trigger] old(self).source_bytes()[k])
                    &&& forall|i: int| 0 <= i < tokens@.len() ==> ((#[trigger] tokens@[i]).kind
                        == KernelTokenKind::Integer || tokens@[i].kind == KernelTokenKind::Float) ==> (
                    tokens@[i].kind == KernelTokenKind::Float <==> old(self).source_bytes().subrange(
                        tokens@[i].start as int,
                        tokens@[i].end as int,
                    ).contains(46u8))
                },
                Err(e) => lex_spec(old(self).source_bytes(), old(self).cursor_at()) == Err::<
                    Seq<KernelToken>,
                    KernelError,
                >(e),
            },
    {
        let ghost b = self.source.spec_bytes();
        let ghost src = self.source;
        let ghost from = self.cursor as int;
        let mut tokens: Vec<KernelToken> = Vec::new();
        proof {
            match lex_spec(b, from) {
                Ok(rest) => {
                    assert(tokens@ + rest =~= rest);
                },
                Err(_) => {},
            }
        }
        let mut failure: Option<KernelError> = None;
        loop
            invariant_except_break
                failure is None,
                self.source.spec_bytes() == b,
                self.source == src,
                lex_spec(b, from) == prepend_tokens(tokens@, lex_spec(b, self.cursor as int)),
                tokens_wf(b, tokens@),
            ensures
                self.source == src,
                failure is Some ==> lex_spec(b, from) == Err::<Seq<KernelToken>, KernelError>(
                    failure->Some_0,
                ),
                failure is None ==> lex_spec(b, from) == Ok::<Seq<KernelToken>, KernelError>(
                    tokens@,
                ),
                tokens_wf(b, tokens@),
            decreases b.len() - self.cursor,
        {
            let ghost before = self.cursor as int;
            match self.next_token() {
                Err(e) => {
                    assert(lex_spec(b, before) == Err::<Seq<KernelToken>, KernelError>(e));
                    assert(prepend_tokens(tokens@, lex_spec(b, before)) == Err::<Seq<KernelToken>, KernelError>(e));
                    assert(lex_spec(b, from) == Err::<Seq<KernelToken>, KernelError>(e));
                    failure = Some(e);
                    assert(failure->Some_0 == e);
                    break;
                },
                Ok(None) => {
                    assert(tokens@ + Seq::<KernelToken>::empty() =~= tokens@);
                    break;
                },
                Ok(Some(token)) => {
                    let ghost old_tokens = tokens@;
                    tokens.push(token);
                    proof {
                        match lex_spec(b, token.end as int) {
                            Ok(rest) => {
                                assert(old_tokens + (seq![token] + rest) =~= tokens@ + rest);
                            },
                            Err(_) => {},
                        }
                    }
                },
            }
        }
        let total = self.source.as_bytes().len();
        proof {
            assert(total == b.len());
            if failure is None {
                lemma_lex_in_source_order(b, from);
                lemma_lex_float_iff_dot(b, from);
            }
        }
        match failure {
            Some(e) => Err(e),
            None => Ok(tokens),
        }
    }

    /// The top-level nodes of the source, comments dropped.
    pub fn parse_sequence(&mut self) -> (r: Result<Vec<Node>, KernelError>)
        ensures
            final(self).source_bytes() == old(self).source_bytes(),
            match r {
                Ok(nodes) => {
                    &&& parse_sequence_spec(old(self).source_bytes(), old(self).cursor_at())
                        == Ok::<Seq<NodeModel>, KernelError>(node_models(nodes@))
                    &&& nodes_laid_out(node_models(nodes@), old(self).source_bytes().len())
                    &&& forall|k: int|
                        0 <= k < nodes@.len() ==> node_within(
                            #[trigger] nodes@[k].model(),
                            old(self).source_bytes().len(),
                        )
                },
                Err(e) => parse_sequence_spec(old(self).source_bytes(), old(self).cursor_at())
                    == Err::<Seq<NodeModel>, KernelError>(e),
            },
    {
        let tokens = match self.lex() {
            Ok(tokens) => tokens,
            Err(e) => return Err(e),
        };
        let ghost b = self.source.spec_bytes();
        let mut walker = NodeWalker::new(tokens.as_slice(), self.source);
        let r = walker.parse_top_level();
        proof {
            let toks = tokens@;
            assert(tokens_ordered(toks)) by {
                assert forall|i: int| 0 <= i < toks.len() implies (#[trigger] toks[i]).start < toks[i].end by {
                    assert(token_wf(b, toks[i]));
                }
            }
            assert forall|t: int| 0 <= t < toks.len() implies (#[trigger] toks[t]).end <= b.len() by {
                assert(token_wf(b, toks[t]));
            }
            if r is Ok {
                lemma_skip_comments_ge(toks, 0);
                lemma_parse_top_nested(toks, b, skip_comments_spec(toks, 0));
            }
        }
        r
    }

    /// The single node the source holds; comments are dropped first and
    /// anything after the node is an error.
    pub fn parse_single(&mut self) -> (r: Result<Node, KernelError>)
        ensures
            final(self).source_bytes() == old(self).source_bytes(),
            match r {
                Ok(node) => {
                    &&& parse_single_spec(old(self).source_bytes(), old(self).cursor_at())
                        == Ok::<NodeModel, KernelError>(node.model())
                    &&& node_within(node.model(), old(self).source_bytes().len())
                },
                Err(e) => parse_single_spec(old(self).source_bytes(), old(self).cursor_at())
                    == Err::<NodeModel, KernelError>(e),
            },
    {
        let tokens = match self.lex() {
            Ok(tokens) => tokens,
            Err(e) => return Err(e),
        };
        let filtered = drop_comment_tokens(&tokens, Ghost(self.source.spec_bytes()));
        if filtered.len() == 0 {
            return Err(KernelError::EmptyInput);
        }
        let mut walker = NodeWalker::new(filtered.as_slice(), self.source);
        let node = match walker.parse_one() {
            Ok(node) => node,
            Err(e) => return Err(e),
        };
        match walker.peek() {
            Some(token) => Err(KernelError::UnexpectedEof { position: token.start }),
            None => Ok(node),
        }
    }

    fn next_token(&mut self) -> (r: Result<Option<KernelToken>, KernelError>)
        ensures
            final(self).source == old(self).source,
            r == next_token_spec(old(self).source.spec_bytes(), old(self).cursor as int),
            r matches Ok(Some(t)) ==> {
                &&& token_wf(old(self).source.spec_bytes(), t)
                &&& final(self).cursor == t.end
                &&& old(self).cursor < t.end
            },
    {
        let ghost b = self.source.spec_bytes();
        let ghost src = self.source;
        self.skip_whitespace();
        let bytes = self.source.as_bytes();
        let _byte_count = bytes.len();
        if self.cursor >= bytes.len() {
            return Ok(None);
        }
        let start = self.cursor;
        let byte = bytes[start];
        if byte == 40 {
            self.single(start, KernelTokenKind::RecordOpen)
        } else if byte == 41 {
            self.single(start, KernelTokenKind::RecordClose)
        } else if byte == 123 {
            self.single(start, KernelTokenKind::MapOpen)
        } else if byte == 125 {
            self.single(start, KernelTokenKind::MapClose)
        } else if byte == 91 {
            self.lex_bracket(start)
        } else if byte == 93 {
            self.single(start, KernelTokenKind::VectorClose)
        } else if byte == 59 && self.peek_byte(1) == Some(59u8) {
            self.lex_line_comment(start)
        } else if byte == 35 {
            self.lex_bytes(start)
        } else if byte == 45 || is_ascii_digit(byte) {
            self.lex_number(start)
        } else if Self::is_identifier_start(byte) {
            self.lex_identifier(start)
        } else {
            Err(KernelError::UnclosedString { position: start })
        }
    }

    fn lex_bracket(&mut self, start: usize) -> (r: Result<Option<KernelToken>, KernelError>)
        requires
            start == old(self).cursor,
            start < old(self).source.spec_bytes().len(),
            old(self).source.spec_bytes()[start as int] == 91,
        ensures
            final(self).source == old(self).source,
            r == bracket_token_spec(old(self).source.spec_bytes(), start as int),
            r matches Ok(Some(t)) ==> {
                &&& token_wf(old(self).source.spec_bytes(), t)
                &&& final(self).cursor == t.end
                &&& t.start == start
            },
    {
        if self.peek_byte(1) == Some(124u8) {
            return self.lex_block_string(start);
        }
        let bytes = self.source.as_bytes();
        let _byte_count = bytes.len();
        match Self::probe(bytes, start + 1) {
            BracketProbe::Delimited => self.single(start, KernelTokenKind::VectorOpen),
            BracketProbe::Unclosed => Err(KernelError::UnclosedString { position: start }),
            BracketProbe::Closed(has) => {
                if has {
                    self.lex_inline_string(start)
                } else {
                    self.single(start, KernelTokenKind::VectorOpen)
                }
            },
        }
    }

    fn probe(bytes: &[u8], from: usize) -> (r: BracketProbe)
        requires
            from <= bytes@.len(),
        ensures
            r == probe_spec(bytes@, from as int, false),
    {
        let ghost b = bytes@;
        let _byte_count = bytes.len();
        let mut probe = from;
        let mut has = false;
        while probe < bytes.len()
            invariant
                bytes@ == b,
                from <= probe,
                probe_spec(b, from as int, false) == probe_spec(b, probe as int, has),
            decreases b.len() - probe,
        {
            let byte = bytes[probe];
            if byte == 93 {
                return BracketProbe::Closed(has);
            } else if byte == 92 {
                if probe + 1 >= bytes.len() {
                    return BracketProbe::Unclosed;
                }
                has = true;
                probe = probe + 2;
            } else if byte == 40 || byte == 41 || byte == 123 || byte == 125 || byte == 91 {
                return BracketProbe::Delimited;
            } else if byte == 59 && probe + 1 < bytes.len() && bytes[probe + 1] == 59 {
                return BracketProbe::Delimited;
            } else {
                if !Self::is_quiet(byte) {
                    has = true;
                }
                probe = probe + 1;
            }
        }
        BracketProbe::Unclosed
    }

    fn is_quiet(c: u8) -> (r: bool)
        ensures
            r == is_quiet_byte(c),
    {
        c == 32 || c == 9 || c == 10 || c == 13 || c == 46 || c == 47 || c == 45 || c == 95
            || is_ascii_alnum(c)
    }

    fn lex_inline_string(&mut self, start: usize) -> (r: Result<Option<KernelToken>, KernelError>)
        requires
            start == old(self).cursor,
            start < old(self).source.spec_bytes().len(),
            old(self).source.spec_bytes()[start as int] == 91,
        ensures
            final(self).source == old(self).source,
            r == (match scan_inline_spec(old(self).source.spec_bytes(), start + 1, start as int) {
                Ok(e) => Ok(Some(token_at(KernelTokenKind::InlineString, start as int, e))),
                Err(err) => Err(err),
            }),
            r matches Ok(Some(t)) ==> {
                &&& token_wf(old(self).source.spec_bytes(), t)
                &&& final(self).cursor == t.end
            },
    {
        let ghost b = self.source.spec_bytes();
        let bytes = self.source.as_bytes();
        let _byte_count = bytes.len();
        let mut cursor = self.cursor + 1;
        while cursor < bytes.len()
            invariant
                bytes@ == b,
                self.source.spec_bytes() == b,
                self.source == old(self).source,
                start < cursor,
                start < b.len(),
                b[start as int] == 91,
                scan_inline_spec(b, start + 1, start as int) == scan_inline_spec(
                    b,
                    cursor as int,
                    start as int,
                ),
            decreases b.len() - cursor,
        {
            let byte = bytes[cursor];
            if byte == 92 {
                cursor = cursor + 1;
                if cursor >= bytes.len() {
                    self.cursor = cursor;
                    return Err(KernelError::InvalidEscape { position: cursor });
                }
                cursor = cursor + 1;
            } else if byte == 93 {
                cursor = cursor + 1;
                self.cursor = cursor;
                return Ok(Some(KernelToken { kind: KernelTokenKind::InlineString, start, end: cursor }));
            } else if byte == 10 {
                self.cursor = cursor;
                return Err(KernelError::UnclosedString { position: start });
            } else {
                cursor = cursor + 1;
            }
        }
        self.cursor = cursor;
        Err(KernelError::UnclosedString { position: start })
    }

    fn lex_block_string(&mut self, start: usize) -> (r: Result<Option<KernelToken>, KernelError>)
        requires
            start == old(self).cursor,
            start + 1 < old(self).source.spec_bytes().len(),
            old(self).source.spec_bytes()[start as int] == 91,
            old(self).source.spec_bytes()[start + 1] == 124,
        ensures
            final(self).source == old(self).source,
            r == (match scan_block_spec(old(self).source.spec_bytes(), start + 2) {
                Some(e) => Ok(Some(token_at(KernelTokenKind::BlockString, start as int, e))),
                None => Err(KernelError::UnclosedBlockString { position: start }),
            }),
            r matches Ok(Some(t)) ==> {
                &&& token_wf(old(self).source.spec_bytes(), t)
                &&& final(self).cursor == t.end
            },
    {
        let ghost b = self.source.spec_bytes();
        let bytes = self.source.as_bytes();
        let _byte_count = bytes.len();
        let mut cursor = self.cursor + 2;
        while cursor < bytes.len() - 1
            invariant
                bytes@ == b,
                self.source.spec_bytes() == b,
                self.source == old(self).source,
                start + 2 <= cursor <= b.len(),
                b.len() >= 2,
                b[start as int] == 91,
                b[start + 1] == 124,
                scan_block_spec(b, start + 2) == scan_block_spec(b, cursor as int),
            decreases b.len() - cursor,
        {
            if bytes[cursor] == 124 && bytes[cursor + 1] == 93 {
                cursor = cursor + 2;
                self.cursor = cursor;
                return Ok(Some(KernelToken { kind: KernelTokenKind::BlockString, start, end: cursor }));
            }
            cursor = cursor + 1;
        }
        self.cursor = cursor;
        Err(KernelError::UnclosedBlockString { position: start })
    }

    fn lex_line_comment(&mut self, start: usize) -> (r: Result<Option<KernelToken>, KernelError>)
        requires
            start == old(self).cursor,
            start + 1 < old(self).source.spec_bytes().len(),
            old(self).source.spec_bytes()[start as int] == 59,
        ensures
            final(self).source == old(self).source,
            r == Ok::<Option<KernelToken>, KernelError>(
                Some(
                    token_at(
                        KernelTokenKind::LineComment,
                        start as int,
                        scan_line_spec(old(self).source.spec_bytes(), start + 2),
                    ),
                ),
            ),
            r matches Ok(Some(t)) ==> {
                &&& token_wf(old(self).source.spec_bytes(), t)
                &&& final(self).cursor == t.end
            },
    {
        let ghost b = self.source.spec_bytes();
        let ghost src = self.source;
        let bytes = self.source.as_bytes();
        let _byte_count = bytes.len();
        self.cursor = self.cursor + 2;
        while self.cursor < bytes.len() && bytes[self.cursor] != 10
            invariant
                self.source.spec_bytes() == b,
                self.source == src,
                bytes@ == b,
                start + 2 <= self.cursor <= b.len(),
                scan_line_spec(b, start + 2) == scan_line_spec(b, self.cursor as int),
            decreases b.len() - self.cursor,
        {
            self.cursor = self.cursor + 1;
        }
        Ok(Some(KernelToken { kind: KernelTokenKind::LineComment, start, end: self.cursor }))
    }

    fn lex_bytes(&mut self, start: usize) -> (r: Result<Option<KernelToken>, KernelError>)
        requires
            start == old(self).cursor,
            start < old(self).source.spec_bytes().len(),
            old(self).source.spec_bytes()[start as int] == 35,
        ensures
            final(self).source == old(self).source,
            r == ({
                let b = old(self).source.spec_bytes();
                let e = scan_hex_spec(b, start + 1);
                let n = e - (start + 1);
                if n == 0 || n % 2 != 0 {
                    Err(KernelError::InvalidByteLiteral { position: start })
                } else {
                    Ok(Some(token_at(KernelTokenKind::Bytes, start as int, e)))
                }
            }),
            r matches Ok(Some(t)) ==> {
                &&& token_wf(old(self).source.spec_bytes(), t)
                &&& final(self).cursor == t.end
            },
    {
        let ghost b = self.source.spec_bytes();
        let ghost src = self.source;
        let bytes = self.source.as_bytes();
        let _byte_count = bytes.len();
        self.cursor = self.cursor + 1;
        let body_start = self.cursor;
        while self.cursor < bytes.len() && is_ascii_hex(bytes[self.cursor])
            invariant
                self.source.spec_bytes() == b,
                self.source == src,
                bytes@ == b,
                body_start == start + 1,
                body_start <= self.cursor <= b.len(),
                scan_hex_spec(b, start + 1) == scan_hex_spec(b, self.cursor as int),
                forall|k: int| body_start <= k < self.cursor ==> is_ascii_hex_spec(b[k]),
            decreases b.len() - self.cursor,
        {
            self.cursor = self.cursor + 1;
        }
        let body_len = self.cursor - body_start;
        if body_len == 0 || body_len % 2 != 0 {
            return Err(KernelError::InvalidByteLiteral { position: start });
        }
        Ok(Some(KernelToken { kind: KernelTokenKind::Bytes, start, end: self.cursor }))
    }

    fn number_step(c: u8, dot: bool, radix: bool) -> (r: Option<(bool, bool)>)
        ensures
            r == number_step_spec(c, dot, radix),
    {
        if is_ascii_digit(c) || c == 95 {
            Some((dot, radix))
        } else if c == 46 && !dot && !radix {
            Some((true, radix))
        } else if (c == 120 || c == 88 || c == 98 || c == 66 || c == 111 || c == 79) && !dot {
            Some((dot, true))
        } else if ((97 <= c && c <= 102) || (65 <= c && c <= 70)) && radix {
            Some((dot, radix))
        } else {
            None
        }
    }

    fn lex_number(&mut self, start: usize) -> (r: Result<Option<KernelToken>, KernelError>)
        requires
            start == old(self).cursor,
            start < old(self).source.spec_bytes().len(),
            old(self).source.spec_bytes()[start as int] == 45 || is_ascii_digit_spec(
                old(self).source.spec_bytes()[start as int],
            ),
        ensures
            final(self).source == old(self).source,
            r == number_token_spec(old(self).source.spec_bytes(), start as int),
            r matches Ok(Some(t)) ==> {
                &&& token_wf(old(self).source.spec_bytes(), t)
                &&& final(self).cursor == t.end
            },
    {
        let ghost b = self.source.spec_bytes();
        let ghost src = self.source;
        let bytes = self.source.as_bytes();
        let _byte_count = bytes.len();
        if bytes[self.cursor] == 45 {
            self.cursor = self.cursor + 1;
            if self.cursor >= bytes.len() || !is_ascii_digit(bytes[self.cursor]) {
                return Err(KernelError::InvalidNumber { position: start });
            }
        }
        let body = self.cursor;
        let mut dot = false;
        let mut radix = false;
        loop
            invariant
                self.source.spec_bytes() == b,
                self.source == src,
                bytes@ == b,
                body == (if b[start as int] == 45 { start + 1 } else { start as int }),
                body < b.len(),
                is_ascii_digit_spec(b[body as int]),
                body <= self.cursor <= b.len(),
                self.cursor == body ==> !dot && !radix,
                body < self.cursor ==> b[self.cursor - 1] < 0x80,
                scan_number_spec(b, body as int, false, false) == scan_number_spec(
                    b,
                    self.cursor as int,
                    dot,
                    radix,
                ),
            ensures
                self.cursor >= b.len() || number_step_spec(b[self.cursor as int], dot, radix) is None,
            decreases b.len() - self.cursor,
        {
            if self.cursor >= bytes.len() {
                break;
            }
            match Self::number_step(bytes[self.cursor], dot, radix) {
                Some((d, x)) => {
                    dot = d;
                    radix = x;
                    self.cursor = self.cursor + 1;
                },
                None => {
                    break;
                },
            }
        }
        let kind = if dot {
            KernelTokenKind::Float
        } else {
            KernelTokenKind::Integer
        };
        Ok(Some(KernelToken { kind, start, end: self.cursor }))
    }

    fn lex_identifier(&mut self, start: usize) -> (r: Result<Option<KernelToken>, KernelError>)
        requires
            start == old(self).cursor,
            start < old(self).source.spec_bytes().len(),
            is_identifier_start_byte(old(self).source.spec_bytes()[start as int]),
        ensures
            final(self).source == old(self).source,
            r == Ok::<Option<KernelToken>, KernelError>(
                Some(
                    token_at(
                        KernelTokenKind::Identifier,
                        start as int,
                        scan_identifier_spec(old(self).source.spec_bytes(), start as int),
                    ),
                ),
            ),
            r matches Ok(Some(t)) ==> {
                &&& token_wf(old(self).source.spec_bytes(), t)
                &&& final(self).cursor == t.end
            },
    {
        let ghost b = self.source.spec_bytes();
        let ghost src = self.source;
        let bytes = self.source.as_bytes();
        let _byte_count = bytes.len();
        while self.cursor < bytes.len() && Self::is_identifier_continue(bytes[self.cursor])
            invariant
                self.source.spec_bytes() == b,
                self.source == src,
                bytes@ == b,
                start <= self.cursor <= b.len(),
                scan_identifier_spec(b, start as int) == scan_identifier_spec(
                    b,
                    self.cursor as int,
                ),
                forall|k: int| start <= k < self.cursor ==> is_identifier_continue_byte(b[k]),
            decreases b.len() - self.cursor,
        {
            self.cursor = self.cursor + 1;
        }
        Ok(Some(KernelToken { kind: KernelTokenKind::Identifier, start, end: self.cursor }))
    }

    fn single(&mut self, start: usize, kind: KernelTokenKind) -> (r: Result<
        Option<KernelToken>,
        KernelError,
    >)
        requires
            start == old(self).cursor,
            start < old(self).source.spec_bytes().len(),
            old(self).source.spec_bytes()[start as int] < 0x80,
            kind != KernelTokenKind::InlineString,
            kind != KernelTokenKind::BlockString,
        ensures
            final(self).source == old(self).source,
            r == Ok::<Option<KernelToken>, KernelError>(
                Some(token_at(kind, start as int, start + 1)),
            ),
            final(self).cursor == start + 1,
            token_wf(old(self).source.spec_bytes(), token_at(kind, start as int, start + 1)),
    {
        let bytes = self.source.as_bytes();
        let _byte_count = bytes.len();
        self.cursor = self.cursor + 1;
        Ok(Some(KernelToken { kind, start, end: self.cursor }))
    }

    fn skip_whitespace(&mut self)
        ensures
            final(self).source == old(self).source,
            final(self).cursor == skip_layout_spec(
                old(self).source.spec_bytes(),
                old(self).cursor as int,
            ),
            old(self).cursor <= final(self).cursor,
    {
        let ghost b = self.source.spec_bytes();
        let ghost src = self.source;
        let ghost from = self.cursor as int;
        let bytes = self.source.as_bytes();
        let _byte_count = bytes.len();
        while self.cursor < bytes.len() && Self::is_layout(bytes[self.cursor])
            invariant
                self.source.spec_bytes() == b,
                self.source == src,
                bytes@ == b,
                from <= self.cursor,
                skip_layout_spec(b, from) == skip_layout_spec(b, self.cursor as int),
            decreases b.len() - self.cursor,
        {
            self.cursor = self.cursor + 1;
        }
    }

    fn is_layout(c: u8) -> (r: bool)
        ensures
            r == is_layout_byte(c),
    {
        c == 32 || c == 9 || c == 10 || c == 13
    }

    fn peek_byte(&self, offset: usize) -> (r: Option<u8>)
        requires
            offset <= 1,
            self.cursor < self.source.spec_bytes().len(),
        ensures
            self.cursor + offset < self.source.spec_bytes().len() ==> r == Some(
                self.source.spec_bytes()[self.cursor + offset],
            ),
            self.cursor + offset >= self.source.spec_bytes().len() ==> r is None,
    {
        let bytes = self.source.as_bytes();
        let _byte_count = bytes.len();
        if self.cursor + offset < bytes.len() {
            Some(bytes[self.cursor + offset])
        } else {
            None
        }
    }

    fn is_identifier_start(c: u8) -> (r: bool)
        ensures
            r == is_identifier_start_byte(c),
    {
        is_ascii_alpha(c) || c == 95
    }

    fn is_identifier_continue(c: u8) -> (r: bool)
        ensures
            r == is_identifier_continue_byte(c),
    {
        is_ascii_alnum(c) || c == 95 || c == 45
    }
}

// ── The parser over the token stream ─────────────────────────────────

/// First token index at or after `i` that is not a comment.
pub open spec fn skip_comments_spec(toks: Seq<KernelToken>, i: int) -> int
    decreases toks.len() - i,
{
    if 0 <= i < toks.len() && toks[i].kind == KernelTokenKind::LineComment {
        skip_comments_spec(toks, i + 1)
    } else {
        i
    }
}

/// The node a single leaf token stands for.
pub open spec fn leaf_model(b: Seq<u8>, t: KernelToken, kind: NodeKind) -> NodeModel {
    let text = if kind == NodeKind::InlineString {
        b.subrange(t.start + 1, t.end - 1)
    } else if kind == NodeKind::BlockString {
        b.subrange(t.start + 2, t.end - 2)
    } else {
        b.subrange(t.start as int, t.end as int)
    };
    NodeModel { kind, start: t.start, end: t.end, children: Seq::empty(), text }
}

pub open spec fn leaf_kind_of(k: KernelTokenKind) -> Option<NodeKind> {
    match k {
        KernelTokenKind::Identifier => Some(NodeKind::Identifier),
        KernelTokenKind::Integer => Some(NodeKind::Integer),
        KernelTokenKind::Float => Some(NodeKind::Float),
        KernelTokenKind::InlineString => Some(NodeKind::InlineString),
        KernelTokenKind::BlockString => Some(NodeKind::BlockString),
        KernelTokenKind::Bytes => Some(NodeKind::Bytes),
        _ => None,
    }
}

/// For an opening token: the node kind, the closing token kind, and the
/// opening character.
pub open spec fn container_of(k: KernelTokenKind) -> Option<(NodeKind, KernelTokenKind, char)> {
    match k {
        KernelTokenKind::RecordOpen => Some((NodeKind::Record, KernelTokenKind::RecordClose, '(')),
        KernelTokenKind::VectorOpen => Some((NodeKind::Vector, KernelTokenKind::VectorClose, '[')),
        KernelTokenKind::MapOpen => Some((NodeKind::Mapping, KernelTokenKind::MapClose, '{')),
        _ => None,
    }
}

pub open spec fn closer_char(k: KernelTokenKind) -> Option<char> {
    match k {
        KernelTokenKind::RecordClose => Some(')'),
        KernelTokenKind::VectorClose => Some(']'),
        KernelTokenKind::MapClose => Some('}'),
        _ => None,
    }
}

/// One node, starting from token `i` after any comments; the result pairs
/// the node with the index of the token after it.
pub open spec fn parse_one_spec(toks: Seq<KernelToken>, b: Seq<u8>, i: int) -> Result<
    (NodeModel, int),
    KernelError,
>
    decreases toks.len() - i, 2int,
{
    let j = skip_comments_spec(toks, i);
    if j < i || j < 0 {
        Err(KernelError::EmptyInput)
    } else if j >= toks.len() {
        Err(KernelError::UnexpectedEof { position: b.len() as usize })
    } else {
        parse_node_spec(toks, b, j)
    }
}

/// The node whose first token is `toks[j]`.
pub open spec fn parse_node_spec(toks: Seq<KernelToken>, b: Seq<u8>, j: int) -> Result<
    (NodeModel, int),
    KernelError,
>
    decreases toks.len() - j, 0int,
{
    if j < 0 || j >= toks.len() {
        Err(KernelError::EmptyInput)
    } else {
        let t = toks[j];
        match container_of(t.kind) {
            Some((kind, closer, opener)) => match parse_items_spec(
                toks,
                b,
                j + 1,
                closer,
                opener,
                t.start,
            ) {
                Ok((children, end, next)) => Ok(
                    (NodeModel { kind, start: t.start, end, children, text: Seq::empty() }, next),
                ),
                Err(e) => Err(e),
            },
            None => match leaf_kind_of(t.kind) {
                Some(kind) => Ok((leaf_model(b, t, kind), j + 1)),
                None => match closer_char(t.kind) {
                    Some(c) => Err(KernelError::UnexpectedClose { closer: c, position: t.start }),
                    None => parse_one_spec(toks, b, j + 1),
                },
            },
        }
    }
}

/// The children of a delimiter opened at byte `open_start`, from token
/// `i` up to its `closer`; the result holds the children, the end byte of
/// the closer, and the index of the token after it.
pub open spec fn parse_items_spec(
    toks: Seq<KernelToken>,
    b: Seq<u8>,
    i: int,
    closer: KernelTokenKind,
    opener: char,
    open_start: usize,
) -> Result<(Seq<NodeModel>, usize, int), KernelError>
    decreases toks.len() - i, 1int,
{
    let j = skip_comments_spec(toks, i);
    if j < i || j < 0 {
        Err(KernelError::EmptyInput)
    } else if j >= toks.len() {
        Err(KernelError::UnclosedDelimiter { opener, position: open_start })
    } else if toks[j].kind == closer {
        Ok((Seq::empty(), toks[j].end, j + 1))
    } else {
        match parse_node_spec(toks, b, j) {
            Err(e) => Err(e),
            Ok((node, k)) => {
                if j < k <= toks.len() {
                    match parse_items_spec(toks, b, k, closer, opener, open_start) {
                        Ok((rest, end, next)) => Ok((seq![node] + rest, end, next)),
                        Err(e) => Err(e),
                    }
                } else {
                    Err(KernelError::EmptyInput)
                }
            },
        }
    }
}

/// Top-level nodes from token `i` to the end of the stream.
pub open spec fn parse_top_spec(toks: Seq<KernelToken>, b: Seq<u8>, i: int) -> Result<
    Seq<NodeModel>,
    KernelError,
>
    decreases toks.len() - i,
{
    if i < 0 || i >= toks.len() {
        Ok(Seq::empty())
    } else {
        match parse_one_spec(toks, b, i) {
            Err(e) => Err(e),
            Ok((node, k)) => {
                let next = skip_comments_spec(toks, k);
                if i < k <= next <= toks.len() {
                    match parse_top_spec(toks, b, next) {
                        Ok(rest) => Ok(seq![node] + rest),
                        Err(e) => Err(e),
                    }
                } else {
                    Err(KernelError::EmptyInput)
                }
            },
        }
    }
}

/// The tokens of a stream with the line comments removed.
pub open spec fn drop_comments_spec(toks: Seq<KernelToken>) -> Seq<KernelToken>
    decreases toks.len(),
{
    if toks.len() == 0 {
        Seq::empty()
    } else {
        let rest = drop_comments_spec(toks.drop_last());
        if toks.last().kind == KernelTokenKind::LineComment {
            rest
        } else {
            rest.push(toks.last())
        }
    }
}

/// Every top-level node of the text from offset `from`.
pub open spec fn parse_sequence_spec(b: Seq<u8>, from: int) -> Result<Seq<NodeModel>, KernelError> {
    match lex_spec(b, from) {
        Err(e) => Err(e),
        Ok(toks) => parse_top_spec(toks, b, skip_comments_spec(toks, 0)),
    }
}

// ── Nesting of parsed nodes ─────────────────────────────────────────

/// Tokens that are non-empty and in source order, each ending before the
/// next starts.
pub open spec fn tokens_ordered(toks: Seq<KernelToken>) -> bool {
    &&& forall|i: int| 0 <= i < toks.len() ==> (#[trigger] toks[i]).start < toks[i].end
    &&& forall|i: int, j: int| 0 <= i < j < toks.len() ==> #[trigger] toks[i].end <= #[trigger] toks[j].start
}

/// A node spans a non-empty range; its children lie strictly inside it,
/// in source order without overlap, and nest in turn.
pub open spec fn node_nested(n: NodeModel) -> bool
    decreases n,
{
    &&& n.start < n.end
    &&& forall|i: int| 0 <= i < n.children.len() ==> n.start < (#[trigger] n.children[i]).start
        && n.children[i].end < n.end
    &&& forall|i: int, j: int| 0 <= i < j < n.children.len() ==> (#[trigger] n.children[i]).end
        <= (#[trigger] n.children[j]).start
    &&& forall|i: int| 0 <= i < n.children.len() ==> node_nested(#[trigger] n.children[i])
}

/// Nodes that nest, in source order without overlap, each ending within
/// `len` bytes.
pub open spec fn nodes_laid_out(ns: Seq<NodeModel>, len: nat) -> bool {
    &&& forall|i: int| 0 <= i < ns.len() ==> node_nested(#[trigger] ns[i]) && ns[i].end <= len
    &&& forall|i: int, j: int| 0 <= i < j < ns.len() ==> (#[trigger] ns[i]).end <= (#[trigger] ns[j]).start
}

pub(crate) proof fn lemma_skip_comments_ge(toks: Seq<KernelToken>, i: int)
    requires
        0 <= i,
    ensures
        skip_comments_spec(toks, i) >= i,
    decreases toks.len() - i,
{
    if 0 <= i < toks.len() && toks[i].kind == KernelTokenKind::LineComment {
        lemma_skip_comments_ge(toks, i + 1);
    }
}

proof fn lemma_parse_node_nested(toks: Seq<KernelToken>, b: Seq<u8>, j: int)
    requires
        tokens_ordered(toks),
        parse_node_spec(toks, b, j) is Ok,
    ensures
        ({
            let (n, k) = parse_node_spec(toks, b, j)->Ok_0;
            &&& 0 <= j < k <= toks.len()
            &&& toks[j].start <= n.start
            &&& n.end == toks[k - 1].end
            &&& node_nested(n)
        }),
    decreases toks.len() - j, 0int,
{
    let t = toks[j];
    match container_of(t.kind) {
        Some((kind, closer, opener)) => {
            lemma_parse_items_nested(toks, b, j + 1, closer, opener, t.start);
            let (cs, end, next) = parse_items_spec(toks, b, j + 1, closer, opener, t.start)->Ok_0;
            let n = parse_node_spec(toks, b, j)->Ok_0.0;
            assert(t.end <= toks[next - 1].start);
            assert forall|i: int| 0 <= i < n.children.len() implies n.start < (#[trigger] n.children[i]).start
                && n.children[i].end < n.end by {
                assert(toks[j].end <= toks[j + 1].start);
            }
        },
        None => match leaf_kind_of(t.kind) {
            Some(kind) => {},
            None => match closer_char(t.kind) {
                Some(c) => {},
                None => {
                    lemma_parse_one_nested(toks, b, j + 1);
                    assert(toks[j].end <= toks[j + 1].start);
                },
            },
        },
    }
}

proof fn lemma_parse_one_nested(toks: Seq<KernelToken>, b: Seq<u8>, i: int)
    requires
        0 <= i,
        tokens_ordered(toks),
        parse_one_spec(toks, b, i) is Ok,
    ensures
        ({
            let (n, k) = parse_one_spec(toks, b, i)->Ok_0;
            &&& i < k <= toks.len()
            &&& toks[i].start <= n.start
            &&& n.end == toks[k - 1].end
            &&& node_nested(n)
        }),
    decreases toks.len() - i, 2int,
{
    lemma_skip_comments_ge(toks, i);
    let j = skip_comments_spec(toks, i);
    lemma_parse_node_nested(toks, b, j);
    if i < j {
        assert(toks[i].end <= toks[j].start);
    }
}

proof fn lemma_parse_items_nested(
    toks: Seq<KernelToken>,
    b: Seq<u8>,
    i: int,
    closer: KernelTokenKind,
    opener: char,
    open_start: usize,
)
    requires
        0 <= i,
        tokens_ordered(toks),
        parse_items_spec(toks, b, i, closer, opener, open_start) is Ok,
    ensures
        ({
            let (cs, end, next) = parse_items_spec(toks, b, i, closer, opener, open_start)->Ok_0;
            &&& i < next <= toks.len()
            &&& end == toks[next - 1].end
            &&& forall|a: int| 0 <= a < cs.len() ==> toks[i].start <= (#[trigger] cs[a]).start
                && cs[a].end <= toks[next - 1].start && node_nested(cs[a])
            &&& forall|a: int, c: int| 0 <= a < c < cs.len() ==> (#[trigger] cs[a]).end <= (#[trigger] cs[c]).start
        }),
    decreases toks.len() - i, 1int,
{
    lemma_skip_comments_ge(toks, i);
    let j = skip_comments_spec(toks, i);
    if toks[j].kind != closer {
        lemma_parse_node_nested(toks, b, j);
        let (node, k) = parse_node_spec(toks, b, j)->Ok_0;
        lemma_parse_items_nested(toks, b, k, closer, opener, open_start);
        let (rest, end, next) = parse_items_spec(toks, b, k, closer, opener, open_start)->Ok_0;
        let cs = seq![node] + rest;
        assert(parse_items_spec(toks, b, i, closer, opener, open_start)->Ok_0 == (cs, end, next));
        if i < j {
            assert(toks[i].end <= toks[j].start);
        }
        if k - 1 < next - 1 {
            assert(toks[k - 1].end <= toks[next - 1].start);
        }
        assert(toks[k - 1].end <= toks[k].start);
        assert(toks[i].start <= toks[k].start) by {
            assert(toks[i].start < toks[i].end);
            if i < k {
                assert(toks[i].end <= toks[k].start);
            }
        }
        assert forall|a: int| 0 <= a < cs.len() implies toks[i].start <= (#[trigger] cs[a]).start
            && cs[a].end <= toks[next - 1].start && node_nested(cs[a]) by {
            if a > 0 {
                assert(cs[a] == rest[a - 1]);
            }
        }
        assert forall|a: int, c: int| 0 <= a < c < cs.len() implies (#[trigger] cs[a]).end <= (#[trigger] cs[c]).start by {
            assert(cs[c] == rest[c - 1]);
            if a > 0 {
                assert(cs[a] == rest[a - 1]);
            }
        }
    }
}

pub(crate) proof fn lemma_parse_top_nested(toks: Seq<KernelToken>, b: Seq<u8>, i: int)
    requires
        0 <= i,
        tokens_ordered(toks),
        forall|t: int| 0 <= t < toks.len() ==> (#[trigger] toks[t]).end <= b.len(),
        parse_top_spec(toks, b, i) is Ok,
    ensures
        nodes_laid_out(parse_top_spec(toks, b, i)->Ok_0, b.len()),
        forall|a: int| 0 <= a < parse_top_spec(toks, b, i)->Ok_0.len() ==> toks[i].start <= (
        #[trigger] parse_top_spec(toks, b, i)->Ok_0[a]).start,
    decreases toks.len() - i,
{
    if 0 <= i < toks.len() {
        lemma_parse_one_nested(toks, b, i);
        let (node, k) = parse_one_spec(toks, b, i)->Ok_0;
        let next = skip_comments_spec(toks, k);
        lemma_parse_top_nested(toks, b, next);
        let rest = parse_top_spec(toks, b, next)->Ok_0;
        let ns = seq![node] + rest;
        assert(parse_top_spec(toks, b, i)->Ok_0 == ns);
        if next < toks.len() {
            assert(toks[k - 1].end <= toks[next].start);
            assert(toks[i].start < toks[i].end);
            if i < next {
                assert(toks[i].end <= toks[next].start);
            }
        }
        assert forall|a: int| 0 <= a < ns.len() implies node_nested(#[trigger] ns[a]) && ns[a].end <= b.len()
            && toks[i].start <= ns[a].start by {
            if a > 0 {
                assert(ns[a] == rest[a - 1]);
            }
        }
        assert forall|a: int, c: int| 0 <= a < c < ns.len() implies (#[trigger] ns[a]).end <= (#[trigger] ns[c]).start by {
            assert(ns[c] == rest[c - 1]);
            if a > 0 {
                assert(ns[a] == rest[a - 1]);
            }
        }
    }
}

/// The one node of the text from offset `from`.
pub open spec fn parse_single_spec(b: Seq<u8>, from: int) -> Result<NodeModel, KernelError> {
    match lex_spec(b, from) {
        Err(e) => Err(e),
        Ok(toks) => {
            let f = drop_comments_spec(toks);
            if f.len() == 0 {
                Err(KernelError::EmptyInput)
            } else {
                match parse_one_spec(f, b, skip_comments_spec(f, 0)) {
                    Err(e) => Err(e),
                    Ok((node, k)) => {
                        if 0 <= k < f.len() {
                            Err(KernelError::UnexpectedEof { position: f[k].start })
                        } else {
                            Ok(node)
                        }
                    },
                }
            }
        },
    }
}

fn drop_comment_tokens(tokens: &Vec<KernelToken>, Ghost(b): Ghost<Seq<u8>>) -> (r: Vec<KernelToken>)
    requires
        tokens_wf(b, tokens@),
    ensures
        r@ == drop_comments_spec(tokens@),
        tokens_wf(b, r@),
{
    let mut out: Vec<KernelToken> = Vec::new();
    let mut i: usize = 0;
    while i < tokens.len()
        invariant
            0 <= i <= tokens@.len(),
            out@ == drop_comments_spec(tokens@.subrange(0, i as int)),
            tokens_wf(b, tokens@),
            tokens_wf(b, out@),
        decreases tokens@.len() - i,
    {
        let token = tokens[i];
        assert(tokens@.subrange(0, i + 1).drop_last() =~= tokens@.subrange(0, i as int));
        if token.kind != KernelTokenKind::LineComment {
            assert(token_wf(b, tokens@[i as int]));
            out.push(token);
        }
        i = i + 1;
    }
    assert(tokens@.subrange(0, tokens@.len() as int) =~= tokens@);
    out
}


pub open spec fn prepend_models(
    acc: Seq<NodeModel>,
    r: Result<(Seq<NodeModel>, usize, int), KernelError>,
) -> Result<(Seq<NodeModel>, usize, int), KernelError> {
    match r {
        Ok((rest, end, next)) => Ok((acc + rest, end, next)),
        Err(e) => Err(e),
    }
}

pub open spec fn prepend_top(acc: Seq<NodeModel>, r: Result<Seq<NodeModel>, KernelError>) -> Result<
    Seq<NodeModel>,
    KernelError,
> {
    match r {
        Ok(rest) => Ok(acc + rest),
        Err(e) => Err(e),
    }
}

/// Walker over a token stream that builds the `Node` tree.
struct NodeWalker<'tokens, 'src> {
    tokens: &'tokens [KernelToken],
    cursor: usize,
    source: &'src str,
}

impl<'tokens, 'src> NodeWalker<'tokens, 'src> {
    spec fn wf(&self) -> bool {
        &&& tokens_wf(self.source.spec_bytes(), self.tokens@)
        &&& self.cursor <= self.tokens@.len()
    }

    fn new(tokens: &'tokens [KernelToken], source: &'src str) -> (r: Self)
        requires
            tokens_wf(source.spec_bytes(), tokens@),
        ensures
            r.tokens == tokens,
            r.source == source,
            r.cursor == skip_comments_spec(tokens@, 0),
            r.wf(),
    {
        let mut walker = NodeWalker { tokens, cursor: 0, source };
        walker.skip_comments();
        walker
    }

    fn parse_top_level(&mut self) -> (r: Result<Vec<Node>, KernelError>)
        requires
            old(self).wf(),
        ensures
            match r {
                Ok(nodes) => {
                    &&& parse_top_spec(
                        old(self).tokens@,
                        old(self).source.spec_bytes(),
                        old(self).cursor as int,
                    ) == Ok::<Seq<NodeModel>, KernelError>(node_models(nodes@))
                    &&& forall|k: int|
                        0 <= k < nodes@.len() ==> node_within(
                            #[trigger] nodes@[k].model(),
                            old(self).source.spec_bytes().len(),
                        )
                },
                Err(e) => parse_top_spec(
                    old(self).tokens@,
                    old(self).source.spec_bytes(),
                    old(self).cursor as int,
                ) == Err::<Seq<NodeModel>, KernelError>(e),
            },
    {
        let ghost toks = self.tokens@;
        let ghost b = self.source.spec_bytes();
        let ghost from = self.cursor as int;
        let _token_count = self.tokens.len();
        let mut nodes: Vec<Node> = Vec::new();
        let mut failure: Option<KernelError> = None;
        proof {
            match parse_top_spec(toks, b, from) {
                Ok(rest) => {
                    assert(node_models(nodes@) + rest =~= rest);
                },
                Err(_) => {},
            }
        }
        loop
            invariant_except_break
                failure is None,
                self.tokens@ == toks,
                self.source.spec_bytes() == b,
                self.wf(),
                parse_top_spec(toks, b, from) == prepend_top(
                    node_models(nodes@),
                    parse_top_spec(toks, b, self.cursor as int),
                ),
                forall|k: int| 0 <= k < nodes@.len() ==> node_within(#[trigger] nodes@[k].model(), b.len()),
            ensures
                failure is Some ==> parse_top_spec(toks, b, from) == Err::<
                    Seq<NodeModel>,
                    KernelError,
                >(failure->Some_0),
                failure is None ==> parse_top_spec(toks, b, from) == Ok::<
                    Seq<NodeModel>,
                    KernelError,
                >(node_models(nodes@)),
                forall|k: int| 0 <= k < nodes@.len() ==> node_within(#[trigger] nodes@[k].model(), b.len()),
            decreases toks.len() - self.cursor,
        {
            if self.cursor >= self.tokens.len() {
                assert(node_models(nodes@) + Seq::<NodeModel>::empty() =~= node_models(nodes@));
                break;
            }
            let ghost at = self.cursor as int;
            match self.parse_one() {
                Err(e) => {
                    failure = Some(e);
                    break;
                },
                Ok(node) => {
                    let ghost old_nodes = nodes@;
                    nodes.push(node);
                    self.skip_comments();
                    proof {
                        lemma_node_models_push(old_nodes, node);
                        match parse_top_spec(toks, b, self.cursor as int) {
                            Ok(rest) => {
                                assert(node_models(old_nodes) + (seq![node.model()] + rest)
                                    =~= node_models(nodes@) + rest);
                            },
                            Err(_) => {},
                        }
                    }
                },
            }
        }
        match failure {
            Some(e) => Err(e),
            None => Ok(nodes),
        }
    }

    fn parse_one(&mut self) -> (r: Result<Node, KernelError>)
        requires
            old(self).wf(),
        ensures
            final(self).tokens == old(self).tokens,
            final(self).source == old(self).source,
            old(self).cursor <= final(self).cursor <= old(self).tokens@.len(),
            match r {
                Ok(node) => {
                    &&& parse_one_spec(
                        old(self).tokens@,
                        old(self).source.spec_bytes(),
                        old(self).cursor as int,
                    ) == Ok::<(NodeModel, int), KernelError>(
                        (node.model(), final(self).cursor as int),
                    )
                    &&& old(self).cursor < final(self).cursor <= old(self).tokens@.len()
                    &&& node_within(node.model(), old(self).source.spec_bytes().len())
                },
                Err(e) => parse_one_spec(
                    old(self).tokens@,
                    old(self).source.spec_bytes(),
                    old(self).cursor as int,
                ) == Err::<(NodeModel, int), KernelError>(e),
            },
        decreases old(self).tokens@.len() - old(self).cursor, 3int,
    {
        self.skip_comments();
        if self.cursor >= self.tokens.len() {
            return Err(KernelError::UnexpectedEof { position: self.source.len() });
        }
        self.parse_node()
    }

    fn parse_node(&mut self) -> (r: Result<Node, KernelError>)
        requires
            old(self).wf(),
            old(self).cursor < old(self).tokens@.len(),
        ensures
            final(self).tokens == old(self).tokens,
            final(self).source == old(self).source,
            old(self).cursor <= final(self).cursor <= old(self).tokens@.len(),
            match r {
                Ok(node) => {
                    &&& parse_node_spec(
                        old(self).tokens@,
                        old(self).source.spec_bytes(),
                        old(self).cursor as int,
                    ) == Ok::<(NodeModel, int), KernelError>(
                        (node.model(), final(self).cursor as int),
                    )
                    &&& old(self).cursor < final(self).cursor <= old(self).tokens@.len()
                    &&& node_within(node.model(), old(self).source.spec_bytes().len())
                },
                Err(e) => parse_node_spec(
                    old(self).tokens@,
                    old(self).source.spec_bytes(),
                    old(self).cursor as int,
                ) == Err::<(NodeModel, int), KernelError>(e),
            },
        decreases old(self).tokens@.len() - old(self).cursor, 2int,
    {
        let token = self.tokens[self.cursor];
        let ghost b = self.source.spec_bytes();
        let ghost src = self.source;
        proof {
            assert(token_wf(b, self.tokens@[self.cursor as int]));
            encode_utf8_valid_utf8(self.source@);
        }
        match token.kind {
            KernelTokenKind::RecordOpen => self.parse_container(
                NodeKind::Record,
                KernelTokenKind::RecordClose,
                '(',
            ),
            KernelTokenKind::VectorOpen => self.parse_container(
                NodeKind::Vector,
                KernelTokenKind::VectorClose,
                '[',
            ),
            KernelTokenKind::MapOpen => self.parse_container(
                NodeKind::Mapping,
                KernelTokenKind::MapClose,
                '{',
            ),
            KernelTokenKind::Identifier => self.leaf(token, NodeKind::Identifier),
            KernelTokenKind::Integer => self.leaf(token, NodeKind::Integer),
            KernelTokenKind::Float => self.leaf(token, NodeKind::Float),
            KernelTokenKind::InlineString => self.leaf(token, NodeKind::InlineString),
            KernelTokenKind::BlockString => self.leaf(token, NodeKind::BlockString),
            KernelTokenKind::Bytes => self.leaf(token, NodeKind::Bytes),
            KernelTokenKind::RecordClose => Err(
                KernelError::UnexpectedClose { closer: ')', position: token.start },
            ),
            KernelTokenKind::VectorClose => Err(
                KernelError::UnexpectedClose { closer: ']', position: token.start },
            ),
            KernelTokenKind::MapClose => Err(
                KernelError::UnexpectedClose { closer: '}', position: token.start },
            ),
            KernelTokenKind::LineComment => {
                self.cursor = self.cursor + 1;
                self.parse_one()
            },
        }
    }

    fn leaf(&mut self, token: KernelToken, kind: NodeKind) -> (r: Result<Node, KernelError>)
        requires
            old(self).wf(),
            old(self).cursor < old(self).tokens@.len(),
            token == old(self).tokens@[old(self).cursor as int],
            leaf_kind_of(token.kind) == Some(kind),
        ensures
            final(self).tokens == old(self).tokens,
            final(self).source == old(self).source,
            final(self).cursor == old(self).cursor + 1,
            r is Ok,
            r->Ok_0.model() == leaf_model(old(self).source.spec_bytes(), token, kind),
            node_within(r->Ok_0.model(), old(self).source.spec_bytes().len()),
    {
        let ghost b = self.source.spec_bytes();
        let ghost src = self.source;
        proof {
            assert(token_wf(b, self.tokens@[self.cursor as int]));
            encode_utf8_valid_utf8(self.source@);
        }
        let (from, to) = if kind == NodeKind::InlineString {
            (token.start + 1, token.end - 1)
        } else if kind == NodeKind::BlockString {
            (token.start + 2, token.end - 2)
        } else {
            (token.start, token.end)
        };
        proof {
            assert(ascii_edge(b, from as int));
            assert(ascii_edge(b, to as int));
            lemma_ascii_edge_is_boundary(b, from as int);
            lemma_ascii_edge_is_boundary(b, to as int);
        }
        let text = owned_slice(self.source, from, to);
        let _token_count = self.tokens.len();
        self.cursor = self.cursor + 1;
        let node = Node { kind, start: token.start, end: token.end, children: Vec::new(), text };
        assert(node.model().children =~= Seq::<NodeModel>::empty());
        Ok(node)
    }

    fn parse_container(&mut self, kind: NodeKind, closer: KernelTokenKind, opener: char) -> (r:
        Result<Node, KernelError>)
        requires
            old(self).wf(),
            old(self).cursor < old(self).tokens@.len(),
            container_of(old(self).tokens@[old(self).cursor as int].kind) == Some(
                (kind, closer, opener),
            ),
        ensures
            final(self).tokens == old(self).tokens,
            final(self).source == old(self).source,
            old(self).cursor <= final(self).cursor <= old(self).tokens@.len(),
            match r {
                Ok(node) => {
                    &&& parse_node_spec(
                        old(self).tokens@,
                        old(self).source.spec_bytes(),
                        old(self).cursor as int,
                    ) == Ok::<(NodeModel, int), KernelError>(
                        (node.model(), final(self).cursor as int),
                    )
                    &&& old(self).cursor < final(self).cursor
                    &&& node_within(node.model(), old(self).source.spec_bytes().len())
                },
                Err(e) => parse_node_spec(
                    old(self).tokens@,
                    old(self).source.spec_bytes(),
                    old(self).cursor as int,
                ) == Err::<(NodeModel, int), KernelError>(e),
            },
        decreases old(self).tokens@.len() - old(self).cursor, 1int,
    {
        let ghost toks = self.tokens@;
        let ghost b = self.source.spec_bytes();
        let ghost open_index = self.cursor as int;
        let _token_count = self.tokens.len();
        let start = self.tokens[self.cursor].start;
        proof {
            assert(token_wf(b, toks[open_index]));
        }
        self.cursor = self.cursor + 1;
        let mut children: Vec<Node> = Vec::new();
        let mut failure: Option<KernelError> = None;
        let mut end: usize = 0;
        proof {
            match parse_items_spec(toks, b, self.cursor as int, closer, opener, start) {
                Ok((rest, e, n)) => {
                    assert(node_models(children@) + rest =~= rest);
                },
                Err(_) => {},
            }
        }
        loop
            invariant_except_break
                failure is None,
                self.tokens == old(self).tokens,
                self.source == old(self).source,
                self.tokens@ == toks,
                self.source.spec_bytes() == b,
                self.wf(),
                open_index < self.cursor <= toks.len(),
                open_index == old(self).cursor,
                toks == old(self).tokens@,
                start == toks[open_index].start,
                start <= b.len(),
                forall|k: int| 0 <= k < children@.len() ==> node_within(#[trigger] children@[k].model(), b.len()),
                parse_items_spec(toks, b, open_index + 1, closer, opener, start)
                    == prepend_models(
                    node_models(children@),
                    parse_items_spec(toks, b, self.cursor as int, closer, opener, start),
                ),
            ensures
                self.tokens == old(self).tokens,
                self.source == old(self).source,
                open_index < self.cursor <= toks.len(),
                failure is Some ==> parse_items_spec(toks, b, open_index + 1, closer, opener, start)
                    == Err::<(Seq<NodeModel>, usize, int), KernelError>(failure->Some_0),
                failure is None ==> parse_items_spec(toks, b, open_index + 1, closer, opener, start)
                    == Ok::<(Seq<NodeModel>, usize, int), KernelError>(
                    (node_models(children@), end, self.cursor as int),
                ),
                failure is None ==> end <= b.len(),
                start <= b.len(),
                forall|k: int| 0 <= k < children@.len() ==> node_within(#[trigger] children@[k].model(), b.len()),
            decreases toks.len() - self.cursor,
        {
            self.skip_comments();
            if self.cursor >= self.tokens.len() {
                failure = Some(KernelError::UnclosedDelimiter { opener, position: start });
                break;
            }
            let token = self.tokens[self.cursor];
            proof {
                assert(token_wf(b, toks[self.cursor as int]));
            }
            if token.kind == closer {
                end = token.end;
                self.cursor = self.cursor + 1;
                assert(node_models(children@) + Seq::<NodeModel>::empty() =~= node_models(
                    children@,
                ));
                break;
            }
            let ghost at = self.cursor as int;
            match self.parse_node() {
                Err(e) => {
                    failure = Some(e);
                    break;
                },
                Ok(child) => {
                    let ghost old_children = children@;
                    children.push(child);
                    proof {
                        lemma_node_models_push(old_children, child);
                        match parse_items_spec(toks, b, self.cursor as int, closer, opener, start) {
                            Ok((rest, e, n)) => {
                                assert(node_models(old_children) + (seq![child.model()] + rest)
                                    =~= node_models(children@) + rest);
                            },
                            Err(_) => {},
                        }
                    }
                },
            }
        }
        match failure {
            Some(e) => Err(e),
            None => {
                let node = Node { kind, start, end, children, text: String::new() };
                proof {
                    assert(node.model().children =~= node_models(children@));
                    assert(node.model().text =~= Seq::<u8>::empty());
                    assert forall|k: int| 0 <= k < node.model().children.len() implies #[trigger] node_within(
                        node.model().children[k],
                        b.len(),
                    ) by {
                        assert(node.model().children[k] == children@[k].model());
                    }
                }
                Ok(node)
            },
        }
    }

    fn peek(&self) -> (r: Option<&KernelToken>)
        ensures
            self.cursor < self.tokens@.len() ==> r == Some(&self.tokens@[self.cursor as int]),
            self.cursor >= self.tokens@.len() ==> r is None,
    {
        if self.cursor < self.tokens.len() {
            Some(&self.tokens[self.cursor])
        } else {
            None
        }
    }

    fn skip_comments(&mut self)
        ensures
            final(self).tokens == old(self).tokens,
            final(self).source == old(self).source,
            final(self).cursor == skip_comments_spec(old(self).tokens@, old(self).cursor as int),
            old(self).cursor <= final(self).cursor,
            final(self).cursor <= old(self).tokens@.len() || final(self).cursor == old(self).cursor,
            final(self).cursor < old(self).tokens@.len() ==> old(self).tokens@[final(self).cursor as int].kind
                != KernelTokenKind::LineComment,
    {
        let ghost toks = self.tokens@;
        let ghost from = self.cursor as int;
        while self.cursor < self.tokens.len() && self.tokens[self.cursor].kind
            == KernelTokenKind::LineComment
            invariant
                self.tokens@ == toks,
                self.tokens == old(self).tokens,
                self.source == old(self).source,
                from <= self.cursor,
                self.cursor <= toks.len() || self.cursor == from,
                skip_comments_spec(toks, from) == skip_comments_spec(toks, self.cursor as int),
            decreases toks.len() - self.cursor,
        {
            self.cursor = self.cursor + 1;
        }
    }
}

} // verus!
