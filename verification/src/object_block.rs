//! The object block pass: scans schema text into a tree of delimiter
//! blocks and atoms, each with the byte offset, line and column of its
//! start and end. Whitespace and `;;` line comments separate objects;
//! `[| ... |]` is a block string kept as an opaque square-bracket block.
use vstd::prelude::*;
use vstd::utf8::*;
use vstd::string::*;
use crate::error::Error;
use crate::name::ModuleName;
use crate::text::{chars_of, decimal_spec, decimal_text, push_char, string_of};

verus! {

broadcast use vstd::utf8::group_utf8_lib;

/// The three delimiter pairs of a block.
#[derive(Clone, Copy, Debug, PartialEq, Eq, Structural)]
pub enum ObjectDelimiter {
    Parentheses,
    SquareBrackets,
    CurlyBraces,
    Atom,
}

// ── Character classes ───────────────────────────────────────────────

/// Unicode `White_Space`, the set `char::is_whitespace` accepts.
pub open spec fn is_whitespace_spec(c: char) -> bool {
    let v = c as u32;
    ||| 0x09 <= v <= 0x0D
    ||| v == 0x20
    ||| v == 0x85
    ||| v == 0xA0
    ||| v == 0x1680
    ||| 0x2000 <= v <= 0x200A
    ||| v == 0x2028
    ||| v == 0x2029
    ||| v == 0x202F
    ||| v == 0x205F
    ||| v == 0x3000
}

fn is_whitespace(c: char) -> (r: bool)
    ensures
        r == is_whitespace_spec(c),
{
    let v = c as u32;
    (0x09 <= v && v <= 0x0D) || v == 0x20 || v == 0x85 || v == 0xA0 || v == 0x1680 || (0x2000
        <= v && v <= 0x200A) || v == 0x2028 || v == 0x2029 || v == 0x202F || v == 0x205F || v
        == 0x3000
}

pub open spec fn is_opening_spec(c: char) -> bool {
    c == '(' || c == '[' || c == '{'
}

pub open spec fn is_closing_spec(c: char) -> bool {
    c == ')' || c == ']' || c == '}'
}

/// Number of UTF-8 bytes of a character.
pub open spec fn utf8_width(c: char) -> nat {
    let v = c as u32;
    if v <= 0x7F {
        1
    } else if v <= 0x7FF {
        2
    } else if v <= 0xFFFF {
        3
    } else {
        4
    }
}

fn char_width(c: char) -> (r: usize)
    ensures
        r == utf8_width(c),
{
    let v = c as u32;
    if v <= 0x7F {
        1
    } else if v <= 0x7FF {
        2
    } else if v <= 0xFFFF {
        3
    } else {
        4
    }
}

// ── Positions ───────────────────────────────────────────────────────

/// A position as numbers: byte offset, 1-based line and column.
pub struct PositionModel {
    pub byte: nat,
    pub line: nat,
    pub column: nat,
}

/// The position after the first `i` characters: bytes count UTF-8 widths,
/// a newline starts the next line at column 1, any other character moves
/// one column right.
pub open spec fn position_spec(s: Seq<char>, i: int) -> PositionModel
    decreases i,
{
    if i <= 0 {
        PositionModel { byte: 0, line: 1, column: 1 }
    } else {
        let p = position_spec(s, i - 1);
        let c = s[i - 1];
        PositionModel {
            byte: p.byte + utf8_width(c),
            line: if c == '\n' {
                p.line + 1
            } else {
                p.line
            },
            column: if c == '\n' {
                1
            } else {
                p.column + 1
            },
        }
    }
}

proof fn lemma_encode_push(a: Seq<char>, c: char)
    ensures
        encode_utf8(a.push(c)).len() == encode_utf8(a).len() + utf8_width(c),
    decreases a.len(),
{
    char_is_scalar(c);
    if a.len() == 0 {
        assert(a.push(c).drop_first() =~= Seq::<char>::empty());
        assert(encode_utf8(Seq::<char>::empty()) =~= Seq::<u8>::empty());
    } else {
        assert(a.push(c).drop_first() =~= a.drop_first().push(c));
        lemma_encode_push(a.drop_first(), c);
    }
}

proof fn lemma_encode_concat(a: Seq<char>, b: Seq<char>)
    ensures
        encode_utf8(a + b).len() == encode_utf8(a).len() + encode_utf8(b).len(),
    decreases a.len(),
{
    if a.len() == 0 {
        assert(a + b =~= b);
    } else {
        assert((a + b).drop_first() =~= a.drop_first() + b);
        lemma_encode_concat(a.drop_first(), b);
    }
}

proof fn lemma_encode_len_at_least(a: Seq<char>)
    ensures
        encode_utf8(a).len() >= a.len(),
    decreases a.len(),
{
    if a.len() > 0 {
        lemma_encode_len_at_least(a.drop_first());
    }
}

/// The byte offset is the length of the encoded prefix; line and column
/// stay within the prefix length.
proof fn lemma_position(s: Seq<char>, i: int)
    requires
        0 <= i <= s.len(),
    ensures
        position_spec(s, i).byte == encode_utf8(s.take(i)).len(),
        position_spec(s, i).byte <= encode_utf8(s).len(),
        position_spec(s, i).line + position_spec(s, i).column <= i + 2,
        position_spec(s, i).line >= 1,
        position_spec(s, i).column >= 1,
        i <= encode_utf8(s).len(),
    decreases i,
{
    if i > 0 {
        lemma_position(s, i - 1);
        assert(s.take(i) =~= s.take(i - 1).push(s[i - 1]));
        lemma_encode_push(s.take(i - 1), s[i - 1]);
    } else {
        assert(s.take(0) =~= Seq::<char>::empty());
    }
    assert(s =~= s.take(i) + s.skip(i));
    lemma_encode_concat(s.take(i), s.skip(i));
    lemma_encode_len_at_least(s);
}

#[derive(Clone, Copy, Debug, PartialEq, Eq)]
pub struct SourcePosition {
    byte: usize,
    line: usize,
    column: usize,
}

impl SourcePosition {
    pub closed spec fn model(&self) -> PositionModel {
        PositionModel { byte: self.byte as nat, line: self.line as nat, column: self.column as nat }
    }

    pub fn byte(&self) -> (r: usize)
        ensures
            r == self.model().byte,
    {
        self.byte
    }

    pub fn line(&self) -> (r: usize)
        ensures
            r == self.model().line,
    {
        self.line
    }

    pub fn column(&self) -> (r: usize)
        ensures
            r == self.model().column,
    {
        self.column
    }
}

#[derive(Clone, Copy, Debug, PartialEq, Eq)]
pub struct SourceSpan {
    start: SourcePosition,
    end: SourcePosition,
}

impl SourceSpan {
    pub closed spec fn start_model(&self) -> PositionModel {
        self.start.model()
    }

    pub closed spec fn end_model(&self) -> PositionModel {
        self.end.model()
    }

    pub fn start(&self) -> (r: SourcePosition)
        ensures
            r.model() == self.start_model(),
    {
        self.start
    }

    pub fn end(&self) -> (r: SourcePosition)
        ensures
            r.model() == self.end_model(),
    {
        self.end
    }
}

// ── The object tree ─────────────────────────────────────────────────

/// The mathematical value of a scanned object.
pub enum ObjectModel {
    Block {
        delimiter: ObjectDelimiter,
        start: PositionModel,
        end: PositionModel,
        objects: Seq<ObjectModel>,
        block_string: bool,
    },
    Atom { text: Seq<char>, start: PositionModel, end: PositionModel },
}

#[derive(Debug, PartialEq, Eq)]
pub enum SchemaBlockObject {
    Block(SchemaBlock),
    Atom(SchemaAtom),
}

#[derive(Debug, PartialEq, Eq)]
pub struct SchemaBlock {
    delimiter: ObjectDelimiter,
    span: SourceSpan,
    objects: Vec<SchemaBlockObject>,
    block_string: bool,
}

#[derive(Clone, Debug, PartialEq, Eq)]
pub struct SchemaAtom {
    text: String,
    span: SourceSpan,
}

pub open spec fn default_object_model() -> ObjectModel {
    ObjectModel::Atom {
        text: Seq::empty(),
        start: PositionModel { byte: 0, line: 1, column: 1 },
        end: PositionModel { byte: 0, line: 1, column: 1 },
    }
}

pub open spec fn object_models(objects: Seq<SchemaBlockObject>) -> Seq<ObjectModel> {
    Seq::new(objects.len(), |i: int| objects[i].model())
}

impl SchemaBlockObject {
    pub open spec fn model(&self) -> ObjectModel
        decreases self,
    {
        match self {
            SchemaBlockObject::Block(block) => block.model(),
            SchemaBlockObject::Atom(atom) => atom.model(),
        }
    }

    /// A copy of this object with the same model.
    pub fn duplicate(&self) -> (r: SchemaBlockObject)
        ensures
            r.model() == self.model(),
        decreases self, 1int,
    {
        match self {
            SchemaBlockObject::Block(block) => {
                let copy = block.duplicate();
                let r = SchemaBlockObject::Block(copy);
                assert(r.model() == copy.model());
                assert(self.model() == block.model());
                r
            },
            SchemaBlockObject::Atom(atom) => {
                let copy = SchemaAtom { text: string_of(atom.text.as_str()), span: atom.span };
                let r = SchemaBlockObject::Atom(copy);
                assert(r.model() == copy.model());
                r
            },
        }
    }
}

impl Clone for SchemaBlockObject {
    fn clone(&self) -> (r: SchemaBlockObject)
        ensures
            r.model() == self.model(),
    {
        self.duplicate()
    }
}

impl Clone for SchemaBlock {
    fn clone(&self) -> (r: SchemaBlock)
        ensures
            r.model() == self.model(),
    {
        self.duplicate()
    }
}

impl SchemaAtom {
    pub closed spec fn model(&self) -> ObjectModel {
        ObjectModel::Atom {
            text: self.text@,
            start: self.span.start.model(),
            end: self.span.end.model(),
        }
    }

    pub closed spec fn text_view(&self) -> Seq<char> {
        self.text@
    }

    pub fn text(&self) -> (r: &str)
        ensures
            r@ == self.text_view(),
    {
        self.text.as_str()
    }

    pub fn span(&self) -> (r: &SourceSpan)
        ensures
            r.start_model() == self.model()->Atom_start,
            r.end_model() == self.model()->Atom_end,
    {
        &self.span
    }

    /// A letter or `_`, then letters, digits, `_` and `-`.
    pub fn qualifies_as_symbol(&self) -> (r: bool)
        ensures
            r == symbol_text_spec(self.text_view()),
    {
        let chars = chars_of(self.text.as_str());
        if chars.len() == 0 {
            return false;
        }
        let first = chars[0];
        if !(('A' <= first && first <= 'Z') || ('a' <= first && first <= 'z') || first == '_') {
            return false;
        }
        let mut i: usize = 1;
        while i < chars.len()
            invariant
                chars@ == self.text@,
                1 <= i <= chars@.len(),
                forall|k: int| 1 <= k < i ==> symbol_rest_char(#[trigger] chars@[k]),
            decreases chars@.len() - i,
        {
            let c = chars[i];
            if !(('A' <= c && c <= 'Z') || ('a' <= c && c <= 'z') || ('0' <= c && c <= '9') || c
                == '_' || c == '-') {
                return false;
            }
            i = i + 1;
        }
        true
    }
}

pub open spec fn symbol_rest_char(c: char) -> bool {
    ('A' <= c <= 'Z') || ('a' <= c <= 'z') || ('0' <= c <= '9') || c == '_' || c == '-'
}

/// An atom text that qualifies as a symbol.
pub open spec fn symbol_text_spec(t: Seq<char>) -> bool {
    &&& t.len() > 0
    &&& ('A' <= t[0] <= 'Z') || ('a' <= t[0] <= 'z') || t[0] == '_'
    &&& forall|i: int| 1 <= i < t.len() ==> symbol_rest_char(#[trigger] t[i])
}

/// The naming convention a symbol follows.
#[derive(Clone, Copy, Debug, PartialEq, Eq, Structural)]
pub enum SymbolClass {
    PascalCase,
    CamelCase,
    KebabCase,
}

/// The class of a symbol text: a leading uppercase letter and no `-` is
/// PascalCase; any `-` makes it kebab-case; anything else is camelCase.
pub open spec fn symbol_class_spec(t: Seq<char>) -> SymbolClass {
    if t.contains('-') {
        SymbolClass::KebabCase
    } else if t.len() > 0 && 'A' <= t[0] <= 'Z' {
        SymbolClass::PascalCase
    } else {
        SymbolClass::CamelCase
    }
}

/// A symbol atom's text with its class.
#[derive(Clone, Debug, PartialEq, Eq)]
pub struct QualifiedSymbol {
    text: String,
    class: SymbolClass,
}

impl QualifiedSymbol {
    pub closed spec fn text_view(&self) -> Seq<char> {
        self.text@
    }

    pub closed spec fn class_of(&self) -> SymbolClass {
        self.class
    }

    pub fn text(&self) -> (r: &str)
        ensures
            r@ == self.text_view(),
    {
        self.text.as_str()
    }

    pub fn class(&self) -> (r: SymbolClass)
        ensures
            r == self.class_of(),
    {
        self.class
    }
}

fn symbol_class_of(text: &str) -> (r: SymbolClass)
    ensures
        r == symbol_class_spec(text@),
{
    let chars = chars_of(text);
    let mut i: usize = 0;
    while i < chars.len()
        invariant
            chars@ == text@,
            0 <= i <= chars@.len(),
            forall|k: int| 0 <= k < i ==> chars@[k] != '-',
        decreases chars@.len() - i,
    {
        if chars[i] == '-' {
            assert(text@[i as int] == '-');
            return SymbolClass::KebabCase;
        }
        i = i + 1;
    }
    assert(!text@.contains('-'));
    if chars.len() > 0 && 'A' <= chars[0] && chars[0] <= 'Z' {
        SymbolClass::PascalCase
    } else {
        SymbolClass::CamelCase
    }
}

impl SchemaBlock {
    pub closed spec fn model(&self) -> ObjectModel
        decreases self,
    {
        ObjectModel::Block {
            delimiter: self.delimiter,
            start: self.span.start.model(),
            end: self.span.end.model(),
            objects: Seq::new(
                self.objects@.len(),
                |i: int|
                    if 0 <= i < self.objects@.len() {
                        self.objects@[i].model()
                    } else {
                        default_object_model()
                    },
            ),
            block_string: self.block_string,
        }
    }

    /// A copy of this block with the same model.
    pub fn duplicate(&self) -> (r: SchemaBlock)
        ensures
            r.model() == self.model(),
        decreases self, 0int,
    {
        let mut objects: Vec<SchemaBlockObject> = Vec::new();
        let mut i: usize = 0;
        while i < self.objects.len()
            invariant
                0 <= i <= self.objects@.len(),
                objects@.len() == i,
                forall|k: int|
                    0 <= k < i ==> #[trigger] objects@[k].model() == self.objects@[k].model(),
            decreases self.objects@.len() - i,
        {
            let copy = self.objects[i].duplicate();
            objects.push(copy);
            i = i + 1;
        }
        let r = SchemaBlock {
            delimiter: self.delimiter,
            span: self.span,
            objects,
            block_string: self.block_string,
        };
        assert forall|k: int| 0 <= k < self.objects@.len() implies (r.model()->Block_objects)[k]
            == (self.model()->Block_objects)[k] by {
            assert(r.objects@[k].model() == self.objects@[k].model());
        }
        assert(r.model()->Block_objects =~= self.model()->Block_objects);
        r
    }

    pub closed spec fn children(&self) -> Seq<SchemaBlockObject> {
        self.objects@
    }

    pub closed spec fn delimiter_of(&self) -> ObjectDelimiter {
        self.delimiter
    }

    pub closed spec fn is_block_string_spec(&self) -> bool {
        self.block_string
    }

    pub fn delimiter(&self) -> (r: ObjectDelimiter)
        ensures
            r == self.delimiter_of(),
    {
        self.delimiter
    }

    pub fn span(&self) -> (r: &SourceSpan)
        ensures
            r.start_model() == self.model()->Block_start,
            r.end_model() == self.model()->Block_end,
    {
        &self.span
    }

    pub fn objects(&self) -> (r: &[SchemaBlockObject])
        ensures
            r@ == self.children(),
    {
        self.objects.as_slice()
    }

    pub fn object_count(&self) -> (r: usize)
        ensures
            r == self.children().len(),
    {
        self.objects.len()
    }

    pub fn object(&self, index: usize) -> (r: Option<&SchemaBlockObject>)
        ensures
            index < self.children().len() ==> r == Some(&self.children()[index as int]),
            index >= self.children().len() ==> r is None,
    {
        if index < self.objects.len() {
            Some(&self.objects[index])
        } else {
            None
        }
    }

    pub fn second_object(&self) -> (r: Option<&SchemaBlockObject>)
        ensures
            1 < self.children().len() ==> r == Some(&self.children()[1]),
            1 >= self.children().len() ==> r is None,
    {
        self.object(1)
    }

    pub fn holds_object_count(&self, count: usize) -> (r: bool)
        ensures
            r == (self.children().len() == count),
    {
        self.object_count() == count
    }

    pub fn holds_single_root_object(&self) -> (r: bool)
        ensures
            r == (self.children().len() == 1),
    {
        self.holds_object_count(1)
    }

    pub fn holds_two_root_objects(&self) -> (r: bool)
        ensures
            r == (self.children().len() == 2),
    {
        self.holds_object_count(2)
    }

    pub fn is_parenthesis_block(&self) -> (r: bool)
        ensures
            r == (self.delimiter_of() == ObjectDelimiter::Parentheses),
    {
        self.delimiter == ObjectDelimiter::Parentheses
    }

    pub fn is_square_bracket_block(&self) -> (r: bool)
        ensures
            r == (self.delimiter_of() == ObjectDelimiter::SquareBrackets),
    {
        self.delimiter == ObjectDelimiter::SquareBrackets
    }

    pub fn is_curly_brace_block(&self) -> (r: bool)
        ensures
            r == (self.delimiter_of() == ObjectDelimiter::CurlyBraces),
    {
        self.delimiter == ObjectDelimiter::CurlyBraces
    }

    pub fn is_block_string(&self) -> (r: bool)
        ensures
            r == self.is_block_string_spec(),
    {
        self.block_string
    }

    pub fn second_object_is_square_bracket_block(&self) -> (r: bool)
        ensures
            r == (self.children().len() > 1 && self.children()[1].is_square_bracket_spec()),
    {
        match self.second_object() {
            Some(object) => object.is_square_bracket_block(),
            None => false,
        }
    }

    pub fn second_object_qualifies_as_symbol(&self) -> (r: bool)
        ensures
            r == (self.children().len() > 1 && self.children()[1].qualifies_as_symbol_spec()),
    {
        match self.second_object() {
            Some(object) => object.qualifies_as_symbol(),
            None => false,
        }
    }
}

impl SchemaBlockObject {
    pub open spec fn is_square_bracket_spec(&self) -> bool {
        self matches SchemaBlockObject::Block(b) && b.delimiter_of()
            == ObjectDelimiter::SquareBrackets
    }

    pub open spec fn qualifies_as_symbol_spec(&self) -> bool {
        self matches SchemaBlockObject::Atom(a) && symbol_text_spec(a.text_view())
    }

    pub fn span(&self) -> (r: &SourceSpan)
        ensures
            match self.model() {
                ObjectModel::Block { start, end, .. } => r.start_model() == start
                    && r.end_model() == end,
                ObjectModel::Atom { start, end, .. } => r.start_model() == start
                    && r.end_model() == end,
            },
    {
        match self {
            SchemaBlockObject::Block(block) => block.span(),
            SchemaBlockObject::Atom(atom) => atom.span(),
        }
    }

    pub fn as_block(&self) -> (r: Option<&SchemaBlock>)
        ensures
            match self {
                SchemaBlockObject::Block(b) => r == Some(b),
                SchemaBlockObject::Atom(_) => r is None,
            },
    {
        match self {
            SchemaBlockObject::Block(block) => Some(block),
            SchemaBlockObject::Atom(_) => None,
        }
    }

    pub fn as_atom(&self) -> (r: Option<&SchemaAtom>)
        ensures
            match self {
                SchemaBlockObject::Atom(a) => r == Some(a),
                SchemaBlockObject::Block(_) => r is None,
            },
    {
        match self {
            SchemaBlockObject::Atom(atom) => Some(atom),
            SchemaBlockObject::Block(_) => None,
        }
    }

    pub fn is_parenthesis_block(&self) -> (r: bool)
        ensures
            r == (self matches SchemaBlockObject::Block(b) && b.delimiter_of()
                == ObjectDelimiter::Parentheses),
    {
        match self.as_block() {
            Some(block) => block.is_parenthesis_block(),
            None => false,
        }
    }

    pub fn is_square_bracket_block(&self) -> (r: bool)
        ensures
            r == self.is_square_bracket_spec(),
    {
        match self.as_block() {
            Some(block) => block.is_square_bracket_block(),
            None => false,
        }
    }

    pub fn is_curly_brace_block(&self) -> (r: bool)
        ensures
            r == (self matches SchemaBlockObject::Block(b) && b.delimiter_of()
                == ObjectDelimiter::CurlyBraces),
    {
        match self.as_block() {
            Some(block) => block.is_curly_brace_block(),
            None => false,
        }
    }

    pub fn qualifies_as_symbol(&self) -> (r: bool)
        ensures
            r == self.qualifies_as_symbol_spec(),
    {
        match self.as_atom() {
            Some(atom) => atom.qualifies_as_symbol(),
            None => false,
        }
    }

    /// The atom's text and symbol class, when it qualifies as a symbol.
    pub fn qualified_symbol(&self) -> (r: Option<QualifiedSymbol>)
        ensures
            match self {
                SchemaBlockObject::Atom(a) => if symbol_text_spec(a.text_view()) {
                    r matches Some(q) && q.text_view() == a.text_view() && q.class_of()
                        == symbol_class_spec(a.text_view())
                } else {
                    r is None
                },
                SchemaBlockObject::Block(_) => r is None,
            },
    {
        match self.as_atom() {
            Some(atom) => if atom.qualifies_as_symbol() {
                Some(
                    QualifiedSymbol {
                        text: string_of(atom.text()),
                        class: symbol_class_of(atom.text()),
                    },
                )
            } else {
                None
            },
            None => None,
        }
    }

    /// The atom's text, when it qualifies as a symbol.
    pub fn symbol_text(&self) -> (r: Option<&str>)
        ensures
            match self {
                SchemaBlockObject::Atom(a) => if symbol_text_spec(a.text_view()) {
                    r matches Some(t) && t@ == a.text_view()
                } else {
                    r is None
                },
                SchemaBlockObject::Block(_) => r is None,
            },
    {
        match self.as_atom() {
            Some(atom) => if atom.qualifies_as_symbol() {
                Some(atom.text())
            } else {
                None
            },
            None => None,
        }
    }
}


// ── The scanner's grammar ──────────────────────────────────────────

pub open spec fn starts_comment_spec(s: Seq<char>, i: int) -> bool {
    0 <= i && i + 1 < s.len() && s[i] == ';' && s[i + 1] == ';'
}

/// The index just past the first newline at or after `i`, or the end.
pub open spec fn line_end_spec(s: Seq<char>, i: int) -> int
    decreases s.len() - i,
{
    if i < 0 || i >= s.len() {
        s.len() as int
    } else if s[i] == '\n' {
        i + 1
    } else {
        line_end_spec(s, i + 1)
    }
}

/// The index after whitespace and `;;` line comments starting at `i`.
pub open spec fn skip_layout_spec(s: Seq<char>, i: int) -> int
    decreases s.len() - i,
{
    if i < 0 || i >= s.len() {
        i
    } else if is_whitespace_spec(s[i]) {
        skip_layout_spec(s, i + 1)
    } else if starts_comment_spec(s, i) {
        let e = line_end_spec(s, i);
        if i < e <= s.len() {
            skip_layout_spec(s, e)
        } else {
            i
        }
    } else {
        i
    }
}

/// The end of the atom starting at `i`: the first whitespace, delimiter
/// or comment start.
pub open spec fn atom_end_spec(s: Seq<char>, i: int) -> int
    decreases s.len() - i,
{
    if i < 0 || i >= s.len() {
        i
    } else if is_whitespace_spec(s[i]) || is_opening_spec(s[i]) || is_closing_spec(s[i])
        || starts_comment_spec(s, i) {
        i
    } else {
        atom_end_spec(s, i + 1)
    }
}

/// The index just past the first `|]` at or after `i`, if there is one.
pub open spec fn block_string_end_spec(s: Seq<char>, i: int) -> Option<int>
    decreases s.len() - i,
{
    if i < 0 || i >= s.len() {
        None
    } else if i + 1 < s.len() && s[i] == '|' && s[i + 1] == ']' {
        Some(i + 2)
    } else {
        block_string_end_spec(s, i + 1)
    }
}

/// A scan failure: its message, ending with the line and column.
pub struct ScanError {
    pub message: Seq<char>,
}

pub open spec fn scan_error(s: Seq<char>, at: int, msg: Seq<char>) -> ScanError {
    let p = position_spec(s, at);
    ScanError {
        message: msg + " at line "@ + decimal_spec(p.line) + ", column "@ + decimal_spec(
            p.column,
        ),
    }
}

pub open spec fn missing_closing_message(c: char) -> Seq<char> {
    "missing closing `"@.push(c) + "` for delimiter block"@
}

pub open spec fn unexpected_closing_message(c: char) -> Seq<char> {
    "unexpected closing delimiter `"@.push(c) + "`"@
}

pub open spec fn block_model(
    s: Seq<char>,
    delimiter: ObjectDelimiter,
    from: int,
    to: int,
    objects: Seq<ObjectModel>,
    block_string: bool,
) -> ObjectModel {
    ObjectModel::Block {
        delimiter,
        start: position_spec(s, from),
        end: position_spec(s, to),
        objects,
        block_string,
    }
}

/// The objects from `i` up to `closing` (or the end of input when there is
/// no closing character), with the index after the closing character.
pub open spec fn parse_until_spec(s: Seq<char>, i: int, closing: Option<char>) -> Result<
    (Seq<ObjectModel>, int),
    ScanError,
>
    decreases s.len() - i, 2int,
{
    let j = skip_layout_spec(s, i);
    if !(0 <= i <= j <= s.len()) {
        Err(ScanError { message: Seq::empty() })
    } else if j == s.len() {
        match closing {
            Some(c) => Err(scan_error(s, j, missing_closing_message(c))),
            None => Ok((Seq::empty(), j)),
        }
    } else if closing == Some(s[j]) {
        Ok((Seq::empty(), j + 1))
    } else if is_closing_spec(s[j]) {
        Err(scan_error(s, j, unexpected_closing_message(s[j])))
    } else {
        match parse_object_spec(s, j) {
            Err(e) => Err(e),
            Ok((object, k)) => if j < k <= s.len() {
                match parse_until_spec(s, k, closing) {
                    Ok((rest, m)) => Ok((seq![object] + rest, m)),
                    Err(e) => Err(e),
                }
            } else {
                Err(ScanError { message: Seq::empty() })
            },
        }
    }
}

/// The object starting at `j`, with the index after it.
pub open spec fn parse_object_spec(s: Seq<char>, j: int) -> Result<(ObjectModel, int), ScanError>
    decreases s.len() - j, 1int,
{
    if j < 0 || j >= s.len() {
        Err(scan_error(s, j, "unexpected end of input while parsing object"@))
    } else {
        let c = s[j];
        if c == '(' || c == '{' || (c == '[' && !(j + 1 < s.len() && s[j + 1] == '|')) {
            let (delimiter, closing) = if c == '(' {
                (ObjectDelimiter::Parentheses, ')')
            } else if c == '{' {
                (ObjectDelimiter::CurlyBraces, '}')
            } else {
                (ObjectDelimiter::SquareBrackets, ']')
            };
            match parse_until_spec(s, j + 1, Some(closing)) {
                Ok((objects, k)) => Ok((block_model(s, delimiter, j, k, objects, false), k)),
                Err(e) => Err(e),
            }
        } else if c == '[' {
            match block_string_end_spec(s, j + 2) {
                Some(k) => Ok(
                    (
                        block_model(s, ObjectDelimiter::SquareBrackets, j, k, Seq::empty(), true),
                        k,
                    ),
                ),
                None => Err(scan_error(s, s.len() as int, "unterminated `[|...|]` block string"@)),
            }
        } else {
            let k = atom_end_spec(s, j);
            if k == j {
                Err(scan_error(s, j, "expected atom"@))
            } else {
                Ok(
                    (
                        ObjectModel::Atom {
                            text: s.subrange(j, k),
                            start: position_spec(s, j),
                            end: position_spec(s, k),
                        },
                        k,
                    ),
                )
            }
        }
    }
}

/// The root objects of a whole text.
pub open spec fn parse_roots_spec(s: Seq<char>) -> Result<Seq<ObjectModel>, ScanError> {
    match parse_until_spec(s, 0, None) {
        Ok((roots, _)) => Ok(roots),
        Err(e) => Err(e),
    }
}

// ── Index helpers ───────────────────────────────────────────────────

fn line_end_index(chars: &Vec<char>, i: usize) -> (r: usize)
    requires
        i <= chars@.len(),
    ensures
        r == line_end_spec(chars@, i as int),
        i <= r <= chars@.len(),
        i < chars@.len() ==> i < r,
{
    let mut k = i;
    while k < chars.len()
        invariant
            i <= k <= chars@.len(),
            line_end_spec(chars@, i as int) == line_end_spec(chars@, k as int),
            forall|t: int| i <= t < k ==> chars@[t] != '\n',
        decreases chars@.len() - k,
    {
        if chars[k] == '\n' {
            return k + 1;
        }
        k = k + 1;
    }
    k
}

fn starts_comment(chars: &Vec<char>, i: usize) -> (r: bool)
    ensures
        r == starts_comment_spec(chars@, i as int),
{
    i < chars.len() && chars.len() - i > 1 && chars[i] == ';' && chars[i + 1] == ';'
}

fn skip_layout_index(chars: &Vec<char>, i: usize) -> (r: usize)
    requires
        i <= chars@.len(),
    ensures
        r == skip_layout_spec(chars@, i as int),
        i <= r <= chars@.len(),
{
    let mut k = i;
    while k < chars.len()
        invariant
            i <= k <= chars@.len(),
            skip_layout_spec(chars@, i as int) == skip_layout_spec(chars@, k as int),
        decreases chars@.len() - k,
    {
        if is_whitespace(chars[k]) {
            k = k + 1;
        } else if starts_comment(chars, k) {
            k = line_end_index(chars, k);
        } else {
            return k;
        }
    }
    k
}

fn atom_end_index(chars: &Vec<char>, i: usize) -> (r: usize)
    requires
        i <= chars@.len(),
    ensures
        r == atom_end_spec(chars@, i as int),
        i <= r <= chars@.len(),
{
    let mut k = i;
    while k < chars.len()
        invariant
            i <= k <= chars@.len(),
            atom_end_spec(chars@, i as int) == atom_end_spec(chars@, k as int),
        decreases chars@.len() - k,
    {
        let c = chars[k];
        if is_whitespace(c) || c == '(' || c == '[' || c == '{' || c == ')' || c == ']' || c == '}'
            || starts_comment(chars, k) {
            return k;
        }
        k = k + 1;
    }
    k
}

fn block_string_end_index(chars: &Vec<char>, i: usize) -> (r: Option<usize>)
    requires
        i <= chars@.len() + 1,
    ensures
        match block_string_end_spec(chars@, i as int) {
            Some(k) => r == Some(k as usize) && i + 2 <= k <= chars@.len(),
            None => r is None,
        },
{
    let mut k = i;
    while k < chars.len()
        invariant
            i <= k,
            i <= chars@.len() + 1,
            block_string_end_spec(chars@, i as int) == block_string_end_spec(chars@, k as int),
        decreases chars@.len() - k,
    {
        if chars.len() - k > 1 && chars[k] == '|' && chars[k + 1] == ']' {
            return Some(k + 2);
        }
        k = k + 1;
    }
    None
}

fn string_from_range(chars: &Vec<char>, from: usize, to: usize) -> (r: String)
    requires
        from <= to <= chars@.len(),
    ensures
        r@ == chars@.subrange(from as int, to as int),
{
    let mut out = String::new();
    let mut i = from;
    while i < to
        invariant
            from <= i <= to <= chars@.len(),
            out@ == chars@.subrange(from as int, i as int),
        decreases to - i,
    {
        push_char(&mut out, chars[i]);
        i = i + 1;
        assert(out@ =~= chars@.subrange(from as int, i as int));
    }
    out
}

// ── The scanner ─────────────────────────────────────────────────────

struct BlockScanner {
    chars: Vec<char>,
    index: usize,
    byte: usize,
    line: usize,
    column: usize,
}

/// The error a scan failure is reported as.
pub open spec fn reports(r: Error, e: ScanError) -> bool {
    r matches Error::InvalidSchemaText { context, message } && context@
        == "schema object block pass"@ && message@ == e.message
}

impl BlockScanner {
    spec fn wf(&self) -> bool {
        &&& self.index <= self.chars@.len()
        &&& self.chars@.len() < usize::MAX
        &&& encode_utf8(self.chars@).len() <= usize::MAX
        &&& self.byte as nat == position_spec(self.chars@, self.index as int).byte
        &&& self.line as nat == position_spec(self.chars@, self.index as int).line
        &&& self.column as nat == position_spec(self.chars@, self.index as int).column
    }

    fn new(input: &str) -> (r: Self)
        requires
            input@.len() < usize::MAX,
        ensures
            r.wf(),
            r.chars@ == input@,
            r.index == 0,
    {
        let _byte_count = input.as_bytes().len();
        let chars = chars_of(input);
        BlockScanner { chars, index: 0, byte: 0, line: 1, column: 1 }
    }

    fn advance_char(&mut self)
        requires
            old(self).wf(),
            old(self).index < old(self).chars@.len(),
        ensures
            final(self).wf(),
            final(self).chars == old(self).chars,
            final(self).index == old(self).index + 1,
    {
        let c = self.chars[self.index];
        proof {
            lemma_position(self.chars@, self.index as int + 1);
        }
        self.byte = self.byte + char_width(c);
        if c == '\n' {
            self.line = self.line + 1;
            self.column = 1;
        } else {
            self.column = self.column + 1;
        }
        self.index = self.index + 1;
    }

    fn advance_to(&mut self, target: usize)
        requires
            old(self).wf(),
            old(self).index <= target <= old(self).chars@.len(),
        ensures
            final(self).wf(),
            final(self).chars == old(self).chars,
            final(self).index == target,
    {
        while self.index < target
            invariant
                self.wf(),
                self.chars == old(self).chars,
                self.index <= target <= self.chars@.len(),
            decreases target - self.index,
        {
            self.advance_char();
        }
    }

    fn position(&self) -> (r: SourcePosition)
        requires
            self.wf(),
        ensures
            r.model() == position_spec(self.chars@, self.index as int),
    {
        SourcePosition { byte: self.byte, line: self.line, column: self.column }
    }

    fn error(&self, message: String) -> (r: Error)
        requires
            self.wf(),
        ensures
            reports(r, scan_error(self.chars@, self.index as int, message@)),
    {
        let mut text = message;
        text.append(" at line ");
        text.append(decimal_text(self.line).as_str());
        text.append(", column ");
        text.append(decimal_text(self.column).as_str());
        Error::InvalidSchemaText { context: "schema object block pass", message: text }
    }

    fn parse_until(&mut self, closing: Option<char>, objects: Vec<SchemaBlockObject>) -> (r:
        Result<Vec<SchemaBlockObject>, Error>)
        requires
            old(self).wf(),
        ensures
            final(self).wf(),
            final(self).chars == old(self).chars,
            old(self).index <= final(self).index,
            match parse_until_spec(old(self).chars@, old(self).index as int, closing) {
                Ok((rest, k)) => r matches Ok(v) && object_models(v@) == object_models(objects@)
                    + rest && final(self).index == k,
                Err(e) => r matches Err(err) && reports(err, e),
            },
        decreases old(self).chars@.len() - old(self).index, 2int,
    {
        let ghost s = self.chars@;
        let ghost i = self.index as int;
        let j = skip_layout_index(&self.chars, self.index);
        self.advance_to(j);
        if self.index >= self.chars.len() {
            match closing {
                Some(c) => {
                    let mut message = string_of("missing closing `");
                    push_char(&mut message, c);
                    message.append("` for delimiter block");
                    return Err(self.error(message));
                },
                None => {
                    assert(object_models(objects@) + Seq::<ObjectModel>::empty() =~= object_models(
                        objects@,
                    ));
                    return Ok(objects);
                },
            }
        }
        let c = self.chars[self.index];
        let is_close = match closing {
            Some(wanted) => wanted == c,
            None => false,
        };
        if is_close {
            self.advance_char();
            assert(object_models(objects@) + Seq::<ObjectModel>::empty() =~= object_models(
                objects@,
            ));
            return Ok(objects);
        }
        if c == ')' || c == ']' || c == '}' {
            let mut message = string_of("unexpected closing delimiter `");
            push_char(&mut message, c);
            message.append("`");
            return Err(self.error(message));
        }
        let object = match self.parse_object() {
            Ok(object) => object,
            Err(e) => return Err(e),
        };
        let mut objects = objects;
        let ghost before = objects@;
        let ghost m = object.model();
        objects.push(object);
        proof {
            assert(object_models(objects@) =~= object_models(before).push(m));
        }
        let r = self.parse_until(closing, objects);
        proof {
            match parse_until_spec(s, self.index as int, closing) {
                Ok((rest, k)) => {
                    assert(object_models(before).push(m) + rest =~= object_models(before) + (seq![m]
                        + rest));
                },
                Err(_) => {},
            }
        }
        r
    }

    fn parse_object(&mut self) -> (r: Result<SchemaBlockObject, Error>)
        requires
            old(self).wf(),
        ensures
            final(self).wf(),
            final(self).chars == old(self).chars,
            old(self).index <= final(self).index,
            match parse_object_spec(old(self).chars@, old(self).index as int) {
                Ok((m, k)) => r matches Ok(o) && o.model() == m && final(self).index == k
                    && old(self).index < k,
                Err(e) => r matches Err(err) && reports(err, e),
            },
        decreases old(self).chars@.len() - old(self).index, 1int,
    {
        if self.index >= self.chars.len() {
            return Err(self.error(string_of("unexpected end of input while parsing object")));
        }
        let c = self.chars[self.index];
        if c == '(' {
            self.parse_block(ObjectDelimiter::Parentheses, ')')
        } else if c == '{' {
            self.parse_block(ObjectDelimiter::CurlyBraces, '}')
        } else if c == '[' {
            if self.chars.len() - self.index > 1 && self.chars[self.index + 1] == '|' {
                self.parse_block_string()
            } else {
                self.parse_block(ObjectDelimiter::SquareBrackets, ']')
            }
        } else {
            self.parse_atom()
        }
    }

    fn parse_block(&mut self, delimiter: ObjectDelimiter, closing: char) -> (r: Result<
        SchemaBlockObject,
        Error,
    >)
        requires
            old(self).wf(),
            old(self).index < old(self).chars@.len(),
            ({
                let c = old(self).chars@[old(self).index as int];
                ||| c == '(' && delimiter == ObjectDelimiter::Parentheses && closing == ')'
                ||| c == '{' && delimiter == ObjectDelimiter::CurlyBraces && closing == '}'
                ||| c == '[' && delimiter == ObjectDelimiter::SquareBrackets && closing == ']'
            }),
        ensures
            final(self).wf(),
            final(self).chars == old(self).chars,
            old(self).index <= final(self).index,
            match parse_until_spec(old(self).chars@, old(self).index + 1, Some(closing)) {
                Ok((objects, k)) => r matches Ok(o) && o.model() == block_model(
                    old(self).chars@,
                    delimiter,
                    old(self).index as int,
                    k,
                    objects,
                    false,
                ) && final(self).index == k && old(self).index < k,
                Err(e) => r matches Err(err) && reports(err, e),
            },
        decreases old(self).chars@.len() - old(self).index, 0int,
    {
        let ghost s = self.chars@;
        let ghost j = self.index as int;
        let start = self.position();
        self.advance_char();
        let objects = match self.parse_until(Some(closing), Vec::new()) {
            Ok(objects) => objects,
            Err(e) => return Err(e),
        };
        let block = SchemaBlock {
            delimiter,
            span: SourceSpan { start, end: self.position() },
            objects,
            block_string: false,
        };
        let r = SchemaBlockObject::Block(block);
        proof {
            assert(object_models(Seq::<SchemaBlockObject>::empty()) =~= Seq::<ObjectModel>::empty());
            assert(block.model()->Block_objects =~= object_models(block.objects@));
            match parse_until_spec(s, j + 1, Some(closing)) {
                Ok((spec_objects, k)) => {
                    assert(Seq::<ObjectModel>::empty() + spec_objects =~= spec_objects);
                    assert(r.model() == block.model());
                    assert(block.model() == block_model(s, delimiter, j, k, spec_objects, false));
                },
                Err(_) => {},
            }
        }
        Ok(r)
    }

    fn parse_block_string(&mut self) -> (r: Result<SchemaBlockObject, Error>)
        requires
            old(self).wf(),
            old(self).index + 1 < old(self).chars@.len(),
            old(self).chars@[old(self).index as int] == '[',
            old(self).chars@[old(self).index + 1] == '|',
        ensures
            final(self).wf(),
            final(self).chars == old(self).chars,
            old(self).index <= final(self).index,
            match block_string_end_spec(old(self).chars@, old(self).index + 2) {
                Some(k) => r matches Ok(o) && o.model() == block_model(
                    old(self).chars@,
                    ObjectDelimiter::SquareBrackets,
                    old(self).index as int,
                    k,
                    Seq::empty(),
                    true,
                ) && final(self).index == k && old(self).index < k,
                None => r matches Err(err) && reports(
                    err,
                    scan_error(
                        old(self).chars@,
                        old(self).chars@.len() as int,
                        "unterminated `[|...|]` block string"@,
                    ),
                ),
            },
    {
        let start = self.position();
        match block_string_end_index(&self.chars, self.index + 2) {
            Some(k) => {
                self.advance_to(k);
                let block = SchemaBlock {
                    delimiter: ObjectDelimiter::SquareBrackets,
                    span: SourceSpan { start, end: self.position() },
                    objects: Vec::new(),
                    block_string: true,
                };
                assert(block.model()->Block_objects =~= Seq::<ObjectModel>::empty());
                Ok(SchemaBlockObject::Block(block))
            },
            None => {
                let n = self.chars.len();
                self.advance_to(n);
                Err(self.error(string_of("unterminated `[|...|]` block string")))
            },
        }
    }

    fn parse_atom(&mut self) -> (r: Result<SchemaBlockObject, Error>)
        requires
            old(self).wf(),
            old(self).index < old(self).chars@.len(),
        ensures
            final(self).wf(),
            final(self).chars == old(self).chars,
            old(self).index <= final(self).index,
            ({
                let s = old(self).chars@;
                let j = old(self).index as int;
                let k = atom_end_spec(s, j);
                if k == j {
                    r matches Err(err) && reports(err, scan_error(s, j, "expected atom"@))
                } else {
                    r matches Ok(o) && o.model() == (ObjectModel::Atom {
                        text: s.subrange(j, k),
                        start: position_spec(s, j),
                        end: position_spec(s, k),
                    }) && final(self).index == k && j < k
                }
            }),
    {
        let start = self.position();
        let k = atom_end_index(&self.chars, self.index);
        if k == self.index {
            return Err(self.error(string_of("expected atom")));
        }
        let text = string_from_range(&self.chars, self.index, k);
        self.advance_to(k);
        let atom = SchemaAtom { text, span: SourceSpan { start, end: self.position() } };
        Ok(SchemaBlockObject::Atom(atom))
    }
}

/// The root objects of one `.schema` text, under a namespace prefix.
#[derive(Clone, Debug, PartialEq, Eq)]
pub struct SchemaBlockPass {
    namespace_prefix: ModuleName,
    roots: Vec<SchemaBlockObject>,
}

impl SchemaBlockPass {
    pub closed spec fn root_objects(&self) -> Seq<SchemaBlockObject> {
        self.roots@
    }

    pub closed spec fn prefix(&self) -> ModuleName {
        self.namespace_prefix
    }

    /// Scan a text into its root objects.
    pub fn parse_text(namespace_prefix: ModuleName, text: &str) -> (r: Result<Self, Error>)
        requires
            text@.len() < usize::MAX,
        ensures
            match parse_roots_spec(text@) {
                Ok(roots) => r matches Ok(pass) && object_models(pass.root_objects()) == roots
                    && pass.prefix() == namespace_prefix,
                Err(e) => r matches Err(err) && reports(err, e),
            },
    {
        let mut scanner = BlockScanner::new(text);
        match scanner.parse_until(None, Vec::new()) {
            Ok(roots) => {
                assert(object_models(Seq::<SchemaBlockObject>::empty()) =~= Seq::<
                    ObjectModel,
                >::empty());
                assert(object_models(roots@) =~= Seq::<ObjectModel>::empty() + object_models(
                    roots@,
                ));
                Ok(SchemaBlockPass { namespace_prefix, roots })
            },
            Err(e) => Err(e),
        }
    }

    pub fn namespace_prefix(&self) -> (r: &ModuleName)
        ensures
            *r == self.prefix(),
    {
        &self.namespace_prefix
    }

    pub fn roots(&self) -> (r: &[SchemaBlockObject])
        ensures
            r@ == self.root_objects(),
    {
        self.roots.as_slice()
    }

    pub fn root_count(&self) -> (r: usize)
        ensures
            r == self.root_objects().len(),
    {
        self.roots.len()
    }

    pub fn holds_single_root_object(&self) -> (r: bool)
        ensures
            r == (self.root_objects().len() == 1),
    {
        self.root_count() == 1
    }

    pub fn holds_two_root_objects(&self) -> (r: bool)
        ensures
            r == (self.root_objects().len() == 2),
    {
        self.root_count() == 2
    }

    pub fn root(&self, index: usize) -> (r: Option<&SchemaBlockObject>)
        ensures
            index < self.root_objects().len() ==> r == Some(&self.root_objects()[index as int]),
            index >= self.root_objects().len() ==> r is None,
    {
        if index < self.roots.len() {
            Some(&self.roots[index])
        } else {
            None
        }
    }

    pub fn single_root(&self) -> (r: Option<&SchemaBlockObject>)
        ensures
            self.root_objects().len() == 1 ==> r == Some(&self.root_objects()[0]),
            self.root_objects().len() != 1 ==> r is None,
    {
        if self.holds_single_root_object() {
            Some(&self.roots[0])
        } else {
            None
        }
    }
}

} // verus!
