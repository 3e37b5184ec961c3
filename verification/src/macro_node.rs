//! The structure each macro position accepts: for every position of an
//! assembled schema, how its macros are dispatched and which block or
//! key/value shapes they take, with the text each shape is described by.
use vstd::prelude::*;
use crate::asschema::{
    Asschema, Declaration, EnumDeclaration, EnumVariant, FieldDeclaration, ImportDeclaration,
    TypeDeclaration, TypeReference,
};
use crate::declarative::{demote, BlockModel, MacroDelimiter, MacroObject, MacroObjectModel, MacroPair, NotaBlock};
use crate::text::{decimal_spec, decimal_text, push_char, string_of};

verus! {

#[derive(Clone, Copy, Debug, Eq, PartialEq, Structural)]
pub enum MacroPosition {
    RootImports,
    RootInput,
    RootOutput,
    RootNamespace,
    NamespaceDeclaration,
    StructFields,
    EnumVariants,
    TypeReference,
}

pub open spec fn position_text(p: MacroPosition) -> Seq<char> {
    match p {
        MacroPosition::RootImports => "RootImports"@,
        MacroPosition::RootInput => "RootInput"@,
        MacroPosition::RootOutput => "RootOutput"@,
        MacroPosition::RootNamespace => "RootNamespace"@,
        MacroPosition::NamespaceDeclaration => "NamespaceDeclaration"@,
        MacroPosition::StructFields => "StructFields"@,
        MacroPosition::EnumVariants => "EnumVariants"@,
        MacroPosition::TypeReference => "TypeReference"@,
    }
}

impl MacroPosition {
    pub fn as_str(&self) -> (r: &'static str)
        ensures
            r@ == position_text(*self),
    {
        match self {
            MacroPosition::RootImports => "RootImports",
            MacroPosition::RootInput => "RootInput",
            MacroPosition::RootOutput => "RootOutput",
            MacroPosition::RootNamespace => "RootNamespace",
            MacroPosition::NamespaceDeclaration => "NamespaceDeclaration",
            MacroPosition::StructFields => "StructFields",
            MacroPosition::EnumVariants => "EnumVariants",
            MacroPosition::TypeReference => "TypeReference",
        }
    }
}

/// What a macro lowers its input to.
#[derive(Clone, Debug, Eq, PartialEq)]
pub enum MacroOutput {
    Asschema(Asschema),
    Imports(Vec<ImportDeclaration>),
    RootEnum(EnumDeclaration),
    Types(Vec<Declaration>),
    Type(TypeDeclaration),
    Fields(Vec<FieldDeclaration>),
    Variants(Vec<EnumVariant>),
    Reference(TypeReference),
    References(Vec<TypeReference>),
}

#[derive(Clone, Copy, Debug, Eq, PartialEq, Structural)]
pub enum MacroDispatch {
    RootPositional,
    StructuralMatch,
    TaggedInvocation,
    StructuralOrTaggedInvocation,
}

#[derive(Clone, Copy, Debug, Eq, PartialEq, Structural)]
pub enum MacroNodeDelimiter {
    Parenthesis,
    SquareBracket,
    Brace,
    PipeParenthesis,
    PipeBrace,
}

pub open spec fn delimiter_text(d: MacroNodeDelimiter) -> Seq<char> {
    match d {
        MacroNodeDelimiter::Parenthesis => "parenthesis"@,
        MacroNodeDelimiter::SquareBracket => "square bracket"@,
        MacroNodeDelimiter::Brace => "brace"@,
        MacroNodeDelimiter::PipeParenthesis => "pipe parenthesis"@,
        MacroNodeDelimiter::PipeBrace => "pipe brace"@,
    }
}

impl MacroNodeDelimiter {
    pub fn as_str(&self) -> (r: &'static str)
        ensures
            r@ == delimiter_text(*self),
    {
        match self {
            MacroNodeDelimiter::Parenthesis => "parenthesis",
            MacroNodeDelimiter::SquareBracket => "square bracket",
            MacroNodeDelimiter::Brace => "brace",
            MacroNodeDelimiter::PipeParenthesis => "pipe parenthesis",
            MacroNodeDelimiter::PipeBrace => "pipe brace",
        }
    }
}

#[derive(Clone, Copy, Debug, Eq, PartialEq, Structural)]
pub enum MacroNodeObjectCount {
    Any,
    Even,
    Exact(usize),
}

pub open spec fn count_text(c: MacroNodeObjectCount) -> Seq<char> {
    match c {
        MacroNodeObjectCount::Any => "any"@,
        MacroNodeObjectCount::Even => "even"@,
        MacroNodeObjectCount::Exact(n) => decimal_spec(n as nat),
    }
}

impl MacroNodeObjectCount {
    /// Whether `found` objects satisfy the count.
    pub fn matches(&self, found: usize) -> (r: bool)
        ensures
            r == match *self {
                MacroNodeObjectCount::Any => true,
                MacroNodeObjectCount::Even => found % 2 == 0,
                MacroNodeObjectCount::Exact(expected) => found == expected,
            },
    {
        match self {
            MacroNodeObjectCount::Any => true,
            MacroNodeObjectCount::Even => found % 2 == 0,
            MacroNodeObjectCount::Exact(expected) => found == *expected,
        }
    }

    pub fn as_str(&self) -> (r: String)
        ensures
            r@ == count_text(*self),
    {
        match self {
            MacroNodeObjectCount::Any => string_of("any"),
            MacroNodeObjectCount::Even => string_of("even"),
            MacroNodeObjectCount::Exact(expected) => decimal_text(*expected),
        }
    }
}

#[derive(Clone, Copy, Debug, Eq, PartialEq, Structural)]
pub enum MacroNodeKeyConstraint {
    Symbol,
    PascalCaseSymbol,
    CamelCaseSymbol,
    SigilSuffix(char),
}

pub open spec fn key_text(k: MacroNodeKeyConstraint) -> Seq<char> {
    match k {
        MacroNodeKeyConstraint::Symbol => "symbol"@,
        MacroNodeKeyConstraint::PascalCaseSymbol => "PascalCase symbol"@,
        MacroNodeKeyConstraint::CamelCaseSymbol => "camelCase symbol"@,
        MacroNodeKeyConstraint::SigilSuffix(sigil) => "symbol ending with "@.push(sigil),
    }
}

impl MacroNodeKeyConstraint {
    pub fn description(&self) -> (r: String)
        ensures
            r@ == key_text(*self),
    {
        match self {
            MacroNodeKeyConstraint::Symbol => string_of("symbol"),
            MacroNodeKeyConstraint::PascalCaseSymbol => string_of("PascalCase symbol"),
            MacroNodeKeyConstraint::CamelCaseSymbol => string_of("camelCase symbol"),
            MacroNodeKeyConstraint::SigilSuffix(sigil) => {
                let mut s = string_of("symbol ending with ");
                push_char(&mut s, *sigil);
                s
            },
        }
    }
}

#[derive(Clone, Copy, Debug, Eq, PartialEq, Structural)]
pub enum MacroNodeValueConstraint {
    Delimited(MacroNodeDelimiter),
    TypeReferenceLike,
    SameTypeMarker,
}

pub open spec fn value_text(v: MacroNodeValueConstraint) -> Seq<char> {
    match v {
        MacroNodeValueConstraint::Delimited(d) => delimiter_text(d),
        MacroNodeValueConstraint::TypeReferenceLike => "type reference"@,
        MacroNodeValueConstraint::SameTypeMarker => "*"@,
    }
}

impl MacroNodeValueConstraint {
    pub fn description(&self) -> (r: String)
        ensures
            r@ == value_text(*self),
    {
        match self {
            MacroNodeValueConstraint::Delimited(d) => string_of(d.as_str()),
            MacroNodeValueConstraint::TypeReferenceLike => string_of("type reference"),
            MacroNodeValueConstraint::SameTypeMarker => string_of("*"),
        }
    }
}

#[derive(Clone, Copy, Debug, Eq, PartialEq, Structural)]
pub struct MacroNodeBlockConstraint {
    delimiter: Option<MacroNodeDelimiter>,
    object_count: MacroNodeObjectCount,
}

pub open spec fn block_constraint_text(
    delimiter: Option<MacroNodeDelimiter>,
    count: MacroNodeObjectCount,
) -> Seq<char> {
    let d = match delimiter {
        Some(x) => delimiter_text(x),
        None => "any delimiter or atom"@,
    };
    "block delimiter="@ + d + " count="@ + count_text(count)
}

impl MacroNodeBlockConstraint {
    pub closed spec fn delimiter_of(&self) -> Option<MacroNodeDelimiter> {
        self.delimiter
    }

    pub closed spec fn count_of(&self) -> MacroNodeObjectCount {
        self.object_count
    }

    pub fn new(delimiter: Option<MacroNodeDelimiter>, object_count: MacroNodeObjectCount) -> (r:
        Self)
        ensures
            r.delimiter_of() == delimiter,
            r.count_of() == object_count,
    {
        MacroNodeBlockConstraint { delimiter, object_count }
    }

    pub fn description(&self) -> (r: String)
        ensures
            r@ == block_constraint_text(self.delimiter_of(), self.count_of()),
    {
        let mut s = string_of("block delimiter=");
        match self.delimiter {
            Some(d) => s.append(d.as_str()),
            None => s.append("any delimiter or atom"),
        }
        s.append(" count=");
        s.append(self.object_count.as_str().as_str());
        s
    }
}

#[derive(Clone, Copy, Debug, Eq, PartialEq, Structural)]
pub struct MacroNodePairConstraint {
    key: MacroNodeKeyConstraint,
    value: MacroNodeValueConstraint,
}

pub open spec fn pair_constraint_text(
    key: MacroNodeKeyConstraint,
    value: MacroNodeValueConstraint,
) -> Seq<char> {
    "pair key="@ + key_text(key) + " value="@ + value_text(value)
}

impl MacroNodePairConstraint {
    pub closed spec fn key_of(&self) -> MacroNodeKeyConstraint {
        self.key
    }

    pub closed spec fn value_of(&self) -> MacroNodeValueConstraint {
        self.value
    }

    pub fn new(key: MacroNodeKeyConstraint, value: MacroNodeValueConstraint) -> (r: Self)
        ensures
            r.key_of() == key,
            r.value_of() == value,
    {
        MacroNodePairConstraint { key, value }
    }

    pub fn description(&self) -> (r: String)
        ensures
            r@ == pair_constraint_text(self.key_of(), self.value_of()),
    {
        let mut s = string_of("pair key=");
        s.append(self.key.description().as_str());
        s.append(" value=");
        s.append(self.value.description().as_str());
        s
    }
}

#[derive(Clone, Copy, Debug, Eq, PartialEq, Structural)]
pub enum MacroNodeObjectConstraint {
    Block(MacroNodeBlockConstraint),
    Pair(MacroNodePairConstraint),
}

pub open spec fn object_constraint_text(c: MacroNodeObjectConstraint) -> Seq<char> {
    match c {
        MacroNodeObjectConstraint::Block(b) => block_constraint_text(b.delimiter_of(), b.count_of()),
        MacroNodeObjectConstraint::Pair(p) => pair_constraint_text(p.key_of(), p.value_of()),
    }
}

impl MacroNodeObjectConstraint {
    pub fn description(&self) -> (r: String)
        ensures
            r@ == object_constraint_text(*self),
    {
        match self {
            MacroNodeObjectConstraint::Block(b) => b.description(),
            MacroNodeObjectConstraint::Pair(p) => p.description(),
        }
    }
}

/// One named shape a macro position accepts.
#[derive(Clone, Debug, Eq, PartialEq)]
pub struct MacroNodeCase {
    name: String,
    object: MacroNodeObjectConstraint,
}

impl MacroNodeCase {
    pub closed spec fn name_text(&self) -> Seq<char> {
        self.name@
    }

    pub closed spec fn object_of(&self) -> MacroNodeObjectConstraint {
        self.object
    }

    pub fn block(name: &str, block: MacroNodeBlockConstraint) -> (r: Self)
        ensures
            r.name_text() == name@,
            r.object_of() == MacroNodeObjectConstraint::Block(block),
    {
        MacroNodeCase { name: string_of(name), object: MacroNodeObjectConstraint::Block(block) }
    }

    pub fn pair(name: &str, pair: MacroNodePairConstraint) -> (r: Self)
        ensures
            r.name_text() == name@,
            r.object_of() == MacroNodeObjectConstraint::Pair(pair),
    {
        MacroNodeCase { name: string_of(name), object: MacroNodeObjectConstraint::Pair(pair) }
    }

    pub fn name(&self) -> (r: &str)
        ensures
            r@ == self.name_text(),
    {
        self.name.as_str()
    }

    /// `name: shape`.
    pub fn description(&self) -> (r: String)
        ensures
            r@ == self.name_text() + ": "@ + object_constraint_text(self.object_of()),
    {
        let mut s = string_of(self.name.as_str());
        s.append(": ");
        s.append(self.object.description().as_str());
        s
    }
}

/// Which shapes a macro position accepts and how it dispatches.
#[derive(Clone, Debug, Eq, PartialEq)]
pub struct MacroNodeDefinition {
    position: MacroPosition,
    dispatch: MacroDispatch,
    cases: Vec<MacroNodeCase>,
}

/// A case as its name and shape.
pub struct CaseModel {
    pub name: Seq<char>,
    pub object: MacroNodeObjectConstraint,
}

pub open spec fn case_models(cases: Seq<MacroNodeCase>) -> Seq<CaseModel> {
    Seq::new(cases.len(), |i: int| CaseModel { name: cases[i].name_text(), object: cases[i].object_of() })
}

pub closed spec fn block_case(
    name: Seq<char>,
    delimiter: Option<MacroNodeDelimiter>,
    count: MacroNodeObjectCount,
) -> CaseModel {
    CaseModel {
        name,
        object: MacroNodeObjectConstraint::Block(MacroNodeBlockConstraint { delimiter, object_count: count }),
    }
}

pub closed spec fn pair_case(
    name: Seq<char>,
    key: MacroNodeKeyConstraint,
    value: MacroNodeValueConstraint,
) -> CaseModel {
    CaseModel {
        name,
        object: MacroNodeObjectConstraint::Pair(MacroNodePairConstraint { key, value }),
    }
}

impl MacroNodeDefinition {
    pub closed spec fn position_of(&self) -> MacroPosition {
        self.position
    }

    pub closed spec fn dispatch_of(&self) -> MacroDispatch {
        self.dispatch
    }

    pub closed spec fn case_list(&self) -> Seq<CaseModel> {
        case_models(self.cases@)
    }

    pub fn new(position: MacroPosition, dispatch: MacroDispatch) -> (r: Self)
        ensures
            r.position_of() == position,
            r.dispatch_of() == dispatch,
            r.case_list().len() == 0,
    {
        MacroNodeDefinition { position, dispatch, cases: Vec::new() }
    }

    pub fn with_cases(position: MacroPosition, dispatch: MacroDispatch, cases: Vec<MacroNodeCase>) -> (r:
        Self)
        ensures
            r.position_of() == position,
            r.dispatch_of() == dispatch,
            r.case_list() == case_models(cases@),
    {
        MacroNodeDefinition { position, dispatch, cases }
    }

    /// The imports map: a brace block with an even number of objects.
    pub fn root_imports() -> (r: Self)
        ensures
            r.position_of() == MacroPosition::RootImports,
            r.dispatch_of() == MacroDispatch::RootPositional,
            r.case_list() == seq![
                block_case(
                    "imports map"@,
                    Some(MacroNodeDelimiter::Brace),
                    MacroNodeObjectCount::Even,
                ),
            ],
    {
        let case = MacroNodeCase::block(
            "imports map",
            MacroNodeBlockConstraint::new(Some(MacroNodeDelimiter::Brace), MacroNodeObjectCount::Even),
        );
        let r = Self::with_cases(MacroPosition::RootImports, MacroDispatch::RootPositional, vec![case]);
        assert(r.case_list() =~= seq![
            block_case("imports map"@, Some(MacroNodeDelimiter::Brace), MacroNodeObjectCount::Even),
        ]);
        r
    }

    pub fn root_input() -> (r: Self)
        ensures
            r.position_of() == MacroPosition::RootInput,
            r.dispatch_of() == MacroDispatch::RootPositional,
            r.case_list() == root_enum_cases(),
    {
        Self::root_enum(MacroPosition::RootInput)
    }

    pub fn root_output() -> (r: Self)
        ensures
            r.position_of() == MacroPosition::RootOutput,
            r.dispatch_of() == MacroDispatch::RootPositional,
            r.case_list() == root_enum_cases(),
    {
        Self::root_enum(MacroPosition::RootOutput)
    }

    /// The namespace map: a brace block with an even number of objects.
    pub fn root_namespace() -> (r: Self)
        ensures
            r.position_of() == MacroPosition::RootNamespace,
            r.dispatch_of() == MacroDispatch::RootPositional,
            r.case_list() == seq![
                block_case(
                    "namespace map"@,
                    Some(MacroNodeDelimiter::Brace),
                    MacroNodeObjectCount::Even,
                ),
            ],
    {
        let case = MacroNodeCase::block(
            "namespace map",
            MacroNodeBlockConstraint::new(Some(MacroNodeDelimiter::Brace), MacroNodeObjectCount::Even),
        );
        let r = Self::with_cases(MacroPosition::RootNamespace, MacroDispatch::RootPositional, vec![case]);
        assert(r.case_list() =~= seq![
            block_case("namespace map"@, Some(MacroNodeDelimiter::Brace), MacroNodeObjectCount::Even),
        ]);
        r
    }

    /// A namespace declaration: a symbol key with a brace (struct), square
    /// bracket (enum) or type-reference (newtype) value.
    pub fn namespace_declaration() -> (r: Self)
        ensures
            r.position_of() == MacroPosition::NamespaceDeclaration,
            r.dispatch_of() == MacroDispatch::StructuralMatch,
            r.case_list() == seq![
                pair_case(
                    "struct declaration"@,
                    MacroNodeKeyConstraint::Symbol,
                    MacroNodeValueConstraint::Delimited(MacroNodeDelimiter::Brace),
                ),
                pair_case(
                    "enum declaration"@,
                    MacroNodeKeyConstraint::Symbol,
                    MacroNodeValueConstraint::Delimited(MacroNodeDelimiter::SquareBracket),
                ),
                pair_case(
                    "newtype declaration"@,
                    MacroNodeKeyConstraint::Symbol,
                    MacroNodeValueConstraint::TypeReferenceLike,
                ),
            ],
    {
        let a = MacroNodeCase::pair(
            "struct declaration",
            MacroNodePairConstraint::new(
                MacroNodeKeyConstraint::Symbol,
                MacroNodeValueConstraint::Delimited(MacroNodeDelimiter::Brace),
            ),
        );
        let b = MacroNodeCase::pair(
            "enum declaration",
            MacroNodePairConstraint::new(
                MacroNodeKeyConstraint::Symbol,
                MacroNodeValueConstraint::Delimited(MacroNodeDelimiter::SquareBracket),
            ),
        );
        let c = MacroNodeCase::pair(
            "newtype declaration",
            MacroNodePairConstraint::new(
                MacroNodeKeyConstraint::Symbol,
                MacroNodeValueConstraint::TypeReferenceLike,
            ),
        );
        let r = Self::with_cases(
            MacroPosition::NamespaceDeclaration,
            MacroDispatch::StructuralMatch,
            vec![a, b, c],
        );
        assert(r.case_list() =~= seq![
            pair_case(
                "struct declaration"@,
                MacroNodeKeyConstraint::Symbol,
                MacroNodeValueConstraint::Delimited(MacroNodeDelimiter::Brace),
            ),
            pair_case(
                "enum declaration"@,
                MacroNodeKeyConstraint::Symbol,
                MacroNodeValueConstraint::Delimited(MacroNodeDelimiter::SquareBracket),
            ),
            pair_case(
                "newtype declaration"@,
                MacroNodeKeyConstraint::Symbol,
                MacroNodeValueConstraint::TypeReferenceLike,
            ),
        ]);
        r
    }

    /// Struct fields: an explicit camelCase key with a type, or a derived
    /// PascalCase key with the same-type marker.
    pub fn struct_fields() -> (r: Self)
        ensures
            r.position_of() == MacroPosition::StructFields,
            r.dispatch_of() == MacroDispatch::StructuralMatch,
            r.case_list() == seq![
                pair_case(
                    "explicit field"@,
                    MacroNodeKeyConstraint::CamelCaseSymbol,
                    MacroNodeValueConstraint::TypeReferenceLike,
                ),
                pair_case(
                    "derived field"@,
                    MacroNodeKeyConstraint::PascalCaseSymbol,
                    MacroNodeValueConstraint::SameTypeMarker,
                ),
            ],
    {
        let a = MacroNodeCase::pair(
            "explicit field",
            MacroNodePairConstraint::new(
                MacroNodeKeyConstraint::CamelCaseSymbol,
                MacroNodeValueConstraint::TypeReferenceLike,
            ),
        );
        let b = MacroNodeCase::pair(
            "derived field",
            MacroNodePairConstraint::new(
                MacroNodeKeyConstraint::PascalCaseSymbol,
                MacroNodeValueConstraint::SameTypeMarker,
            ),
        );
        let r = Self::with_cases(MacroPosition::StructFields, MacroDispatch::StructuralMatch, vec![a, b]);
        assert(r.case_list() =~= seq![
            pair_case(
                "explicit field"@,
                MacroNodeKeyConstraint::CamelCaseSymbol,
                MacroNodeValueConstraint::TypeReferenceLike,
            ),
            pair_case(
                "derived field"@,
                MacroNodeKeyConstraint::PascalCaseSymbol,
                MacroNodeValueConstraint::SameTypeMarker,
            ),
        ]);
        r
    }

    /// Enum variants: a unit variant atom, or a data variant whose key ends
    /// with `@` and whose value is a type reference.
    pub fn enum_variants() -> (r: Self)
        ensures
            r.position_of() == MacroPosition::EnumVariants,
            r.dispatch_of() == MacroDispatch::StructuralMatch,
            r.case_list() == seq![
                block_case("unit variant"@, None, MacroNodeObjectCount::Exact(0)),
                pair_case(
                    "data variant"@,
                    MacroNodeKeyConstraint::SigilSuffix('@'),
                    MacroNodeValueConstraint::TypeReferenceLike,
                ),
            ],
    {
        let a = MacroNodeCase::block(
            "unit variant",
            MacroNodeBlockConstraint::new(None, MacroNodeObjectCount::Exact(0)),
        );
        let b = MacroNodeCase::pair(
            "data variant",
            MacroNodePairConstraint::new(
                MacroNodeKeyConstraint::SigilSuffix('@'),
                MacroNodeValueConstraint::TypeReferenceLike,
            ),
        );
        let r = Self::with_cases(MacroPosition::EnumVariants, MacroDispatch::StructuralMatch, vec![a, b]);
        assert(r.case_list() =~= seq![
            block_case("unit variant"@, None, MacroNodeObjectCount::Exact(0)),
            pair_case(
                "data variant"@,
                MacroNodeKeyConstraint::SigilSuffix('@'),
                MacroNodeValueConstraint::TypeReferenceLike,
            ),
        ]);
        r
    }

    /// Type references: a plain or scalar atom, or a parenthesised
    /// composite or tagged invocation.
    pub fn type_reference() -> (r: Self)
        ensures
            r.position_of() == MacroPosition::TypeReference,
            r.dispatch_of() == MacroDispatch::StructuralOrTaggedInvocation,
            r.case_list() == seq![
                block_case("plain or scalar reference"@, None, MacroNodeObjectCount::Exact(0)),
                block_case(
                    "composite or tagged invocation"@,
                    Some(MacroNodeDelimiter::Parenthesis),
                    MacroNodeObjectCount::Any,
                ),
            ],
    {
        let a = MacroNodeCase::block(
            "plain or scalar reference",
            MacroNodeBlockConstraint::new(None, MacroNodeObjectCount::Exact(0)),
        );
        let b = MacroNodeCase::block(
            "composite or tagged invocation",
            MacroNodeBlockConstraint::new(
                Some(MacroNodeDelimiter::Parenthesis),
                MacroNodeObjectCount::Any,
            ),
        );
        let r = Self::with_cases(
            MacroPosition::TypeReference,
            MacroDispatch::StructuralOrTaggedInvocation,
            vec![a, b],
        );
        assert(r.case_list() =~= seq![
            block_case("plain or scalar reference"@, None, MacroNodeObjectCount::Exact(0)),
            block_case(
                "composite or tagged invocation"@,
                Some(MacroNodeDelimiter::Parenthesis),
                MacroNodeObjectCount::Any,
            ),
        ]);
        r
    }

    fn root_enum(position: MacroPosition) -> (r: Self)
        ensures
            r.position_of() == position,
            r.dispatch_of() == MacroDispatch::RootPositional,
            r.case_list() == root_enum_cases(),
    {
        let a = MacroNodeCase::block(
            "root enum body",
            MacroNodeBlockConstraint::new(
                Some(MacroNodeDelimiter::SquareBracket),
                MacroNodeObjectCount::Any,
            ),
        );
        let b = MacroNodeCase::block(
            "legacy named root enum body",
            MacroNodeBlockConstraint::new(
                Some(MacroNodeDelimiter::PipeParenthesis),
                MacroNodeObjectCount::Any,
            ),
        );
        let r = Self::with_cases(position, MacroDispatch::RootPositional, vec![a, b]);
        assert(r.case_list() =~= root_enum_cases());
        r
    }

    pub fn position(&self) -> (r: MacroPosition)
        ensures
            r == self.position_of(),
    {
        self.position
    }

    pub fn dispatch(&self) -> (r: MacroDispatch)
        ensures
            r == self.dispatch_of(),
    {
        self.dispatch
    }

    pub fn cases(&self) -> (r: &[MacroNodeCase])
        ensures
            case_models(r@) == self.case_list(),
    {
        self.cases.as_slice()
    }

    pub fn has_cases(&self) -> (r: bool)
        ensures
            r == (self.case_list().len() > 0),
    {
        self.cases.len() > 0
    }

    /// Whether the position takes tagged invocations.
    pub fn accepts_tagged_invocation(&self) -> (r: bool)
        ensures
            r == (self.dispatch_of() == MacroDispatch::TaggedInvocation || self.dispatch_of()
                == MacroDispatch::StructuralOrTaggedInvocation),
    {
        match self.dispatch {
            MacroDispatch::TaggedInvocation | MacroDispatch::StructuralOrTaggedInvocation => true,
            _ => false,
        }
    }
}

/// A root enum body: a square-bracket block, or the legacy pipe
/// parenthesis form, with any number of objects.
pub open spec fn root_enum_cases() -> Seq<CaseModel> {
    seq![
        block_case(
            "root enum body"@,
            Some(MacroNodeDelimiter::SquareBracket),
            MacroNodeObjectCount::Any,
        ),
        block_case(
            "legacy named root enum body"@,
            Some(MacroNodeDelimiter::PipeParenthesis),
            MacroNodeObjectCount::Any,
        ),
    ]
}

// ── Matching objects against shapes ─────────────────────────────────

pub open spec fn node_delimiter(d: MacroDelimiter) -> MacroNodeDelimiter {
    match d {
        MacroDelimiter::Parenthesis => MacroNodeDelimiter::Parenthesis,
        MacroDelimiter::SquareBracket => MacroNodeDelimiter::SquareBracket,
        MacroDelimiter::Brace => MacroNodeDelimiter::Brace,
        MacroDelimiter::PipeParenthesis => MacroNodeDelimiter::PipeParenthesis,
        MacroDelimiter::PipeBrace => MacroNodeDelimiter::PipeBrace,
    }
}

/// The delimiter of a delimited object.
pub open spec fn block_delimiter(b: BlockModel) -> Option<MacroNodeDelimiter> {
    match b {
        BlockModel::Delimited(d, _) => Some(node_delimiter(d)),
        _ => None,
    }
}

pub open spec fn count_matches(c: MacroNodeObjectCount, found: nat) -> bool {
    match c {
        MacroNodeObjectCount::Any => true,
        MacroNodeObjectCount::Even => found % 2 == 0,
        MacroNodeObjectCount::Exact(expected) => found == expected,
    }
}

/// An object fits a block shape: its delimiter, where the shape names
/// one, and the number of objects it holds.
pub open spec fn block_fits(c: MacroNodeBlockConstraint, b: BlockModel) -> bool {
    &&& (c.delimiter_of() matches Some(e) ==> block_delimiter(b) == Some(e))
    &&& count_matches(c.count_of(), crate::declarative::root_object_count(b))
}

pub open spec fn is_ascii_upper_char(c: char) -> bool {
    'A' <= c <= 'Z'
}

pub open spec fn is_ascii_lower_char(c: char) -> bool {
    'a' <= c <= 'z'
}

/// A key fits when it is an atom and: a symbol; or, holding no `@`,
/// starts upper case (PascalCase) or lower case (camelCase); or ends
/// with the sigil after at least one other character.
pub open spec fn key_fits(k: MacroNodeKeyConstraint, b: BlockModel) -> bool {
    match demote(b) {
        None => false,
        Some(t) => match k {
            MacroNodeKeyConstraint::Symbol => b->Atom_1,
            MacroNodeKeyConstraint::PascalCaseSymbol => !t.contains('@') && t.len() > 0
                && is_ascii_upper_char(t[0]),
            MacroNodeKeyConstraint::CamelCaseSymbol => !t.contains('@') && t.len() > 0
                && is_ascii_lower_char(t[0]),
            MacroNodeKeyConstraint::SigilSuffix(sigil) => t.len() >= 2 && t.last() == sigil,
        },
    }
}

/// A value fits a delimiter shape by its delimiter; a type reference
/// shape when it is a symbol atom or a parenthesis; the same-type
/// marker when it is the atom `*`.
pub open spec fn value_fits(v: MacroNodeValueConstraint, b: BlockModel) -> bool {
    match v {
        MacroNodeValueConstraint::Delimited(e) => block_delimiter(b) == Some(e),
        MacroNodeValueConstraint::TypeReferenceLike => match b {
            BlockModel::Atom(_, symbol) => symbol,
            BlockModel::Delimited(d, _) => d == MacroDelimiter::Parenthesis,
            _ => false,
        },
        MacroNodeValueConstraint::SameTypeMarker => demote(b) == Some("*"@),
    }
}

pub open spec fn object_fits(c: MacroNodeObjectConstraint, o: MacroObjectModel) -> bool {
    match c {
        MacroNodeObjectConstraint::Block(bc) => match o {
            MacroObjectModel::Block(b) => block_fits(bc, b),
            _ => false,
        },
        MacroNodeObjectConstraint::Pair(pc) => match o {
            MacroObjectModel::Pair(k, v) => key_fits(pc.key_of(), k) && value_fits(pc.value_of(), v),
            _ => false,
        },
    }
}

impl MacroNodeDelimiter {
    /// The delimiter of a delimited object.
    pub fn from_block(block: &NotaBlock) -> (r: Option<Self>)
        ensures
            r == block_delimiter(block.model()),
    {
        match block {
            NotaBlock::Delimited(d, _) => Some(match d {
                MacroDelimiter::Parenthesis => MacroNodeDelimiter::Parenthesis,
                MacroDelimiter::SquareBracket => MacroNodeDelimiter::SquareBracket,
                MacroDelimiter::Brace => MacroNodeDelimiter::Brace,
                MacroDelimiter::PipeParenthesis => MacroNodeDelimiter::PipeParenthesis,
                MacroDelimiter::PipeBrace => MacroNodeDelimiter::PipeBrace,
            }),
            _ => None,
        }
    }
}

impl MacroNodeBlockConstraint {
    pub fn matches(&self, block: &NotaBlock) -> (r: bool)
        ensures
            r == block_fits(*self, block.model()),
    {
        let delimiter_ok = match self.delimiter {
            Some(expected) => match MacroNodeDelimiter::from_block(block) {
                Some(found) => found == expected,
                None => false,
            },
            None => true,
        };
        delimiter_ok && self.object_count.matches(block.holds_root_objects())
    }
}

impl MacroNodeKeyConstraint {
    pub fn matches(&self, block: &NotaBlock) -> (r: bool)
        ensures
            r == key_fits(*self, block.model()),
    {
        let text = match block.demote_to_string() {
            Some(text) => text,
            None => {
                return false;
            },
        };
        match self {
            MacroNodeKeyConstraint::Symbol => match block {
                NotaBlock::Atom(_, symbol) => *symbol,
                _ => false,
            },
            MacroNodeKeyConstraint::PascalCaseSymbol => {
                let chars = crate::text::chars_of(text);
                !crate::text::contains_char(text, '@') && chars.len() > 0 && 'A' <= chars[0] && chars[0] <= 'Z'
            },
            MacroNodeKeyConstraint::CamelCaseSymbol => {
                let chars = crate::text::chars_of(text);
                !crate::text::contains_char(text, '@') && chars.len() > 0 && 'a' <= chars[0] && chars[0] <= 'z'
            },
            MacroNodeKeyConstraint::SigilSuffix(sigil) => {
                let chars = crate::text::chars_of(text);
                chars.len() >= 2 && chars[chars.len() - 1] == *sigil
            },
        }
    }
}

impl MacroNodeValueConstraint {
    pub fn matches(&self, block: &NotaBlock) -> (r: bool)
        ensures
            r == value_fits(*self, block.model()),
    {
        match self {
            MacroNodeValueConstraint::Delimited(expected) => match MacroNodeDelimiter::from_block(block) {
                Some(found) => found == *expected,
                None => false,
            },
            MacroNodeValueConstraint::TypeReferenceLike => match block {
                NotaBlock::Atom(_, symbol) => *symbol,
                NotaBlock::Delimited(d, _) => *d == MacroDelimiter::Parenthesis,
                _ => false,
            },
            MacroNodeValueConstraint::SameTypeMarker => match block.demote_to_string() {
                Some(text) => crate::text::str_equal(text, "*"),
                None => false,
            },
        }
    }
}

impl MacroNodePairConstraint {
    pub fn matches(&self, pair: MacroPair) -> (r: bool)
        ensures
            r == (key_fits(self.key_of(), pair.name.model()) && value_fits(self.value_of(), pair.definition.model())),
    {
        self.key.matches(pair.name) && self.value.matches(pair.definition)
    }
}

impl MacroNodeObjectConstraint {
    pub fn matches(&self, object: MacroObject) -> (r: bool)
        ensures
            r == object_fits(*self, object.model()),
    {
        match self {
            MacroNodeObjectConstraint::Block(constraint) => match object {
                MacroObject::Block(block) => constraint.matches(block),
                MacroObject::Pair(_) => false,
            },
            MacroNodeObjectConstraint::Pair(constraint) => match object {
                MacroObject::Pair(pair) => constraint.matches(pair),
                MacroObject::Block(_) => false,
            },
        }
    }
}

impl MacroNodeCase {
    pub fn matches(&self, object: MacroObject) -> (r: bool)
        ensures
            r == object_fits(self.object_of(), object.model()),
    {
        self.object.matches(object)
    }
}

impl MacroNodeDefinition {
    /// Whether any case of the position fits `object`.
    pub fn matches(&self, object: MacroObject) -> (r: bool)
        ensures
            r == exists|i: int| 0 <= i < self.case_list().len() && object_fits(#[trigger] self.case_list()[i].object, object.model()),
    {
        let mut i: usize = 0;
        while i < self.cases.len()
            invariant
                0 <= i <= self.cases@.len(),
                forall|k: int| 0 <= k < i ==> !object_fits(#[trigger] self.case_list()[k].object, object.model()),
            decreases self.cases@.len() - i,
        {
            if self.cases[i].matches(object) {
                assert(self.case_list()[i as int].object == self.cases@[i as int].object_of());
                return true;
            }
            i = i + 1;
        }
        false
    }
}

} // verus!
