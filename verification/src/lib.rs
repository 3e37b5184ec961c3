//! Reading NOTA text into positioned blocks, classifying those blocks,
//! assembling schemas from them, emitting codec rules, interpreting
//! macro shapes, and a library of loaded schemas; the authored schema
//! model with its checks, assembled schemas and their upgrade plans,
//! content identity and family closures, declarative macros, and the
//! Rust source that reads a schema's types from NOTA.
pub mod text;
pub mod kernel;
pub mod blocks;
pub mod block_query;
pub mod schema;
pub mod emit;
pub mod macros;
pub mod library;
pub mod schema_schema;

pub use block_query::{BlockKind, BlockReassembler, Classification, LiteralKind, SymbolKind};
pub use blocks::{Block, BlockParser, DelimiterKind, SourcePosition, SourceSpan};
pub use emit::EmittedCodec;
pub use kernel::{Kernel, KernelError, KernelToken, KernelTokenKind, Node, NodeKind};
pub use library::{Library, LibraryError};
pub use macros::{MacroEngine, MacroShape};
pub use schema::{
    AssembledSchema, NamespaceEntry, OperationEntry, SchemaError, SchemaSection, ThreePartSchema,
    TypeBody,
};
pub use schema_schema::{
    AssembledNode, BuiltinMacro, ImportEntry, ImportsSectionMacro, InputOutputStructMacro,
    MacroError, NamespaceDeclaration, NamespaceSectionMacro, NamespaceTable, OperationDeclaration,
    SchemaSchema, SchemaSchemaTextEntry,
};
pub mod error;
pub mod name;
pub mod object_block;
pub mod macro_pattern;
pub mod expression;
pub mod declaration;
pub mod header;
pub mod import;
pub mod upgrade;
pub mod feature;
pub mod assembled;
pub mod identity;
pub mod asschema;
pub mod macro_node;
pub mod multi_pass;
pub mod identify;
pub mod lower;
pub mod module;
pub mod layout;
pub mod closure;
pub mod engine;
pub mod declarative;
pub mod document;
pub mod nota_reader;
pub mod schema_node;

pub use closure::FamilyClosure;
pub use identity::ContentHash;
