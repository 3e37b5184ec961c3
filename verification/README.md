# schema_next

A schema toolkit for NOTA text, written in Verus: every function in `src/`
carries a contract that Verus proves.

## Layout

- `src/` — the verified library.
  - `kernel`, `blocks`, `block_query`: the NOTA lexer and parser, positioned
    blocks and their classification.
  - `schema`, `emit`, `macros`, `library`, `schema_schema`: three-part
    schemas, codec rules, macro shapes, a library of loaded schemas and the
    schema-of-schemas macros.
  - `name`, `expression`, `declaration`, `header`, `import`, `feature`,
    `upgrade`, `document`: the authored schema model and its checks.
  - `assembled`, `identity`, `asschema`, `closure`, `layout`, `module`:
    assembled schemas, upgrade plans, content identity, family closures and
    fixed-width layouts.
  - `object_block`, `multi_pass`, `identify`, `lower`: the object block
    scanner and the staged reader.
  - `declarative`, `macro_node`, `schema_node`, `engine`: declarative macros
    (pattern matching and template expansion), macro positions and their
    shapes, schema nodes, and the lowering error type.
  - `nota_reader`: Rust source that reads a schema's types from NOTA.
- `tests/` — tests run against the compiled library.
- `app/` — file I/O, the trait-object macro interface and a demo report
  around the library.

The one outside crate the library calls is `blake3`, for content hashes,
through `identity::derive_key`.

## Not in this crate

These parts of the schema toolkit need the `nota_next` and `nota_codec`
NOTA codecs or rkyv archives, which this crate does not use, or modules
that are not part of it:

- the streaming schema parser (`Schema::parse_str_with_streaming_decoder`),
  the object pass, the node-shape recognizer and the NOTA type lowering
  (`AssembledNotaSchema::from_namespace_text`);
- the staged reader's first and last stages: `read_str`,
  `read_str_with_imports`, `parse` and `lower_and_assemble`;
- `SchemaEngine` with its builtin macros, `MacroRegistry`, `MacroContext`,
  `MacroLibrary` and the lowering of expanded macro templates into schema
  declarations;
- `Schema::assemble` and `Schema::content_hash`, `FamilyClosure::content_hash`
  and `FamilyClosure::streams`, and the NOTA and binary encode and decode
  functions of `Asschema`, `AsschemaArtifact` and `MacroLibraryArtifact`;
- the Rust code generator of `schema-cc`.
