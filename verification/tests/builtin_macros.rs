use schema_next::{
    AssembledNode, BlockParser, ImportsSectionMacro, InputOutputStructMacro, KernelError, Library,
    LibraryError, MacroError, NamespaceDeclaration, NamespaceSectionMacro, NamespaceTable,
    NodeKind, SchemaError, SchemaSchemaTextEntry,
};

fn first_block(source: &str) -> schema_next::Block {
    BlockParser::new(source).parse_blocks().expect("parses").remove(0)
}

#[test]
fn imports_macro_accepts_pascal_keys_with_record_values() {
    assert!(ImportsSectionMacro::looks_like_imports_map(&first_block("{}")));
    assert!(ImportsSectionMacro::looks_like_imports_map(&first_block(
        "{ Magnitude (ImportAll path) Topic (Import core [Topic]) }"
    )));
    assert!(!ImportsSectionMacro::looks_like_imports_map(&first_block("{ magnitude (ImportAll path) }")));
    assert!(!ImportsSectionMacro::looks_like_imports_map(&first_block("{ Magnitude [x] }")));
    assert!(!ImportsSectionMacro::looks_like_imports_map(&first_block("{ Magnitude }")));
    assert!(!ImportsSectionMacro::looks_like_imports_map(&first_block("[ Magnitude (x) ]")));
}

#[test]
fn imports_macro_lowers_each_binding() {
    let block = first_block("{ Magnitude (ImportAll path) Topic (Import core [Topic]) }");
    let lowered = ImportsSectionMacro.lower(&block).expect("lowers");
    match lowered {
        AssembledNode::ImportsTable { entries } => {
            assert_eq!(entries.len(), 2);
            assert_eq!(entries[0].local_name, "Magnitude");
            assert_eq!(entries[0].source, "2");
            assert_eq!(entries[1].local_name, "Topic");
            assert_eq!(entries[1].source, "3");
        }
        other => panic!("expected ImportsTable, got {other:?}"),
    }
    assert_eq!(ImportsSectionMacro.name(), "imports_section");
}

#[test]
fn operation_vector_macro_reads_tags_and_payload_labels() {
    let block = first_block("[ (Move (MoveRequest Extra)) (Rotate RotateRequest) (Read) ]");
    assert!(InputOutputStructMacro::looks_like_operation_vector(&block));
    assert!(InputOutputStructMacro.matches_shape(&block));
    match InputOutputStructMacro.lower(&block).expect("lowers") {
        AssembledNode::InputOutputStruct { input_operations, output_operations } => {
            assert!(output_operations.is_empty());
            assert_eq!(input_operations.len(), 3);
            assert_eq!(input_operations[0].tag, "Move");
            assert_eq!(input_operations[0].payload_types, vec!["(MoveRequest Extra)".to_string()]);
            assert_eq!(input_operations[1].payload_types, vec!["RotateRequest".to_string()]);
            assert!(input_operations[2].payload_types.is_empty());
        }
        other => panic!("expected InputOutputStruct, got {other:?}"),
    }
    assert!(!InputOutputStructMacro::looks_like_operation_vector(&first_block("[ (move x) ]")));
    assert!(!InputOutputStructMacro::looks_like_operation_vector(&first_block("[ Move ]")));
    assert!(InputOutputStructMacro::looks_like_operation_vector(&first_block("[]")));
}

#[test]
fn namespace_macro_summarises_each_body() {
    let block = first_block("{ Point [Integer Integer] Light (On Off) Table {k v} Label String count 42 }");
    assert!(NamespaceSectionMacro::looks_like_namespace_map(&block));
    match NamespaceSectionMacro.lower(&block).expect("lowers") {
        AssembledNode::Namespace { entries } => {
            let summaries: Vec<(&str, &str)> =
                entries.iter().map(|e| (e.name.as_str(), e.body_source.as_str())).collect();
            assert_eq!(
                summaries,
                vec![
                    ("Point", "(square-bracket 2 elements)"),
                    ("Light", "(parenthesis 2 elements)"),
                    ("Table", "(brace 2 elements)"),
                    ("Label", "(alias `String`)"),
                    ("count", "(leaf)"),
                ]
            );
        }
        other => panic!("expected Namespace, got {other:?}"),
    }
    assert!(!NamespaceSectionMacro::looks_like_namespace_map(&first_block("{ kebab-key x }")));
    assert_eq!(NamespaceSectionMacro.name(), "namespace_section");
}

#[test]
fn namespace_table_resolves_the_first_declaration() {
    let mut table = NamespaceTable::new();
    assert!(table.resolve("Point").is_none());
    table.insert(NamespaceDeclaration { name: "Point".into(), body_source: "first".into() });
    table.insert(NamespaceDeclaration { name: "Point".into(), body_source: "second".into() });
    assert_eq!(table.entries().len(), 2);
    assert_eq!(table.resolve("Point").expect("declared").body_source, "first");
}

#[test]
fn raw_parse_returns_kernel_nodes() {
    let nodes = SchemaSchemaTextEntry::parse_raw("{} [a]").expect("parses");
    assert_eq!(nodes.len(), 2);
    assert_eq!(nodes[1].kind, NodeKind::Vector);
    assert!(SchemaSchemaTextEntry::parse_raw("(").is_err());
}

#[test]
fn error_messages_describe_the_failure() {
    let schema_error = SchemaError::WrongLayout { found_blocks: 3, expected: 5 };
    assert_eq!(schema_error.message(), "wrong layout: found 3 top-level blocks, expected 5");
    assert_eq!(
        SchemaError::Kernel(KernelError::InvalidEscape { position: 9 }).message(),
        "kernel: invalid escape at byte 9"
    );
    assert_eq!(
        LibraryError::NotLoaded { schema_name: "mail".into() }.message(),
        "schema `mail` not loaded"
    );
    assert_eq!(
        LibraryError::Schema(SchemaError::NamespaceNotMap).message(),
        "schema: namespace block must be a `{...}` map"
    );
    let macro_error = MacroError::from_kernel(KernelError::EmptyInput);
    assert_eq!(macro_error.message(), "macro `<kernel>`: empty input");
    assert_eq!(
        MacroError::NoMacroMatched { block_summary: "[x]".into() }.message(),
        "no macro matched for block: [x]"
    );
}

#[test]
fn library_load_errors_name_the_schema() {
    let mut library = Library::with_core("{} [] [] { Unit () } []").expect("core loads");
    assert!(library.load("broken", "[]").is_err());
    match library.load("broken", "{} [] []") {
        Err(LibraryError::Schema(SchemaError::WrongLayout { found_blocks, expected })) => {
            assert_eq!((found_blocks, expected), (3, 5));
        }
        other => panic!("expected WrongLayout, got {other:?}"),
    }
    assert!(library.loaded_names().is_empty());
    assert!(library.get("broken").is_none());
    library.load("b", "{} [] [] { B () } []").expect("loads");
    library.load("a", "{} [] [] { A () } []").expect("loads");
    assert_eq!(library.loaded_names(), vec!["a", "b"]);
    match library.load("a", "{} [] [] {} []") {
        Err(LibraryError::AlreadyLoaded { schema_name }) => assert_eq!(schema_name, "a"),
        other => panic!("expected AlreadyLoaded, got {other:?}"),
    }
    assert!(library.resolve("a", "Unit").is_some());
    assert!(library.resolve("missing", "Unit").is_some());
    assert!(library.resolve("a", "B").is_none());
}

#[test]
fn positional_lowering_reports_shape_mismatches_and_parse_errors() {
    let schema_schema = schema_next::SchemaSchema::default();
    match schema_schema.lower_via_macros("[] [] [] {} []") {
        Err(MacroError::ShapeMismatch { macro_name, reason }) => {
            assert_eq!(macro_name, "imports_section");
            assert_eq!(reason, "block at position 0 did not match `imports_section` shape");
        }
        other => panic!("expected ShapeMismatch, got {other:?}"),
    }
    match schema_schema.lower_via_macros("{} [] [] [] []") {
        Err(MacroError::ShapeMismatch { macro_name, reason }) => {
            assert_eq!(macro_name, "namespace_section");
            assert_eq!(reason, "block at position 3 did not match `namespace_section` shape");
        }
        other => panic!("expected ShapeMismatch, got {other:?}"),
    }
    match schema_schema.lower_via_macros("(") {
        Err(MacroError::Domain { macro_name, message }) => {
            assert_eq!(macro_name, "<parse>");
            assert_eq!(message, "unclosed `(` at byte 0");
        }
        other => panic!("expected Domain, got {other:?}"),
    }
    let lowered = schema_schema.lower_via_macros("{} [] [] {} [] [extra] {more}").expect("lowers");
    assert_eq!(lowered.len(), 5);
}

#[test]
fn dispatch_picks_the_first_matching_builtin() {
    let schema_schema = schema_next::SchemaSchema::default();
    let brace = first_block("{ Magnitude (ImportAll path) }");
    assert_eq!(schema_schema.dispatch_for(&brace).expect("matches").name(), "imports_section");
    let namespace = first_block("{ Point [Integer] }");
    assert_eq!(schema_schema.dispatch_for(&namespace).expect("matches").name(), "namespace_section");
    let vector = first_block("[ (Move) ]");
    assert_eq!(schema_schema.dispatch_for(&vector).expect("matches").name(), "input_output_struct");
    assert!(schema_schema.dispatch_for(&first_block("(Move)")).is_none());
    assert_eq!(schema_schema.lookup_macro("namespace_section").expect("registered").name(), "namespace_section");
    assert!(schema_schema.lookup_macro("unknown").is_none());
}

#[test]
fn emitted_codec_declares_every_namespace_name_once() {
    let schema = schema_next::AssembledSchema::read(
        "{} [] [] { Light (On Off) Point [X Y] Table {k v} Label Text } []",
    )
    .expect("reads");
    let codec = schema_next::EmittedCodec::emit(&schema);
    assert_eq!(codec.type_names, vec!["Light", "Point", "Table", "Label"]);
    assert_eq!(codec.enum_names, vec!["Light"]);
    assert_eq!(codec.struct_names, vec!["Point", "Label"]);
    assert_eq!(codec.macro_names, vec!["Table"]);
    assert_eq!(
        codec.variant_index,
        vec![("Light".to_string(), "On".to_string()), ("Light".to_string(), "Off".to_string())]
    );
    assert_eq!(schema_next::EmittedCodec::iter_entries(&schema).len(), 4);
}
