use schema_next::error::Error;
use schema_next::macro_pattern::{SchemaMacroMatcher, SchemaMacroPattern};
use schema_next::name::ModuleName;
use schema_next::object_block::{ObjectDelimiter, SchemaBlockPass, SymbolClass};

fn prefix() -> ModuleName {
    ModuleName::new("mail").expect("module")
}

fn scan(text: &str) -> SchemaBlockPass {
    SchemaBlockPass::parse_text(prefix(), text).expect("scans")
}

fn scan_error(text: &str) -> String {
    match SchemaBlockPass::parse_text(prefix(), text) {
        Err(Error::InvalidSchemaText { context, message }) => {
            assert_eq!(context, "schema object block pass");
            message
        }
        other => panic!("expected a scan error, got {other:?}"),
    }
}

#[test]
fn block_pass_reads_roots_with_positions() {
    let pass = scan("(Move [a b])\n;; note\n{x y}");
    assert_eq!(pass.namespace_prefix().as_str(), "mail");
    assert_eq!(pass.root_count(), 2);
    assert!(pass.holds_two_root_objects());
    let first = pass.root(0).expect("first");
    assert!(first.is_parenthesis_block());
    let block = first.as_block().expect("block");
    assert_eq!(block.object_count(), 2);
    assert!(block.second_object_is_square_bracket_block());
    assert!(!block.second_object_qualifies_as_symbol());
    assert_eq!(block.span().start().byte(), 0);
    assert_eq!(block.span().end().byte(), 12);
    assert_eq!(block.span().end().column(), 13);
    let second = pass.root(1).expect("second");
    assert!(second.is_curly_brace_block());
    let span = second.span();
    assert_eq!((span.start().line(), span.start().column(), span.start().byte()), (3, 1, 21));
    assert_eq!((span.end().line(), span.end().column(), span.end().byte()), (3, 6, 26));
    assert!(pass.root(2).is_none());
    assert!(pass.single_root().is_none());
}

#[test]
fn block_pass_counts_bytes_of_wide_characters() {
    let pass = scan("(é ü)");
    let block = pass.root(0).expect("root").as_block().expect("block");
    assert_eq!(block.span().end().byte(), 7);
    assert_eq!(block.span().end().column(), 6);
    let atom = block.object(0).expect("atom").as_atom().expect("atom");
    assert_eq!(atom.text(), "é");
    assert!(!atom.qualifies_as_symbol());
}

#[test]
fn block_pass_keeps_block_strings_opaque() {
    let pass = scan("[| any ) text ( |] tail");
    assert_eq!(pass.root_count(), 2);
    let block = pass.root(0).expect("root").as_block().expect("block");
    assert!(block.is_block_string());
    assert!(block.is_square_bracket_block());
    assert_eq!(block.object_count(), 0);
    assert_eq!(block.delimiter(), ObjectDelimiter::SquareBrackets);
    assert_eq!(pass.root(1).expect("atom").symbol_text(), Some("tail"));
}

#[test]
fn block_pass_reports_unbalanced_delimiters() {
    assert_eq!(scan_error("(a b"), "missing closing `)` for delimiter block at line 1, column 5");
    assert_eq!(scan_error("a\n]"), "unexpected closing delimiter `]` at line 2, column 1");
    assert_eq!(scan_error("{x [y}"), "unexpected closing delimiter `}` at line 1, column 6");
    assert_eq!(scan_error("[| open"), "unterminated `[|...|]` block string at line 1, column 8");
}

#[test]
fn block_pass_accepts_empty_and_comment_only_text() {
    assert_eq!(scan("").root_count(), 0);
    assert_eq!(scan("  ;; only a comment").root_count(), 0);
    let single = scan("Topic");
    assert!(single.holds_single_root_object());
    assert_eq!(single.single_root().expect("root").symbol_text(), Some("Topic"));
}

#[test]
fn symbols_are_classified_by_case() {
    let pass = scan("MoveRequest moveRequest move-request _private 42");
    let classes: Vec<Option<SymbolClass>> = pass
        .roots()
        .iter()
        .map(|root| root.qualified_symbol().map(|symbol| symbol.class()))
        .collect();
    assert_eq!(
        classes,
        vec![
            Some(SymbolClass::PascalCase),
            Some(SymbolClass::CamelCase),
            Some(SymbolClass::KebabCase),
            Some(SymbolClass::CamelCase),
            None,
        ]
    );
}

#[test]
fn macro_patterns_match_by_shape() {
    let pass = scan("(Import Core [Topic Kind]) [a] name");
    let import = pass.root(0).expect("import");
    let pattern = SchemaMacroPattern::parenthesized(vec![
        SchemaMacroPattern::pascal_symbol(),
        SchemaMacroPattern::symbol(),
        SchemaMacroPattern::square_bracketed_any(),
    ]);
    let matcher = SchemaMacroMatcher::new("import", pattern);
    assert_eq!(matcher.name(), "import");
    assert!(matcher.matches(import));
    assert!(!matcher.matches(pass.root(1).expect("vector")));
    assert!(SchemaMacroPattern::square_bracketed(vec![SchemaMacroPattern::any()]).matches(pass.root(1).expect("vector")));
    assert!(!SchemaMacroPattern::square_bracketed(vec![]).matches(pass.root(1).expect("vector")));
    assert!(SchemaMacroPattern::camel_symbol().matches(pass.root(2).expect("atom")));
    assert!(!SchemaMacroPattern::kebab_symbol().matches(pass.root(2).expect("atom")));
    assert!(!SchemaMacroPattern::curly_braced_any().matches(import));
    assert!(SchemaMacroPattern::parenthesized_any().matches(import));
    let wrong_class = SchemaMacroPattern::parenthesized(vec![
        SchemaMacroPattern::camel_symbol(),
        SchemaMacroPattern::any(),
        SchemaMacroPattern::any(),
    ]);
    assert!(!wrong_class.matches(import));
}
