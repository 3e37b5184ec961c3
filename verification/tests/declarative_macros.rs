use schema_next::asschema::Name;
use schema_next::declarative::{
    ExpandedObject, MacroBindings, MacroDelimiter, MacroLibrarySourceEntry, MacroObject, MacroPair,
    MacroPattern, MacroPatternObject, MacroTemplate, MacroTemplateObject, NotaBlock, SchemaMacro,
};
use schema_next::engine::SchemaError;
use schema_next::macro_node::{
    MacroNodeBlockConstraint, MacroNodeDefinition, MacroNodeDelimiter, MacroNodeKeyConstraint,
    MacroNodeObjectCount, MacroNodeValueConstraint, MacroPosition,
};

fn atom(text: &str) -> NotaBlock {
    let symbol = text.chars().next().is_some_and(|c| c.is_ascii_alphabetic());
    NotaBlock::Atom(text.to_owned(), symbol)
}

fn paren(children: Vec<NotaBlock>) -> NotaBlock {
    NotaBlock::Delimited(MacroDelimiter::Parenthesis, children)
}

fn square(children: Vec<NotaBlock>) -> NotaBlock {
    NotaBlock::Delimited(MacroDelimiter::SquareBracket, children)
}

fn pattern(block: &NotaBlock) -> MacroPattern {
    MacroPattern::from_block(block).expect("pattern")
}

fn single_text(bindings: &MacroBindings, name: &str) -> String {
    bindings.single(name).expect("bound").compact_notation()
}

fn repeated_texts(bindings: &MacroBindings, name: &str) -> Vec<String> {
    bindings.repeated(name).expect("bound").iter().map(|b| b.compact_notation()).collect()
}

#[test]
fn patterns_read_captures_and_write_them_back() {
    let source = paren(vec![atom("Struct"), atom("$name"), square(vec![atom("$*fields")])]);
    let read = pattern(&source);
    assert_eq!(read.to_source_notation(), "(Struct $name [$*fields])");
    assert_eq!(read.to_source_notation(), source.compact_notation());
    assert_eq!(read.capture_names(), vec!["$name".to_owned(), "$*fields".to_owned()]);
    match read.object() {
        MacroPatternObject::Delimited(data) => {
            assert_eq!(data.delimiter(), MacroDelimiter::Parenthesis);
            assert_eq!(data.children().len(), 3);
            assert_eq!(data.children()[1], MacroPatternObject::Capture("name".to_owned()));
        }
        other => panic!("unexpected {:?}", other),
    }
}

#[test]
fn every_delimiter_is_written_with_its_own_ends() {
    let delimiters = [
        (MacroDelimiter::Parenthesis, "(a b)"),
        (MacroDelimiter::SquareBracket, "[a b]"),
        (MacroDelimiter::Brace, "{a b}"),
        (MacroDelimiter::PipeParenthesis, "(|a b|)"),
        (MacroDelimiter::PipeBrace, "{|a b|}"),
    ];
    for (delimiter, expected) in delimiters {
        let block = NotaBlock::Delimited(delimiter, vec![atom("a"), atom("b")]);
        assert_eq!(block.compact_notation(), expected);
        assert_eq!(pattern(&block).to_source_notation(), expected);
    }
    assert_eq!(paren(Vec::new()).compact_notation(), "()");
}

#[test]
fn pipe_text_reads_as_an_atom_of_its_notation() {
    let block = NotaBlock::PipeText("free text".to_owned());
    assert_eq!(block.compact_notation(), "[|free text|]");
    let read = MacroPatternObject::from_block(&block).expect("pattern");
    assert_eq!(read, MacroPatternObject::Atom("[|free text|]".to_owned()));
}

#[test]
fn empty_capture_names_are_refused() {
    for token in ["$", "$*"] {
        match MacroPattern::from_block(&atom(token)) {
            Err(SchemaError::InvalidMacroCapture { found }) => assert_eq!(found, token),
            other => panic!("unexpected {:?}", other),
        }
        match MacroTemplateObject::from_block(&paren(vec![atom("Vec"), atom(token)])) {
            Err(SchemaError::InvalidMacroCapture { found }) => assert_eq!(found, token),
            other => panic!("unexpected {:?}", other),
        }
    }
}

#[test]
fn single_and_rest_captures_bind_what_they_match() {
    let read = pattern(&paren(vec![atom("Pair"), atom("$key"), atom("$*rest")]));
    let object = paren(vec![atom("Pair"), atom("Topic"), atom("A"), atom("B")]);
    let bindings = read.captures(MacroObject::Block(&object)).expect("no error").expect("match");
    assert_eq!(single_text(&bindings, "key"), "Topic");
    assert_eq!(repeated_texts(&bindings, "rest"), vec!["A".to_owned(), "B".to_owned()]);
    match bindings.single("missing") {
        Err(SchemaError::MissingMacroBinding { name }) => assert_eq!(name, "missing"),
        other => panic!("unexpected {:?}", other),
    }
}

#[test]
fn a_rest_capture_in_the_middle_leaves_room_for_the_tail() {
    let read = pattern(&paren(vec![atom("$first"), atom("$*middle"), atom("$last")]));
    let object = paren(vec![atom("a1"), atom("a2"), atom("a3"), atom("a4")]);
    let bindings = read.captures(MacroObject::Block(&object)).expect("no error").expect("match");
    assert_eq!(single_text(&bindings, "first"), "a1");
    assert_eq!(repeated_texts(&bindings, "middle"), vec!["a2".to_owned(), "a3".to_owned()]);
    assert_eq!(single_text(&bindings, "last"), "a4");
    let exact = paren(vec![atom("a1"), atom("a4")]);
    let bindings = read.captures(MacroObject::Block(&exact)).expect("no error").expect("match");
    assert!(repeated_texts(&bindings, "middle").is_empty());
    let short = paren(vec![atom("a1")]);
    assert!(read.captures(MacroObject::Block(&short)).expect("no error").is_none());
}

#[test]
fn literal_atoms_and_delimiters_must_agree() {
    let read = pattern(&paren(vec![atom("Vec"), atom("$inner")]));
    assert!(read.captures(MacroObject::Block(&paren(vec![atom("Vec"), atom("Topic")]))).expect("ok").is_some());
    assert!(read.captures(MacroObject::Block(&paren(vec![atom("Map"), atom("Topic")]))).expect("ok").is_none());
    assert!(read.captures(MacroObject::Block(&square(vec![atom("Vec"), atom("Topic")]))).expect("ok").is_none());
    assert!(read.captures(MacroObject::Block(&paren(vec![atom("Vec")]))).expect("ok").is_none());
    assert!(read.captures(MacroObject::Block(&atom("Vec"))).expect("ok").is_none());
}

#[test]
fn a_repeated_single_capture_matches_only_the_same_object() {
    let read = pattern(&paren(vec![atom("$x"), atom("$x")]));
    assert!(read.captures(MacroObject::Block(&paren(vec![atom("A"), atom("A")]))).expect("ok").is_some());
    assert!(read.captures(MacroObject::Block(&paren(vec![atom("A"), atom("B")]))).expect("ok").is_none());
}

#[test]
fn a_rest_capture_bound_to_two_runs_is_a_conflict() {
    let read = pattern(&paren(vec![atom("$*xs"), square(vec![atom("$*xs")])]));
    let same = paren(vec![atom("a"), atom("b"), square(vec![atom("a"), atom("b")])]);
    assert!(read.captures(MacroObject::Block(&same)).expect("ok").is_some());
    let different = paren(vec![atom("a"), atom("b"), square(vec![atom("c")])]);
    match read.captures(MacroObject::Block(&different)) {
        Err(SchemaError::ConflictingMacroBinding { name }) => assert_eq!(name, "xs"),
        other => panic!("unexpected {:?}", other),
    }
}

#[test]
fn pair_patterns_match_key_and_value() {
    let read = pattern(&paren(vec![atom("$name"), square(vec![atom("$*variants")])]));
    let key = atom("Colour");
    let value = square(vec![atom("Red"), atom("Green")]);
    let pair = MacroPair { name: &key, definition: &value };
    let bindings = read.captures(MacroObject::Pair(pair)).expect("ok").expect("match");
    assert_eq!(single_text(&bindings, "name"), "Colour");
    assert_eq!(repeated_texts(&bindings, "variants"), vec!["Red".to_owned(), "Green".to_owned()]);
    let three = pattern(&paren(vec![atom("$a"), atom("$b"), atom("$c")]));
    assert!(three.captures(MacroObject::Pair(pair)).expect("ok").is_none());
    let braces = pattern(&NotaBlock::Delimited(MacroDelimiter::Brace, vec![atom("$a"), atom("$b")]));
    assert!(braces.captures(MacroObject::Pair(pair)).expect("ok").is_none());
}

fn bindings_for(pattern_block: &NotaBlock, object: &NotaBlock) -> MacroBindings {
    pattern(pattern_block).captures(MacroObject::Block(object)).expect("ok").expect("match")
}

#[test]
fn templates_expand_captures_and_splice_rest_captures() {
    let bindings = bindings_for(
        &paren(vec![atom("Record"), atom("$name"), atom("$*fields")]),
        &paren(vec![atom("Record"), atom("Letter"), atom("Topic"), paren(vec![atom("Vec"), atom("Tag")])]),
    );
    let template = MacroTemplateObject::from_block(&paren(vec![
        atom("Struct"),
        atom("$name"),
        NotaBlock::Delimited(MacroDelimiter::Brace, vec![atom("$*fields")]),
    ]))
    .expect("template");
    assert_eq!(template.to_source_notation(), "(Struct $name {$*fields})");
    let expanded = template.expand_objects(&bindings).expect("expanded");
    assert_eq!(expanded.len(), 1);
    assert_eq!(expanded[0].compact_notation(), "(Struct Letter {Topic (Vec Tag)})");
    let single = template.expand_single(&bindings, "Struct body").expect("one object");
    assert_eq!(single.compact_notation(), "(Struct Letter {Topic (Vec Tag)})");
    assert_eq!(single.demote_to_string(), None);
}

#[test]
fn a_rest_capture_alone_expands_to_its_run() {
    let bindings = bindings_for(&paren(vec![atom("$*items")]), &paren(vec![atom("a"), atom("b"), atom("c")]));
    let template = MacroTemplateObject::RestCapture("items".to_owned());
    let expanded = template.expand_objects(&bindings).expect("expanded");
    let texts: Vec<String> = expanded.iter().map(ExpandedObject::compact_notation).collect();
    assert_eq!(texts, vec!["a".to_owned(), "b".to_owned(), "c".to_owned()]);
    match template.expand_single(&bindings, "Reference template") {
        Err(SchemaError::ExpectedTemplateObjectCount { position, expected, found }) => {
            assert_eq!(position, "Reference template");
            assert_eq!(expected, 1);
            assert_eq!(found, 3);
        }
        other => panic!("unexpected {:?}", other),
    }
    assert_eq!(MacroTemplateObject::Atom("Topic".to_owned()).expand_single(&bindings, "x").expect("one").demote_to_string(), Some("Topic"));
}

#[test]
fn expanding_an_unbound_capture_names_it() {
    let bindings = MacroBindings::new();
    let template = MacroTemplateObject::from_block(&paren(vec![atom("Vec"), atom("$inner")])).expect("template");
    match template.expand_objects(&bindings) {
        Err(SchemaError::MissingMacroBinding { name }) => assert_eq!(name, "inner"),
        other => panic!("unexpected {:?}", other),
    }
}

#[test]
fn bindings_refuse_a_second_run_under_one_name() {
    let mut bindings = MacroBindings::new();
    let run = vec![atom("a"), atom("b")];
    assert!(bindings.bind_repeated("xs", &run).is_ok());
    assert!(bindings.bind_repeated("xs", &run).is_ok());
    match bindings.bind_repeated("xs", &run[..1]) {
        Err(SchemaError::ConflictingMacroBinding { name }) => assert_eq!(name, "xs"),
        other => panic!("unexpected {:?}", other),
    }
    assert!(bindings.bind_single("x", &atom("a")));
    assert!(bindings.bind_single("x", &atom("a")));
    assert!(!bindings.bind_single("x", &atom("b")));
}

#[test]
fn schema_macros_match_only_at_their_position() {
    let definition = SchemaMacro::new(
        Name::new("VecShorthand"),
        MacroPosition::TypeReference,
        pattern(&paren(vec![atom("Vec"), atom("$inner")])),
        MacroTemplate::Reference(MacroTemplateObject::Capture("inner".to_owned())),
    );
    let object = paren(vec![atom("Vec"), atom("Topic")]);
    assert!(definition.matches(MacroObject::Block(&object), MacroPosition::TypeReference));
    assert!(!definition.matches(MacroObject::Block(&object), MacroPosition::StructFields));
    assert!(!definition.matches(MacroObject::Block(&atom("Topic")), MacroPosition::TypeReference));
    assert_eq!(definition.name().as_str(), "VecShorthand");
    assert_eq!(definition.position(), MacroPosition::TypeReference);
    assert_eq!(definition.capture_names(), vec!["$inner".to_owned()]);
    let entry = MacroLibrarySourceEntry::SchemaMacro(definition);
    assert_eq!(entry.variant_name(), "SchemaMacro");
    assert_eq!(entry.definition().position(), MacroPosition::TypeReference);
}

#[test]
fn macro_node_shapes_check_delimiter_count_and_key_case() {
    let even_brace = MacroNodeBlockConstraint::new(Some(MacroNodeDelimiter::Brace), MacroNodeObjectCount::Even);
    assert!(even_brace.matches(&NotaBlock::Delimited(MacroDelimiter::Brace, vec![atom("a"), atom("b")])));
    assert!(!even_brace.matches(&NotaBlock::Delimited(MacroDelimiter::Brace, vec![atom("a")])));
    assert!(!even_brace.matches(&square(vec![atom("a"), atom("b")])));
    let any_atom = MacroNodeBlockConstraint::new(None, MacroNodeObjectCount::Exact(0));
    assert!(any_atom.matches(&atom("Topic")));
    assert!(!any_atom.matches(&paren(vec![atom("Vec"), atom("Topic")])));

    assert!(MacroNodeKeyConstraint::PascalCaseSymbol.matches(&atom("Topic")));
    assert!(!MacroNodeKeyConstraint::PascalCaseSymbol.matches(&atom("topic")));
    assert!(!MacroNodeKeyConstraint::PascalCaseSymbol.matches(&atom("To@pic")));
    assert!(MacroNodeKeyConstraint::CamelCaseSymbol.matches(&atom("topic")));
    assert!(MacroNodeKeyConstraint::SigilSuffix('?').matches(&atom("maybe?")));
    assert!(!MacroNodeKeyConstraint::SigilSuffix('?').matches(&atom("?")));
    assert!(MacroNodeKeyConstraint::Symbol.matches(&atom("Topic")));
    assert!(!MacroNodeKeyConstraint::Symbol.matches(&NotaBlock::Atom("12".to_owned(), false)));
    assert!(!MacroNodeKeyConstraint::Symbol.matches(&paren(Vec::new())));

    assert!(MacroNodeValueConstraint::SameTypeMarker.matches(&atom("*")));
    assert!(MacroNodeValueConstraint::TypeReferenceLike.matches(&atom("Topic")));
    assert!(MacroNodeValueConstraint::TypeReferenceLike.matches(&paren(vec![atom("Vec"), atom("Tag")])));
    assert!(!MacroNodeValueConstraint::TypeReferenceLike.matches(&square(Vec::new())));
    assert!(MacroNodeValueConstraint::Delimited(MacroNodeDelimiter::SquareBracket).matches(&square(Vec::new())));
}

#[test]
fn macro_node_definitions_match_when_any_case_fits() {
    let declarations = MacroNodeDefinition::namespace_declaration();
    let key = atom("Colour");
    let variants = square(vec![atom("Red")]);
    let pair = MacroPair { name: &key, definition: &variants };
    assert!(declarations.matches(MacroObject::Pair(pair)));
    let number = NotaBlock::Atom("12".to_owned(), false);
    let bad = MacroPair { name: &number, definition: &variants };
    assert!(!declarations.matches(MacroObject::Pair(bad)));
    assert!(!declarations.matches(MacroObject::Block(&variants)));
    let references = MacroNodeDefinition::type_reference();
    assert!(references.matches(MacroObject::Block(&atom("Topic"))));
    assert!(references.matches(MacroObject::Block(&paren(vec![atom("Vec"), atom("Tag")]))));
    assert!(!references.matches(MacroObject::Block(&square(vec![atom("Tag")]))));
}

#[test]
fn expanding_a_pattern_as_a_template_gives_back_the_matched_object() {
    let shape = paren(vec![atom("Struct"), atom("$name"), square(vec![atom("$*fields")]), atom("$name")]);
    let object = paren(vec![
        atom("Struct"),
        atom("Letter"),
        square(vec![atom("Topic"), paren(vec![atom("Vec"), atom("Tag")])]),
        atom("Letter"),
    ]);
    let bindings = bindings_for(&shape, &object);
    let template = MacroTemplateObject::from_block(&shape).expect("template");
    let expanded = template.expand_single(&bindings, "whole object").expect("one object");
    assert_eq!(expanded.compact_notation(), object.compact_notation());
    assert_eq!(expanded.compact_notation(), "(Struct Letter [Topic (Vec Tag)] Letter)");
}
