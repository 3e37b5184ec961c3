use schema_next::declarative::{MacroDelimiter, NotaBlock};
use schema_next::engine::SchemaError;
use schema_next::schema_node::{SchemaNode, SchemaNodeData, SchemaNodeValue};

fn symbol(text: &str) -> NotaBlock {
    NotaBlock::Atom(text.to_owned(), true)
}

fn delimited(delimiter: MacroDelimiter, children: Vec<NotaBlock>) -> NotaBlock {
    NotaBlock::Delimited(delimiter, children)
}

fn paren(children: Vec<NotaBlock>) -> NotaBlock {
    delimited(MacroDelimiter::Parenthesis, children)
}

#[test]
fn a_tag_with_vector_data_reads_as_a_node() {
    let block = paren(vec![symbol("Normalize"), delimited(MacroDelimiter::SquareBracket, vec![symbol("Topic")])]);
    let node = SchemaNode::from_block(&block).expect("node");
    assert_eq!(node.tag().as_str(), "Normalize");
    match node.data() {
        SchemaNodeData::Vector(values) => {
            assert_eq!(values.len(), 1);
            match &values[0] {
                SchemaNodeValue::Symbol(name) => assert_eq!(name.as_str(), "Topic"),
                other => panic!("unexpected {:?}", other),
            }
        }
        other => panic!("unexpected {:?}", other),
    }
}

#[test]
fn a_bare_tag_carries_no_data_and_maps_pair_keys_with_values() {
    let unit = SchemaNode::from_block(&paren(vec![symbol("Marker")])).expect("node");
    assert_eq!(*unit.data(), SchemaNodeData::Unit);
    let map = paren(vec![
        symbol("Config"),
        delimited(
            MacroDelimiter::Brace,
            vec![symbol("Depth"), symbol("Deep"), symbol("Note"), NotaBlock::PipeText("free text".to_owned())],
        ),
    ]);
    let node = SchemaNode::from_block(&map).expect("node");
    match node.data() {
        SchemaNodeData::Mapping(pairs) => {
            assert_eq!(pairs.len(), 2);
            assert_eq!(pairs[0].key().as_str(), "Depth");
            assert_eq!(pairs[1].key().as_str(), "Note");
            assert_eq!(*pairs[1].value(), SchemaNodeValue::Text("free text".to_owned()));
        }
        other => panic!("unexpected {:?}", other),
    }
}

#[test]
fn nested_nodes_read_as_node_values() {
    let block = paren(vec![symbol("Outer"), paren(vec![symbol("Inner"), symbol("Leaf")])]);
    let node = SchemaNode::from_block(&block).expect("node");
    match node.data() {
        SchemaNodeData::Value(SchemaNodeValue::Node(inner)) => {
            assert_eq!(inner.tag().as_str(), "Inner");
            assert!(matches!(inner.data(), SchemaNodeData::Value(SchemaNodeValue::Symbol(_))));
        }
        other => panic!("unexpected {:?}", other),
    }
}

#[test]
fn malformed_nodes_are_reported_by_their_notation() {
    let cases = vec![
        (delimited(MacroDelimiter::SquareBracket, vec![symbol("A")]), "[A]"),
        (paren(Vec::new()), "()"),
        (paren(vec![symbol("A"), symbol("B"), symbol("C")]), "(A B C)"),
    ];
    for (block, found_text) in cases {
        match SchemaNode::from_block(&block) {
            Err(SchemaError::MalformedSchemaNode { found }) => assert_eq!(found, found_text),
            other => panic!("unexpected {:?}", other),
        }
    }
    let piped = paren(vec![symbol("Tag"), delimited(MacroDelimiter::PipeBrace, vec![symbol("x")])]);
    match SchemaNode::from_block(&piped) {
        Err(SchemaError::MalformedSchemaNode { found }) => assert_eq!(found, "{|x|}"),
        other => panic!("unexpected {:?}", other),
    }
}

#[test]
fn tags_and_keys_must_be_symbols_and_maps_even() {
    match SchemaNode::from_block(&paren(vec![NotaBlock::Atom("12".to_owned(), false)])) {
        Err(SchemaError::ExpectedSymbol { found }) => assert_eq!(found, "12"),
        other => panic!("unexpected {:?}", other),
    }
    let odd = paren(vec![symbol("Config"), delimited(MacroDelimiter::Brace, vec![symbol("Depth")])]);
    match SchemaNode::from_block(&odd) {
        Err(SchemaError::ExpectedEvenMapEntries { found }) => assert_eq!(found, 1),
        other => panic!("unexpected {:?}", other),
    }
    let bad_key = paren(vec![symbol("Config"), delimited(MacroDelimiter::Brace, vec![paren(vec![symbol("K")]), symbol("V")])]);
    match SchemaNode::from_block(&bad_key) {
        Err(SchemaError::ExpectedSymbol { found }) => assert_eq!(found, "(K)"),
        other => panic!("unexpected {:?}", other),
    }
}
