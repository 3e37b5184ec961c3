use schema_next::blocks::{Block, BlockParser};
use schema_next::kernel::Kernel;

const SOURCE: &str = "(Topic [a b]) ;; note\n{key (Vec Tag)}\n  Leaf";

#[test]
fn tokens_come_in_source_order_with_only_layout_between() {
    let tokens = Kernel::new(SOURCE).lex().expect("lexes");
    let bytes = SOURCE.as_bytes();
    let mut covered = vec![false; bytes.len()];
    for (i, token) in tokens.iter().enumerate() {
        assert!(token.start < token.end && token.end <= bytes.len());
        if i > 0 {
            assert!(tokens[i - 1].end <= token.start);
        }
        for k in token.start..token.end {
            covered[k] = true;
        }
    }
    for (k, byte) in bytes.iter().enumerate() {
        if !covered[k] {
            assert!(matches!(byte, b' ' | b'\t' | b'\n' | b'\r'), "byte {k}");
        }
    }
}

fn check_nested(block: &Block) {
    assert!(block.span.start.byte_offset < block.span.end.byte_offset);
    for (i, child) in block.root_objects.iter().enumerate() {
        assert!(block.span.start.byte_offset < child.span.start.byte_offset);
        assert!(child.span.end.byte_offset < block.span.end.byte_offset);
        if i > 0 {
            assert!(block.root_objects[i - 1].span.end.byte_offset <= child.span.start.byte_offset);
        }
        check_nested(child);
    }
}

#[test]
fn block_spans_nest_inside_their_parents() {
    let blocks = BlockParser::new(SOURCE).parse_blocks().expect("parses");
    assert_eq!(blocks.len(), 3);
    for (i, block) in blocks.iter().enumerate() {
        assert!(block.span.end.byte_offset <= SOURCE.len());
        if i > 0 {
            assert!(blocks[i - 1].span.end.byte_offset <= block.span.start.byte_offset);
        }
        check_nested(block);
    }
    assert_eq!(blocks[2].span.start.line, 3);
    assert_eq!(blocks[2].span.start.column, 3);
}
