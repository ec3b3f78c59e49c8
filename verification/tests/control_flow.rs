use biome_registry::control_flow::{
    BlockId, BlockVisitor, FunctionBuilder, Instruction, JsLabeledStatement, JsSyntaxToken, SyntaxError,
};
use biome_registry::text::TextRange;

#[test]
fn unlabelled_block_adds_nothing() {
    let mut builder = FunctionBuilder::new();
    let visitor = BlockVisitor::enter(None, &mut builder).unwrap();
    assert!(visitor.break_block.is_none());
    assert_eq!(builder.block_count(), 1);
    visitor.exit(&mut builder).unwrap();
    assert_eq!(builder.block_count(), 1);
    assert_eq!(builder.cursor(), BlockId { index: 0 });
    assert!(builder.instructions(BlockId { index: 0 }).is_empty());
}

#[test]
fn labelled_block_jumps_to_its_break_block() {
    let mut builder = FunctionBuilder::new();
    let label = JsSyntaxToken { kind: 7, range: TextRange::new(0, 5) };
    let parent = JsLabeledStatement { label: Some(label) };
    let visitor = BlockVisitor::enter(Some(&parent), &mut builder).unwrap();
    let (token, block) = visitor.break_block.unwrap();
    assert_eq!(token, label);
    assert_eq!(block, BlockId { index: 1 });
    assert_eq!(builder.block_count(), 2);
    assert_eq!(builder.cursor(), BlockId { index: 0 });
    visitor.exit(&mut builder).unwrap();
    assert_eq!(builder.cursor(), BlockId { index: 1 });
    assert_eq!(
        builder.instructions(BlockId { index: 0 }),
        &vec![Instruction::Jump { conditional: false, block: BlockId { index: 1 }, finally_fallthrough: false }]
    );
    assert!(builder.instructions(BlockId { index: 1 }).is_empty());
}

#[test]
fn missing_label_is_an_error() {
    let mut builder = FunctionBuilder::new();
    let parent = JsLabeledStatement { label: None };
    let r = BlockVisitor::enter(Some(&parent), &mut builder);
    assert_eq!(r.err(), Some(SyntaxError::MissingRequiredChild));
    assert_eq!(builder.block_count(), 1);
}

#[test]
fn nested_labelled_blocks() {
    let mut builder = FunctionBuilder::new();
    let outer = JsLabeledStatement { label: Some(JsSyntaxToken { kind: 1, range: TextRange::new(0, 1) }) };
    let inner = JsLabeledStatement { label: Some(JsSyntaxToken { kind: 1, range: TextRange::new(5, 6) }) };
    let v1 = BlockVisitor::enter(Some(&outer), &mut builder).unwrap();
    let v2 = BlockVisitor::enter(Some(&inner), &mut builder).unwrap();
    assert_eq!(builder.block_count(), 3);
    v2.exit(&mut builder).unwrap();
    assert_eq!(builder.cursor(), BlockId { index: 2 });
    v1.exit(&mut builder).unwrap();
    assert_eq!(builder.cursor(), BlockId { index: 1 });
    assert_eq!(
        builder.instructions(BlockId { index: 2 }),
        &vec![Instruction::Jump { conditional: false, block: BlockId { index: 1 }, finally_fallthrough: false }]
    );
}
