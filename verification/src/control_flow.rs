//! The part of a control flow graph builder that a block statement needs, and
//! the visitor that gives a labelled block its own break target.
use vstd::prelude::*;
use crate::text::TextRange;

verus! {

/// Identifies a basic block by its index in the graph.
#[derive(Clone, Copy, Debug, PartialEq, Eq, Hash, Structural)]
pub struct BlockId {
    pub index: u32,
}

/// An instruction of a basic block.
#[derive(Clone, Copy, Debug, PartialEq, Eq, Structural)]
pub enum Instruction {
    /// A statement that runs in order.
    Statement,
    /// A jump to `block`, taken always or only on a condition.
    Jump { conditional: bool, block: BlockId, finally_fallthrough: bool },
    /// Leaves the function.
    Return,
}

/// A basic block: the instructions that run in sequence.
pub struct BasicBlock {
    pub instructions: Vec<Instruction>,
}

/// Builds the control flow graph of a function, one block at a time.
pub struct FunctionBuilder {
    blocks: Vec<BasicBlock>,
    cursor: BlockId,
}

impl FunctionBuilder {
    /// The instructions of each block, in block order.
    pub closed spec fn blocks_view(&self) -> Seq<Seq<Instruction>> {
        self.blocks@.map_values(|b: BasicBlock| b.instructions@)
    }

    /// The block new instructions go to.
    pub closed spec fn cursor_spec(&self) -> BlockId {
        self.cursor
    }

    /// The cursor names a block of the graph.
    pub open spec fn wf(&self) -> bool {
        self.cursor_spec().index < self.blocks_view().len()
    }

    /// A builder whose graph has a single empty block, the cursor on it.
    pub fn new() -> (r: FunctionBuilder)
        ensures
            r.wf(),
            r.blocks_view() == seq![Seq::<Instruction>::empty()],
            r.cursor_spec() == (BlockId { index: 0 }),
    {
        let mut blocks: Vec<BasicBlock> = Vec::new();
        blocks.push(BasicBlock { instructions: Vec::new() });
        let r = FunctionBuilder { blocks, cursor: BlockId { index: 0 } };
        assert(r.blocks_view() =~= seq![Seq::<Instruction>::empty()]);
        r
    }

    /// The block new instructions go to.
    pub fn cursor(&self) -> (r: BlockId)
        ensures
            r == self.cursor_spec(),
    {
        self.cursor
    }

    /// The number of blocks of the graph.
    pub fn block_count(&self) -> (r: usize)
        ensures
            r == self.blocks_view().len(),
    {
        self.blocks.len()
    }

    /// The instructions of a block.
    pub fn instructions(&self, block: BlockId) -> (r: &Vec<Instruction>)
        requires
            block.index < self.blocks_view().len(),
        ensures
            r@ == self.blocks_view()[block.index as int],
    {
        &self.blocks[block.index as usize].instructions
    }

    /// Adds an empty block at the end of the graph; the cursor stays.
    pub fn append_block(&mut self) -> (r: BlockId)
        requires
            old(self).wf(),
            old(self).blocks_view().len() < u32::MAX,
        ensures
            final(self).wf(),
            r.index == old(self).blocks_view().len(),
            final(self).blocks_view() == old(self).blocks_view().push(Seq::empty()),
            final(self).cursor_spec() == old(self).cursor_spec(),
    {
        let index = self.blocks.len() as u32;
        self.blocks.push(BasicBlock { instructions: Vec::new() });
        assert(self.blocks_view() =~= old(self).blocks_view().push(Seq::empty()));
        BlockId { index }
    }

    /// Moves the cursor to `block`.
    pub fn set_cursor(&mut self, block: BlockId)
        requires
            block.index < old(self).blocks_view().len(),
        ensures
            final(self).wf(),
            final(self).blocks_view() == old(self).blocks_view(),
            final(self).cursor_spec() == block,
    {
        self.cursor = block;
    }

    /// Appends a jump to `block` at the end of the block under the cursor.
    pub fn append_jump(&mut self, conditional: bool, block: BlockId)
        requires
            old(self).wf(),
        ensures
            final(self).wf(),
            final(self).cursor_spec() == old(self).cursor_spec(),
            final(self).blocks_view() == old(self).blocks_view().update(
                old(self).cursor_spec().index as int,
                old(self).blocks_view()[old(self).cursor_spec().index as int].push(
                    Instruction::Jump { conditional, block, finally_fallthrough: false },
                ),
            ),
    {
        let index = self.cursor.index as usize;
        let mut current = BasicBlock { instructions: Vec::new() };
        std::mem::swap(&mut current, &mut self.blocks[index]);
        current.instructions.push(Instruction::Jump { conditional, block, finally_fallthrough: false });
        self.blocks.set(index, current);
        assert(self.blocks_view() =~= old(self).blocks_view().update(
            index as int,
            old(self).blocks_view()[index as int].push(
                Instruction::Jump { conditional, block, finally_fallthrough: false },
            ),
        ));
    }
}

/// A token of a JavaScript syntax tree: its raw kind and where it stands.
#[derive(Clone, Copy, Debug, PartialEq, Eq, Structural)]
pub struct JsSyntaxToken {
    pub kind: u16,
    pub range: TextRange,
}

/// Errors in reading a syntax tree.
#[derive(Clone, Copy, Debug, PartialEq, Eq, Structural)]
pub enum SyntaxError {
    /// A child that the grammar requires is missing.
    MissingRequiredChild,
}

/// A labelled statement, as its block child sees it: the label token, which a
/// broken tree may lack.
#[derive(Clone, Copy, Debug)]
pub struct JsLabeledStatement {
    pub label: Option<JsSyntaxToken>,
}

impl JsLabeledStatement {
    /// The label token, or an error where the tree lacks it.
    pub fn label_token(&self) -> (r: Result<JsSyntaxToken, SyntaxError>)
        ensures
            self.label is Some <==> r is Ok,
            r matches Ok(t) ==> t == self.label->0,
            r matches Err(e) ==> e == SyntaxError::MissingRequiredChild,
    {
        match &self.label {
            Some(t) => Ok(*t),
            None => Err(SyntaxError::MissingRequiredChild),
        }
    }
}

/// Visits a block statement while the graph is built.
pub struct BlockVisitor {
    /// If this block has a label, this contains the label token and the ID of
    /// the break block to use as a jump target in `BreakVisitor`.
    pub break_block: Option<(JsSyntaxToken, BlockId)>,
}

impl BlockVisitor {
    /// Enters a block statement whose parent is `parent` when that parent is a
    /// labelled statement: a labelled block gets a new, empty break block.
    pub fn enter(parent: Option<&JsLabeledStatement>, builder: &mut FunctionBuilder) -> (r: Result<
        BlockVisitor,
        SyntaxError,
    >)
        requires
            old(builder).wf(),
            old(builder).blocks_view().len() < u32::MAX,
        ensures
            final(builder).wf(),
            final(builder).cursor_spec() == old(builder).cursor_spec(),
            match parent {
                None => {
                    &&& r matches Ok(v) && v.break_block is None
                    &&& final(builder).blocks_view() == old(builder).blocks_view()
                },
                Some(stmt) => match stmt.label {
                    None => {
                        &&& r == Err::<BlockVisitor, SyntaxError>(SyntaxError::MissingRequiredChild)
                        &&& final(builder).blocks_view() == old(builder).blocks_view()
                    },
                    Some(label) => {
                        &&& r matches Ok(v) && v.break_block matches Some((t, b)) && t == label
                            && b.index == old(builder).blocks_view().len()
                        &&& final(builder).blocks_view() == old(builder).blocks_view().push(
                            Seq::empty(),
                        )
                    },
                },
            },
    {
        let break_block = match parent {
            Some(label) => {
                let label = match label.label_token() {
                    Ok(t) => t,
                    Err(e) => {
                        return Err(e);
                    },
                };
                let block = builder.append_block();
                Some((label, block))
            },
            None => None,
        };
        Ok(BlockVisitor { break_block })
    }

    /// Leaves the block statement: a labelled block ends with an unconditional
    /// jump to its break block, where the building goes on.
    pub fn exit(self, builder: &mut FunctionBuilder) -> (r: Result<(), SyntaxError>)
        requires
            old(builder).wf(),
            self.break_block matches Some((_, b)) ==> b.index < old(builder).blocks_view().len(),
        ensures
            r is Ok,
            final(builder).wf(),
            match self.break_block {
                None => *final(builder) == *old(builder),
                Some((_, b)) => {
                    &&& final(builder).cursor_spec() == b
                    &&& final(builder).blocks_view() == old(builder).blocks_view().update(
                        old(builder).cursor_spec().index as int,
                        old(builder).blocks_view()[old(builder).cursor_spec().index as int].push(
                            Instruction::Jump { conditional: false, block: b, finally_fallthrough: false },
                        ),
                    )
                },
            },
    {
        if let Some((_, block)) = self.break_block {
            builder.append_jump(false, block);
            builder.set_cursor(block);
        }
        Ok(())
    }
}

} // verus!
