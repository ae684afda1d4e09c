//! The control-flow graph that the code generator builds: basic blocks of
//! primitive instructions, each closed by a branch or a return.
//!
//! An instruction names its operands by position: the number of an earlier
//! instruction of the same block, whose result it takes.

use vstd::prelude::*;

verus! {

/// A primitive operation. Where it has a result, later instructions of the
/// block name it by this instruction's position in the block.
#[derive(Debug, Clone, Copy, PartialEq, Eq, Structural)]
pub enum Instruction {
    /// The cursor: the offset into the tape that the stack slot holds.
    LoadCursor,
    /// Sets the cursor to the word `value`.
    StoreCursor { value: usize },
    /// The address of the tape's cell at the offset that the word `index` holds.
    CellAddress { index: usize },
    /// The word in the cell at `address`.
    LoadCell { address: usize },
    /// Sets the cell at `address` to the word `value`.
    StoreCell { address: usize, value: usize },
    /// The word `word`.
    Constant { word: i32 },
    /// The sum of two words, wrapping.
    Add { left: usize, right: usize },
    /// The difference of two words, wrapping.
    Subtract { left: usize, right: usize },
    /// Whether two words are equal.
    Equal { left: usize, right: usize },
    /// The word that a call of the read callback returns.
    CallRead,
    /// Calls the write callback with the word `value`.
    CallWrite { value: usize },
}

/// What kind of result an instruction has.
#[derive(Debug, Clone, Copy, PartialEq, Eq, Structural)]
pub enum Kind {
    /// A word of the width of a cell.
    Word,
    /// The address of a cell.
    Address,
    /// The result of a comparison.
    Flag,
    /// No result.
    Nothing,
}

impl Instruction {
    /// The kind of the instruction's result.
    pub open spec fn kind(self) -> Kind {
        match self {
            Instruction::LoadCursor => Kind::Word,
            Instruction::StoreCursor { value } => Kind::Nothing,
            Instruction::CellAddress { index } => Kind::Address,
            Instruction::LoadCell { address } => Kind::Word,
            Instruction::StoreCell { address, value } => Kind::Nothing,
            Instruction::Constant { word } => Kind::Word,
            Instruction::Add { left, right } => Kind::Word,
            Instruction::Subtract { left, right } => Kind::Word,
            Instruction::Equal { left, right } => Kind::Flag,
            Instruction::CallRead => Kind::Word,
            Instruction::CallWrite { value } => Kind::Nothing,
        }
    }

    /// The kind of the instruction's result.
    pub fn result_kind(&self) -> (kind: Kind)
        ensures
            kind == self.kind(),
    {
        match self {
            Instruction::LoadCursor => Kind::Word,
            Instruction::StoreCursor { value } => Kind::Nothing,
            Instruction::CellAddress { index } => Kind::Address,
            Instruction::LoadCell { address } => Kind::Word,
            Instruction::StoreCell { address, value } => Kind::Nothing,
            Instruction::Constant { word } => Kind::Word,
            Instruction::Add { left, right } => Kind::Word,
            Instruction::Subtract { left, right } => Kind::Word,
            Instruction::Equal { left, right } => Kind::Flag,
            Instruction::CallRead => Kind::Word,
            Instruction::CallWrite { value } => Kind::Nothing,
        }
    }
}

/// How a basic block ends.
#[derive(Debug, Clone, Copy, PartialEq, Eq, Structural)]
pub enum Terminator {
    /// Goes on at the start of block `target`.
    Jump { target: usize },
    /// Goes on at the start of block `if_true` where the flag `condition`
    /// holds, of block `if_false` where it does not.
    Branch { condition: usize, if_true: usize, if_false: usize },
    /// Leaves the function.
    Return,
}

/// A basic block: instructions in order, and, once it is closed, how it ends.
#[derive(Debug, PartialEq, Eq)]
pub struct BasicBlock {
    pub instructions: Vec<Instruction>,
    pub terminator: Option<Terminator>,
}

/// A function: basic blocks by number. Execution enters at block 0.
#[derive(Debug, PartialEq, Eq)]
pub struct Function {
    pub blocks: Vec<BasicBlock>,
}

/// The mathematical value of a basic block.
pub struct BlockView {
    pub instructions: Seq<Instruction>,
    pub terminator: Option<Terminator>,
}

impl View for BasicBlock {
    type V = BlockView;

    open spec fn view(&self) -> BlockView {
        BlockView { instructions: self.instructions@, terminator: self.terminator }
    }
}

/// The values of a list of blocks, one by one.
pub open spec fn block_views(blocks: Seq<BasicBlock>) -> Seq<BlockView> {
    Seq::new(blocks.len(), |i: int| blocks[i]@)
}

impl View for Function {
    type V = Seq<BlockView>;

    open spec fn view(&self) -> Seq<BlockView> {
        block_views(self.blocks@)
    }
}

/// The operand names an instruction of the block before `position`, whose
/// result is of kind `kind`.
pub open spec fn names(block: Seq<Instruction>, position: int, operand: usize, kind: Kind) -> bool {
    operand < position && block[operand as int].kind() == kind
}

/// The operands of the instruction at `position` name earlier instructions
/// of the block, with results of the kinds that it takes.
pub open spec fn operands_are_results(block: Seq<Instruction>, position: int) -> bool {
    match block[position] {
        Instruction::LoadCursor => true,
        Instruction::StoreCursor { value } => names(block, position, value, Kind::Word),
        Instruction::CellAddress { index } => names(block, position, index, Kind::Word),
        Instruction::LoadCell { address } => names(block, position, address, Kind::Address),
        Instruction::StoreCell { address, value } => names(
            block,
            position,
            address,
            Kind::Address,
        ) && names(block, position, value, Kind::Word),
        Instruction::Constant { word } => true,
        Instruction::Add { left, right } => names(block, position, left, Kind::Word) && names(
            block,
            position,
            right,
            Kind::Word,
        ),
        Instruction::Subtract { left, right } => names(block, position, left, Kind::Word)
            && names(block, position, right, Kind::Word),
        Instruction::Equal { left, right } => names(block, position, left, Kind::Word) && names(
            block,
            position,
            right,
            Kind::Word,
        ),
        Instruction::CallRead => true,
        Instruction::CallWrite { value } => names(block, position, value, Kind::Word),
    }
}

/// Block `b` is sound: its instructions take results of earlier ones, and
/// where it is closed, it branches to blocks of the code, on a flag.
pub open spec fn block_is_sound(code: Seq<BlockView>, b: int) -> bool {
    &&& forall|k: int|
        0 <= k < code[b].instructions.len() ==> #[trigger] operands_are_results(
            code[b].instructions,
            k,
        )
    &&& match code[b].terminator {
        Some(Terminator::Jump { target }) => target < code.len(),
        Some(Terminator::Branch { condition, if_true, if_false }) => {
            &&& names(
                code[b].instructions,
                code[b].instructions.len() as int,
                condition,
                Kind::Flag,
            )
            &&& if_true < code.len()
            &&& if_false < code.len()
        },
        Some(Terminator::Return) => true,
        None => true,
    }
}

/// The code is a function that can be run: it has an entry, every block is
/// sound, and every block is closed.
pub open spec fn well_formed(code: Seq<BlockView>) -> bool {
    &&& code.len() > 0
    &&& forall|b: int| 0 <= b < code.len() ==> #[trigger] block_is_sound(code, b)
    &&& forall|b: int| 0 <= b < code.len() ==> (#[trigger] code[b]).terminator is Some
}

/// Block numbers and positions of the code are numbers of the machine, as
/// they are in every function that is held in memory.
pub open spec fn fits(code: Seq<BlockView>) -> bool {
    &&& code.len() <= usize::MAX
    &&& forall|b: int| 0 <= b < code.len() ==> (#[trigger] code[b]).instructions.len() <= usize::MAX
}

impl Function {
    /// The function is held in memory.
    pub proof fn fits_in_memory(&self)
        ensures
            fits(self@),
    {
        assert(self.blocks.len() == self.blocks@.len());
        assert forall|b: int| 0 <= b < self@.len() implies (#[trigger] self@[b]).instructions.len()
            <= usize::MAX by {
            let block = self.blocks@[b];
            assert(block.instructions.len() == block.instructions@.len());
        }
    }
}

} // verus!
