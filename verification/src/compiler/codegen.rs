//! The state of code generation: the function under construction and the
//! block at whose end instructions are inserted.

use crate::compiler::generators::generated;
use crate::compiler::ir::{
    block_views, well_formed, BasicBlock, BlockView, Function, Instruction, Terminator,
};
use crate::compiler::shape::compiled_code_is_well_formed;
use crate::parser::ast::{ASTBranch, Element};
use vstd::prelude::*;

verus! {

/// The number of cells of the tape that compiled code works on.
pub const BF_ARRAY_SIZE: usize = 30000;

/// The mathematical value of the state of code generation.
pub struct State {
    /// The blocks made so far.
    pub blocks: Seq<BlockView>,
    /// The number of the block at whose end instructions are inserted.
    pub current: int,
}

impl State {
    /// The insertion point is an open block.
    pub open spec fn well_formed(self) -> bool {
        &&& 0 <= self.current < self.blocks.len()
        &&& self.blocks[self.current].terminator is None
    }

    /// The number of instructions of the current block, which is the position
    /// that the next instruction gets.
    pub open spec fn position(self) -> int {
        self.blocks[self.current].instructions.len() as int
    }

    /// The state after `instruction` is inserted.
    pub open spec fn emit(self, instruction: Instruction) -> State {
        self.append(seq![instruction])
    }

    /// The state after the instructions of `code` are inserted, in order.
    pub open spec fn append(self, code: Seq<Instruction>) -> State {
        let block = self.blocks[self.current];
        State {
            blocks: self.blocks.update(
                self.current,
                BlockView { instructions: block.instructions + code, ..block },
            ),
            ..self
        }
    }

    /// The state after a new, empty and open block is added behind the others.
    /// Its number is the number of blocks before.
    pub open spec fn append_block(self) -> State {
        State {
            blocks: self.blocks.push(
                BlockView { instructions: Seq::empty(), terminator: None },
            ),
            ..self
        }
    }

    /// The state after the current block is closed with `terminator`.
    pub open spec fn terminate(self, terminator: Terminator) -> State {
        let block = self.blocks[self.current];
        State {
            blocks: self.blocks.update(
                self.current,
                BlockView { terminator: Some(terminator), ..block },
            ),
            ..self
        }
    }

    /// The state after the insertion point is moved to the end of `block`.
    pub open spec fn position_at_end(self, block: int) -> State {
        State { current: block, ..self }
    }
}

/// The state in which the lowering of a program starts: the entry block,
/// which sets the cursor to 0, with the insertion point at its end.
pub open spec fn entered() -> State {
    State {
        blocks: seq![
            BlockView {
                instructions: seq![
                    Instruction::Constant { word: 0 },
                    Instruction::StoreCursor { value: 0 },
                ],
                terminator: None,
            },
        ],
        current: 0,
    }
}

/// The function that a program is compiled to: the entry block sets the
/// cursor to 0, the program's elements follow, and the block in which they
/// end returns.
pub open spec fn compiled(program: Seq<Element>) -> Seq<BlockView> {
    generated(program, entered()).terminate(Terminator::Return).blocks
}

/// The state of code generation.
pub struct CodeGen {
    pub blocks: Vec<BasicBlock>,
    pub current: usize,
}

impl View for CodeGen {
    type V = State;

    open spec fn view(&self) -> State {
        State { blocks: block_views(self.blocks@), current: self.current as int }
    }
}

impl CodeGen {
    /// The state in which a function is begun: one block, empty and open,
    /// with the insertion point in it.
    pub fn new() -> (codegen: CodeGen)
        ensures
            codegen@ == (State { blocks: Seq::empty(), current: 0 }).append_block(),
            codegen@.well_formed(),
    {
        let mut codegen = CodeGen { blocks: Vec::new(), current: 0 };
        assert(codegen@.blocks =~= Seq::<BlockView>::empty());
        let entry = codegen.append_basic_block();
        codegen.position_at_end(entry);
        codegen
    }

    /// Inserts `instruction` at the end of the current block and gives its
    /// position in the block.
    pub fn emit(&mut self, instruction: Instruction) -> (position: usize)
        requires
            old(self)@.well_formed(),
        ensures
            final(self)@ == old(self)@.emit(instruction),
            final(self)@.well_formed(),
            position == old(self)@.position(),
    {
        let position = self.blocks[self.current].instructions.len();
        self.blocks[self.current].instructions.push(instruction);
        proof {
            let before = old(self)@.blocks[self.current as int].instructions;
            assert(before.push(instruction) =~= before + seq![instruction]);
            assert(self@.blocks =~= old(self)@.emit(instruction).blocks);
        }
        position
    }

    /// Adds a new, empty and open block behind the others and gives its
    /// number. The insertion point stays where it is.
    pub fn append_basic_block(&mut self) -> (block: usize)
        ensures
            final(self)@ == old(self)@.append_block(),
            block == old(self)@.blocks.len(),
    {
        let block = self.blocks.len();
        self.blocks.push(BasicBlock { instructions: Vec::new(), terminator: None });
        assert(self@.blocks =~= old(self)@.append_block().blocks);
        block
    }

    /// Closes the current block with `terminator`.
    pub fn terminate(&mut self, terminator: Terminator)
        requires
            old(self)@.well_formed(),
        ensures
            final(self)@ == old(self)@.terminate(terminator),
    {
        self.blocks[self.current].terminator = Some(terminator);
        assert(self@.blocks =~= old(self)@.terminate(terminator).blocks);
    }

    /// Moves the insertion point to the end of `block`.
    pub fn position_at_end(&mut self, block: usize)
        ensures
            final(self)@ == old(self)@.position_at_end(block as int),
    {
        self.current = block;
    }

    /// Compiles a program to a function.
    pub fn gen_bf(ast: ASTBranch) -> (function: Function)
        ensures
            function@ == compiled(ast@),
            well_formed(function@),
    {
        let mut codegen = CodeGen::new();
        let zero = codegen.emit(Instruction::Constant { word: 0 });
        codegen.emit(Instruction::StoreCursor { value: zero });
        proof {
            let empty = State { blocks: Seq::empty(), current: 0 }.append_block();
            assert(Seq::<Instruction>::empty() + seq![Instruction::Constant { word: 0 }]
                + seq![Instruction::StoreCursor { value: 0 }] =~= entered().blocks[0].instructions);
            assert(codegen@.blocks =~= entered().blocks);
        }
        ast.generate(&mut codegen);
        codegen.terminate(Terminator::Return);
        let function = Function { blocks: codegen.blocks };
        proof {
            function.fits_in_memory();
            compiled_code_is_well_formed(ast@);
        }
        function
    }
}

} // verus!
