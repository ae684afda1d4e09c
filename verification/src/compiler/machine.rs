//! The machine that compiled code runs on, and what running a function on it
//! means: a tape of cells, a cursor, the input that the read callback hands
//! out and the output that the write callback was given.

use crate::compiler::ir::{BlockView, Instruction, Terminator};
use vstd::prelude::*;

verus! {

/// What the read callback returns once the input has ended.
pub const END_OF_INPUT: i32 = 0xFF;

/// The state of the machine.
pub struct Machine {
    /// The cells of the tape.
    pub tape: Seq<i32>,
    /// The offset of the current cell. Nothing keeps it within the tape.
    pub cursor: i32,
    /// The input that has not been read yet.
    pub input: Seq<u8>,
    /// The words that were written, in order.
    pub output: Seq<i32>,
}

/// The result of an instruction.
#[derive(Debug, Clone, Copy, PartialEq, Eq, Structural)]
pub enum Value {
    /// A word of the width of a cell.
    Word(i32),
    /// The address of the cell at an offset, which may lie outside the tape.
    Address(i32),
    /// The result of a comparison.
    Flag(bool),
    /// The instruction has no result.
    Nothing,
}

/// How a run ended.
pub enum Outcome {
    /// The function returned and left the machine in this state.
    Finished(Machine),
    /// The run touched a cell outside the tape, or the function is malformed.
    Fault,
    /// The run took more branches than it was given fuel for.
    OutOfFuel,
}

/// The word that result `at` holds, if it is a word.
pub open spec fn word_at(results: Seq<Value>, at: usize) -> Option<i32> {
    if at < results.len() {
        match results[at as int] {
            Value::Word(word) => Some(word),
            _ => None,
        }
    } else {
        None
    }
}

/// The offset of the cell whose address result `at` holds, if it is an
/// address of a cell of the tape.
pub open spec fn cell_at(results: Seq<Value>, at: usize, machine: Machine) -> Option<int> {
    if at < results.len() {
        match results[at as int] {
            Value::Address(offset) => if 0 <= offset < machine.tape.len() {
                Some(offset as int)
            } else {
                None
            },
            _ => None,
        }
    } else {
        None
    }
}

/// What the read callback returns: the next byte of the input, widened, or
/// `END_OF_INPUT` where there is none.
pub open spec fn next_input(input: Seq<u8>) -> i32 {
    if input.len() > 0 {
        input[0] as i32
    } else {
        END_OF_INPUT
    }
}

/// The input that is left after one call of the read callback.
pub open spec fn rest_of_input(input: Seq<u8>) -> Seq<u8> {
    if input.len() > 0 {
        input.skip(1)
    } else {
        input
    }
}

/// One instruction: its result and the machine after it, or nothing where it
/// faults. `results` holds the results of the block's earlier instructions.
pub open spec fn step(instruction: Instruction, results: Seq<Value>, machine: Machine) -> Option<
    (Value, Machine),
> {
    match instruction {
        Instruction::LoadCursor => Some((Value::Word(machine.cursor), machine)),
        Instruction::StoreCursor { value } => match word_at(results, value) {
            Some(word) => Some((Value::Nothing, Machine { cursor: word, ..machine })),
            None => None,
        },
        Instruction::CellAddress { index } => match word_at(results, index) {
            Some(word) => Some((Value::Address(word), machine)),
            None => None,
        },
        Instruction::LoadCell { address } => match cell_at(results, address, machine) {
            Some(offset) => Some((Value::Word(machine.tape[offset]), machine)),
            None => None,
        },
        Instruction::StoreCell { address, value } => match (
            cell_at(results, address, machine),
            word_at(results, value),
        ) {
            (Some(offset), Some(word)) => Some(
                (Value::Nothing, Machine { tape: machine.tape.update(offset, word), ..machine }),
            ),
            _ => None,
        },
        Instruction::Constant { word } => Some((Value::Word(word), machine)),
        Instruction::Add { left, right } => match (
            word_at(results, left),
            word_at(results, right),
        ) {
            (Some(a), Some(b)) => Some((Value::Word(a.wrapping_add(b)), machine)),
            _ => None,
        },
        Instruction::Subtract { left, right } => match (
            word_at(results, left),
            word_at(results, right),
        ) {
            (Some(a), Some(b)) => Some((Value::Word(a.wrapping_sub(b)), machine)),
            _ => None,
        },
        Instruction::Equal { left, right } => match (
            word_at(results, left),
            word_at(results, right),
        ) {
            (Some(a), Some(b)) => Some((Value::Flag(a == b), machine)),
            _ => None,
        },
        Instruction::CallRead => Some(
            (
                Value::Word(next_input(machine.input)),
                Machine { input: rest_of_input(machine.input), ..machine },
            ),
        ),
        Instruction::CallWrite { value } => match word_at(results, value) {
            Some(word) => Some(
                (Value::Nothing, Machine { output: machine.output.push(word), ..machine }),
            ),
            None => None,
        },
    }
}

/// The instructions of a block from position `from` on: the results of all
/// its instructions and the machine after them, or nothing where one faults.
pub open spec fn run_instructions(
    code: Seq<Instruction>,
    from: int,
    results: Seq<Value>,
    machine: Machine,
) -> Option<(Seq<Value>, Machine)>
    decreases code.len() - from,
{
    if from < 0 || from >= code.len() {
        Some((results, machine))
    } else {
        match step(code[from], results, machine) {
            Some((value, next)) => run_instructions(code, from + 1, results.push(value), next),
            None => None,
        }
    }
}

/// A run of the function from position `from` of block `block` on. Each
/// branch that is taken uses up one unit of fuel.
pub open spec fn run_from(
    blocks: Seq<BlockView>,
    block: int,
    from: int,
    results: Seq<Value>,
    machine: Machine,
    fuel: nat,
) -> Outcome
    decreases fuel,
{
    if 0 <= block < blocks.len() {
        match run_instructions(blocks[block].instructions, from, results, machine) {
            Some((results, machine)) => match blocks[block].terminator {
                Some(Terminator::Return) => Outcome::Finished(machine),
                Some(Terminator::Jump { target }) => if fuel == 0 {
                    Outcome::OutOfFuel
                } else {
                    run_from(blocks, target as int, 0, Seq::empty(), machine, (fuel - 1) as nat)
                },
                Some(Terminator::Branch { condition, if_true, if_false }) => {
                    if condition < results.len() {
                        match results[condition as int] {
                            Value::Flag(flag) => if fuel == 0 {
                                Outcome::OutOfFuel
                            } else {
                                run_from(
                                    blocks,
                                    if flag {
                                        if_true as int
                                    } else {
                                        if_false as int
                                    },
                                    0,
                                    Seq::empty(),
                                    machine,
                                    (fuel - 1) as nat,
                                )
                            },
                            _ => Outcome::Fault,
                        }
                    } else {
                        Outcome::Fault
                    }
                },
                None => Outcome::Fault,
            },
            None => Outcome::Fault,
        }
    } else {
        Outcome::Fault
    }
}

/// A run of the function from its entry.
pub open spec fn run(blocks: Seq<BlockView>, machine: Machine, fuel: nat) -> Outcome {
    run_from(blocks, 0, 0, Seq::empty(), machine, fuel)
}

} // verus!
