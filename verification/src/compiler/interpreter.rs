//! An interpreter for compiled functions: it runs a function on a tape and an
//! input, step by step, and checks every access to the tape.

use crate::compiler::ir::{BasicBlock, Function, Instruction, Terminator};
use crate::compiler::machine::{
    cell_at, run, run_from, run_instructions, step, word_at, Machine, Outcome, Value,
    END_OF_INPUT,
};
use vstd::prelude::*;

verus! {

/// How a run ended.
#[derive(Debug, Clone, Copy, PartialEq, Eq, Structural)]
pub enum Exit {
    /// The function returned.
    Finished,
    /// The run touched a cell outside the tape, or the function is malformed.
    Fault,
    /// The run took more branches than it was given fuel for.
    OutOfFuel,
}

/// A run that has ended: how it ended, and the machine as it was left.
#[derive(Debug, PartialEq, Eq)]
pub struct Execution {
    pub exit: Exit,
    /// The cells of the tape.
    pub tape: Vec<i32>,
    /// The offset of the current cell.
    pub cursor: i32,
    /// The number of bytes of the input that were read.
    pub consumed: usize,
    /// The words that were written, in order.
    pub output: Vec<i32>,
}

impl Execution {
    /// The machine as the run left it, where `input` is all the input.
    pub open spec fn machine(self, input: Seq<u8>) -> Machine {
        Machine {
            tape: self.tape@,
            cursor: self.cursor,
            input: input.skip(self.consumed as int),
            output: self.output@,
        }
    }

    /// The run ended as `outcome` says: in the same way, and where the
    /// function returned, with the machine in the same state.
    pub open spec fn agrees(self, outcome: Outcome, input: Seq<u8>) -> bool {
        match outcome {
            Outcome::Finished(machine) => {
                &&& self.exit == Exit::Finished
                &&& self.consumed <= input.len()
                &&& self.machine(input) == machine
            },
            Outcome::Fault => self.exit == Exit::Fault,
            Outcome::OutOfFuel => self.exit == Exit::OutOfFuel,
        }
    }
}

fn word(results: &Vec<Value>, at: usize) -> (found: Option<i32>)
    ensures
        found == word_at(results@, at),
{
    if at < results.len() {
        match results[at] {
            Value::Word(word) => Some(word),
            _ => None,
        }
    } else {
        None
    }
}

fn cell(results: &Vec<Value>, at: usize, tape: &Vec<i32>) -> (found: Option<usize>)
    ensures
        match found {
            Some(offset) => offset < tape@.len() && forall|machine: Machine|
                machine.tape == tape@ ==> #[trigger] cell_at(results@, at, machine) == Some(
                    offset as int,
                ),
            None => forall|machine: Machine|
                machine.tape == tape@ ==> #[trigger] cell_at(results@, at, machine) is None,
        },
{
    if at < results.len() {
        match results[at] {
            Value::Address(offset) => {
                if offset >= 0 && (offset as usize) < tape.len() {
                    Some(offset as usize)
                } else {
                    None
                }
            },
            _ => None,
        }
    } else {
        None
    }
}

/// Performs one instruction on the machine and gives its result, or nothing,
/// with the machine as it was, where the instruction faults.
fn perform(
    instruction: Instruction,
    results: &Vec<Value>,
    state: &mut Execution,
    input: &[u8],
) -> (value: Option<Value>)
    requires
        old(state).consumed <= input@.len(),
    ensures
        final(state).consumed <= input@.len(),
        final(state).exit == old(state).exit,
        match step(instruction, results@, old(state).machine(input@)) {
            Some((result, machine)) => value == Some(result) && final(state).machine(input@)
                == machine,
            None => value is None,
        },
{
    let ghost before = state.machine(input@);
    match instruction {
        Instruction::LoadCursor => Some(Value::Word(state.cursor)),
        Instruction::StoreCursor { value } => match word(results, value) {
            Some(word) => {
                state.cursor = word;
                Some(Value::Nothing)
            },
            None => None,
        },
        Instruction::CellAddress { index } => match word(results, index) {
            Some(word) => Some(Value::Address(word)),
            None => None,
        },
        Instruction::LoadCell { address } => match cell(results, address, &state.tape) {
            Some(offset) => {
                assert(cell_at(results@, address, before) == Some(offset as int));
                Some(Value::Word(state.tape[offset]))
            },
            None => {
                assert(cell_at(results@, address, before) is None);
                None
            },
        },
        Instruction::StoreCell { address, value } => match cell(results, address, &state.tape) {
            Some(offset) => {
                assert(cell_at(results@, address, before) == Some(offset as int));
                match word(results, value) {
                    Some(word) => {
                        state.tape.set(offset, word);
                        Some(Value::Nothing)
                    },
                    None => None,
                }
            },
            None => {
                assert(cell_at(results@, address, before) is None);
                None
            },
        },
        Instruction::Constant { word } => Some(Value::Word(word)),
        Instruction::Add { left, right } => match (word(results, left), word(results, right)) {
            (Some(a), Some(b)) => Some(Value::Word(a.wrapping_add(b))),
            _ => None,
        },
        Instruction::Subtract { left, right } => match (
            word(results, left),
            word(results, right),
        ) {
            (Some(a), Some(b)) => Some(Value::Word(a.wrapping_sub(b))),
            _ => None,
        },
        Instruction::Equal { left, right } => match (word(results, left), word(results, right)) {
            (Some(a), Some(b)) => Some(Value::Flag(a == b)),
            _ => None,
        },
        Instruction::CallRead => {
            if state.consumed < input.len() {
                let byte = input[state.consumed];
                state.consumed = state.consumed + 1;
                proof {
                    let left = input@.skip(old(state).consumed as int);
                    assert(left[0] == byte);
                    assert(left.skip(1) =~= input@.skip(state.consumed as int));
                }
                Some(Value::Word(byte as i32))
            } else {
                Some(Value::Word(END_OF_INPUT))
            }
        },
        Instruction::CallWrite { value } => match word(results, value) {
            Some(word) => {
                state.output.push(word);
                Some(Value::Nothing)
            },
            None => None,
        },
    }
}

/// Performs the instructions of a block, in order, and gives their results,
/// or nothing where one faults.
fn perform_block(block: &BasicBlock, state: &mut Execution, input: &[u8]) -> (results: Option<
    Vec<Value>,
>)
    requires
        old(state).consumed <= input@.len(),
    ensures
        final(state).consumed <= input@.len(),
        final(state).exit == old(state).exit,
        match run_instructions(
            block.instructions@,
            0,
            Seq::empty(),
            old(state).machine(input@),
        ) {
            Some((values, machine)) => results matches Some(found) && found@ == values
                && final(state).machine(input@) == machine,
            None => results is None,
        },
{
    let mut results: Vec<Value> = Vec::new();
    let mut at: usize = 0;
    while at < block.instructions.len()
        invariant
            at <= block.instructions@.len(),
            state.consumed <= input@.len(),
            state.exit == old(state).exit,
            run_instructions(block.instructions@, 0, Seq::empty(), old(state).machine(input@))
                == run_instructions(
                block.instructions@,
                at as int,
                results@,
                state.machine(input@),
            ),
        decreases block.instructions@.len() - at,
    {
        match perform(block.instructions[at], &results, state, input) {
            Some(value) => {
                results.push(value);
            },
            None => {
                return None;
            },
        }
        at += 1;
    }
    Some(results)
}

impl Function {
    /// Runs the function from its entry, on a machine with the given tape,
    /// the cursor at 0, the given input and no output yet. Each branch that
    /// is taken uses up one unit of fuel.
    #[verifier::loop_isolation(false)]
    pub fn execute(&self, tape: Vec<i32>, input: &[u8], fuel: usize) -> (execution: Execution)
        ensures
            execution.agrees(
                run(
                    self@,
                    Machine { tape: tape@, cursor: 0, input: input@, output: Seq::empty() },
                    fuel as nat,
                ),
                input@,
            ),
    {
        let mut state = Execution {
            exit: Exit::Finished,
            tape,
            cursor: 0,
            consumed: 0,
            output: Vec::new(),
        };
        let ghost start = state.machine(input@);
        assert(input@.skip(0) =~= input@);
        let mut block: usize = 0;
        let mut left = fuel;
        loop
            invariant
                state.consumed <= input@.len(),
                state.exit == Exit::Finished,
                run(self@, start, fuel as nat) == run_from(
                    self@,
                    block as int,
                    0,
                    Seq::empty(),
                    state.machine(input@),
                    left as nat,
                ),
            decreases left,
        {
            if block >= self.blocks.len() {
                state.exit = Exit::Fault;
                return state;
            }
            let results = match perform_block(&self.blocks[block], &mut state, input) {
                Some(results) => results,
                None => {
                    state.exit = Exit::Fault;
                    return state;
                },
            };
            let next = match self.blocks[block].terminator {
                Some(Terminator::Return) => {
                    return state;
                },
                Some(Terminator::Jump { target }) => target,
                Some(Terminator::Branch { condition, if_true, if_false }) => {
                    if condition >= results.len() {
                        state.exit = Exit::Fault;
                        return state;
                    }
                    match results[condition] {
                        Value::Flag(flag) => if flag {
                            if_true
                        } else {
                            if_false
                        },
                        _ => {
                            state.exit = Exit::Fault;
                            return state;
                        },
                    }
                },
                None => {
                    state.exit = Exit::Fault;
                    return state;
                },
            };
            if left == 0 {
                state.exit = Exit::OutOfFuel;
                return state;
            }
            left = left - 1;
            block = next;
        }
    }
}

} // verus!
