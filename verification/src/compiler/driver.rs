//! The driver: it compiles a program and runs the function on a fresh tape.

use crate::compiler::codegen::{compiled, CodeGen, BF_ARRAY_SIZE};
use crate::compiler::interpreter::{Execution, Exit};
use crate::compiler::laws::{compiled_code_runs_the_program, the_program_runs_as_compiled_code};
use crate::compiler::machine::{run, Machine, Outcome};
use crate::compiler::meaning::{branches_of_elements, run_elements};
use crate::parser::ast::ASTBranch;
use vstd::prelude::*;

verus! {

/// The machine on which a run starts: a tape of `BF_ARRAY_SIZE` cells, all
/// zero, the cursor at 0, all of the input, and no output.
pub open spec fn fresh(input: Seq<u8>) -> Machine {
    Machine {
        tape: Seq::new(BF_ARRAY_SIZE as nat, |i: int| 0i32),
        cursor: 0,
        input,
        output: Seq::empty(),
    }
}

/// Compiles the program and runs the function that it is compiled to, on a
/// fresh tape and the given input. Each branch that the function takes uses
/// up one unit of fuel.
///
/// The run is that of the compiled function, and so it is what the program
/// means: where the function returns, the program ends and leaves the
/// machine as the run left it; where the function faults, the program
/// touches a cell outside the tape. And the run ends as the program does
/// whenever the fuel is enough for the branches that the program's code
/// takes.
pub fn compile(ast: ASTBranch, input: &[u8], fuel: usize) -> (execution: Execution)
    ensures
        execution.agrees(run(compiled(ast@), fresh(input@), fuel as nat), input@),
        match execution.exit {
            Exit::Finished => run_elements(ast@, fresh(input@), (fuel + 1) as nat)
                == Outcome::Finished(execution.machine(input@)),
            Exit::Fault => run_elements(ast@, fresh(input@), (fuel + 1) as nat) == Outcome::Fault,
            Exit::OutOfFuel => true,
        },
        forall|turns: nat|
            branches_of_elements(ast@, fresh(input@), turns) <= fuel ==> match #[trigger] run_elements(
                ast@,
                fresh(input@),
                turns,
            ) {
                Outcome::Finished(end) => execution.exit == Exit::Finished && execution.machine(
                    input@,
                ) == end,
                Outcome::Fault => execution.exit == Exit::Fault,
                Outcome::OutOfFuel => true,
            },
{
    let ghost program = ast@;
    let function = CodeGen::gen_bf(ast);
    let tape: Vec<i32> = vec![0; BF_ARRAY_SIZE];
    assert(tape@ =~= fresh(input@).tape);
    let execution = function.execute(tape, input, fuel);
    proof {
        function.fits_in_memory();
        the_program_runs_as_compiled_code(program, fresh(input@), fuel as nat);
        assert forall|turns: nat|
            branches_of_elements(program, fresh(input@), turns) <= fuel implies match #[trigger] run_elements(
            program,
            fresh(input@),
            turns,
        ) {
            Outcome::Finished(end) => execution.exit == Exit::Finished && execution.machine(
                input@,
            ) == end,
            Outcome::Fault => execution.exit == Exit::Fault,
            Outcome::OutOfFuel => true,
        } by {
            let taken = branches_of_elements(program, fresh(input@), turns);
            compiled_code_runs_the_program(
                program,
                fresh(input@),
                turns,
                (fuel - taken) as nat,
            );
        }
    }
    execution
}

} // verus!
