//! The executor's state and its steps, as mathematics.

use vstd::prelude::*;
use crate::instruction::Instruction;

verus! {

/// The number of cells of the tape.
pub const TAPE_LEN: usize = 30000;

/// What one step of the executor did, or why it did nothing.
#[derive(Debug, PartialEq, Eq, Clone, Copy, Structural)]
pub enum Outcome {
    /// An instruction ran without input or output.
    Advanced,
    /// A `PRNT` ran: the byte is to be emitted.
    Printed(u8),
    /// An `INPT` ran: the byte handed in is in the current cell.
    Consumed,
    /// The next instruction is an `INPT` and no byte was handed in: nothing
    /// has changed.
    NeedsInput,
    /// The program counter is past the last instruction: nothing has changed.
    Halted,
    /// The next instruction uses the current cell and the data pointer is
    /// outside the tape: nothing has changed.
    OffTape,
}

/// Where a data pointer at `pointer` stands after a move by `by`: the index
/// range wraps around at both ends.
pub open spec fn moved(pointer: nat, by: int) -> nat {
    let to = pointer + by;
    if to > usize::MAX {
        (to - usize::MAX - 1) as nat
    } else if to < 0 {
        (to + usize::MAX + 1) as nat
    } else {
        to as nat
    }
}

/// The value of a cell that held `cell` after `by` was added: arithmetic
/// modulo 256.
pub open spec fn added(cell: u8, by: int) -> u8 {
    ((cell + by) % 256) as u8
}

/// The state of the executor.
pub struct Machine {
    /// The instructions.
    pub program: Seq<Instruction>,
    /// The position of the next instruction.
    pub program_pointer: nat,
    /// The position of the current cell.
    pub data_pointer: nat,
    /// The cells.
    pub tape: Seq<u8>,
}

impl Machine {
    /// The state before the first step of `program`: both pointers at zero
    /// and every cell zero.
    pub open spec fn initial(program: Seq<Instruction>) -> Machine {
        Machine {
            program,
            program_pointer: 0,
            data_pointer: 0,
            tape: Seq::new(TAPE_LEN as nat, |i: int| 0u8),
        }
    }

    /// The tape has its length, both pointers are indices of this machine,
    /// and every jump leads to an instruction.
    pub open spec fn well_formed(self) -> bool {
        &&& self.tape.len() == TAPE_LEN
        &&& self.program.len() <= usize::MAX
        &&& self.program_pointer <= usize::MAX
        &&& self.data_pointer <= usize::MAX
        &&& forall|i: int|
            0 <= i < self.program.len() ==> match #[trigger] self.program[i] {
                Instruction::JUMP_C(target) => target < self.program.len(),
                _ => true,
            }
    }

    /// No instruction is left to run.
    pub open spec fn halted(self) -> bool {
        self.program_pointer >= self.program.len()
    }

    /// The next instruction.
    pub open spec fn current(self) -> Instruction {
        self.program[self.program_pointer as int]
    }

    /// The data pointer is on the tape.
    pub open spec fn on_tape(self) -> bool {
        self.data_pointer < self.tape.len()
    }

    /// The current cell.
    pub open spec fn cell(self) -> u8 {
        self.tape[self.data_pointer as int]
    }

    /// The next instruction reads or writes the current cell.
    pub open spec fn uses_cell(self) -> bool {
        match self.current() {
            Instruction::INCV_C(_) => true,
            Instruction::PRNT => true,
            Instruction::INPT => true,
            Instruction::JUMP_C(target) => target != self.program_pointer,
            _ => false,
        }
    }

    /// The next instruction uses a cell that is not there.
    pub open spec fn off_tape(self) -> bool {
        !self.halted() && self.uses_cell() && !self.on_tape()
    }

    /// The next instruction can run once a byte of input is there.
    pub open spec fn awaits_input(self) -> bool {
        !self.halted() && self.current() == Instruction::INPT && self.on_tape()
    }

    /// A step with `input` changes nothing.
    pub open spec fn blocked(self, input: Option<u8>) -> bool {
        self.halted() || self.off_tape() || (self.awaits_input() && input is None)
    }

    /// The jump at the program counter is taken: a jump back while the cell
    /// is not zero, a jump forward when it is zero.
    pub open spec fn jumps(self, target: usize) -> bool {
        (target < self.program_pointer && self.cell() != 0) || (target > self.program_pointer
            && self.cell() == 0)
    }

    /// This machine with its program counter at `to`.
    pub open spec fn at(self, to: nat) -> Machine {
        Machine { program_pointer: to, ..self }
    }

    /// This machine with `value` in the current cell.
    pub open spec fn store(self, value: u8) -> Machine {
        Machine { tape: self.tape.update(self.data_pointer as int, value), ..self }
    }

    /// The state after one step. `input` is the byte that an `INPT` would
    /// take; no other instruction looks at it.
    pub open spec fn step(self, input: Option<u8>) -> Machine {
        let next = self.program_pointer + 1;
        if self.blocked(input) {
            self
        } else {
            match self.current() {
                Instruction::INCP_C(by) => Machine {
                    data_pointer: moved(self.data_pointer, by as int),
                    ..self.at(next)
                },
                Instruction::INCV_C(by) => self.store(added(self.cell(), by as int)).at(next),
                Instruction::INPT => self.store(input->0).at(next),
                Instruction::JUMP_C(target) => if self.jumps(target) {
                    self.at(target as nat + 1)
                } else {
                    self.at(next)
                },
                _ => self.at(next),
            }
        }
    }

    /// What a step with `input` reports.
    pub open spec fn outcome(self, input: Option<u8>) -> Outcome {
        if self.halted() {
            Outcome::Halted
        } else if self.off_tape() {
            Outcome::OffTape
        } else if self.current() == Instruction::PRNT {
            Outcome::Printed(self.cell())
        } else if self.current() == Instruction::INPT {
            if input is None {
                Outcome::NeedsInput
            } else {
                Outcome::Consumed
            }
        } else {
            Outcome::Advanced
        }
    }
}

/// Why a run came to its end.
#[derive(Debug, PartialEq, Eq, Clone, Copy, Structural)]
pub enum Stop {
    /// The program counter went past the last instruction.
    Halted,
    /// The allowed number of steps was used up.
    OutOfSteps,
    /// An `INPT` found no byte of input left.
    OutOfInput,
    /// An instruction used a cell outside the tape.
    OffTape,
}

/// What a run did.
#[derive(Debug)]
pub struct Report {
    /// The bytes emitted, in their order.
    pub output: Vec<u8>,
    /// How many bytes of the input were taken.
    pub consumed: usize,
    /// Why the run ended.
    pub stop: Stop,
}

/// A run under way: the machine, how much of the input it has taken, and
/// what it has emitted.
pub struct Progress {
    /// The machine.
    pub machine: Machine,
    /// The number of input bytes taken so far.
    pub consumed: nat,
    /// The bytes emitted so far.
    pub output: Seq<u8>,
}

impl Progress {
    /// A run of `machine` before its first step.
    pub open spec fn start(machine: Machine) -> Progress {
        Progress { machine, consumed: 0, output: Seq::empty() }
    }

    /// The next byte of `input`, if one is left.
    pub open spec fn pending(self, input: Seq<u8>) -> Option<u8> {
        if self.consumed < input.len() {
            Some(input[self.consumed as int])
        } else {
            None
        }
    }

    /// No further step changes anything.
    pub open spec fn stuck(self, input: Seq<u8>) -> bool {
        self.machine.blocked(self.pending(input))
    }

    /// The run after one more step.
    pub open spec fn advance(self, input: Seq<u8>) -> Progress {
        let byte = self.pending(input);
        Progress {
            machine: self.machine.step(byte),
            consumed: if self.machine.outcome(byte) == Outcome::Consumed {
                self.consumed + 1
            } else {
                self.consumed
            },
            output: match self.machine.outcome(byte) {
                Outcome::Printed(value) => self.output.push(value),
                _ => self.output,
            },
        }
    }

    /// The run after up to `steps` more steps: it ends earlier where it is
    /// stuck.
    pub open spec fn after(self, input: Seq<u8>, steps: nat) -> Progress
        decreases steps,
    {
        if steps == 0 || self.stuck(input) {
            self
        } else {
            self.advance(input).after(input, (steps - 1) as nat)
        }
    }

    /// Why the run goes no further, if it ends here.
    pub open spec fn stop(self, input: Seq<u8>) -> Stop {
        match self.machine.outcome(self.pending(input)) {
            Outcome::Halted => Stop::Halted,
            Outcome::OffTape => Stop::OffTape,
            Outcome::NeedsInput => Stop::OutOfInput,
            _ => Stop::OutOfSteps,
        }
    }
}

/// A step keeps a machine well formed, and never touches its program.
pub proof fn lemma_step_well_formed(machine: Machine, input: Option<u8>)
    requires
        machine.well_formed(),
    ensures
        machine.step(input).well_formed(),
        machine.step(input).program == machine.program,
{
}

} // verus!
