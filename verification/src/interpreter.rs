//! The executor: a compiled program, its tape and its two pointers.

use vstd::prelude::*;
use crate::compile::compile;
use crate::instruction::Instruction;
use crate::lexer::clean;
use crate::machine::{added, Machine, Outcome, Progress, Report, Stop, TAPE_LEN};
use crate::validate::balanced;

verus! {

/// A program ready to run, and the state of its run.
#[derive(Debug)]
pub struct Interpreter {
    data_pointer: usize,
    data: Vec<u8>,
    program_pointer: usize,
    /// The compiled program.
    pub program: Vec<Instruction>,
}

impl View for Interpreter {
    type V = Machine;

    closed spec fn view(&self) -> Machine {
        Machine {
            program: self.program@,
            program_pointer: self.program_pointer as nat,
            data_pointer: self.data_pointer as nat,
            tape: self.data@,
        }
    }
}

impl Interpreter {
    /// The state is one that the executor can step from.
    pub open spec fn well_formed(&self) -> bool {
        self@.well_formed()
    }

    /// The position of the next instruction.
    pub fn program_pointer(&self) -> (at: usize)
        ensures
            at == self@.program_pointer,
    {
        self.program_pointer
    }

    /// The position of the current cell.
    pub fn data_pointer(&self) -> (at: usize)
        ensures
            at == self@.data_pointer,
    {
        self.data_pointer
    }

    /// The cells of the tape.
    pub fn tape(&self) -> (cells: &Vec<u8>)
        ensures
            cells@ == self@.tape,
    {
        &self.data
    }

    /// Cleans and checks `program`, and compiles it if its brackets are
    /// balanced.
    pub fn new(program: &str) -> (result: Result<Interpreter, String>)
        ensures
            match result {
                Ok(interpreter) => {
                    &&& balanced(clean(program@))
                    &&& interpreter@ == Machine::initial(compile(clean(program@)))
                    &&& interpreter.well_formed()
                },
                Err(message) => !balanced(clean(program@)) && message@ == "Invalid program"@,
            },
    {
        let cleaned: String = Interpreter::clean_program(program);
        if !Interpreter::check_valid(cleaned.as_str()) {
            return Err("Invalid program".to_owned());
        }
        let compiled: Vec<Instruction> = Interpreter::compile_program(cleaned);
        let data: Vec<u8> = vec![0u8; TAPE_LEN];
        let interpreter = Interpreter {
            data_pointer: 0,
            data,
            program_pointer: 0,
            program: compiled,
        };
        assert(interpreter@.tape =~= Machine::initial(interpreter@.program).tape);
        assert(interpreter@.program.len() == interpreter.program.len());
        Ok(interpreter)
    }

    /// Decides `well_formed`: a check to make after the program has been
    /// replaced by hand.
    pub fn is_well_formed(&self) -> (ok: bool)
        ensures
            ok == self.well_formed(),
    {
        if self.data.len() != TAPE_LEN {
            return false;
        }
        let len: usize = self.program.len();
        let mut i: usize = 0;
        while i < len
            invariant
                len == self.program.len(),
                i <= len,
                self.data.len() == TAPE_LEN,
                forall|k: int|
                    0 <= k < i ==> match #[trigger] self@.program[k] {
                        Instruction::JUMP_C(target) => target < len,
                        _ => true,
                    },
            decreases len - i,
        {
            if let Instruction::JUMP_C(target) = self.program[i] {
                if target >= len {
                    return false;
                }
            }
            i = i + 1;
        }
        true
    }

    /// What the next step would report, given `input`.
    pub fn peek(&self, input: Option<u8>) -> (outcome: Outcome)
        ensures
            outcome == self@.outcome(input),
    {
        if self.program_pointer >= self.program.len() {
            return Outcome::Halted;
        }
        let on_tape: bool = self.data_pointer < self.data.len();
        match self.program[self.program_pointer] {
            Instruction::INCV_C(_) => if on_tape {
                Outcome::Advanced
            } else {
                Outcome::OffTape
            },
            Instruction::PRNT => if on_tape {
                Outcome::Printed(self.data[self.data_pointer])
            } else {
                Outcome::OffTape
            },
            Instruction::INPT => if !on_tape {
                Outcome::OffTape
            } else if input.is_some() {
                Outcome::Consumed
            } else {
                Outcome::NeedsInput
            },
            Instruction::JUMP_C(target) => if target == self.program_pointer || on_tape {
                Outcome::Advanced
            } else {
                Outcome::OffTape
            },
            _ => Outcome::Advanced,
        }
    }

    /// Runs one instruction, or reports why none can run. `input` is the
    /// byte for an `INPT`; hand one in after a step has reported
    /// `NeedsInput`.
    pub fn step(&mut self, input: Option<u8>) -> (outcome: Outcome)
        requires
            old(self).well_formed(),
        ensures
            final(self)@ == old(self)@.step(input),
            outcome == old(self)@.outcome(input),
            final(self).well_formed(),
    {
        let outcome: Outcome = self.peek(input);
        match outcome {
            Outcome::Halted | Outcome::OffTape | Outcome::NeedsInput => {
                return outcome;
            },
            _ => {},
        }
        let next: usize = self.program_pointer + 1;
        match self.program[self.program_pointer] {
            Instruction::INCP_C(by) => {
                self.data_pointer = self.data_pointer.wrapping_add_signed(by);
                self.program_pointer = next;
            },
            Instruction::INCV_C(by) => {
                let cell: u8 = self.data[self.data_pointer];
                let sum: u32 = (cell as i32 + by as i32 + 32768) as u32;
                let value: u8 = (sum % 256) as u8;
                assert(value == added(cell, by as int));
                self.data.set(self.data_pointer, value);
                self.program_pointer = next;
            },
            Instruction::INPT => {
                if let Some(byte) = input {
                    self.data.set(self.data_pointer, byte);
                }
                self.program_pointer = next;
            },
            Instruction::JUMP_C(target) => {
                if target == self.program_pointer {
                    self.program_pointer = next;
                } else {
                    let zero: bool = self.data[self.data_pointer] == 0;
                    if (target < self.program_pointer && !zero) || (target > self.program_pointer
                        && zero) {
                        self.program_pointer = target + 1;
                    } else {
                        self.program_pointer = next;
                    }
                }
            },
            _ => {
                self.program_pointer = next;
            },
        }
        outcome
    }

    /// Runs until the program halts, an instruction cannot run, or
    /// `max_steps` instructions have run. An `INPT` takes the next byte of
    /// `input`.
    pub fn run(&mut self, input: &Vec<u8>, max_steps: usize) -> (report: Report)
        requires
            old(self).well_formed(),
        ensures
            final(self).well_formed(),
            ({
                let end = Progress::start(old(self)@).after(input@, max_steps as nat);
                &&& final(self)@ == end.machine
                &&& report.output@ == end.output
                &&& report.consumed == end.consumed
                &&& report.stop == end.stop(input@)
            }),
    {
        let mut output: Vec<u8> = Vec::new();
        let mut consumed: usize = 0;
        let mut steps: usize = 0;
        let ghost end = Progress::start(self@).after(input@, max_steps as nat);
        loop
            invariant
                self.well_formed(),
                steps <= max_steps,
                consumed <= input.len(),
                (Progress { machine: self@, consumed: consumed as nat, output: output@ }).after(
                    input@,
                    (max_steps - steps) as nat,
                ) == end,
            ensures
                self.well_formed(),
                self@ == end.machine,
                output@ == end.output,
                consumed == end.consumed,
                steps == max_steps || end.stuck(input@),
            decreases max_steps - steps,
        {
            if steps == max_steps {
                break;
            }
            let byte: Option<u8> = if consumed < input.len() {
                Some(input[consumed])
            } else {
                None
            };
            match self.step(byte) {
                Outcome::Halted | Outcome::OffTape | Outcome::NeedsInput => {
                    break;
                },
                Outcome::Printed(value) => {
                    output.push(value);
                },
                Outcome::Consumed => {
                    consumed = consumed + 1;
                },
                Outcome::Advanced => {},
            }
            steps = steps + 1;
        }
        let byte: Option<u8> = if consumed < input.len() {
            Some(input[consumed])
        } else {
            None
        };
        let stop: Stop = match self.peek(byte) {
            Outcome::Halted => Stop::Halted,
            Outcome::OffTape => Stop::OffTape,
            Outcome::NeedsInput => Stop::OutOfInput,
            _ => Stop::OutOfSteps,
        };
        Report { output, consumed, stop }
    }
}

} // verus!
