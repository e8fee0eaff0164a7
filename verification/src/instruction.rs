//! The instructions that the compiler produces and the executor runs.

use vstd::prelude::*;

verus! {

/// One instruction of a compiled program.
///
/// `JMPF` and `JMPB` stand for an opening and a closing bracket while a text
/// is being compiled; a compiled program holds a `JUMP_C` in place of each.
#[allow(non_camel_case_types)]
#[allow(clippy::upper_case_acronyms)]
#[derive(Debug, PartialEq, Eq, Clone, Copy, Structural)]
pub enum Instruction {
    /// Does nothing.
    NOOP,
    /// Moves the data pointer by the given amount.
    INCP_C(isize),
    /// Adds the given amount to the current cell, modulo 256.
    INCV_C(i16),
    /// Emits the current cell as one byte.
    PRNT,
    /// Takes one byte of input and stores it in the current cell.
    INPT,
    /// Jumps to the given position, depending on the current cell: backwards
    /// while the cell is not zero, forwards when it is zero.
    JUMP_C(usize),
    /// An opening bracket whose partner is not yet known.
    JMPF,
    /// A closing bracket whose partner is not yet known.
    JMPB,
}

impl Instruction {
    /// An unresolved bracket.
    pub open spec fn is_marker(self) -> bool {
        self == Instruction::JMPF || self == Instruction::JMPB
    }

    /// A resolved jump.
    pub open spec fn is_jump(self) -> bool {
        self is JUMP_C
    }

    /// What the instruction does to the nesting depth.
    pub open spec fn delta(self) -> int {
        match self {
            Instruction::JMPF => 1,
            Instruction::JMPB => -1,
            _ => 0,
        }
    }
}

} // verus!
