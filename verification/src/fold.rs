//! The first pass of the compiler: runs of one symbol become one counted
//! instruction, and every other symbol becomes an instruction of its own.

use vstd::prelude::*;
use crate::instruction::Instruction;

verus! {

/// How many copies of `c` one instruction can stand for: a move counts in
/// `isize`, an addition in `i16`, and nothing else is folded.
pub open spec fn fold_limit(c: char) -> int {
    if c == '>' || c == '<' {
        isize::MAX as int
    } else if c == '+' || c == '-' {
        i16::MAX as int
    } else {
        1
    }
}

/// How many characters directly after position `i` repeat the one at `i`.
pub open spec fn repeats(text: Seq<char>, i: int) -> nat
    decreases text.len() - i,
{
    if 0 <= i && i + 1 < text.len() && text[i + 1] == text[i] {
        1 + repeats(text, i + 1)
    } else {
        0
    }
}

/// The length of the longest stretch of `text` that starts at `i` and holds
/// one character only.
pub open spec fn run_length(text: Seq<char>, i: int) -> int {
    1 + repeats(text, i) as int
}

/// A run ends where the text ends, or before.
pub proof fn lemma_run_fits(text: Seq<char>, i: int)
    requires
        0 <= i < text.len(),
    ensures
        i + run_length(text, i) <= text.len(),
    decreases text.len() - i,
{
    if i + 1 < text.len() && text[i + 1] == text[i] {
        lemma_run_fits(text, i + 1);
    }
}

/// How many characters the instruction that starts at `i` stands for: the
/// whole run, or as much of it as one instruction can hold.
pub open spec fn token_length(text: Seq<char>, i: int) -> int {
    let run = run_length(text, i);
    let limit = fold_limit(text[i]);
    if run < limit {
        run
    } else {
        limit
    }
}

/// The instruction for `n` copies of `c`.
pub open spec fn token(c: char, n: int) -> Instruction {
    if c == '>' {
        Instruction::INCP_C(n as isize)
    } else if c == '<' {
        Instruction::INCP_C((-n) as isize)
    } else if c == '+' {
        Instruction::INCV_C(n as i16)
    } else if c == '-' {
        Instruction::INCV_C((-n) as i16)
    } else if c == '.' {
        Instruction::PRNT
    } else if c == ',' {
        Instruction::INPT
    } else if c == '[' {
        Instruction::JMPF
    } else if c == ']' {
        Instruction::JMPB
    } else {
        Instruction::NOOP
    }
}

/// The instructions for `text` from position `i` on.
pub open spec fn fold_from(text: Seq<char>, i: int) -> Seq<Instruction>
    decreases text.len() - i,
{
    if i < 0 || i >= text.len() {
        Seq::empty()
    } else {
        let n = token_length(text, i);
        proof {
            lemma_run_fits(text, i);
        }
        seq![token(text[i], n)] + fold_from(text, i + n)
    }
}

/// The instructions for `text`, brackets still unresolved.
pub open spec fn fold(text: Seq<char>) -> Seq<Instruction> {
    fold_from(text, 0)
}

/// A stretch of `n` equal characters from `i` on is the start of the run at
/// `i`, whose rest is the run at its last character.
pub proof fn lemma_run_prefix(text: Seq<char>, i: int, n: int)
    requires
        0 <= i,
        1 <= n,
        i + n <= text.len(),
        forall|k: int| i <= k < i + n ==> text[k] == text[i],
    ensures
        run_length(text, i) == n - 1 + run_length(text, i + n - 1),
    decreases n,
{
    if n > 1 {
        lemma_run_prefix(text, i + 1, n - 1);
    }
}

/// Decides `fold_limit`.
fn limit_of(c: char) -> (limit: usize)
    ensures
        limit == fold_limit(c),
{
    if c == '>' || c == '<' {
        isize::MAX as usize
    } else if c == '+' || c == '-' {
        i16::MAX as usize
    } else {
        1
    }
}

/// Computes `token`.
fn token_of(c: char, n: usize) -> (inst: Instruction)
    requires
        1 <= n <= fold_limit(c),
    ensures
        inst == token(c, n as int),
{
    if c == '>' {
        Instruction::INCP_C(n as isize)
    } else if c == '<' {
        Instruction::INCP_C(-(n as isize))
    } else if c == '+' {
        Instruction::INCV_C(n as i16)
    } else if c == '-' {
        Instruction::INCV_C(-(n as i16))
    } else if c == '.' {
        Instruction::PRNT
    } else if c == ',' {
        Instruction::INPT
    } else if c == '[' {
        Instruction::JMPF
    } else if c == ']' {
        Instruction::JMPB
    } else {
        Instruction::NOOP
    }
}

/// Folds `text` into instructions, brackets still unresolved.
pub fn fold_program(text: &Vec<char>) -> (insts: Vec<Instruction>)
    ensures
        insts@ == fold(text@),
{
    let len: usize = text.len();
    let mut insts: Vec<Instruction> = Vec::new();
    let mut i: usize = 0;
    while i < len
        invariant
            len == text@.len(),
            i <= len,
            insts@ + fold_from(text@, i as int) == fold(text@),
        decreases len - i,
    {
        let c: char = text[i];
        let limit: usize = limit_of(c);
        let mut n: usize = 1;
        while n < limit && n < len - i && text[i + n] == c
            invariant
                len == text@.len(),
                i < len,
                c == text@[i as int],
                limit == fold_limit(c),
                1 <= n <= limit,
                i + n <= len,
                forall|k: int| i <= k < i + n ==> text@[k] == c,
            decreases len - i - n,
        {
            n = n + 1;
        }
        proof {
            lemma_run_prefix(text@, i as int, n as int);
            assert(n == token_length(text@, i as int));
            assert(insts@.push(token(c, n as int)) + fold_from(text@, i + n) == insts@
                + fold_from(text@, i as int));
        }
        insts.push(token_of(c, n));
        i = i + n;
    }
    proof {
        assert(insts@ + Seq::<Instruction>::empty() == insts@);
    }
    insts
}

} // verus!
