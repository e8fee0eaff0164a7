//! The validator: brackets must nest properly before a text is compiled.

use vstd::prelude::*;
use crate::interpreter::Interpreter;
use crate::lexer::chars_of;

verus! {

/// What a character does to the nesting depth.
pub open spec fn bracket_delta(c: char) -> int {
    if c == '[' {
        1
    } else if c == ']' {
        -1
    } else {
        0
    }
}

/// The nesting depth after the first `k` characters of `text`: the number of
/// `[` among them minus the number of `]`.
pub open spec fn depth(text: Seq<char>, k: int) -> int
    decreases k,
{
    if k <= 0 {
        0
    } else {
        depth(text, k - 1) + bracket_delta(text[k - 1])
    }
}

/// Brackets nest properly: the depth never goes below zero and ends at zero.
pub open spec fn balanced(text: Seq<char>) -> bool {
    &&& depth(text, text.len() as int) == 0
    &&& forall|k: int| 0 <= k <= text.len() ==> depth(text, k) >= 0
}

/// The depth moves by at most one per character.
pub proof fn lemma_depth_bounds(text: Seq<char>, k: int)
    requires
        0 <= k,
    ensures
        -k <= depth(text, k) <= k,
    decreases k,
{
    if k > 0 {
        lemma_depth_bounds(text, k - 1);
    }
}

impl Interpreter {
    /// Whether the brackets of `program` are balanced.
    pub fn check_valid(program: &str) -> (ok: bool)
        ensures
            ok == balanced(program@),
    {
        let text: Vec<char> = chars_of(program);
        let mut level: usize = 0;
        let mut i: usize = 0;
        while i < text.len()
            invariant
                text@ == program@,
                i <= text.len(),
                level == depth(program@, i as int),
                forall|k: int| 0 <= k <= i ==> depth(program@, k) >= 0,
            decreases text.len() - i,
        {
            proof {
                lemma_depth_bounds(program@, i as int);
            }
            let c: char = text[i];
            if c == '[' {
                level = level + 1;
            } else if c == ']' {
                if level == 0 {
                    assert(depth(program@, i + 1) < 0);
                    return false;
                }
                level = level - 1;
            }
            i = i + 1;
        }
        level == 0
    }
}

} // verus!
