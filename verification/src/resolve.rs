//! The second pass of the compiler: every bracket becomes a jump to its
//! partner.

use vstd::prelude::*;
use crate::instruction::Instruction;

verus! {

/// The nesting depth after the first `k` instructions: the number of opening
/// brackets among them minus the number of closing ones.
pub open spec fn level(insts: Seq<Instruction>, k: int) -> int
    decreases k,
{
    if k <= 0 {
        0
    } else {
        level(insts, k - 1) + insts[k - 1].delta()
    }
}

/// The brackets of `insts` nest properly.
pub open spec fn nested(insts: Seq<Instruction>) -> bool {
    &&& level(insts, insts.len() as int) == 0
    &&& forall|k: int| 0 <= k <= insts.len() ==> level(insts, k) >= 0
}

/// The bracket at `open` and the one at `close` are partners: `close` is the
/// first place after `open` where the depth is back to what it was before
/// `open`.
pub open spec fn is_pair(insts: Seq<Instruction>, open: int, close: int) -> bool {
    &&& 0 <= open < close < insts.len()
    &&& insts[open] == Instruction::JMPF
    &&& insts[close] == Instruction::JMPB
    &&& level(insts, close + 1) == level(insts, open)
    &&& forall|k: int| open < k <= close ==> level(insts, k) > level(insts, open)
}

/// The position of the partner of the bracket at `i`.
pub open spec fn partner(insts: Seq<Instruction>, i: int) -> int {
    if insts[i] == Instruction::JMPF {
        choose|j: int| is_pair(insts, i, j)
    } else {
        choose|j: int| is_pair(insts, j, i)
    }
}

/// `insts` with a jump to its partner in place of every bracket.
pub open spec fn resolve(insts: Seq<Instruction>) -> Seq<Instruction> {
    Seq::new(
        insts.len(),
        |i: int|
            if insts[i].is_marker() {
                Instruction::JUMP_C(partner(insts, i) as usize)
            } else {
                insts[i]
            },
    )
}

/// An opening bracket has at most one partner.
pub proof fn lemma_one_close(insts: Seq<Instruction>, open: int, a: int, b: int)
    requires
        is_pair(insts, open, a),
        is_pair(insts, open, b),
    ensures
        a == b,
{
    if a < b {
        assert(level(insts, a + 1) > level(insts, open));
    } else if b < a {
        assert(level(insts, b + 1) > level(insts, open));
    }
}

/// A closing bracket has at most one partner.
pub proof fn lemma_one_open(insts: Seq<Instruction>, a: int, b: int, close: int)
    requires
        is_pair(insts, a, close),
        is_pair(insts, b, close),
    ensures
        a == b,
{
    if a < b {
        assert(level(insts, b) > level(insts, a));
        assert(level(insts, b + 1) == level(insts, b) + 1);
    } else if b < a {
        assert(level(insts, a) > level(insts, b));
        assert(level(insts, a + 1) == level(insts, a) + 1);
    }
}

/// From `j` on, looks for the place where the depth is back to what it was
/// before `open`.
proof fn lemma_scan_close(insts: Seq<Instruction>, open: int, j: int) -> (close: int)
    requires
        nested(insts),
        0 <= open < j <= insts.len(),
        insts[open] == Instruction::JMPF,
        forall|k: int| open < k <= j ==> level(insts, k) > level(insts, open),
    ensures
        is_pair(insts, open, close),
    decreases insts.len() - j,
{
    assert(level(insts, insts.len() as int) == 0);
    assert(level(insts, open) >= 0);
    assert(level(insts, j + 1) == level(insts, j) + insts[j].delta());
    if level(insts, j + 1) == level(insts, open) {
        j
    } else {
        lemma_scan_close(insts, open, j + 1)
    }
}

/// From `j` back, looks for the place where the depth is what it is after
/// `close`.
proof fn lemma_scan_open(insts: Seq<Instruction>, j: int, close: int) -> (open: int)
    requires
        nested(insts),
        0 <= j <= close < insts.len(),
        insts[close] == Instruction::JMPB,
        forall|k: int| j <= k <= close ==> level(insts, k) >= level(insts, close),
    ensures
        is_pair(insts, open, close),
    decreases j,
{
    assert(level(insts, close + 1) == level(insts, close) - 1);
    assert(level(insts, close + 1) >= 0);
    assert(level(insts, 0) == 0);
    assert(level(insts, j) == level(insts, j - 1) + insts[j - 1].delta());
    if level(insts, j - 1) == level(insts, close) - 1 {
        j - 1
    } else {
        lemma_scan_open(insts, j - 1, close)
    }
}

/// Where brackets nest properly, every opening bracket has a partner.
pub proof fn lemma_close_exists(insts: Seq<Instruction>, open: int)
    requires
        nested(insts),
        0 <= open < insts.len(),
        insts[open] == Instruction::JMPF,
    ensures
        is_pair(insts, open, partner(insts, open)),
{
    assert(level(insts, open + 1) == level(insts, open) + 1);
    let close = lemma_scan_close(insts, open, open + 1);
}

/// Where brackets nest properly, every closing bracket has a partner.
pub proof fn lemma_open_exists(insts: Seq<Instruction>, close: int)
    requires
        nested(insts),
        0 <= close < insts.len(),
        insts[close] == Instruction::JMPB,
    ensures
        is_pair(insts, partner(insts, close), close),
{
    let open = lemma_scan_open(insts, close, close);
}

/// The depth moves by at most one per instruction.
pub proof fn lemma_level_step(insts: Seq<Instruction>, from: int, to: int)
    requires
        0 <= from <= to,
    ensures
        from - to <= level(insts, to) - level(insts, from) <= to - from,
    decreases to - from,
{
    if from < to {
        lemma_level_step(insts, from, to - 1);
    }
}

/// Finds the partner of the opening bracket at `open`.
fn find_close(insts: &Vec<Instruction>, open: usize) -> (close: usize)
    requires
        nested(insts@),
        open < insts.len(),
        insts[open as int] == Instruction::JMPF,
    ensures
        is_pair(insts@, open as int, close as int),
{
    let len: usize = insts.len();
    let mut j: usize = open + 1;
    let mut inner: usize = 0;
    loop
        invariant
            nested(insts@),
            len == insts.len(),
            open < j <= len,
            insts[open as int] == Instruction::JMPF,
            inner == level(insts@, j as int) - level(insts@, open + 1),
            forall|k: int| open < k <= j ==> level(insts@, k) > level(insts@, open as int),
        ensures
            is_pair(insts@, open as int, j as int),
        decreases len - j,
    {
        proof {
            lemma_level_step(insts@, open + 1, j as int);
            assert(level(insts@, open + 1) == level(insts@, open as int) + 1);
            assert(level(insts@, len as int) == 0);
            assert(level(insts@, open as int) >= 0);
        }
        assert(j < len);
        let inst: Instruction = insts[j];
        assert(level(insts@, j + 1) == level(insts@, j as int) + inst.delta());
        if inst == Instruction::JMPB {
            if inner == 0 {
                break;
            }
            inner = inner - 1;
        } else if inst == Instruction::JMPF {
            inner = inner + 1;
        }
        j = j + 1;
    }
    j
}

/// Finds the partner of the closing bracket at `close`.
fn find_open(insts: &Vec<Instruction>, close: usize) -> (open: usize)
    requires
        nested(insts@),
        close < insts.len(),
        insts[close as int] == Instruction::JMPB,
    ensures
        is_pair(insts@, open as int, close as int),
{
    let mut j: usize = close;
    let mut inner: usize = 0;
    loop
        invariant_except_break
            inner == level(insts@, j as int) - level(insts@, close as int),
            forall|k: int| j <= k <= close ==> level(insts@, k) >= level(insts@, close as int),
        invariant
            nested(insts@),
            j <= close < insts.len(),
            insts[close as int] == Instruction::JMPB,
        ensures
            is_pair(insts@, j as int, close as int),
        decreases j,
    {
        proof {
            lemma_level_step(insts@, j as int, close as int);
            assert(level(insts@, close + 1) == level(insts@, close as int) - 1);
            assert(level(insts@, close + 1) >= 0);
            assert(level(insts@, 0) == 0);
        }
        assert(j > 0);
        j = j - 1;
        let inst: Instruction = insts[j];
        assert(level(insts@, j + 1) == level(insts@, j as int) + inst.delta());
        if inst == Instruction::JMPF {
            if inner == 0 {
                break;
            }
            inner = inner - 1;
        } else if inst == Instruction::JMPB {
            inner = inner + 1;
        }
    }
    j
}

/// Replaces every bracket of `insts` by a jump to its partner.
pub fn resolve_jumps(insts: &Vec<Instruction>) -> (out: Vec<Instruction>)
    requires
        nested(insts@),
    ensures
        out@ == resolve(insts@),
{
    let len: usize = insts.len();
    let mut out: Vec<Instruction> = Vec::with_capacity(len);
    let mut i: usize = 0;
    while i < len
        invariant
            nested(insts@),
            len == insts.len(),
            i <= len,
            out@ == resolve(insts@).take(i as int),
        decreases len - i,
    {
        let inst: Instruction = insts[i];
        let resolved: Instruction = if inst == Instruction::JMPF {
            let close: usize = find_close(insts, i);
            proof {
                lemma_one_close(insts@, i as int, close as int, partner(insts@, i as int));
            }
            Instruction::JUMP_C(close)
        } else if inst == Instruction::JMPB {
            let open: usize = find_open(insts, i);
            proof {
                lemma_one_open(insts@, open as int, partner(insts@, i as int), i as int);
            }
            Instruction::JUMP_C(open)
        } else {
            inst
        };
        out.push(resolved);
        proof {
            assert(out@ =~= resolve(insts@).take(i + 1));
        }
        i = i + 1;
    }
    proof {
        assert(resolve(insts@).take(len as int) =~= resolve(insts@));
    }
    out
}

} // verus!
