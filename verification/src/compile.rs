//! The compiler: the two passes together, and what holds of their result.

use vstd::prelude::*;
use crate::fold::{
    fold, fold_from, fold_program, lemma_run_fits, run_length, token, token_length,
};
use crate::instruction::Instruction;
use crate::interpreter::Interpreter;
use crate::lexer::chars_of;
use crate::resolve::{
    is_pair, lemma_close_exists, lemma_one_close, lemma_one_open, lemma_open_exists, level,
    nested, partner, resolve, resolve_jumps,
};
use crate::validate::{balanced, bracket_delta, depth};

verus! {

/// The compiled program of `text`: its folded instructions, with a jump in
/// place of every bracket.
pub open spec fn compile(text: Seq<char>) -> Seq<Instruction> {
    resolve(fold(text))
}

/// The depth after an instruction at the head of a sequence.
proof fn lemma_level_cons(first: Instruction, rest: Seq<Instruction>, m: int)
    requires
        0 <= m <= rest.len(),
    ensures
        level(seq![first] + rest, m + 1) == first.delta() + level(rest, m),
    decreases m,
{
    let whole = seq![first] + rest;
    if m > 0 {
        lemma_level_cons(first, rest, m - 1);
        assert(whole[m] == rest[m - 1]);
    } else {
        assert(whole[0] == first);
        assert(level(whole, 0) == 0);
    }
}

/// Every character of a run is the one that the run starts with.
proof fn lemma_run_chars(text: Seq<char>, i: int, k: int)
    requires
        0 <= i < text.len(),
        0 <= k < run_length(text, i),
    ensures
        i + k < text.len(),
        text[i + k] == text[i],
    decreases k,
{
    if k > 0 {
        lemma_run_chars(text, i + 1, k - 1);
    }
}

/// A stretch without brackets leaves the depth as it is.
proof fn lemma_depth_flat(text: Seq<char>, i: int, n: int)
    requires
        0 <= i,
        0 <= n,
        forall|k: int| i <= k < i + n ==> bracket_delta(#[trigger] text[k]) == 0,
    ensures
        depth(text, i + n) == depth(text, i),
    decreases n,
{
    if n > 0 {
        lemma_depth_flat(text, i, n - 1);
    }
}

/// An instruction moves the depth as the characters do that it stands for.
proof fn lemma_token_delta(text: Seq<char>, i: int)
    requires
        0 <= i < text.len(),
    ensures
        depth(text, i + token_length(text, i)) == depth(text, i) + token(
            text[i],
            token_length(text, i),
        ).delta(),
{
    let n = token_length(text, i);
    if text[i] == '[' || text[i] == ']' {
        assert(n == 1);
        assert(depth(text, i + 1) == depth(text, i) + bracket_delta(text[i]));
    } else {
        assert forall|k: int| i <= k < i + n implies bracket_delta(#[trigger] text[k]) == 0 by {
            lemma_run_chars(text, i, k - i);
        }
        lemma_depth_flat(text, i, n);
    }
}

/// Folding keeps the depths: after each instruction of the text from `i` on,
/// the depth is that of the text at some later place.
proof fn lemma_fold_levels(text: Seq<char>, i: int, base: int)
    requires
        0 <= i <= text.len(),
        forall|k: int| i <= k <= text.len() ==> depth(text, k) >= base,
    ensures
        forall|m: int|
            0 <= m <= fold_from(text, i).len() ==> #[trigger] level(fold_from(text, i), m)
                + depth(text, i) >= base,
        level(fold_from(text, i), fold_from(text, i).len() as int) + depth(text, i) == depth(
            text,
            text.len() as int,
        ),
    decreases text.len() - i,
{
    let folded = fold_from(text, i);
    if i < text.len() {
        let n = token_length(text, i);
        let first = token(text[i], n);
        let rest = fold_from(text, i + n);
        lemma_run_fits(text, i);
        lemma_token_delta(text, i);
        lemma_fold_levels(text, i + n, base);
        assert(folded == seq![first] + rest);
        assert forall|m: int| 0 <= m <= folded.len() implies #[trigger] level(folded, m) + depth(
            text,
            i,
        ) >= base by {
            if m > 0 {
                lemma_level_cons(first, rest, m - 1);
                assert(level(rest, m - 1) + depth(text, i + n) >= base);
            }
        }
        lemma_level_cons(first, rest, rest.len() as int);
    }
}

/// Folding a balanced text gives instructions whose brackets nest properly.
pub proof fn lemma_fold_nested(text: Seq<char>)
    requires
        balanced(text),
    ensures
        nested(fold(text)),
{
    lemma_fold_levels(text, 0, 0);
}

/// Whether `c` is one of the two brackets.
pub open spec fn is_bracket(c: char) -> bool {
    c == '[' || c == ']'
}

/// The number of brackets in `text`.
pub open spec fn bracket_count(text: Seq<char>) -> nat {
    text.filter(|c: char| is_bracket(c)).len()
}

/// The number of opening brackets in `text`: in a balanced text, the number
/// of bracket pairs.
pub open spec fn pair_count(text: Seq<char>) -> nat {
    text.filter(|c: char| c == '[').len()
}

/// The number of unresolved brackets in `insts`.
pub open spec fn marker_count(insts: Seq<Instruction>) -> nat {
    insts.filter(|inst: Instruction| inst.is_marker()).len()
}

/// The number of jumps in `insts`.
pub open spec fn jump_count(insts: Seq<Instruction>) -> nat {
    insts.filter(|inst: Instruction| inst.is_jump()).len()
}

/// Two sequences of one length, of which one holds a wanted item wherever
/// the other does, hold equally many.
proof fn lemma_filter_len_agree<A, B>(
    a: Seq<A>,
    wanted_a: spec_fn(A) -> bool,
    b: Seq<B>,
    wanted_b: spec_fn(B) -> bool,
)
    requires
        a.len() == b.len(),
        forall|i: int| 0 <= i < a.len() ==> wanted_a(a[i]) == wanted_b(b[i]),
    ensures
        a.filter(wanted_a).len() == b.filter(wanted_b).len(),
    decreases a.len(),
{
    reveal(Seq::filter);
    if a.len() > 0 {
        lemma_filter_len_agree(a.drop_last(), wanted_a, b.drop_last(), wanted_b);
    }
}

/// A sequence without wanted items holds none.
proof fn lemma_filter_none<A>(a: Seq<A>, wanted: spec_fn(A) -> bool)
    requires
        forall|i: int| 0 <= i < a.len() ==> !wanted(a[i]),
    ensures
        a.filter(wanted).len() == 0,
    decreases a.len(),
{
    reveal(Seq::filter);
    if a.len() > 0 {
        lemma_filter_none(a.drop_last(), wanted);
    }
}

/// A sequence of one item holds one wanted item or none.
proof fn lemma_filter_one<A>(item: A, wanted: spec_fn(A) -> bool)
    ensures
        seq![item].filter(wanted).len() == if wanted(item) {
            1nat
        } else {
            0nat
        },
{
    reveal(Seq::filter);
    let one = seq![item];
    lemma_filter_none(one.drop_last(), wanted);
    assert(one.last() == item);
}

/// Folding makes no jumps, and no more instructions than there are
/// characters.
pub proof fn lemma_fold_plain(text: Seq<char>, i: int)
    requires
        0 <= i <= text.len(),
    ensures
        fold_from(text, i).len() <= text.len() - i,
        forall|m: int|
            0 <= m < fold_from(text, i).len() ==> !(#[trigger] fold_from(text, i)[m]).is_jump(),
    decreases text.len() - i,
{
    if i < text.len() {
        let n = token_length(text, i);
        let rest = fold_from(text, i + n);
        lemma_run_fits(text, i);
        lemma_fold_plain(text, i + n);
        assert forall|m: int| 0 <= m < fold_from(text, i).len() implies !(#[trigger] fold_from(
            text,
            i,
        )[m]).is_jump() by {
            if m > 0 {
                assert(fold_from(text, i)[m] == rest[m - 1]);
            }
        }
    }
}

/// Folding keeps the brackets: as many of the instructions for the text from
/// `i` on are unresolved brackets as there are brackets in that text.
proof fn lemma_fold_markers(text: Seq<char>, i: int)
    requires
        0 <= i <= text.len(),
    ensures
        marker_count(fold_from(text, i)) == bracket_count(text.skip(i)),
    decreases text.len() - i,
{
    let is_marker = |inst: Instruction| inst.is_marker();
    let bracket = |c: char| is_bracket(c);
    if i < text.len() {
        let n = token_length(text, i);
        let first = token(text[i], n);
        let rest = fold_from(text, i + n);
        let head = text.subrange(i, i + n);
        lemma_run_fits(text, i);
        lemma_fold_markers(text, i + n);
        assert(fold_from(text, i) == seq![first] + rest);
        assert(text.skip(i) =~= head + text.skip(i + n));
        Seq::filter_distributes_over_add(seq![first], rest, is_marker);
        Seq::filter_distributes_over_add(head, text.skip(i + n), bracket);
        lemma_filter_one(first, is_marker);
        if is_bracket(text[i]) {
            assert(head =~= seq![text[i]]);
            lemma_filter_one(text[i], bracket);
        } else {
            assert forall|k: int| 0 <= k < head.len() implies !bracket(head[k]) by {
                lemma_run_chars(text, i, k);
            }
            lemma_filter_none(head, bracket);
        }
    } else {
        lemma_filter_none(fold_from(text, i), is_marker);
        lemma_filter_none(text.skip(i), bracket);
    }
}

/// Among the first `k` characters, the brackets are twice the opening ones
/// less the depth.
proof fn lemma_brackets_by_depth(text: Seq<char>, k: int)
    requires
        0 <= k <= text.len(),
    ensures
        bracket_count(text.take(k)) == 2 * pair_count(text.take(k)) - depth(text, k),
    decreases k,
{
    reveal(Seq::filter);
    if k > 0 {
        lemma_brackets_by_depth(text, k - 1);
        assert(text.take(k).drop_last() == text.take(k - 1));
        assert(text.take(k).last() == text[k - 1]);
    }
}

/// A compiled program holds no bracket any more, each of its jumps stands
/// where a bracket stood and leads to that bracket's partner, whose own jump
/// leads back, and it holds two jumps for each pair of brackets.
pub proof fn lemma_compile_resolves(text: Seq<char>)
    requires
        balanced(text),
        text.len() <= usize::MAX,
    ensures
        compile(text).len() == fold(text).len(),
        forall|i: int| 0 <= i < compile(text).len() ==> !(#[trigger] compile(text)[i]).is_marker(),
        forall|i: int|
            0 <= i < compile(text).len() ==> (match #[trigger] compile(text)[i] {
                Instruction::JUMP_C(target) => is_pair(fold(text), i, target as int) || is_pair(
                    fold(text),
                    target as int,
                    i,
                ),
                other => other == fold(text)[i],
            }),
        forall|i: int|
            0 <= i < compile(text).len() ==> (match #[trigger] compile(text)[i] {
                Instruction::JUMP_C(target) => target < compile(text).len() && compile(
                    text,
                )[target as int] == Instruction::JUMP_C(i as usize),
                _ => true,
            }),
        jump_count(compile(text)) == bracket_count(text),
        jump_count(compile(text)) == 2 * pair_count(text),
{
    let folded = fold(text);
    let compiled = compile(text);
    lemma_fold_nested(text);
    lemma_fold_plain(text, 0);
    assert forall|i: int| 0 <= i < compiled.len() implies (match #[trigger] compiled[i] {
        Instruction::JUMP_C(target) => is_pair(folded, i, target as int) || is_pair(
            folded,
            target as int,
            i,
        ),
        other => other == folded[i],
    }) by {
        if folded[i] == Instruction::JMPF {
            lemma_close_exists(folded, i);
        } else if folded[i] == Instruction::JMPB {
            lemma_open_exists(folded, i);
        } else {
            assert(!folded[i].is_jump());
        }
    }
    assert forall|i: int| 0 <= i < compiled.len() implies (match #[trigger] compiled[i] {
        Instruction::JUMP_C(target) => target < compiled.len() && compiled[target as int]
            == Instruction::JUMP_C(i as usize),
        _ => true,
    }) by {
        if folded[i] == Instruction::JMPF {
            let close = partner(folded, i);
            lemma_close_exists(folded, i);
            lemma_open_exists(folded, close);
            lemma_one_open(folded, i, partner(folded, close), close);
        } else if folded[i] == Instruction::JMPB {
            let open = partner(folded, i);
            lemma_open_exists(folded, i);
            lemma_close_exists(folded, open);
            lemma_one_close(folded, open, i, partner(folded, open));
        } else {
            assert(!folded[i].is_jump());
        }
    }
    assert forall|i: int| 0 <= i < compiled.len() implies compiled[i].is_jump()
        == folded[i].is_marker() by {
        assert(!folded[i].is_jump());
    }
    lemma_filter_len_agree(
        compiled,
        |inst: Instruction| inst.is_jump(),
        folded,
        |inst: Instruction| inst.is_marker(),
    );
    lemma_fold_markers(text, 0);
    assert(text.skip(0) =~= text);
    lemma_brackets_by_depth(text, text.len() as int);
    assert(text.take(text.len() as int) =~= text);
}

impl Interpreter {
    /// Compiles a text whose brackets are balanced: folds its runs into
    /// counted instructions, then puts a jump to its partner in place of
    /// every bracket. A character that is no symbol becomes a `NOOP`.
    pub fn compile_program(program: String) -> (insts: Vec<Instruction>)
        requires
            balanced(program@),
        ensures
            insts@ == compile(program@),
            forall|i: int| 0 <= i < insts@.len() ==> !(#[trigger] insts@[i]).is_marker(),
            forall|i: int|
                0 <= i < insts@.len() ==> match #[trigger] insts@[i] {
                    Instruction::JUMP_C(target) => target < insts.len(),
                    _ => true,
                },
            jump_count(insts@) == 2 * pair_count(program@),
    {
        let text: Vec<char> = chars_of(program.as_str());
        let folded: Vec<Instruction> = fold_program(&text);
        proof {
            assert(program@.len() == text.len());
            lemma_fold_nested(program@);
            lemma_compile_resolves(program@);
        }
        resolve_jumps(&folded)
    }
}

} // verus!
