//! The cleaner: keeps the eight symbols of the language and drops the rest.

use vstd::prelude::*;
use crate::interpreter::Interpreter;

verus! {

/// Whether `c` is one of the eight symbols of the language.
pub open spec fn is_symbol(c: char) -> bool {
    c == '>' || c == '<' || c == '+' || c == '-' || c == '.' || c == ',' || c == '[' || c == ']'
}

/// The symbols of `text`, in their order.
pub open spec fn clean(text: Seq<char>) -> Seq<char> {
    text.filter(|c: char| is_symbol(c))
}

/// `String::push` of std: appends one character to the end of the string.
pub assume_specification[ String::push ](s: &mut String, c: char)
    ensures
        final(s)@ == old(s)@.push(c),
;

/// Decides `is_symbol`.
fn is_valid_char(c: char) -> (r: bool)
    ensures
        r == is_symbol(c),
{
    c == '>' || c == '<' || c == '+' || c == '-' || c == '.' || c == ',' || c == '[' || c == ']'
}

/// The characters of `text`, in their order.
pub fn chars_of(text: &str) -> (out: Vec<char>)
    ensures
        out@ == text@,
{
    let mut out: Vec<char> = Vec::new();
    for c in it: text.chars()
        invariant
            it.seq() == text@,
            out@ == it.seq().take(it.index()),
    {
        out.push(c);
    }
    out
}

/// Cleaning keeps symbols only, and never makes a text longer.
pub proof fn lemma_clean_symbols(text: Seq<char>)
    ensures
        clean(text).len() <= text.len(),
        forall|i: int| 0 <= i < clean(text).len() ==> is_symbol(#[trigger] clean(text)[i]),
{
    broadcast use Seq::lemma_filter_len, Seq::lemma_filter_pred;
}

/// Cleaning keeps the order: the clean form of two texts joined is the clean
/// form of the first followed by that of the second.
pub proof fn lemma_clean_joined(first: Seq<char>, second: Seq<char>)
    ensures
        clean(first + second) == clean(first) + clean(second),
{
    Seq::filter_distributes_over_add(first, second, |c: char| is_symbol(c));
}

/// The clean form of a single character: itself if it is a symbol, nothing
/// otherwise.
pub proof fn lemma_clean_one(c: char)
    ensures
        clean(seq![c]) == if is_symbol(c) {
            seq![c]
        } else {
            Seq::<char>::empty()
        },
{
    reveal_with_fuel(Seq::filter, 2);
    let one = seq![c];
    assert(one.drop_last() =~= Seq::<char>::empty());
    assert(one.last() == c);
    assert(Seq::<char>::empty().push(c) =~= one);
}

/// Cleaning a clean text changes nothing.
pub proof fn lemma_clean_twice(text: Seq<char>)
    ensures
        clean(clean(text)) == clean(text),
    decreases text.len(),
{
    reveal(Seq::filter);
    if text.len() > 0 {
        let front = text.drop_last();
        lemma_clean_twice(front);
        if is_symbol(text.last()) {
            assert(clean(text) == clean(front).push(text.last()));
            assert(clean(text).drop_last() =~= clean(front));
        }
    }
}

impl Interpreter {
    /// Drops every character of `program` that is not a symbol.
    pub fn clean_program(program: &str) -> (cleaned: String)
        ensures
            cleaned@ == clean(program@),
            cleaned@.len() <= program@.len(),
            forall|i: int| 0 <= i < cleaned@.len() ==> is_symbol(#[trigger] cleaned@[i]),
    {
        let mut cleaned = String::new();
        for c in it: program.chars()
            invariant
                it.seq() == program@,
                cleaned@ == clean(it.seq().take(it.index())),
        {
            proof {
                let seen = it.seq().take(it.index() + 1);
                assert(seen.drop_last() == it.seq().take(it.index()));
                assert(seen.last() == c);
                reveal(Seq::filter);
            }
            if is_valid_char(c) {
                cleaned.push(c);
            }
        }
        proof {
            assert(program@.take(program@.len() as int) == program@);
            lemma_clean_symbols(program@);
        }
        cleaned
    }
}

} // verus!
