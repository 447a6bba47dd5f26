//! Reading characters off an input, one position at a time: what both
//! parsers are built from.

use vstd::prelude::*;
use crate::text::{chars_of, string_of, white_space};

verus! {

/// Why a text could not be parsed.
#[derive(Clone, Copy, Debug, PartialEq, Eq, Structural)]
pub enum ParseError {
    /// The input ended where more was needed.
    UnexpectedEnd,
    /// After a selector came something other than `,` or `{`.
    MalformedSelectorList,
    /// A declaration lacks its `:` or its `;`.
    MalformedDeclaration,
    /// A number has no digit, or more than one decimal point.
    MalformedNumber,
    /// A length has a unit other than `px`.
    UnknownUnit,
    /// A colour is not `#` and three pairs of hexadecimal digits.
    MalformedColor,
    /// A tag lacks its `<`, `/` or `>`.
    MalformedTag,
    /// A closing tag does not name the element it closes.
    MismatchedClosingTag,
    /// An attribute lacks its `=` or a quote around its value.
    MalformedAttribute,
}

/// Where a parse stopped, and with what.
pub struct Step<T> {
    pub pos: int,
    pub result: Result<T, ParseError>,
}

impl<T> Step<T> {
    /// Whether the parse succeeded with `value`.
    pub open spec fn yields(self, value: T) -> bool {
        self.result == Ok::<T, ParseError>(value)
    }

    /// Whether the parse failed with `error`.
    pub open spec fn fails(self, error: ParseError) -> bool {
        self.result == Err::<T, ParseError>(error)
    }
}

/// How many characters of `input` lie at and after `pos`.
pub open spec fn remaining(input: Seq<char>, pos: int) -> nat {
    if pos < input.len() {
        (input.len() - pos) as nat
    } else {
        0
    }
}

/// Whether `pos` is at or past the end of `input`.
pub open spec fn at_end(input: Seq<char>, pos: int) -> bool {
    pos >= input.len()
}

/// The first position at or after `pos` whose character does not satisfy
/// `pred`, or the end of the input if all of them do.
pub open spec fn run_end(input: Seq<char>, pos: int, pred: spec_fn(char) -> bool) -> int
    decreases input.len() - pos,
{
    if 0 <= pos < input.len() && pred(input[pos]) {
        run_end(input, pos + 1, pred)
    } else {
        pos
    }
}

/// A run ends at or after its start and within the input, every character
/// in it satisfies the predicate, and the one after it does not.
pub proof fn lemma_run(input: Seq<char>, pos: int, pred: spec_fn(char) -> bool)
    requires
        0 <= pos,
    ensures
        pos <= run_end(input, pos, pred),
        pos <= input.len() ==> run_end(input, pos, pred) <= input.len(),
        forall|i: int| pos <= i < run_end(input, pos, pred) ==> pred(#[trigger] input[i]),
        run_end(input, pos, pred) < input.len() ==> !pred(input[run_end(input, pos, pred)]),
    decreases input.len() - pos,
{
    if pos < input.len() && pred(input[pos]) {
        lemma_run(input, pos + 1, pred);
    }
}

/// A stretch of characters that all satisfy the predicate, followed by one
/// that does not or by the end of the input, is the run from its start.
pub proof fn lemma_run_is(input: Seq<char>, pos: int, end: int, pred: spec_fn(char) -> bool)
    requires
        0 <= pos <= end <= input.len(),
        forall|i: int| pos <= i < end ==> pred(#[trigger] input[i]),
        end == input.len() || !pred(input[end]),
    ensures
        run_end(input, pos, pred) == end,
    decreases end - pos,
{
    if pos < end {
        lemma_run_is(input, pos + 1, end, pred);
    }
}

/// The position after the white space that starts at `pos`.
pub open spec fn skip_whitespace(input: Seq<char>, pos: int) -> int {
    run_end(input, pos, whitespace_chars())
}

/// The characters that white space is made of.
pub open spec fn whitespace_chars() -> spec_fn(char) -> bool {
    |c: char| white_space(c)
}

/// The characters of `input` from `from` up to `to`; none where the two do
/// not mark a stretch of the input.
pub open spec fn slice(input: Seq<char>, from: int, to: int) -> Seq<char> {
    if 0 <= from <= to <= input.len() {
        input.subrange(from, to)
    } else {
        Seq::empty()
    }
}

/// Whether the characters of `input` from `pos` on begin with `prefix`.
pub open spec fn begins_with(input: Seq<char>, pos: int, prefix: Seq<char>) -> bool {
    &&& 0 <= pos
    &&& pos + prefix.len() <= input.len()
    &&& input.subrange(pos, pos + prefix.len()) == prefix
}

/// The result of expecting the character `want` at `pos`: the position
/// after it, or why it is not there.
pub open spec fn expect_at(input: Seq<char>, pos: int, want: char, otherwise: ParseError) -> Step<
    (),
> {
    if pos < 0 || pos >= input.len() {
        Step { pos, result: Err(ParseError::UnexpectedEnd) }
    } else if input[pos] == want {
        Step { pos: pos + 1, result: Ok(()) }
    } else {
        Step { pos, result: Err(otherwise) }
    }
}

/// The character at `pos`.
pub fn peek(input: &Vec<char>, pos: usize) -> (c: char)
    requires
        pos < input@.len(),
    ensures
        c == input@[pos as int],
{
    input[pos]
}

/// Whether the input from `pos` on starts with `s`.
pub fn starts_with_at(input: &Vec<char>, pos: usize, s: &str) -> (r: bool)
    requires
        pos <= input@.len(),
    ensures
        r == begins_with(input@, pos as int, s@),
{
    let prefix = chars_of(s);
    if prefix.len() > input.len() - pos {
        return false;
    }
    let mut i: usize = 0;
    while i < prefix.len()
        invariant
            i <= prefix@.len(),
            prefix@ == s@,
            pos + prefix@.len() <= input@.len() <= usize::MAX,
            forall|j: int| 0 <= j < i ==> input@[pos + j] == prefix@[j],
        decreases prefix@.len() - i,
    {
        if input[pos + i] != prefix[i] {
            assert(input@.subrange(pos as int, pos + prefix@.len())[i as int] != prefix@[i as int]);
            return false;
        }
        i += 1;
    }
    assert(input@.subrange(pos as int, pos + prefix@.len()) =~= prefix@);
    true
}

/// Moves `pos` past the characters that `test` accepts and returns them.
pub fn take_while<F>(input: &Vec<char>, pos: &mut usize, test: F) -> (r: String) where
    F: Fn(char) -> bool,

    requires
        forall|i: int|
            *old(pos) <= i < input@.len() ==> call_requires(test, (#[trigger] input@[i],)),
    ensures
        *old(pos) <= *final(pos),
        *old(pos) < input@.len() ==> *final(pos) <= input@.len(),
        *old(pos) >= input@.len() ==> *final(pos) == *old(pos) && r@.len() == 0,
        *old(pos) < input@.len() ==> r@ == input@.subrange(*old(pos) as int, *final(pos) as int),
        forall|i: int|
            *old(pos) <= i < *final(pos) ==> call_ensures(test, (#[trigger] input@[i],), true),
        *final(pos) < input@.len() ==> call_ensures(test, (input@[*final(pos) as int],), false),
{
    let start = *pos;
    if start >= input.len() {
        return String::new();
    }
    let mut going = true;
    while going && *pos < input.len()
        invariant
            start <= *pos <= input@.len(),
            forall|i: int|
                start <= i < input@.len() ==> call_requires(test, (#[trigger] input@[i],)),
            forall|i: int| start <= i < *pos ==> call_ensures(test, (#[trigger] input@[i],), true),
            !going ==> *pos < input@.len() && call_ensures(test, (input@[*pos as int],), false),
        decreases input@.len() - *pos + if going { 1int } else { 0int },
    {
        if test(input[*pos]) {
            *pos += 1;
        } else {
            going = false;
        }
    }
    string_of(input, start, *pos)
}

/// Moves `pos` past the run of characters satisfying the predicate that
/// `test` decides, and returns the run.
pub(crate) fn take_run<F>(input: &Vec<char>, pos: &mut usize, test: F, Ghost(pred): Ghost<
    spec_fn(char) -> bool,
>) -> (r: String) where F: Fn(char) -> bool
    requires
        *old(pos) <= input@.len(),
        forall|i: int|
            *old(pos) <= i < input@.len() ==> call_requires(test, (#[trigger] input@[i],)),
        forall|c: char, b: bool| call_ensures(test, (c,), b) ==> b == pred(c),
    ensures
        *final(pos) == run_end(input@, *old(pos) as int, pred),
        *old(pos) <= *final(pos) <= input@.len(),
        r@ == input@.subrange(*old(pos) as int, *final(pos) as int),
{
    let ghost start = *pos as int;
    let r = take_while(input, pos, test);
    proof {
        if start < input@.len() {
            lemma_run_is(input@, start, *pos as int, pred);
        } else {
            assert(r@ =~= input@.subrange(start, start));
        }
    }
    r
}

} // verus!
