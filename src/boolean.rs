use vstd::prelude::*;
use crate::error::{ParseError, SpecResult, lift};
use crate::input::{chars_of, finish, outcome, spec_tag, tag_at};

verus! {

/// The grammar's `true` at position `i`, as the boolean it denotes.
pub open spec fn spec_true(s: Seq<char>, i: int) -> SpecResult<bool> {
    match spec_tag(s, i, seq!['t', 'r', 'u', 'e']) {
        Ok((_, j)) => Ok((true, j)),
        Err(e) => Err(e),
    }
}

/// The grammar's `false` at position `i`, as the boolean it denotes.
pub open spec fn spec_false(s: Seq<char>, i: int) -> SpecResult<bool> {
    match spec_tag(s, i, seq!['f', 'a', 'l', 's', 'e']) {
        Ok((_, j)) => Ok((false, j)),
        Err(e) => Err(e),
    }
}

/// `true` at position `i` of `s`.
pub fn parse_true(s: &Vec<char>, i: usize) -> (r: Result<(bool, usize), ParseError>)
    requires
        i <= s@.len(),
    ensures
        lift(r) == spec_true(s@, i as int),
{
    proof {
        reveal_strlit("true");
        assert("true"@ =~= seq!['t', 'r', 'u', 'e']);
    }
    match tag_at(s, i, "true") {
        Ok((_, j)) => Ok((true, j)),
        Err(e) => Err(e),
    }
}

/// `false` at position `i` of `s`.
pub fn parse_false(s: &Vec<char>, i: usize) -> (r: Result<(bool, usize), ParseError>)
    requires
        i <= s@.len(),
    ensures
        lift(r) == spec_false(s@, i as int),
{
    proof {
        reveal_strlit("false");
        assert("false"@ =~= seq!['f', 'a', 'l', 's', 'e']);
    }
    match tag_at(s, i, "false") {
        Ok((_, j)) => Ok((false, j)),
        Err(e) => Err(e),
    }
}

/// Recognizes `true` at the start of `input`; what follows is left as it is.
pub fn true_parser(input: &str) -> (r: Result<(&str, bool), ParseError>)
    ensures
        outcome(input@, r, spec_true(input@, 0)),
{
    let s = chars_of(input);
    let r = parse_true(&s, 0);
    finish(input, &s, r)
}

/// Recognizes `false` at the start of `input`; what follows is left as it is.
pub fn false_parser(input: &str) -> (r: Result<(&str, bool), ParseError>)
    ensures
        outcome(input@, r, spec_false(input@, 0)),
{
    let s = chars_of(input);
    let r = parse_false(&s, 0);
    finish(input, &s, r)
}

} // verus!
