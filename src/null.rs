use vstd::prelude::*;
use crate::error::{ParseError, SpecResult};
use crate::input::{chars_of, finish, outcome, spec_tag, tag_at};

verus! {

/// The JSON literal `null`.
#[derive(Debug, Clone, Copy, PartialEq, Eq, Structural)]
pub struct Null;

impl View for Null {
    type V = ();

    open spec fn view(&self) -> () {
        ()
    }
}

/// The grammar's `null` at position `i`.
pub open spec fn spec_null(s: Seq<char>, i: int) -> SpecResult<()> {
    spec_tag(s, i, seq!['n', 'u', 'l', 'l'])
}

/// `null` at position `i` of `s`.
pub fn parse_null(s: &Vec<char>, i: usize) -> (r: Result<(Null, usize), ParseError>)
    requires
        i <= s@.len(),
    ensures
        crate::error::lift(r) == spec_null(s@, i as int),
{
    proof {
        reveal_strlit("null");
        assert("null"@ =~= seq!['n', 'u', 'l', 'l']);
    }
    match tag_at(s, i, "null") {
        Ok((_, j)) => Ok((Null, j)),
        Err(e) => Err(e),
    }
}

/// Recognizes `null` at the start of `input`; what follows is left as it is.
pub fn null(input: &str) -> (r: Result<(&str, Null), ParseError>)
    ensures
        outcome(input@, r, spec_null(input@, 0)),
{
    let s = chars_of(input);
    let r = parse_null(&s, 0);
    finish(input, &s, r)
}

} // verus!
