use vstd::prelude::*;
use crate::error::{ErrorKind, ParseError, SpecResult, fail, lift};

verus! {

/// The characters of `s`, in order.
pub fn chars_of(s: &str) -> (r: Vec<char>)
    ensures
        r@ == s@,
{
    let mut out: Vec<char> = Vec::new();
    for c in it: s.chars()
        invariant
            out@ == it.seq().take(it.index() as int),
    {
        out.push(c);
    }
    out
}

/// Whether `lit` occurs in `s` at position `i`.
pub open spec fn occurs_at(s: Seq<char>, i: int, lit: Seq<char>) -> bool {
    0 <= i && i + lit.len() <= s.len() && s.subrange(i, i + lit.len()) == lit
}

/// The literal `lit` at position `i`: consumed when present, else a
/// recoverable `Tag` failure at `i`.
pub open spec fn spec_tag(s: Seq<char>, i: int, lit: Seq<char>) -> SpecResult<()> {
    if occurs_at(s, i, lit) {
        Ok(((), i + lit.len()))
    } else {
        Err(fail(i, ErrorKind::Tag, false))
    }
}

/// The literal `lit` at position `i` of `s`.
pub fn tag_at(s: &Vec<char>, i: usize, lit: &str) -> (r: Result<((), usize), ParseError>)
    requires
        i <= s@.len(),
    ensures
        lift(r) == spec_tag(s@, i as int, lit@),
{
    let l = chars_of(lit);
    let n = s.len();
    if l.len() > n - i {
        return Err(ParseError { position: i, kind: ErrorKind::Tag, committed: false });
    }
    let mut k: usize = 0;
    while k < l.len()
        invariant
            l@ == lit@,
            n == s@.len(),
            i + l@.len() <= n,
            k <= l@.len(),
            forall|m: int| 0 <= m < k ==> s@[i + m] == l@[m],
        decreases l@.len() - k,
    {
        if s[i + k] != l[k] {
            assert(s@.subrange(i as int, i + l@.len())[k as int] != l@[k as int]);
            return Err(ParseError { position: i, kind: ErrorKind::Tag, committed: false });
        }
        k = k + 1;
    }
    assert(s@.subrange(i as int, i + l@.len()) =~= l@);
    Ok(((), i + l.len()))
}

/// How a top-level call on `input` relates to the grammar's outcome `m` at
/// position 0: on success the same value and the unconsumed suffix, on
/// failure the same error.
pub open spec fn outcome<'a, T: View>(
    input: Seq<char>,
    r: Result<(&'a str, T), ParseError>,
    m: SpecResult<T::V>,
) -> bool {
    match (r, m) {
        (Ok((rest, v)), Ok((mv, end))) => v@ == mv && rest@ == input.subrange(end, input.len() as int),
        (Err(e), Err(me)) => e == me,
        _ => false,
    }
}

/// Hands back the unconsumed suffix of `input` beside a successful result.
pub fn finish<'a, T: View>(input: &'a str, s: &Vec<char>, r: Result<(T, usize), ParseError>) -> (out:
    Result<(&'a str, T), ParseError>)
    requires
        s@ == input@,
        r matches Ok((_, j)) ==> j <= s@.len(),
    ensures
        outcome(input@, out, lift(r)),
{
    match r {
        Ok((v, j)) => Ok((input.substring_char(j, s.len()), v)),
        Err(e) => Err(e),
    }
}

} // verus!

verus! {

/// Relies on `String::push`, which appends the character at the end.
#[verifier::external_body]
pub(crate) fn push_char(s: &mut String, c: char)
    ensures
        final(s)@ == old(s)@.push(c),
{
    s.push(c)
}

/// How a top-level recognizer on `input` relates to the grammar's outcome
/// `m` at position 0: on success the consumed prefix and the unconsumed
/// suffix, on failure the same error.
pub open spec fn recognized<'a, V>(
    input: Seq<char>,
    r: Result<(&'a str, &'a str), ParseError>,
    m: SpecResult<V>,
) -> bool {
    match (r, m) {
        (Ok((rest, text)), Ok((_, end))) => text@ == input.subrange(0, end) && rest@
            == input.subrange(end, input.len() as int),
        (Err(e), Err(me)) => e == me,
        _ => false,
    }
}

/// Hands back the consumed prefix and the unconsumed suffix of `input`.
pub fn split_consumed<'a, T>(input: &'a str, s: &Vec<char>, r: Result<(T, usize), ParseError>) -> (out:
    Result<(&'a str, &'a str), ParseError>)
    requires
        s@ == input@,
        r matches Ok((_, j)) ==> j <= s@.len(),
    ensures
        match r {
            Ok((_, j)) => out matches Ok((rest, text)) && text@ == input@.subrange(0, j as int)
                && rest@ == input@.subrange(j as int, input@.len() as int),
            Err(e) => out == Err::<(&str, &str), ParseError>(e),
        },
{
    match r {
        Ok((_, j)) => Ok((input.substring_char(j, s.len()), input.substring_char(0, j))),
        Err(e) => Err(e),
    }
}

} // verus!
