use vstd::prelude::*;
use crate::input::{chars_of, push_char};

verus! {

/// What a production expected at the place where it failed.
#[derive(Debug, Clone, Copy, PartialEq, Eq, Structural)]
pub enum ErrorKind {
    /// A fixed piece of text (a literal or a delimiter) was not found.
    Tag,
    /// A decimal digit was expected.
    Digit,
    /// A zero integer part was followed by another digit.
    LeadingZero,
    /// A hexadecimal digit was expected in a `\u` escape.
    HexDigit,
    /// A backslash was followed by a character that starts no escape.
    Escape,
    /// A `\u` escape named half of a surrogate pair without the other half.
    Surrogate,
    /// The input ended before the closing quote of a string.
    Unterminated,
    /// No value production matched.
    NoValue,
    /// Arrays and objects were nested deeper than allowed.
    Depth,
}

/// A parse failure: where it happened, counted in characters from the start
/// of the input handed to the parser, what was expected there, and whether the
/// production had already committed (in which case no alternative is tried).
#[derive(Debug, Clone, Copy, PartialEq, Eq, Structural)]
pub struct ParseError {
    pub position: usize,
    pub kind: ErrorKind,
    pub committed: bool,
}

pub open spec fn fail(position: int, kind: ErrorKind, committed: bool) -> ParseError {
    ParseError { position: position as usize, kind, committed }
}

/// Outcome of a production in the grammar: the value's model and the
/// position just past what was consumed, or the failure.
pub type SpecResult<V> = Result<(V, int), ParseError>;

/// The model of an executable outcome at a position.
pub open spec fn lift<T: View>(r: Result<(T, usize), ParseError>) -> SpecResult<T::V> {
    match r {
        Ok((v, j)) => Ok((v@, j as int)),
        Err(e) => Err(e),
    }
}

/// The same failure, marked as committed.
pub open spec fn commit<V>(r: SpecResult<V>) -> SpecResult<V> {
    match r {
        Ok(x) => Ok(x),
        Err(e) => Err(ParseError { committed: true, ..e }),
    }
}

impl ParseError {
    pub fn committed_copy(&self) -> (r: ParseError)
        ensures
            r == (ParseError { committed: true, ..*self }),
    {
        ParseError { position: self.position, kind: self.kind, committed: true }
    }
}

/// What was expected, in words.
pub open spec fn expectation(kind: ErrorKind) -> Seq<char> {
    match kind {
        ErrorKind::Tag => "a literal or delimiter"@,
        ErrorKind::Digit => "a decimal digit"@,
        ErrorKind::LeadingZero => "no digit after a leading zero"@,
        ErrorKind::HexDigit => "a hexadecimal digit"@,
        ErrorKind::Escape => "a valid escape sequence"@,
        ErrorKind::Surrogate => "a complete surrogate pair"@,
        ErrorKind::Unterminated => "a closing quote"@,
        ErrorKind::NoValue => "a value"@,
        ErrorKind::Depth => "less nesting"@,
    }
}

/// The character of a decimal digit.
pub open spec fn digit_char(d: nat) -> char {
    ((('0' as u32) + d) as u32) as char
}

/// The decimal digits of `n`, most significant first.
pub open spec fn decimal(n: nat) -> Seq<char>
    decreases n,
{
    if n < 10 {
        seq![digit_char(n)]
    } else {
        decimal(n / 10).push(digit_char(n % 10))
    }
}

/// The message "expected <what> at position <n>" for an error.
pub open spec fn message_of(e: ParseError) -> Seq<char> {
    "expected "@ + expectation(e.kind) + " at position "@ + decimal(e.position as nat)
}

fn push_str(out: &mut String, t: &str)
    ensures
        final(out)@ == old(out)@ + t@,
{
    let cs = chars_of(t);
    let mut k: usize = 0;
    while k < cs.len()
        invariant
            cs@ == t@,
            k <= cs@.len(),
            out@ == old(out)@ + cs@.subrange(0, k as int),
        decreases cs@.len() - k,
    {
        proof {
            assert(cs@.subrange(0, k + 1) =~= cs@.subrange(0, k as int).push(cs@[k as int]));
        }
        push_char(out, cs[k]);
        k = k + 1;
    }
    assert(cs@.subrange(0, k as int) =~= cs@);
}

fn push_decimal(out: &mut String, n: usize)
    ensures
        final(out)@ == old(out)@ + decimal(n as nat),
    decreases n,
{
    if n >= 10 {
        push_decimal(out, n / 10);
    }
    let d = (n % 10) as u32;
    let c = ('0' as u8 + d as u8) as char;
    assert(c == digit_char((n % 10) as nat));
    push_char(out, c);
    proof {
        if n >= 10 {
            assert(old(out)@ + decimal((n / 10) as nat) + seq![c] =~= old(out)@ + decimal(n as nat));
        } else {
            assert(old(out)@ + seq![c] =~= old(out)@ + decimal(n as nat));
        }
    }
}

impl ParseError {
    /// The error as "expected <what> at position <n>".
    pub fn message(&self) -> (r: String)
        ensures
            r@ == message_of(*self),
    {
        let mut out = String::new();
        push_str(&mut out, "expected ");
        let what = match self.kind {
            ErrorKind::Tag => "a literal or delimiter",
            ErrorKind::Digit => "a decimal digit",
            ErrorKind::LeadingZero => "no digit after a leading zero",
            ErrorKind::HexDigit => "a hexadecimal digit",
            ErrorKind::Escape => "a valid escape sequence",
            ErrorKind::Surrogate => "a complete surrogate pair",
            ErrorKind::Unterminated => "a closing quote",
            ErrorKind::NoValue => "a value",
            ErrorKind::Depth => "less nesting",
        };
        push_str(&mut out, what);
        push_str(&mut out, " at position ");
        push_decimal(&mut out, self.position);
        out
    }
}

} // verus!
