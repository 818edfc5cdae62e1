use vstd::prelude::*;
use crate::error::{ErrorKind, ParseError, SpecResult, fail, lift};
use crate::input::{chars_of, finish, outcome, push_char};

verus! {

/// A JSON number, kept exactly as its parts were written: the sign, the
/// digits of the integer part, the digits after the decimal point (empty
/// when there is no fraction), and the exponent's sign and digits (empty
/// when there is no exponent).
#[derive(Debug, PartialEq, Eq)]
pub struct Number {
    pub negative: bool,
    pub integer: String,
    pub fraction: String,
    pub exponent_negative: bool,
    pub exponent: String,
}

/// The model of a number: its parts as character sequences.
pub ghost struct NumberModel {
    pub negative: bool,
    pub integer: Seq<char>,
    pub fraction: Seq<char>,
    pub exponent_negative: bool,
    pub exponent: Seq<char>,
}

impl View for Number {
    type V = NumberModel;

    open spec fn view(&self) -> NumberModel {
        NumberModel {
            negative: self.negative,
            integer: self.integer@,
            fraction: self.fraction@,
            exponent_negative: self.exponent_negative,
            exponent: self.exponent@,
        }
    }
}

pub open spec fn is_digit(c: char) -> bool {
    '0' <= c <= '9'
}

/// The end of the run of decimal digits that starts at `i`.
pub open spec fn digits_end(s: Seq<char>, i: int) -> int
    decreases s.len() - i,
{
    if 0 <= i < s.len() && is_digit(s[i]) {
        digits_end(s, i + 1)
    } else {
        i
    }
}

/// A run of digits stays inside the input and ends at a non-digit.
pub proof fn lemma_digits_end(s: Seq<char>, i: int)
    requires
        0 <= i <= s.len(),
    ensures
        i <= digits_end(s, i) <= s.len(),
        forall|k: int| i <= k < digits_end(s, i) ==> is_digit(#[trigger] s[k]),
        digits_end(s, i) < s.len() ==> !is_digit(s[digits_end(s, i)]),
    decreases s.len() - i,
{
    if i < s.len() && is_digit(s[i]) {
        lemma_digits_end(s, i + 1);
    }
}

/// A number at position `i`:
/// `-`? (`0` | [1-9][0-9]*) (`.` [0-9]+)? ([eE] [+-]? [0-9]+)?
/// A zero integer part may not be followed by another digit. Failures after
/// the sign or the first digit are committed.
pub open spec fn spec_number(s: Seq<char>, i: int) -> SpecResult<NumberModel> {
    let neg = 0 <= i < s.len() && s[i] == '-';
    let a = if neg { i + 1 } else { i };
    if !(0 <= a < s.len() && is_digit(s[a])) {
        Err(fail(a, ErrorKind::Digit, neg))
    } else {
        let b = if s[a] == '0' { a + 1 } else { digits_end(s, a) };
        if s[a] == '0' && b < s.len() && is_digit(s[b]) {
            Err(fail(b, ErrorKind::LeadingZero, true))
        } else {
            let has_frac = b < s.len() && s[b] == '.';
            let c = if has_frac { digits_end(s, b + 1) } else { b };
            if has_frac && c == b + 1 {
                Err(fail(b + 1, ErrorKind::Digit, true))
            } else {
                let has_exp = c < s.len() && (s[c] == 'e' || s[c] == 'E');
                let signed = has_exp && c + 1 < s.len() && (s[c + 1] == '+' || s[c + 1] == '-');
                let d = if signed { c + 2 } else { c + 1 };
                let e = if has_exp { digits_end(s, d) } else { c };
                if has_exp && e == d {
                    Err(fail(d, ErrorKind::Digit, true))
                } else {
                    Ok((NumberModel {
                        negative: neg,
                        integer: s.subrange(a, b),
                        fraction: if has_frac { s.subrange(b + 1, c) } else { Seq::empty() },
                        exponent_negative: signed && s[c + 1] == '-',
                        exponent: if has_exp { s.subrange(d, e) } else { Seq::empty() },
                    }, e))
                }
            }
        }
    }
}

/// A number that parses consumes at least one character.
pub proof fn lemma_number_advances(s: Seq<char>, i: int)
    requires
        0 <= i <= s.len(),
    ensures
        spec_number(s, i) matches Ok((_, j)) ==> i < j <= s.len(),
{
    let neg = i < s.len() && s[i] == '-';
    let a = if neg { i + 1 } else { i };
    if a < s.len() {
        lemma_digits_end(s, a);
        lemma_digits_end(s, a + 1);
        if a + 1 < s.len() {
            lemma_digits_end(s, a + 2);
        }
        let b = if s[a] == '0' { a + 1 } else { digits_end(s, a) };
        if b < s.len() {
            lemma_digits_end(s, b + 1);
        }
        let has_frac = b < s.len() && s[b] == '.';
        let c = if has_frac { digits_end(s, b + 1) } else { b };
        if c < s.len() {
            lemma_digits_end(s, c + 1);
            if c + 1 < s.len() {
                lemma_digits_end(s, c + 2);
            }
        }
    }
}

fn scan_digits(s: &Vec<char>, i: usize) -> (r: usize)
    requires
        i <= s@.len(),
    ensures
        r == digits_end(s@, i as int),
        i <= r <= s@.len(),
        r < s@.len() ==> !is_digit(s@[r as int]),
{
    proof {
        lemma_digits_end(s@, i as int);
    }
    let mut k = i;
    while k < s.len() && '0' <= s[k] && s[k] <= '9'
        invariant
            i <= k <= s@.len(),
            digits_end(s@, i as int) == digits_end(s@, k as int),
        decreases s@.len() - k,
    {
        k = k + 1;
    }
    k
}

fn copy_range(s: &Vec<char>, from: usize, to: usize) -> (r: String)
    requires
        from <= to <= s@.len(),
    ensures
        r@ == s@.subrange(from as int, to as int),
{
    let mut out = String::new();
    let mut k = from;
    while k < to
        invariant
            from <= k <= to <= s@.len(),
            out@ == s@.subrange(from as int, k as int),
        decreases to - k,
    {
        proof {
            assert(s@.subrange(from as int, k + 1) =~= s@.subrange(from as int, k as int).push(s@[k as int]));
        }
        push_char(&mut out, s[k]);
        k = k + 1;
    }
    out
}

/// A number at position `i` of `s`.
pub fn parse_number(s: &Vec<char>, i: usize) -> (r: Result<(Number, usize), ParseError>)
    requires
        i <= s@.len(),
    ensures
        lift(r) == spec_number(s@, i as int),
        r matches Ok((_, j)) ==> i < j <= s@.len(),
{
    let n = s.len();
    let neg = i < n && s[i] == '-';
    let a = if neg { i + 1 } else { i };
    if !(a < n && '0' <= s[a] && s[a] <= '9') {
        return Err(ParseError { position: a, kind: ErrorKind::Digit, committed: neg });
    }
    let b = if s[a] == '0' { a + 1 } else { scan_digits(s, a) };
    if s[a] == '0' && b < n && '0' <= s[b] && s[b] <= '9' {
        return Err(ParseError { position: b, kind: ErrorKind::LeadingZero, committed: true });
    }
    let has_frac = b < n && s[b] == '.';
    let c = if has_frac { scan_digits(s, b + 1) } else { b };
    if has_frac && c == b + 1 {
        return Err(ParseError { position: b + 1, kind: ErrorKind::Digit, committed: true });
    }
    let has_exp = c < n && (s[c] == 'e' || s[c] == 'E');
    let mut signed = false;
    let mut e = c;
    if has_exp {
        signed = n - c >= 2 && (s[c + 1] == '+' || s[c + 1] == '-');
        let d = if signed { c + 2 } else { c + 1 };
        e = scan_digits(s, d);
        if e == d {
            return Err(ParseError { position: d, kind: ErrorKind::Digit, committed: true });
        }
    }
    let integer = copy_range(s, a, b);
    let fraction = if has_frac { copy_range(s, b + 1, c) } else { String::new() };
    let exponent_negative = signed && s[c + 1] == '-';
    let exponent = if has_exp { copy_range(s, if signed { c + 2 } else { c + 1 }, e) } else { String::new() };
    let number = Number { negative: neg, integer, fraction, exponent_negative, exponent };
    Ok((number, e))
}

/// Parses a number at the start of `input`; what follows is left as it is.
pub fn number(input: &str) -> (r: Result<(&str, Number), ParseError>)
    ensures
        outcome(input@, r, spec_number(input@, 0)),
{
    let s = chars_of(input);
    let r = parse_number(&s, 0);
    finish(input, &s, r)
}

} // verus!
