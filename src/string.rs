use vstd::prelude::*;
use crate::error::{ErrorKind, ParseError, SpecResult, commit, fail, lift};
use crate::input::{chars_of, finish, occurs_at, outcome, push_char, recognized, split_consumed};

verus! {

/// The decoded text of a JSON string literal.
#[derive(Debug, PartialEq, Eq)]
pub struct JsonString(pub String);

impl View for JsonString {
    type V = Seq<char>;

    open spec fn view(&self) -> Seq<char> {
        self.0@
    }
}

pub open spec fn is_hex_digit(c: char) -> bool {
    ('0' <= c <= '9') || ('a' <= c <= 'f') || ('A' <= c <= 'F')
}

pub open spec fn hex_value(c: char) -> int {
    if '0' <= c <= '9' {
        c as int - '0' as int
    } else if 'a' <= c <= 'f' {
        c as int - 'a' as int + 10
    } else {
        c as int - 'A' as int + 10
    }
}

/// One hexadecimal digit at position `i`, as its value.
pub open spec fn spec_hex(s: Seq<char>, i: int) -> SpecResult<int> {
    if 0 <= i < s.len() && is_hex_digit(s[i]) {
        Ok((hex_value(s[i]), i + 1))
    } else {
        Err(fail(i, ErrorKind::HexDigit, false))
    }
}

/// Four hexadecimal digits at position `i`, as the number they spell.
#[verifier::opaque]
pub open spec fn spec_hex4(s: Seq<char>, i: int) -> SpecResult<int> {
    match spec_hex(s, i) {
        Err(e) => Err(e),
        Ok((a, _)) => match spec_hex(s, i + 1) {
            Err(e) => Err(e),
            Ok((b, _)) => match spec_hex(s, i + 2) {
                Err(e) => Err(e),
                Ok((c, _)) => match spec_hex(s, i + 3) {
                    Err(e) => Err(e),
                    Ok((d, _)) => Ok((((a * 16 + b) * 16 + c) * 16 + d, i + 4)),
                },
            },
        },
    }
}

pub open spec fn is_high_surrogate(v: int) -> bool {
    0xD800 <= v <= 0xDBFF
}

pub open spec fn is_low_surrogate(v: int) -> bool {
    0xDC00 <= v <= 0xDFFF
}

/// The character with the given code point.
pub open spec fn code_char(v: int) -> char {
    (v as u32) as char
}

/// The code point that a high and a low surrogate stand for together.
pub open spec fn pair_code(high: int, low: int) -> int {
    0x10000 + (high - 0xD800) * 0x400 + (low - 0xDC00)
}

/// The body of a `\u` escape, starting after the `u`: four hex digits naming
/// a character of the basic multilingual plane, or a high surrogate followed
/// by `\u` and a low surrogate. A surrogate without its partner is refused.
#[verifier::opaque]
pub open spec fn spec_unicode(s: Seq<char>, i: int) -> SpecResult<char> {
    match spec_hex4(s, i) {
        Err(e) => Err(e),
        Ok((v, j)) => if is_low_surrogate(v) {
            Err(fail(i, ErrorKind::Surrogate, false))
        } else if is_high_surrogate(v) {
            if occurs_at(s, j, seq!['\\', 'u']) {
                match spec_hex4(s, j + 2) {
                    Err(e) => Err(e),
                    Ok((w, k)) => if is_low_surrogate(w) {
                        Ok((code_char(pair_code(v, w)), k))
                    } else {
                        Err(fail(j + 2, ErrorKind::Surrogate, false))
                    },
                }
            } else {
                Err(fail(j, ErrorKind::Surrogate, false))
            }
        } else {
            Ok((code_char(v), j))
        },
    }
}

/// An escape sequence, starting after its backslash, as the character it
/// stands for.
pub open spec fn spec_escape(s: Seq<char>, i: int) -> SpecResult<char> {
    if !(0 <= i < s.len()) {
        Err(fail(i, ErrorKind::Escape, false))
    } else {
        let c = s[i];
        if c == '"' || c == '\\' || c == '/' {
            Ok((c, i + 1))
        } else if c == 'b' {
            Ok(('\x08', i + 1))
        } else if c == 'f' {
            Ok(('\x0c', i + 1))
        } else if c == 'n' {
            Ok(('\n', i + 1))
        } else if c == 'r' {
            Ok(('\r', i + 1))
        } else if c == 't' {
            Ok(('\t', i + 1))
        } else if c == 'u' {
            spec_unicode(s, i + 1)
        } else {
            Err(fail(i, ErrorKind::Escape, false))
        }
    }
}

/// One character of a string's content: an escape sequence, or any character
/// other than `"` and `\`.
pub open spec fn spec_character(s: Seq<char>, i: int) -> SpecResult<char> {
    if !(0 <= i < s.len()) {
        Err(fail(i, ErrorKind::Unterminated, false))
    } else if s[i] == '\\' {
        spec_escape(s, i + 1)
    } else if s[i] == '"' {
        Err(fail(i, ErrorKind::Tag, false))
    } else {
        Ok((s[i], i + 1))
    }
}

/// Four hex digits span four characters and spell a value below 0x10000.
pub proof fn lemma_hex4_bounds(s: Seq<char>, i: int)
    ensures
        spec_hex4(s, i) matches Ok((v, j)) ==> j == i + 4 && j <= s.len() && 0 <= v < 0x10000,
{
    reveal(spec_hex4);
}

/// A `\\u` escape body that parses consumes at least one character.
pub proof fn lemma_unicode_bounds(s: Seq<char>, i: int)
    ensures
        spec_unicode(s, i) matches Ok((_, j)) ==> i < j <= s.len(),
{
    reveal(spec_unicode);
    lemma_hex4_bounds(s, i);
    if let Ok((_, j)) = spec_hex4(s, i) {
        lemma_hex4_bounds(s, j + 2);
    }
}

/// A character of string content that parses consumes at least one character.
pub proof fn lemma_character_advances(s: Seq<char>, i: int)
    ensures
        spec_character(s, i) matches Ok((_, j)) ==> i < j <= s.len(),
{
    lemma_unicode_bounds(s, i + 2);
}

pub open spec fn prefixed(p: Seq<char>, r: SpecResult<Seq<char>>) -> SpecResult<Seq<char>> {
    match r {
        Ok((t, j)) => Ok((p + t, j)),
        Err(e) => Err(e),
    }
}

/// The content of a string from position `i` up to and including its
/// closing quote, decoded. Every failure here is committed.
pub open spec fn spec_content(s: Seq<char>, i: int) -> SpecResult<Seq<char>>
    decreases s.len() - i,
{
    if !(0 <= i < s.len()) {
        Err(fail(i, ErrorKind::Unterminated, true))
    } else if s[i] == '"' {
        Ok((Seq::empty(), i + 1))
    } else {
        match spec_character(s, i) {
            Err(e) => commit(Err(e)),
            Ok((c, j)) => {
                proof {
                    lemma_character_advances(s, i);
                }
                prefixed(seq![c], spec_content(s, j))
            },
        }
    }
}

/// String content that parses ends inside the input, past where it began.
pub proof fn lemma_content_bounds(s: Seq<char>, i: int)
    ensures
        spec_content(s, i) matches Ok((_, j)) ==> i < j <= s.len(),
    decreases s.len() - i,
{
    if 0 <= i < s.len() && s[i] != '"' {
        lemma_character_advances(s, i);
        if let Ok((_, j)) = spec_character(s, i) {
            lemma_content_bounds(s, j);
        }
    }
}

/// A string literal at position `i`, as its decoded text.
pub open spec fn spec_string(s: Seq<char>, i: int) -> SpecResult<Seq<char>> {
    if 0 <= i < s.len() && s[i] == '"' {
        spec_content(s, i + 1)
    } else {
        Err(fail(i, ErrorKind::Tag, false))
    }
}

/// The model of an executable outcome that carries a code value.
pub open spec fn lift_code(r: Result<(u32, usize), ParseError>) -> SpecResult<int> {
    match r {
        Ok((v, j)) => Ok((v as int, j as int)),
        Err(e) => Err(e),
    }
}

/// Relies on `char::from_u32`, which gives the character with that code
/// point when the value is a Unicode scalar value and nothing otherwise.
#[verifier::external_body]
fn char_from_u32(v: u32) -> (r: Option<char>)
    ensures
        r == (if vstd::utf8::is_scalar(v) { Some(v as char) } else { None::<char> }),
{
    char::from_u32(v)
}

/// One hex digit at position `i` of `s`, as its value.
pub fn parse_hex(s: &Vec<char>, i: usize) -> (r: Result<(u32, usize), ParseError>)
    requires
        i <= s@.len(),
    ensures
        lift_code(r) == spec_hex(s@, i as int),
        r matches Ok((v, _)) ==> v < 16,
{
    if i < s.len() {
        let c = s[i];
        if '0' <= c && c <= '9' {
            return Ok(((c as u32) - ('0' as u32), i + 1));
        } else if 'a' <= c && c <= 'f' {
            return Ok(((c as u32) - ('a' as u32) + 10, i + 1));
        } else if 'A' <= c && c <= 'F' {
            return Ok(((c as u32) - ('A' as u32) + 10, i + 1));
        }
    }
    Err(ParseError { position: i, kind: ErrorKind::HexDigit, committed: false })
}

/// Four hex digits at position `i` of `s`, as the number they spell.
pub fn parse_hex4(s: &Vec<char>, i: usize) -> (r: Result<(u32, usize), ParseError>)
    requires
        i <= s@.len(),
    ensures
        lift_code(r) == spec_hex4(s@, i as int),
        r matches Ok((v, j)) ==> v < 0x10000 && j == i + 4 && j <= s@.len(),
{
    proof {
        reveal(spec_hex4);
    }
    let (a, _) = parse_hex(s, i)?;
    let (b, _) = parse_hex(s, i + 1)?;
    let (c, _) = parse_hex(s, i + 2)?;
    let (d, _) = parse_hex(s, i + 3)?;
    Ok((((a * 16 + b) * 16 + c) * 16 + d, i + 4))
}

/// The body of a `\\u` escape at position `i` of `s`.
pub fn parse_unicode(s: &Vec<char>, i: usize) -> (r: Result<(char, usize), ParseError>)
    requires
        i <= s@.len(),
    ensures
        lift(r) == spec_unicode(s@, i as int),
{
    proof {
        reveal(spec_unicode);
    }
    let (v, j) = parse_hex4(s, i)?;
    if 0xDC00 <= v && v <= 0xDFFF {
        return Err(ParseError { position: i, kind: ErrorKind::Surrogate, committed: false });
    }
    if 0xD800 <= v && v <= 0xDBFF {
        if s.len() - j >= 2 && s[j] == '\\' && s[j + 1] == 'u' {
            assert(s@.subrange(j as int, j + 2) =~= seq!['\\', 'u']);
            let (w, k) = parse_hex4(s, j + 2)?;
            if 0xDC00 <= w && w <= 0xDFFF {
                let code = 0x10000 + (v - 0xD800) * 0x400 + (w - 0xDC00);
                match char_from_u32(code) {
                    Some(c) => {
                        return Ok((c, k));
                    },
                    None => {
                        return Err(ParseError { position: i, kind: ErrorKind::Surrogate, committed: false });
                    },
                }
            }
            return Err(ParseError { position: j + 2, kind: ErrorKind::Surrogate, committed: false });
        }
        assert(!occurs_at(s@, j as int, seq!['\\', 'u'])) by {
            if occurs_at(s@, j as int, seq!['\\', 'u']) {
                assert(s@.subrange(j as int, j + 2)[0] == s@[j as int]);
                assert(s@.subrange(j as int, j + 2)[1] == s@[j + 1]);
            }
        }
        return Err(ParseError { position: j, kind: ErrorKind::Surrogate, committed: false });
    }
    match char_from_u32(v) {
        Some(c) => Ok((c, j)),
        None => Err(ParseError { position: i, kind: ErrorKind::Surrogate, committed: false }),
    }
}

/// An escape sequence, after its backslash, at position `i` of `s`.
pub fn parse_escape(s: &Vec<char>, i: usize) -> (r: Result<(char, usize), ParseError>)
    requires
        i <= s@.len(),
    ensures
        lift(r) == spec_escape(s@, i as int),
        r matches Ok((_, j)) ==> i < j <= s@.len(),
{
    proof {
        lemma_unicode_bounds(s@, i + 1);
    }
    if i >= s.len() {
        return Err(ParseError { position: i, kind: ErrorKind::Escape, committed: false });
    }
    let c = s[i];
    if c == '"' || c == '\\' || c == '/' {
        Ok((c, i + 1))
    } else if c == 'b' {
        Ok(('\x08', i + 1))
    } else if c == 'f' {
        Ok(('\x0c', i + 1))
    } else if c == 'n' {
        Ok(('\n', i + 1))
    } else if c == 'r' {
        Ok(('\r', i + 1))
    } else if c == 't' {
        Ok(('\t', i + 1))
    } else if c == 'u' {
        parse_unicode(s, i + 1)
    } else {
        Err(ParseError { position: i, kind: ErrorKind::Escape, committed: false })
    }
}

/// One character of string content at position `i` of `s`.
pub fn parse_character(s: &Vec<char>, i: usize) -> (r: Result<(char, usize), ParseError>)
    requires
        i <= s@.len(),
    ensures
        lift(r) == spec_character(s@, i as int),
        r matches Ok((_, j)) ==> i < j <= s@.len(),
{
    if i >= s.len() {
        Err(ParseError { position: i, kind: ErrorKind::Unterminated, committed: false })
    } else if s[i] == '\\' {
        parse_escape(s, i + 1)
    } else if s[i] == '"' {
        Err(ParseError { position: i, kind: ErrorKind::Tag, committed: false })
    } else {
        Ok((s[i], i + 1))
    }
}

/// A string literal at position `i` of `s`, decoded.
pub fn parse_string(s: &Vec<char>, i: usize) -> (r: Result<(JsonString, usize), ParseError>)
    requires
        i <= s@.len(),
    ensures
        lift(r) == spec_string(s@, i as int),
        r matches Ok((_, j)) ==> i < j <= s@.len(),
{
    if !(i < s.len() && s[i] == '"') {
        return Err(ParseError { position: i, kind: ErrorKind::Tag, committed: false });
    }
    let mut out = String::new();
    let mut pos: usize = i + 1;
    while pos < s.len() && s[pos] != '"'
        invariant
            i < pos <= s@.len(),
            spec_string(s@, i as int) == prefixed(out@, spec_content(s@, pos as int)),
        decreases s@.len() - pos,
    {
        match parse_character(s, pos) {
            Ok((c, j)) => {
                proof {
                    lemma_character_advances(s@, pos as int);
                    assert(out@ + (seq![c] + spec_content(s@, j as int)->Ok_0.0) =~= out@.push(c)
                        + spec_content(s@, j as int)->Ok_0.0);
                }
                push_char(&mut out, c);
                pos = j;
            },
            Err(e) => {
                return Err(e.committed_copy());
            },
        }
    }
    if pos >= s.len() {
        return Err(ParseError { position: pos, kind: ErrorKind::Unterminated, committed: true });
    }
    assert(out@ + Seq::<char>::empty() =~= out@);
    Ok((JsonString(out), pos + 1))
}

/// Parses a double-quoted string literal at the start of `input`, resolving
/// its escapes; what follows the closing quote is left as it is.
pub fn string(input: &str) -> (r: Result<(&str, JsonString), ParseError>)
    ensures
        outcome(input@, r, spec_string(input@, 0)),
{
    let s = chars_of(input);
    let r = parse_string(&s, 0);
    finish(input, &s, r)
}

/// Recognizes one hexadecimal digit at the start of `input`, handing back the
/// rest and the digit's text.
pub fn hex(input: &str) -> (r: Result<(&str, &str), ParseError>)
    ensures
        recognized(input@, r, spec_hex(input@, 0)),
{
    let s = chars_of(input);
    let r = parse_hex(&s, 0);
    split_consumed(input, &s, r)
}

/// Recognizes an escape sequence, without its backslash, at the start of
/// `input`, handing back the rest and the sequence's text.
pub fn escape(input: &str) -> (r: Result<(&str, &str), ParseError>)
    ensures
        recognized(input@, r, spec_escape(input@, 0)),
{
    let s = chars_of(input);
    let r = parse_escape(&s, 0);
    split_consumed(input, &s, r)
}

/// Recognizes one character of string content (an escape sequence with its
/// backslash, or a character other than `"` and `\`) at the start of
/// `input`, handing back the rest and the character's text.
pub fn character(input: &str) -> (r: Result<(&str, &str), ParseError>)
    ensures
        recognized(input@, r, spec_character(input@, 0)),
{
    let s = chars_of(input);
    let r = parse_character(&s, 0);
    split_consumed(input, &s, r)
}

} // verus!
