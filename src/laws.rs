use vstd::prelude::*;
use crate::boolean::{spec_false, spec_true};
use crate::error::{ErrorKind, ParseError, SpecResult, fail};
use crate::input::{occurs_at, spec_tag};
use crate::null::spec_null;
use crate::number::{digits_end, is_digit, lemma_digits_end, lemma_number_advances, spec_number};
use crate::value::{
    lemma_string_advances, lemma_ws_end, spec_array, spec_elements, spec_member_rest, spec_members, spec_object, spec_value,
    ws_end,
};
use crate::string::{
    lemma_character_advances, lemma_hex4_bounds, spec_hex, spec_hex4, spec_unicode, code_char, hex_value, is_hex_digit, is_high_surrogate, is_low_surrogate, spec_character,
    spec_content, spec_escape, spec_string,
};

verus! {

/// A literal followed by any text is recognized, and exactly that text is
/// left over.
pub proof fn law_literals(rest: Seq<char>)
    ensures
        spec_true(seq!['t', 'r', 'u', 'e'] + rest, 0) == Ok::<(bool, int), ParseError>((true, 4)),
        spec_false(seq!['f', 'a', 'l', 's', 'e'] + rest, 0) == Ok::<(bool, int), ParseError>((false, 5)),
        spec_null(seq!['n', 'u', 'l', 'l'] + rest, 0) == Ok::<((), int), ParseError>(((), 4)),
        (seq!['t', 'r', 'u', 'e'] + rest).subrange(4, 4 + rest.len() as int) == rest,
        (seq!['f', 'a', 'l', 's', 'e'] + rest).subrange(5, 5 + rest.len() as int) == rest,
        (seq!['n', 'u', 'l', 'l'] + rest).subrange(4, 4 + rest.len() as int) == rest,
{
    let t = seq!['t', 'r', 'u', 'e'];
    let f = seq!['f', 'a', 'l', 's', 'e'];
    let n = seq!['n', 'u', 'l', 'l'];
    assert((t + rest).subrange(0, 4) =~= t);
    assert((f + rest).subrange(0, 5) =~= f);
    assert((n + rest).subrange(0, 4) =~= n);
    assert((t + rest).subrange(4, 4 + rest.len() as int) =~= rest);
    assert((f + rest).subrange(5, 5 + rest.len() as int) =~= rest);
    assert((n + rest).subrange(4, 4 + rest.len() as int) =~= rest);
}

/// `s` between quotes.
pub open spec fn quoted(s: Seq<char>) -> Seq<char> {
    seq!['"'] + s + seq!['"']
}

proof fn lemma_plain_content(s: Seq<char>, i: int)
    requires
        0 <= i <= s.len(),
        forall|k: int| 0 <= k < s.len() ==> s[k] != '"' && s[k] != '\\',
    ensures
        spec_content(quoted(s), i + 1) == Ok::<(Seq<char>, int), ParseError>((s.subrange(i, s.len() as int), (s.len() + 2) as int)),
    decreases s.len() - i,
{
    let t = quoted(s);
    assert(t.len() == s.len() + 2);
    assert(t[s.len() as int + 1] == '"');
    if i < s.len() {
        assert(t[i + 1] == s[i]);
        lemma_plain_content(s, i + 1);
        assert(spec_character(t, i + 1) == Ok::<(char, int), ParseError>((s[i], i + 2)));
        assert(seq![s[i]] + s.subrange(i + 1, s.len() as int) =~= s.subrange(i, s.len() as int));
    } else {
        assert(s.subrange(i, s.len() as int) =~= Seq::<char>::empty());
    }
}

/// Text without quotes or backslashes, put between quotes, parses back to
/// itself with nothing left over.
pub proof fn law_plain_string(s: Seq<char>)
    requires
        forall|k: int| 0 <= k < s.len() ==> s[k] != '"' && s[k] != '\\',
    ensures
        spec_string(quoted(s), 0) == Ok::<(Seq<char>, int), ParseError>((s, quoted(s).len() as int)),
{
    lemma_plain_content(s, 0);
    assert(s.subrange(0, s.len() as int) =~= s);
}

/// The character that the one-letter escape `c` stands for.
pub open spec fn simple_escape(c: char) -> char {
    if c == 'b' {
        '\x08'
    } else if c == 'f' {
        '\x0c'
    } else if c == 'n' {
        '\n'
    } else if c == 'r' {
        '\r'
    } else if c == 't' {
        '\t'
    } else {
        c
    }
}

pub open spec fn is_simple_escape(c: char) -> bool {
    c == '"' || c == '\\' || c == '/' || c == 'b' || c == 'f' || c == 'n' || c == 'r' || c == 't'
}

/// A string made of one simple escape decodes to the single character it
/// stands for.
pub proof fn law_simple_escape(c: char)
    requires
        is_simple_escape(c),
    ensures
        spec_string(seq!['"', '\\', c, '"'], 0) == Ok::<(Seq<char>, int), ParseError>((seq![simple_escape(c)], 4)),
{
    let t = seq!['"', '\\', c, '"'];
    assert(spec_escape(t, 2) == Ok::<(char, int), ParseError>((simple_escape(c), 3)));
    assert(spec_content(t, 3) == Ok::<(Seq<char>, int), ParseError>((Seq::<char>::empty(), 4)));
    assert(seq![simple_escape(c)] + Seq::<char>::empty() =~= seq![simple_escape(c)]);
}

/// A string made of one `\u` escape whose four hex digits name a character
/// outside the surrogate range decodes to that single character.
pub proof fn law_unicode_escape(a: char, b: char, c: char, d: char)
    requires
        is_hex_digit(a),
        is_hex_digit(b),
        is_hex_digit(c),
        is_hex_digit(d),
        !is_high_surrogate(((hex_value(a) * 16 + hex_value(b)) * 16 + hex_value(c)) * 16 + hex_value(d)),
        !is_low_surrogate(((hex_value(a) * 16 + hex_value(b)) * 16 + hex_value(c)) * 16 + hex_value(d)),
    ensures
        spec_string(seq!['"', '\\', 'u', a, b, c, d, '"'], 0) == Ok::<(Seq<char>, int), ParseError>((
            seq![code_char(((hex_value(a) * 16 + hex_value(b)) * 16 + hex_value(c)) * 16 + hex_value(d))],
            8,
        )),
{
    let t = seq!['"', '\\', 'u', a, b, c, d, '"'];
    let v = ((hex_value(a) * 16 + hex_value(b)) * 16 + hex_value(c)) * 16 + hex_value(d);
    reveal(spec_hex4);
    reveal(spec_unicode);
    assert(spec_escape(t, 2) == Ok::<(char, int), ParseError>((code_char(v), 7)));
    assert(spec_content(t, 7) == Ok::<(Seq<char>, int), ParseError>((Seq::<char>::empty(), 8)));
    assert(seq![code_char(v)] + Seq::<char>::empty() =~= seq![code_char(v)]);
}

/// A backslash followed by a character that starts no escape makes the
/// string fail, with an escape error at that character.
pub proof fn law_bad_escape(c: char, rest: Seq<char>)
    requires
        !is_simple_escape(c),
        c != 'u',
    ensures
        spec_string(seq!['"', '\\', c] + rest, 0) == Err::<(Seq<char>, int), ParseError>(fail(2, ErrorKind::Escape, true)),
{
    let t = seq!['"', '\\', c] + rest;
    assert(t[0] == '"' && t[1] == '\\' && t[2] == c);
}

/// The outcome of a parse at position 0 of a suffix, moved to where that
/// suffix starts.
pub open spec fn shifted<V>(r: SpecResult<V>, k: int) -> SpecResult<V> {
    match r {
        Ok((v, j)) => Ok((v, j + k)),
        Err(e) => Err(ParseError { position: (e.position + k) as usize, ..e }),
    }
}

/// Parsing a literal where an earlier parse stopped gives what parsing the
/// unconsumed remainder on its own gives, at positions moved by the amount
/// consumed.
pub proof fn law_literal_remainder(s: Seq<char>, i: int)
    requires
        0 <= i <= s.len(),
        s.len() < usize::MAX,
    ensures
        spec_true(s, i) == shifted(spec_true(s.subrange(i, s.len() as int), 0), i),
        spec_false(s, i) == shifted(spec_false(s.subrange(i, s.len() as int), 0), i),
        spec_null(s, i) == shifted(spec_null(s.subrange(i, s.len() as int), 0), i),
{
    lemma_tag_shift_at(s, i, i, seq!['t', 'r', 'u', 'e']);
    lemma_tag_shift_at(s, i, i, seq!['f', 'a', 'l', 's', 'e']);
    lemma_tag_shift_at(s, i, i, seq!['n', 'u', 'l', 'l']);
}


/// The part of `s` from position `i` on.
pub open spec fn suffix(s: Seq<char>, i: int) -> Seq<char> {
    s.subrange(i, s.len() as int)
}

proof fn lemma_digits_shift(s: Seq<char>, i: int, p: int)
    requires
        0 <= i <= p <= s.len(),
    ensures
        digits_end(s, p) == digits_end(suffix(s, i), p - i) + i,
    decreases s.len() - p,
{
    if p < s.len() {
        assert(suffix(s, i)[p - i] == s[p]);
        lemma_digits_shift(s, i, p + 1);
    }
}

proof fn lemma_ws_shift(s: Seq<char>, i: int, p: int)
    requires
        0 <= i <= p <= s.len(),
    ensures
        ws_end(s, p) == ws_end(suffix(s, i), p - i) + i,
    decreases s.len() - p,
{
    if p < s.len() {
        assert(suffix(s, i)[p - i] == s[p]);
        lemma_ws_shift(s, i, p + 1);
    }
}

proof fn lemma_hex_shift(s: Seq<char>, i: int, p: int)
    requires
        0 <= i <= p <= s.len(),
        s.len() < usize::MAX,
    ensures
        spec_hex(s, p) == shifted(spec_hex(suffix(s, i), p - i), i),
{
    if p < s.len() {
        assert(suffix(s, i)[p - i] == s[p]);
    }
}

proof fn lemma_hex4_shift(s: Seq<char>, i: int, p: int)
    requires
        0 <= i <= p <= s.len(),
        s.len() < usize::MAX,
    ensures
        spec_hex4(s, p) == shifted(spec_hex4(suffix(s, i), p - i), i),
{
    reveal(spec_hex4);
    lemma_hex_shift(s, i, p);
    if spec_hex(s, p) is Ok {
        lemma_hex_shift(s, i, p + 1);
        if spec_hex(s, p + 1) is Ok {
            lemma_hex_shift(s, i, p + 2);
            if spec_hex(s, p + 2) is Ok {
                lemma_hex_shift(s, i, p + 3);
            }
        }
    }
}

proof fn lemma_occurs_shift(s: Seq<char>, i: int, p: int, lit: Seq<char>)
    requires
        0 <= i <= p <= s.len(),
    ensures
        occurs_at(s, p, lit) == occurs_at(suffix(s, i), p - i, lit),
{
    let t = suffix(s, i);
    if p + lit.len() <= s.len() {
        assert(t.subrange(p - i, p - i + lit.len()) =~= s.subrange(p, p + lit.len()));
    }
}

proof fn lemma_unicode_shift(s: Seq<char>, i: int, q: int)
    requires
        0 <= i <= q <= s.len(),
        s.len() < usize::MAX,
    ensures
        spec_unicode(s, q) == shifted(spec_unicode(suffix(s, i), q - i), i),
{
    reveal(spec_unicode);
    lemma_hex4_shift(s, i, q);
    lemma_hex4_bounds(s, q);
    if let Ok((v, j)) = spec_hex4(s, q) {
        lemma_occurs_shift(s, i, j, seq!['\\', 'u']);
        if occurs_at(s, j, seq!['\\', 'u']) {
            lemma_hex4_shift(s, i, j + 2);
        }
    }
}

proof fn lemma_escape_shift(s: Seq<char>, i: int, p: int)
    requires
        0 <= i <= p <= s.len(),
        s.len() < usize::MAX,
    ensures
        spec_escape(s, p) == shifted(spec_escape(suffix(s, i), p - i), i),
{
    if p < s.len() {
        assert(suffix(s, i)[p - i] == s[p]);
        if s[p] == 'u' {
            lemma_unicode_shift(s, i, p + 1);
        }
    }
}

proof fn lemma_character_shift(s: Seq<char>, i: int, p: int)
    requires
        0 <= i <= p <= s.len(),
        s.len() < usize::MAX,
    ensures
        spec_character(s, p) == shifted(spec_character(suffix(s, i), p - i), i),
{
    if p < s.len() {
        assert(suffix(s, i)[p - i] == s[p]);
        lemma_escape_shift(s, i, p + 1);
    }
}

proof fn lemma_content_shift(s: Seq<char>, i: int, p: int)
    requires
        0 <= i <= p <= s.len(),
        s.len() < usize::MAX,
    ensures
        spec_content(s, p) == shifted(spec_content(suffix(s, i), p - i), i),
    decreases s.len() - p,
{
    if p < s.len() {
        assert(suffix(s, i)[p - i] == s[p]);
        lemma_character_shift(s, i, p);
        lemma_character_advances(s, p);
        if let Ok((_, j)) = spec_character(s, p) {
            lemma_content_shift(s, i, j);
        }
    }
}

proof fn lemma_string_shift(s: Seq<char>, i: int, p: int)
    requires
        0 <= i <= p <= s.len(),
        s.len() < usize::MAX,
    ensures
        spec_string(s, p) == shifted(spec_string(suffix(s, i), p - i), i),
{
    if p < s.len() {
        assert(suffix(s, i)[p - i] == s[p]);
        lemma_content_shift(s, i, p + 1);
    }
}

#[verifier::rlimit(100)]
proof fn lemma_number_shift(s: Seq<char>, i: int, p: int)
    requires
        0 <= i <= p <= s.len(),
        s.len() < usize::MAX,
    ensures
        spec_number(s, p) == shifted(spec_number(suffix(s, i), p - i), i),
{
    let t = suffix(s, i);
    assert(forall|k: int| p <= k < s.len() ==> #[trigger] t[k - i] == s[k]);
    lemma_digits_end(s, p);
    let neg = p < s.len() && s[p] == '-';
    let a = if neg { p + 1 } else { p };
    if a < s.len() && is_digit(s[a]) {
        lemma_digits_shift(s, i, a);
        lemma_digits_end(s, a);
        let b = if s[a] == '0' { a + 1 } else { digits_end(s, a) };
        if b < s.len() {
            lemma_digits_shift(s, i, b + 1);
            lemma_digits_end(s, b + 1);
        }
        let has_frac = b < s.len() && s[b] == '.';
        let c = if has_frac { digits_end(s, b + 1) } else { b };
        if c < s.len() {
            lemma_digits_shift(s, i, c + 1);
            lemma_digits_end(s, c + 1);
            if c + 1 < s.len() {
                lemma_digits_shift(s, i, c + 2);
                lemma_digits_end(s, c + 2);
            }
        }
        let has_exp = c < s.len() && (s[c] == 'e' || s[c] == 'E');
        let signed = has_exp && c + 1 < s.len() && (s[c + 1] == '+' || s[c + 1] == '-');
        let d = if signed { c + 2 } else { c + 1 };
        let e = if has_exp { digits_end(s, d) } else { c };
        assert(t.subrange(a - i, b - i) =~= s.subrange(a, b));
        if has_frac {
            assert(t.subrange(b + 1 - i, c - i) =~= s.subrange(b + 1, c));
        }
        if has_exp && d <= e {
            assert(t.subrange(d - i, e - i) =~= s.subrange(d, e));
        }
    }
}


proof fn lemma_suffix_index(s: Seq<char>, i: int)
    requires
        0 <= i <= s.len(),
    ensures
        suffix(s, i).len() == s.len() - i,
        forall|k: int| 0 <= k < s.len() - i ==> #[trigger] suffix(s, i)[k] == s[k + i],
{
    assert forall|k: int| 0 <= k < s.len() - i implies #[trigger] suffix(s, i)[k] == s[k + i] by {
        assert(s.subrange(i, s.len() as int)[k] == s[k + i]);
    }
}

proof fn lemma_tag_shift_at(s: Seq<char>, i: int, p: int, lit: Seq<char>)
    requires
        0 <= i <= p <= s.len(),
        s.len() < usize::MAX,
    ensures
        spec_tag(s, p, lit) == shifted(spec_tag(suffix(s, i), p - i, lit), i),
{
    lemma_occurs_shift(s, i, p, lit);
}

#[verifier::rlimit(100)]
proof fn lemma_value_shift(s: Seq<char>, i: int, p: int, d: nat)
    requires
        0 <= i <= p <= s.len(),
        s.len() < usize::MAX,
    ensures
        spec_value(s, p, d) == shifted(spec_value(suffix(s, i), p - i, d), i),
        spec_value(s, p, d) matches Ok((_, j)) ==> p < j <= s.len(),
    decreases s.len() - p, 3int,
{
    lemma_suffix_index(s, i);
    lemma_object_shift(s, i, p, d);
    lemma_array_shift(s, i, p, d);
    lemma_string_shift(s, i, p);
    lemma_string_advances(s, p);
    lemma_number_shift(s, i, p);
    lemma_number_advances(s, p);
    lemma_tag_shift_at(s, i, p, seq!['t', 'r', 'u', 'e']);
    lemma_tag_shift_at(s, i, p, seq!['f', 'a', 'l', 's', 'e']);
    lemma_tag_shift_at(s, i, p, seq!['n', 'u', 'l', 'l']);
}

proof fn lemma_array_shift(s: Seq<char>, i: int, p: int, d: nat)
    requires
        0 <= i <= p <= s.len(),
        s.len() < usize::MAX,
    ensures
        spec_array(s, p, d) == shifted(spec_array(suffix(s, i), p - i, d), i),
        spec_array(s, p, d) matches Ok((_, j)) ==> p < j <= s.len(),
    decreases s.len() - p, 2int,
{
    lemma_suffix_index(s, i);
    if p < s.len() && s[p] == '[' && d > 0 {
        lemma_ws_shift(s, i, p + 1);
        lemma_ws_end(s, p + 1);
        lemma_elements_shift(s, i, p, (d - 1) as nat);
    }
}

proof fn lemma_elements_shift(s: Seq<char>, i: int, p: int, d: nat)
    requires
        0 <= i <= p <= s.len(),
        s.len() < usize::MAX,
    ensures
        spec_elements(s, p, d) == shifted(spec_elements(suffix(s, i), p - i, d), i),
        spec_elements(s, p, d) matches Ok((_, j)) ==> p < j <= s.len(),
    decreases s.len() - p, 0int,
{
    lemma_suffix_index(s, i);
    if p < s.len() {
        let q = ws_end(s, p + 1);
        lemma_ws_shift(s, i, p + 1);
        lemma_ws_end(s, p + 1);
        lemma_value_shift(s, i, q, d);
        if let Ok((_, j)) = spec_value(s, q, d) {
            let r = ws_end(s, j);
            lemma_ws_shift(s, i, j);
            lemma_ws_end(s, j);
            if p < r < s.len() && s[r] == ',' {
                lemma_elements_shift(s, i, r, d);
            }
        }
    }
}

proof fn lemma_object_shift(s: Seq<char>, i: int, p: int, d: nat)
    requires
        0 <= i <= p <= s.len(),
        s.len() < usize::MAX,
    ensures
        spec_object(s, p, d) == shifted(spec_object(suffix(s, i), p - i, d), i),
        spec_object(s, p, d) matches Ok((_, j)) ==> p < j <= s.len(),
    decreases s.len() - p, 2int,
{
    lemma_suffix_index(s, i);
    if p < s.len() && s[p] == '{' && d > 0 {
        lemma_ws_shift(s, i, p + 1);
        lemma_ws_end(s, p + 1);
        lemma_members_shift(s, i, p, (d - 1) as nat);
    }
}

proof fn lemma_members_shift(s: Seq<char>, i: int, p: int, d: nat)
    requires
        0 <= i <= p <= s.len(),
        s.len() < usize::MAX,
    ensures
        spec_members(s, p, d) == shifted(spec_members(suffix(s, i), p - i, d), i),
        spec_members(s, p, d) matches Ok((_, j)) ==> p < j <= s.len(),
    decreases s.len() - p, 1int,
{
    lemma_suffix_index(s, i);
    if p < s.len() {
        let q = ws_end(s, p + 1);
        lemma_ws_shift(s, i, p + 1);
        lemma_ws_end(s, p + 1);
        lemma_string_shift(s, i, q);
        lemma_string_advances(s, q);
        if let Ok((key, j1)) = spec_string(s, q) {
            let c = ws_end(s, j1);
            lemma_ws_shift(s, i, j1);
            lemma_ws_end(s, j1);
            if c < s.len() && s[c] == ':' {
                lemma_member_rest_shift(s, i, p, key, c, d);
            }
        }
    }
}

#[verifier::rlimit(100)]
proof fn lemma_member_rest_shift(s: Seq<char>, i: int, p: int, key: Seq<char>, c: int, d: nat)
    requires
        0 <= i <= p <= s.len(),
        s.len() < usize::MAX,
        i <= c <= s.len(),
    ensures
        spec_member_rest(s, p, key, c, d) == shifted(spec_member_rest(suffix(s, i), p - i, key, c - i, d), i),
        spec_member_rest(s, p, key, c, d) matches Ok((_, j)) ==> p < j <= s.len(),
    decreases s.len() - p, 0int,
{
    lemma_suffix_index(s, i);
    if p < c < s.len() {
        let q2 = ws_end(s, c + 1);
        lemma_ws_shift(s, i, c + 1);
        lemma_ws_end(s, c + 1);
        lemma_value_shift(s, i, q2, d);
        if let Ok((_, j)) = spec_value(s, q2, d) {
            let r = ws_end(s, j);
            lemma_ws_shift(s, i, j);
            lemma_ws_end(s, j);
            if p < r < s.len() && s[r] == ',' {
                lemma_members_shift(s, i, r, d);
            }
        }
    }
}

/// Parsing a value where an earlier parse stopped gives what parsing the
/// unconsumed remainder on its own gives, at positions moved by the amount
/// consumed.
pub proof fn law_value_remainder(s: Seq<char>, i: int, depth: nat)
    requires
        0 <= i <= s.len(),
        s.len() < usize::MAX,
    ensures
        spec_value(s, i, depth) == shifted(spec_value(suffix(s, i), 0, depth), i),
{
    lemma_value_shift(s, i, i, depth);
}

} // verus!
