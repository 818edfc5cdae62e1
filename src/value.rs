use vstd::prelude::*;
use crate::boolean::{parse_false, parse_true, spec_false, spec_true};
use crate::error::{ErrorKind, ParseError, SpecResult, commit, fail, lift};
use crate::input::{chars_of, finish, outcome};
use crate::null::{parse_null, spec_null};
use crate::number::{Number, NumberModel, parse_number, spec_number};
use crate::string::{JsonString, parse_string, spec_string};

verus! {

/// How deeply arrays and objects may nest when no other bound is given.
pub const MAX_DEPTH: usize = 128;

/// A parsed JSON value. Object members keep their order, duplicates included.
#[derive(Debug, PartialEq)]
pub enum Value {
    Null,
    Bool(bool),
    Number(Number),
    String(JsonString),
    Array(Vec<Value>),
    Object(Vec<Member>),
}

/// One member of an object: its key and its value.
#[derive(Debug, PartialEq)]
pub struct Member {
    pub key: JsonString,
    pub value: Value,
}

/// The model of a value.
pub ghost enum JsonModel {
    Null,
    Bool(bool),
    Number(NumberModel),
    Str(Seq<char>),
    Array(Seq<JsonModel>),
    Object(Seq<(Seq<char>, JsonModel)>),
}

/// The model of a value, by structural recursion.
pub open spec fn value_model(v: &Value) -> JsonModel
    decreases v,
    via value_model_decreases
{
    match v {
        Value::Null => JsonModel::Null,
        Value::Bool(b) => JsonModel::Bool(*b),
        Value::Number(n) => JsonModel::Number(n@),
        Value::String(t) => JsonModel::Str(t@),
        Value::Array(items) => JsonModel::Array(
            Seq::new(
                items.len() as nat,
                |k: int|
                    if 0 <= k < items.len() {
                        value_model(&items[k])
                    } else {
                        JsonModel::Null
                    },
            ),
        ),
        Value::Object(members) => JsonModel::Object(
            Seq::new(
                members.len() as nat,
                |k: int|
                    if 0 <= k < members.len() {
                        (members[k].key@, value_model(&members[k].value))
                    } else {
                        (Seq::empty(), JsonModel::Null)
                    },
            ),
        ),
    }
}

#[via_fn]
proof fn value_model_decreases(v: &Value) {
    match v {
        Value::Array(items) => {
            assert forall|k: int| 0 <= k < items.len() implies decreases_to!(v => items[k]) by {
                assert(decreases_to!(items => items[k]));
            }
        },
        Value::Object(members) => {
            assert forall|k: int| 0 <= k < members.len() implies decreases_to!(v => members[k].value) by {
                assert(decreases_to!(members => members[k]));
            }
        },
        _ => {},
    }
}

impl View for Value {
    type V = JsonModel;

    open spec fn view(&self) -> JsonModel {
        value_model(self)
    }
}

pub open spec fn is_ws(c: char) -> bool {
    c == ' ' || c == '\t' || c == '\n' || c == '\r'
}

/// The end of the run of whitespace that starts at `i`.
pub open spec fn ws_end(s: Seq<char>, i: int) -> int
    decreases s.len() - i,
{
    if 0 <= i < s.len() && is_ws(s[i]) {
        ws_end(s, i + 1)
    } else {
        i
    }
}

/// A run of whitespace stays inside the input and ends at a non-space.
pub proof fn lemma_ws_end(s: Seq<char>, i: int)
    requires
        0 <= i <= s.len(),
    ensures
        i <= ws_end(s, i) <= s.len(),
        ws_end(s, i) < s.len() ==> !is_ws(s[ws_end(s, i)]),
    decreases s.len() - i,
{
    if i < s.len() && is_ws(s[i]) {
        lemma_ws_end(s, i + 1);
    }
}

/// A string literal that parses ends inside the input, past where it began.
pub proof fn lemma_string_advances(s: Seq<char>, i: int)
    requires
        0 <= i <= s.len(),
    ensures
        spec_string(s, i) matches Ok((_, j)) ==> i < j <= s.len(),
{
    if spec_string(s, i) is Ok {
        crate::string::lemma_content_bounds(s, i + 1);
    }
}

pub open spec fn map_ok<A, B>(r: SpecResult<A>, f: spec_fn(A) -> B) -> SpecResult<B> {
    match r {
        Ok((a, j)) => Ok((f(a), j)),
        Err(e) => Err(e),
    }
}

/// The first outcome, unless it is a failure that did not commit, in which
/// case the second.
pub open spec fn or_else<V>(first: SpecResult<V>, second: SpecResult<V>) -> SpecResult<V> {
    match first {
        Err(e) => if e.committed {
            first
        } else {
            second
        },
        Ok(_) => first,
    }
}

/// A value at position `i` with at most `depth` levels of arrays and objects:
/// object, array, string, number, `true`, `false` and `null` are tried in
/// that order, and the first success or committed failure is the outcome.
pub open spec fn spec_value(s: Seq<char>, i: int, depth: nat) -> SpecResult<JsonModel>
    decreases s.len() - i, 3int,
{
    if !(0 <= i <= s.len()) {
        Err(fail(i, ErrorKind::NoValue, false))
    } else {
        or_else(
            map_ok(spec_object(s, i, depth), |m| JsonModel::Object(m)),
            or_else(
                map_ok(spec_array(s, i, depth), |m| JsonModel::Array(m)),
                or_else(
                    map_ok(spec_string(s, i), |m| JsonModel::Str(m)),
                    or_else(
                        map_ok(spec_number(s, i), |m| JsonModel::Number(m)),
                        or_else(
                            map_ok(spec_true(s, i), |m| JsonModel::Bool(m)),
                            or_else(
                                map_ok(spec_false(s, i), |m| JsonModel::Bool(m)),
                                or_else(
                                    map_ok(spec_null(s, i), |m: ()| JsonModel::Null),
                                    Err(fail(i, ErrorKind::NoValue, false)),
                                ),
                            ),
                        ),
                    ),
                ),
            ),
        )
    }
}

/// An array at position `i`: `[` ws `]`, or `[` ws value ws (`,` ws value ws)* `]`.
/// Once `[` is consumed every failure is committed; opening it needs `depth`
/// above zero, and its elements get one level less.
pub open spec fn spec_array(s: Seq<char>, i: int, depth: nat) -> SpecResult<Seq<JsonModel>>
    decreases s.len() - i, 2int,
{
    if !(0 <= i < s.len() && s[i] == '[') {
        Err(fail(i, ErrorKind::Tag, false))
    } else if depth == 0 {
        Err(fail(i, ErrorKind::Depth, true))
    } else {
        let j = ws_end(s, i + 1);
        if j < s.len() && s[j] == ']' {
            Ok((Seq::empty(), j + 1))
        } else {
            spec_elements(s, i, (depth - 1) as nat)
        }
    }
}

/// The elements of an array from the delimiter at `p` (its `[` or a `,`)
/// through the closing `]`.
pub open spec fn spec_elements(s: Seq<char>, p: int, depth: nat) -> SpecResult<Seq<JsonModel>>
    decreases s.len() - p, 0int,
{
    if !(0 <= p < s.len()) {
        Err(fail(p, ErrorKind::Tag, true))
    } else {
        let q = ws_end(s, p + 1);
        proof {
            lemma_ws_end(s, p + 1);
        }
        match commit(spec_value(s, q, depth)) {
            Err(e) => Err(e),
            Ok((v, j)) => {
                let r = ws_end(s, j);
                // A value always consumes something, so `p < r` holds; it is
                // stated so that the recursion visibly moves forward.
                if p < r < s.len() && s[r] == ',' {
                    match spec_elements(s, r, depth) {
                        Ok((vs, k)) => Ok((seq![v] + vs, k)),
                        Err(e) => Err(e),
                    }
                } else if r < s.len() && s[r] == ']' {
                    Ok((seq![v], r + 1))
                } else {
                    Err(fail(r, ErrorKind::Tag, true))
                }
            },
        }
    }
}

/// An object at position `i`: `{` ws `}`, or `{` ws member ws (`,` ws member ws)* `}`
/// where a member is string ws `:` ws value. Commitment and depth are as for
/// arrays. Members keep their order; equal keys are all kept.
pub open spec fn spec_object(s: Seq<char>, i: int, depth: nat) -> SpecResult<
    Seq<(Seq<char>, JsonModel)>,
>
    decreases s.len() - i, 2int,
{
    if !(0 <= i < s.len() && s[i] == '{') {
        Err(fail(i, ErrorKind::Tag, false))
    } else if depth == 0 {
        Err(fail(i, ErrorKind::Depth, true))
    } else {
        let j = ws_end(s, i + 1);
        if j < s.len() && s[j] == '}' {
            Ok((Seq::empty(), j + 1))
        } else {
            spec_members(s, i, (depth - 1) as nat)
        }
    }
}

/// The members of an object from the delimiter at `p` (its `{` or a `,`)
/// through the closing `}`.
pub open spec fn spec_members(s: Seq<char>, p: int, depth: nat) -> SpecResult<
    Seq<(Seq<char>, JsonModel)>,
>
    decreases s.len() - p, 1int,
{
    if !(0 <= p < s.len()) {
        Err(fail(p, ErrorKind::Tag, true))
    } else {
        let q = ws_end(s, p + 1);
        proof {
            lemma_ws_end(s, p + 1);
            lemma_string_advances(s, q);
        }
        match commit(spec_string(s, q)) {
            Err(e) => Err(e),
            Ok((key, j1)) => {
                let c = ws_end(s, j1);
                proof {
                    lemma_ws_end(s, j1);
                }
                if !(c < s.len() && s[c] == ':') {
                    Err(fail(c, ErrorKind::Tag, true))
                } else {
                    spec_member_rest(s, p, key, c, depth)
                }
            },
        }
    }
}

/// The rest of the members of an object, from the `:` at `c` that follows
/// `key` (the member opened by the delimiter at `p`) through the closing `}`.
pub open spec fn spec_member_rest(s: Seq<char>, p: int, key: Seq<char>, c: int, depth: nat) -> SpecResult<
    Seq<(Seq<char>, JsonModel)>,
>
    decreases s.len() - p, 0int,
{
    if !(0 <= p < c < s.len()) {
        Err(fail(c, ErrorKind::Tag, true))
    } else {
        let q2 = ws_end(s, c + 1);
        proof {
            lemma_ws_end(s, c + 1);
        }
        match commit(spec_value(s, q2, depth)) {
            Err(e) => Err(e),
            Ok((v, j)) => {
                let r = ws_end(s, j);
                // As for arrays, `p < r` always holds.
                if p < r < s.len() && s[r] == ',' {
                    match spec_members(s, r, depth) {
                        Ok((ms, k)) => Ok((seq![(key, v)] + ms, k)),
                        Err(e) => Err(e),
                    }
                } else if r < s.len() && s[r] == '}' {
                    Ok((seq![(key, v)], r + 1))
                } else {
                    Err(fail(r, ErrorKind::Tag, true))
                }
            },
        }
    }
}

/// The models of a sequence of values.
pub open spec fn models(v: Seq<Value>) -> Seq<JsonModel> {
    Seq::new(v.len(), |k: int| v[k]@)
}

/// The models of a sequence of object members.
pub open spec fn member_models(v: Seq<Member>) -> Seq<(Seq<char>, JsonModel)> {
    Seq::new(v.len(), |k: int| (v[k].key@, v[k].value@))
}

pub open spec fn prepend<T>(pre: Seq<T>, r: SpecResult<Seq<T>>) -> SpecResult<Seq<T>> {
    match r {
        Ok((t, j)) => Ok((pre + t, j)),
        Err(e) => Err(e),
    }
}

pub open spec fn lift_items(r: Result<(Vec<Value>, usize), ParseError>) -> SpecResult<Seq<JsonModel>> {
    match r {
        Ok((v, j)) => Ok((models(v@), j as int)),
        Err(e) => Err(e),
    }
}

pub open spec fn lift_members(r: Result<(Vec<Member>, usize), ParseError>) -> SpecResult<
    Seq<(Seq<char>, JsonModel)>,
> {
    match r {
        Ok((v, j)) => Ok((member_models(v@), j as int)),
        Err(e) => Err(e),
    }
}

/// The model of an array value is the models of its elements.
pub proof fn lemma_array_model(a: Vec<Value>)
    ensures
        Value::Array(a)@ == JsonModel::Array(models(a@)),
{
    assert(Value::Array(a)@->Array_0 =~= models(a@));
}

/// The model of an object value is the models of its members.
pub proof fn lemma_object_model(m: Vec<Member>)
    ensures
        Value::Object(m)@ == JsonModel::Object(member_models(m@)),
{
    let mv = Value::Object(m)@->Object_0;
    assert forall|k: int| 0 <= k < m@.len() implies mv[k] == member_models(m@)[k] by {
        assert(mv[k].0 == m@[k].key@);
        assert(mv[k].1 == m@[k].value@);
    }
    assert(mv =~= member_models(m@));
}

fn skip_ws(s: &Vec<char>, i: usize) -> (r: usize)
    requires
        i <= s@.len(),
    ensures
        r == ws_end(s@, i as int),
        i <= r <= s@.len(),
{
    proof {
        lemma_ws_end(s@, i as int);
    }
    let mut k = i;
    while k < s.len() && (s[k] == ' ' || s[k] == '\t' || s[k] == '\n' || s[k] == '\r')
        invariant
            i <= k <= s@.len(),
            ws_end(s@, i as int) == ws_end(s@, k as int),
        decreases s@.len() - k,
    {
        k = k + 1;
    }
    k
}

/// A value at position `i` of `s`, with at most `depth` levels of nesting.
#[verifier::rlimit(60)]
pub fn parse_value(s: &Vec<char>, i: usize, depth: usize) -> (r: Result<(Value, usize), ParseError>)
    requires
        i <= s@.len(),
    ensures
        lift(r) == spec_value(s@, i as int, depth as nat),
        r matches Ok((_, j)) ==> i < j <= s@.len(),
    decreases depth, 2int,
{
    match parse_object(s, i, depth) {
        Ok((m, j)) => {
            proof {
                lemma_object_model(m);
            }
            return Ok((Value::Object(m), j));
        },
        Err(e) => if e.committed {
            return Err(e);
        },
    }
    match parse_array(s, i, depth) {
        Ok((a, j)) => {
            proof {
                lemma_array_model(a);
            }
            return Ok((Value::Array(a), j));
        },
        Err(e) => if e.committed {
            return Err(e);
        },
    }
    match parse_string(s, i) {
        Ok((t, j)) => {
            return Ok((Value::String(t), j));
        },
        Err(e) => if e.committed {
            return Err(e);
        },
    }
    match parse_number(s, i) {
        Ok((n, j)) => {
            return Ok((Value::Number(n), j));
        },
        Err(e) => if e.committed {
            return Err(e);
        },
    }
    match parse_true(s, i) {
        Ok((b, j)) => {
            return Ok((Value::Bool(b), j));
        },
        Err(e) => if e.committed {
            return Err(e);
        },
    }
    match parse_false(s, i) {
        Ok((b, j)) => {
            return Ok((Value::Bool(b), j));
        },
        Err(e) => if e.committed {
            return Err(e);
        },
    }
    match parse_null(s, i) {
        Ok((_, j)) => {
            return Ok((Value::Null, j));
        },
        Err(e) => if e.committed {
            return Err(e);
        },
    }
    Err(ParseError { position: i, kind: ErrorKind::NoValue, committed: false })
}

/// An array at position `i` of `s`, as its elements.
pub fn parse_array(s: &Vec<char>, i: usize, depth: usize) -> (r: Result<(Vec<Value>, usize), ParseError>)
    requires
        i <= s@.len(),
    ensures
        lift_items(r) == spec_array(s@, i as int, depth as nat),
        r matches Ok((_, j)) ==> i < j <= s@.len(),
    decreases depth, 1int,
{
    let n = s.len();
    if !(i < n && s[i] == '[') {
        return Err(ParseError { position: i, kind: ErrorKind::Tag, committed: false });
    }
    if depth == 0 {
        return Err(ParseError { position: i, kind: ErrorKind::Depth, committed: true });
    }
    let j = skip_ws(s, i + 1);
    if j < n && s[j] == ']' {
        proof {
            assert(models(Seq::<Value>::empty()) =~= Seq::<JsonModel>::empty());
        }
        return Ok((Vec::new(), j + 1));
    }
    let d = depth - 1;
    let mut items: Vec<Value> = Vec::new();
    let mut p = i;
    proof {
        assert(models(items@) + spec_elements(s@, p as int, d as nat)->Ok_0.0 =~= spec_elements(
            s@,
            p as int,
            d as nat,
        )->Ok_0.0);
    }
    loop
        invariant
            i <= p < n,
            n == s@.len(),
            d == depth - 1,
            spec_array(s@, i as int, depth as nat) == prepend(
                models(items@),
                spec_elements(s@, p as int, d as nat),
            ),
        decreases n - p,
    {
        let q = skip_ws(s, p + 1);
        match parse_value(s, q, d) {
            Err(e) => {
                return Err(e.committed_copy());
            },
            Ok((v, j)) => {
                let r = skip_ws(s, j);
                if r < n && s[r] == ',' {
                    proof {
                        let rest = spec_elements(s@, r as int, d as nat);
                        assert(models(items@.push(v)) =~= models(items@) + seq![v@]);
                        if let Ok((vs, _)) = rest {
                            assert(models(items@) + (seq![v@] + vs) =~= models(items@) + seq![v@] + vs);
                        }
                    }
                    items.push(v);
                    p = r;
                } else if r < n && s[r] == ']' {
                    proof {
                        assert(models(items@.push(v)) =~= models(items@) + seq![v@]);
                    }
                    items.push(v);
                    return Ok((items, r + 1));
                } else {
                    return Err(ParseError { position: r, kind: ErrorKind::Tag, committed: true });
                }
            },
        }
    }
}

/// An object at position `i` of `s`, as its members.
pub fn parse_object(s: &Vec<char>, i: usize, depth: usize) -> (r: Result<(Vec<Member>, usize), ParseError>)
    requires
        i <= s@.len(),
    ensures
        lift_members(r) == spec_object(s@, i as int, depth as nat),
        r matches Ok((_, j)) ==> i < j <= s@.len(),
    decreases depth, 1int,
{
    let n = s.len();
    if !(i < n && s[i] == '{') {
        return Err(ParseError { position: i, kind: ErrorKind::Tag, committed: false });
    }
    if depth == 0 {
        return Err(ParseError { position: i, kind: ErrorKind::Depth, committed: true });
    }
    let j = skip_ws(s, i + 1);
    if j < n && s[j] == '}' {
        proof {
            assert(member_models(Seq::<Member>::empty()) =~= Seq::<(Seq<char>, JsonModel)>::empty());
        }
        return Ok((Vec::new(), j + 1));
    }
    let d = depth - 1;
    let mut members: Vec<Member> = Vec::new();
    let mut p = i;
    proof {
        assert(member_models(members@) + spec_members(s@, p as int, d as nat)->Ok_0.0 =~= spec_members(
            s@,
            p as int,
            d as nat,
        )->Ok_0.0);
    }
    loop
        invariant
            i <= p < n,
            n == s@.len(),
            d == depth - 1,
            spec_object(s@, i as int, depth as nat) == prepend(
                member_models(members@),
                spec_members(s@, p as int, d as nat),
            ),
        decreases n - p,
    {
        let q = skip_ws(s, p + 1);
        let (key, j1) = match parse_string(s, q) {
            Err(e) => {
                return Err(e.committed_copy());
            },
            Ok(x) => x,
        };
        let c = skip_ws(s, j1);
        if !(c < n && s[c] == ':') {
            return Err(ParseError { position: c, kind: ErrorKind::Tag, committed: true });
        }
        let q2 = skip_ws(s, c + 1);
        match parse_value(s, q2, d) {
            Err(e) => {
                return Err(e.committed_copy());
            },
            Ok((v, j)) => {
                let r = skip_ws(s, j);
                let ghost m = (key@, v@);
                let member = Member { key, value: v };
                proof {
                    assert(member_models(members@.push(member)) =~= member_models(members@) + seq![m]);
                }
                if r < n && s[r] == ',' {
                    proof {
                        if let Ok((ms, _)) = spec_members(s@, r as int, d as nat) {
                            assert(member_models(members@) + (seq![m] + ms) =~= member_models(members@)
                                + seq![m] + ms);
                        }
                    }
                    members.push(member);
                    p = r;
                } else if r < n && s[r] == '}' {
                    members.push(member);
                    return Ok((members, r + 1));
                } else {
                    return Err(ParseError { position: r, kind: ErrorKind::Tag, committed: true });
                }
            },
        }
    }
}

/// Parses a value at the start of `input`, with arrays and objects nested at
/// most `max_depth` deep; what follows the value is left as it is.
pub fn value_with_depth(input: &str, max_depth: usize) -> (r: Result<(&str, Value), ParseError>)
    ensures
        outcome(input@, r, spec_value(input@, 0, max_depth as nat)),
{
    let s = chars_of(input);
    let r = parse_value(&s, 0, max_depth);
    finish(input, &s, r)
}

/// Parses a value at the start of `input`, with arrays and objects nested at
/// most `MAX_DEPTH` deep; what follows the value is left as it is.
pub fn value(input: &str) -> (r: Result<(&str, Value), ParseError>)
    ensures
        outcome(input@, r, spec_value(input@, 0, MAX_DEPTH as nat)),
{
    value_with_depth(input, MAX_DEPTH)
}

/// Parses an array at the start of `input` (nesting bounded by `MAX_DEPTH`).
pub fn array(input: &str) -> (r: Result<(&str, Value), ParseError>)
    ensures
        outcome(input@, r, map_ok(spec_array(input@, 0, MAX_DEPTH as nat), |m| JsonModel::Array(m))),
{
    let s = chars_of(input);
    let r = match parse_array(&s, 0, MAX_DEPTH) {
        Ok((a, j)) => {
            proof {
                lemma_array_model(a);
            }
            Ok((Value::Array(a), j))
        },
        Err(e) => Err(e),
    };
    finish(input, &s, r)
}

/// Parses an object at the start of `input` (nesting bounded by `MAX_DEPTH`).
pub fn object(input: &str) -> (r: Result<(&str, Value), ParseError>)
    ensures
        outcome(input@, r, map_ok(spec_object(input@, 0, MAX_DEPTH as nat), |m| JsonModel::Object(m))),
{
    let s = chars_of(input);
    let r = match parse_object(&s, 0, MAX_DEPTH) {
        Ok((m, j)) => {
            proof {
                lemma_object_model(m);
            }
            Ok((Value::Object(m), j))
        },
        Err(e) => Err(e),
    };
    finish(input, &s, r)
}

} // verus!
