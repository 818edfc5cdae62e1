use wson::error::{ErrorKind, ParseError};
use wson::number::{number, Number};
use wson::string::JsonString;
use wson::value::{array, object, value, value_with_depth, Member, Value};

fn num(negative: bool, integer: &str, fraction: &str, exponent_negative: bool, exponent: &str) -> Number {
    Number {
        negative,
        integer: integer.to_string(),
        fraction: fraction.to_string(),
        exponent_negative,
        exponent: exponent.to_string(),
    }
}

fn integer_value(digits: &str) -> Value {
    Value::Number(num(false, digits, "", false, ""))
}

fn key(text: &str) -> JsonString {
    JsonString(text.to_string())
}

#[test]
fn number_zero() {
    assert_eq!(number("0"), Ok(("", num(false, "0", "", false, ""))));
}

#[test]
fn number_leading_zero_rejected() {
    assert_eq!(number("01"), Err(ParseError { position: 1, kind: ErrorKind::LeadingZero, committed: true }));
}

#[test]
fn number_negative_zero() {
    assert_eq!(number("-0"), Ok(("", num(true, "0", "", false, ""))));
}

#[test]
fn number_with_fraction_and_exponent() {
    assert_eq!(number("1.5e10"), Ok(("", num(false, "1", "5", false, "10"))));
    assert_eq!(number("-12.25E-3,"), Ok((",", num(true, "12", "25", true, "3"))));
    assert_eq!(number("7e+2"), Ok(("", num(false, "7", "", false, "2"))));
}

#[test]
fn number_missing_fraction_digit() {
    assert_eq!(number("1."), Err(ParseError { position: 2, kind: ErrorKind::Digit, committed: true }));
}

#[test]
fn number_missing_exponent_digit() {
    assert_eq!(number("1e+"), Err(ParseError { position: 3, kind: ErrorKind::Digit, committed: true }));
}

#[test]
fn number_needs_digit() {
    assert_eq!(number("x"), Err(ParseError { position: 0, kind: ErrorKind::Digit, committed: false }));
    assert_eq!(number("-"), Err(ParseError { position: 1, kind: ErrorKind::Digit, committed: true }));
}

#[test]
fn number_keeps_large_integers_exact() {
    assert_eq!(
        number("18446744073709551615"),
        Ok(("", num(false, "18446744073709551615", "", false, "")))
    );
}

#[test]
fn empty_array() {
    assert_eq!(value("[]"), Ok(("", Value::Array(vec![]))));
    assert_eq!(array("[ ]"), Ok(("", Value::Array(vec![]))));
}

#[test]
fn empty_object() {
    assert_eq!(value("{}"), Ok(("", Value::Object(vec![]))));
    assert_eq!(object("{ \n}"), Ok(("", Value::Object(vec![]))));
}

#[test]
fn array_keeps_order() {
    assert_eq!(value("[1,2,3]"), Ok(("", Value::Array(vec![integer_value("1"), integer_value("2"), integer_value("3")]))));
    assert_eq!(value("[ 1 ,\t2 , 3 ]"), Ok(("", Value::Array(vec![integer_value("1"), integer_value("2"), integer_value("3")]))));
}

#[test]
fn object_keeps_duplicate_keys() {
    assert_eq!(
        value("{\"a\":1,\"a\":2}"),
        Ok((
            "",
            Value::Object(vec![
                Member { key: key("a"), value: integer_value("1") },
                Member { key: key("a"), value: integer_value("2") },
            ])
        ))
    );
}

#[test]
fn object_with_spaces_and_mixed_values() {
    assert_eq!(
        value("{ \"k\" : [true, null] , \"s\" : \"v\" } tail"),
        Ok((
            " tail",
            Value::Object(vec![
                Member { key: key("k"), value: Value::Array(vec![Value::Bool(true), Value::Null]) },
                Member { key: key("s"), value: Value::String(key("v")) },
            ])
        ))
    );
}

#[test]
fn nested_empty_arrays() {
    assert_eq!(
        value("[[[]]]"),
        Ok(("", Value::Array(vec![Value::Array(vec![Value::Array(vec![])])])))
    );
}

#[test]
fn trailing_comma_rejected() {
    assert_eq!(value("[1,]"), Err(ParseError { position: 3, kind: ErrorKind::NoValue, committed: true }));
    assert_eq!(
        value("{\"a\":1,}"),
        Err(ParseError { position: 7, kind: ErrorKind::Tag, committed: true })
    );
}

#[test]
fn missing_close_is_committed() {
    assert_eq!(value("[1 2]"), Err(ParseError { position: 3, kind: ErrorKind::Tag, committed: true }));
    assert_eq!(value("{\"a\" 1}"), Err(ParseError { position: 5, kind: ErrorKind::Tag, committed: true }));
    assert_eq!(value("[1"), Err(ParseError { position: 2, kind: ErrorKind::Tag, committed: true }));
}

#[test]
fn no_value_matches() {
    assert_eq!(value("?"), Err(ParseError { position: 0, kind: ErrorKind::NoValue, committed: false }));
    assert_eq!(value(""), Err(ParseError { position: 0, kind: ErrorKind::NoValue, committed: false }));
}

#[test]
fn depth_is_bounded() {
    assert_eq!(value_with_depth("[[1]]", 2), Ok(("", Value::Array(vec![Value::Array(vec![integer_value("1")])]))));
    assert_eq!(
        value_with_depth("[[1]]", 1),
        Err(ParseError { position: 1, kind: ErrorKind::Depth, committed: true })
    );
    let deep = "[".repeat(200) + &"]".repeat(200);
    assert_eq!(value(&deep), Err(ParseError { position: 128, kind: ErrorKind::Depth, committed: true }));
}

#[test]
fn dispatcher_reads_each_kind() {
    assert_eq!(value("null"), Ok(("", Value::Null)));
    assert_eq!(value("true"), Ok(("", Value::Bool(true))));
    assert_eq!(value("false"), Ok(("", Value::Bool(false))));
    assert_eq!(value("\"x\""), Ok(("", Value::String(key("x")))));
    assert_eq!(value("-3"), Ok(("", Value::Number(num(true, "3", "", false, "")))));
}

#[test]
fn bad_escape_inside_array_is_committed() {
    assert_eq!(value("[\"\\q\"]"), Err(ParseError { position: 3, kind: ErrorKind::Escape, committed: true }));
}

#[test]
fn value_remainder_reparsed_like_fragment() {
    let (rest, first) = value("[1] {\"b\":false}").unwrap();
    assert_eq!(first, Value::Array(vec![integer_value("1")]));
    assert_eq!(value(rest.trim_start()), value("{\"b\":false}"));
}

#[test]
fn error_message_names_expectation_and_position() {
    let err = value("[1,]").unwrap_err();
    assert_eq!(err.message(), "expected a value at position 3");
    let err = ParseError { position: 1024, kind: ErrorKind::Escape, committed: true };
    assert_eq!(err.message(), "expected a valid escape sequence at position 1024");
    let err = ParseError { position: 0, kind: ErrorKind::Tag, committed: false };
    assert_eq!(err.message(), "expected a literal or delimiter at position 0");
}
