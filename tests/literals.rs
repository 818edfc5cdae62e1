use wson::boolean::{false_parser, true_parser};
use wson::error::{ErrorKind, ParseError};
use wson::null::{null, Null};

fn tag_error(position: usize) -> ParseError {
    ParseError { position, kind: ErrorKind::Tag, committed: false }
}

#[test]
fn pass_true() {
    assert_eq!(true_parser("true false"), Ok((" false", true)));
}

#[test]
fn failed_true() {
    assert_eq!(true_parser("false"), Err(tag_error(0)));
}

#[test]
fn pass_false() {
    assert_eq!(false_parser("false true"), Ok((" true", false)));
}

#[test]
fn failed_false() {
    assert_eq!(false_parser("true"), Err(tag_error(0)));
}

#[test]
fn null_alone() {
    assert_eq!(null("null"), Ok(("", Null)));
}

#[test]
fn null_rejects_other_text() {
    assert_eq!(null("a"), Err(tag_error(0)));
}

#[test]
fn literals_leave_exact_remainder() {
    assert_eq!(true_parser("true"), Ok(("", true)));
    assert_eq!(false_parser("false"), Ok(("", false)));
    assert_eq!(null("null, 1"), Ok((", 1", Null)));
}

#[test]
fn literal_prefix_is_permissive() {
    assert_eq!(true_parser("truefoo"), Ok(("foo", true)));
}

#[test]
fn truncated_literal_fails() {
    assert_eq!(true_parser("tru"), Err(tag_error(0)));
    assert_eq!(null(""), Err(tag_error(0)));
}

#[test]
fn remainder_reparsed_like_fragment() {
    let (rest, first) = true_parser("true false").unwrap();
    assert!(first);
    let again = false_parser(rest.trim_start());
    assert_eq!(again, false_parser("false"));
    assert_eq!(again, Ok(("", false)));
}
