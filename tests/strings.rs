use wson::error::{ErrorKind, ParseError};
use wson::string::{character, escape, hex, string, JsonString};

fn decoded(text: &str) -> Result<(&str, JsonString), ParseError> {
    string(text)
}

#[test]
fn parse_empty_string() {
    let value = string("\"\"");
    assert_eq!(value, Ok(("", JsonString("".to_string()))));
}

#[test]
fn parse_hello_string() {
    let value = string("\"hello\"");
    assert_eq!(value, Ok(("", JsonString("hello".to_string()))));
}

#[test]
fn parse_utf8_string() {
    let value = string("\"こんにちは\"");
    assert_eq!(value, Ok(("", JsonString("こんにちは".to_string()))));
}

#[test]
fn parse_alphanum_string() {
    let value = string("\"abc123\"");
    assert_eq!(value, Ok(("", JsonString("abc123".to_string()))));
}

#[test]
fn hex_five() {
    let value = hex("5");
    assert_eq!(value, Ok(("", "5")));
}

#[test]
fn hex_f() {
    let value = hex("f");
    assert_eq!(value, Ok(("", "f")));
}

#[test]
fn hex_large_f() {
    let value = hex("F");
    assert_eq!(value, Ok(("", "F")));
}

#[test]
fn escape_slash() {
    let value = escape("/");
    assert_eq!(value, Ok(("", "/")));
}

#[test]
fn escape_unicode() {
    let value = escape("u1234");
    assert_eq!(value, Ok(("", "u1234")));
}

#[test]
fn character_unicode() {
    let value = character("\\u1234");
    assert_eq!(value, Ok(("", "\\u1234")));
}

#[test]
fn hex_rejects_non_digit() {
    assert_eq!(hex("g"), Err(ParseError { position: 0, kind: ErrorKind::HexDigit, committed: false }));
}

#[test]
fn escaped_quotes_are_decoded() {
    assert_eq!(decoded("\"He\\\"\\\"llo\""), Ok(("", JsonString("He\"\"llo".to_string()))));
}

#[test]
fn each_escape_decodes_to_one_character() {
    let cases = [
        ("\"\\\"\"", "\""),
        ("\"\\\\\"", "\\"),
        ("\"\\/\"", "/"),
        ("\"\\b\"", "\u{8}"),
        ("\"\\f\"", "\u{c}"),
        ("\"\\n\"", "\n"),
        ("\"\\r\"", "\r"),
        ("\"\\t\"", "\t"),
        ("\"\\u0041\"", "A"),
        ("\"\\u00e9\"", "é"),
        ("\"\\u00E9\"", "é"),
    ];
    for (text, expected) in cases {
        assert_eq!(decoded(text), Ok(("", JsonString(expected.to_string()))), "{}", text);
    }
}

#[test]
fn surrogate_pair_decodes() {
    assert_eq!(decoded("\"\\ud83d\\ude00\""), Ok(("", JsonString("\u{1F600}".to_string()))));
}

#[test]
fn lone_surrogate_rejected() {
    assert_eq!(
        decoded("\"\\udc00\""),
        Err(ParseError { position: 3, kind: ErrorKind::Surrogate, committed: true })
    );
    assert_eq!(
        decoded("\"\\ud83dx\""),
        Err(ParseError { position: 7, kind: ErrorKind::Surrogate, committed: true })
    );
}

#[test]
fn invalid_escape_rejected() {
    assert_eq!(
        decoded("\"a\\xb\""),
        Err(ParseError { position: 3, kind: ErrorKind::Escape, committed: true })
    );
    assert_eq!(escape("x"), Err(ParseError { position: 0, kind: ErrorKind::Escape, committed: false }));
}

#[test]
fn short_unicode_escape_rejected() {
    assert_eq!(
        decoded("\"\\u12g4\""),
        Err(ParseError { position: 5, kind: ErrorKind::HexDigit, committed: true })
    );
}

#[test]
fn unterminated_string_rejected() {
    assert_eq!(
        decoded("\"abc"),
        Err(ParseError { position: 4, kind: ErrorKind::Unterminated, committed: true })
    );
}

#[test]
fn string_needs_opening_quote() {
    assert_eq!(decoded("abc"), Err(ParseError { position: 0, kind: ErrorKind::Tag, committed: false }));
}

#[test]
fn plain_text_round_trips() {
    for s in ["", "a b c", "x-y_z 0123 ~!@#$%^&*()", "ü ß 漢字"] {
        let text = format!("\"{}\"", s);
        assert_eq!(decoded(&text), Ok(("", JsonString(s.to_string()))));
    }
}

#[test]
fn string_leaves_remainder() {
    assert_eq!(decoded("\"ab\" : 1"), Ok((" : 1", JsonString("ab".to_string()))));
}

#[test]
fn character_plain_and_quote() {
    assert_eq!(character("ab"), Ok(("b", "a")));
    assert_eq!(character("\"x"), Err(ParseError { position: 0, kind: ErrorKind::Tag, committed: false }));
}
