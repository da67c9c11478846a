use json_parse::{json, ErrKind, Member, Value};

/// Parses `text` expecting success, and returns the end position and value.
fn parse_ok(text: &str) -> (usize, Value) {
    json(text.as_bytes()).expect("expected a successful parse")
}

/// Parses `text` expecting failure, and returns the error kind.
fn parse_err(text: &str) -> ErrKind {
    json(text.as_bytes()).expect_err("expected a parse failure").kind
}

/// The number a `Value::Number` node holds, after float conversion.
fn as_f32(v: &Value) -> f32 {
    match v {
        Value::Number(canon) => String::from_utf8(canon.clone())
            .expect("canonical number bytes are ASCII")
            .parse::<f32>()
            .expect("expected a valid float"),
        _ => panic!("expected a number node"),
    }
}

fn string_value(text: &str) -> Value {
    Value::String(text.as_bytes().to_vec())
}

fn member(key: &str, value: Value) -> Member {
    Member {
        key: key.as_bytes().to_vec(),
        value,
    }
}

#[test]
fn parses_hex() {
    let input = b"\\u0000";
    let end = json_parse::escaped_hex(input, 0).expect("expected a valid unicode escape");
    assert_eq!(end, input.len());
    assert_eq!(&input[0..end], b"\\u0000");
}

#[test]
fn parses_value_object() {
    let (end, value) = parse_ok("{\"akey\":\"avalue\"}");
    assert_eq!(end, "{\"akey\":\"avalue\"}".len());
    assert_eq!(
        value,
        Value::Object {
            members: vec![member("akey", string_value("avalue"))]
        }
    );
}

#[test]
fn parses_value_array() {
    let (end, value) = parse_ok("[\"one\",\"two\"]");
    assert_eq!(end, "[\"one\",\"two\"]".len());
    assert_eq!(
        value,
        Value::Array(vec![string_value("one"), string_value("two")])
    );
}

#[test]
fn parses_value_string() {
    let (end, value) = parse_ok("\"astring\"");
    assert_eq!(end, "\"astring\"".len());
    assert_eq!(value, string_value("astring"));
}

#[test]
fn parses_value_number() {
    let (end, value) = parse_ok("2");
    assert_eq!(end, 1);
    assert_eq!(as_f32(&value), 2.0);
}

#[test]
fn empty_object() {
    let (end, value) = parse_ok("{}");
    assert_eq!(end, 2);
    assert_eq!(value, Value::Object { members: vec![] });
}

#[test]
fn empty_array() {
    let (end, value) = parse_ok("[]");
    assert_eq!(end, 2);
    assert_eq!(value, Value::Array(vec![]));
}

#[test]
fn empty_string() {
    let (end, value) = parse_ok("\"\"");
    assert_eq!(end, 2);
    assert_eq!(value, string_value(""));
}

#[test]
fn number_zero() {
    let (_, value) = parse_ok("0");
    assert_eq!(value, Value::Number(b"0".to_vec()));
    assert_eq!(as_f32(&value), 0.0);
}

#[test]
fn number_negative_zero() {
    let (_, value) = parse_ok("-0");
    assert_eq!(value, Value::Number(b"-0".to_vec()));
    let f = as_f32(&value);
    assert_eq!(f, 0.0);
    assert!(f.is_sign_negative());
}

#[test]
fn number_fraction_exponent() {
    let (end, value) = parse_ok("0.5e2");
    assert_eq!(end, 5);
    assert_eq!(value, Value::Number(b"0.5E2".to_vec()));
    assert_eq!(as_f32(&value), 50.0);
}

#[test]
fn number_signed_exponent() {
    let (_, value) = parse_ok("1e+3");
    assert_eq!(value, Value::Number(b"1E+3".to_vec()));
    assert_eq!(as_f32(&value), 1000.0);
}

#[test]
fn number_leading_zero_rejected() {
    assert_eq!(parse_err("01"), ErrKind::MalformedNumber);
}

#[test]
fn number_missing_fraction_digits_rejected() {
    assert_eq!(parse_err("1."), ErrKind::MalformedNumber);
}

#[test]
fn number_missing_exponent_digits_rejected() {
    assert_eq!(parse_err("1e"), ErrKind::MalformedNumber);
}

#[test]
fn number_bare_sign_rejected() {
    assert_eq!(parse_err("-"), ErrKind::MalformedNumber);
}

#[test]
fn unicode_escape_preserved_verbatim() {
    let (end, value) = parse_ok("\"a\\u0041b\"");
    assert_eq!(end, "\"a\\u0041b\"".len());
    assert_eq!(value, string_value("a\\u0041b"));
}

#[test]
fn short_unicode_escape_rejected() {
    assert_eq!(parse_err("\"\\u12\""), ErrKind::InvalidUnicodeEscape);
}

#[test]
fn unknown_escape_rejected() {
    assert_eq!(parse_err("\"a\\x\""), ErrKind::InvalidEscape);
}

#[test]
fn single_escapes_accepted() {
    let (_, value) = parse_ok("\"a\\n\\t\\\\\\\"b\\/\"");
    assert_eq!(value, string_value("a\\n\\t\\\\\\\"b\\/"));
}

#[test]
fn unterminated_string_rejected() {
    assert_eq!(parse_err("\"abc"), ErrKind::UnterminatedString);
}

#[test]
fn control_character_in_string_rejected() {
    assert_eq!(parse_err("\"a\nb\""), ErrKind::UnterminatedString);
}

#[test]
fn duplicate_keys_kept_in_document_order() {
    let (_, value) = parse_ok("{\"k\":\"v\",\"k\":\"v2\"}");
    assert_eq!(
        value,
        Value::Object {
            members: vec![
                member("k", string_value("v")),
                member("k", string_value("v2")),
            ]
        }
    );
}

#[test]
fn whitespace_around_elements_is_insignificant() {
    let (_, plain) = parse_ok("[\"one\",\"two\"]");
    let (_, spaced) = parse_ok("[ \"one\" ,\n\t\"two\" \r]");
    assert_eq!(plain, spaced);
}

#[test]
fn whitespace_around_keys_is_insignificant() {
    let (_, plain) = parse_ok("{\"akey\":\"avalue\"}");
    let (_, spaced) = parse_ok("{ \"akey\" : \"avalue\" }");
    assert_eq!(plain, spaced);
}

#[test]
fn empty_brackets_admit_no_whitespace() {
    // the member and element lists are absent, so there is no slot for
    // whitespace between the delimiters
    assert_eq!(parse_err("{ }"), ErrKind::UnterminatedObject);
    assert_eq!(parse_err("[ ]"), ErrKind::UnterminatedArray);
}

#[test]
fn keywords() {
    assert_eq!(parse_ok("true"), (4, Value::True));
    assert_eq!(parse_ok("false"), (5, Value::False));
    assert_eq!(parse_ok("null"), (4, Value::Null));
}

#[test]
fn truncated_keyword_rejected() {
    assert_eq!(parse_err("tru"), ErrKind::NoAlternativeMatched);
    assert_eq!(parse_err("nul"), ErrKind::NoAlternativeMatched);
}

#[test]
fn no_alternative_matches() {
    assert_eq!(parse_err(""), ErrKind::NoAlternativeMatched);
    assert_eq!(parse_err("x"), ErrKind::NoAlternativeMatched);
}

#[test]
fn unterminated_object_rejected() {
    assert_eq!(parse_err("{\"k\":1"), ErrKind::UnterminatedObject);
}

#[test]
fn unterminated_array_rejected() {
    assert_eq!(parse_err("[1"), ErrKind::UnterminatedArray);
}

#[test]
fn trailing_comma_rejected() {
    assert_eq!(parse_err("[1,]"), ErrKind::UnterminatedArray);
    assert_eq!(parse_err("{\"k\":1,}"), ErrKind::UnterminatedObject);
}

#[test]
fn trailing_data_is_left_to_the_caller() {
    let (end, value) = parse_ok("2 ");
    assert_eq!(end, 1);
    assert_eq!(as_f32(&value), 2.0);
}

#[test]
fn nested_structures() {
    let (end, value) = parse_ok("{\"a\":[1,{\"b\":[]}],\"c\":null}");
    assert_eq!(end, "{\"a\":[1,{\"b\":[]}],\"c\":null}".len());
    match &value {
        Value::Object { members } => {
            assert_eq!(members.len(), 2);
            assert_eq!(members[0].key, b"a".to_vec());
            match &members[0].value {
                Value::Array(elems) => {
                    assert_eq!(elems.len(), 2);
                    assert_eq!(as_f32(&elems[0]), 1.0);
                    assert_eq!(
                        elems[1],
                        Value::Object {
                            members: vec![member("b", Value::Array(vec![]))]
                        }
                    );
                },
                _ => panic!("expected an array node"),
            }
            assert_eq!(members[1], member("c", Value::Null));
        },
        _ => panic!("expected an object node"),
    }
}
