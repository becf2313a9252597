//! Tests for the individual readers and the parsing entry points.

use json_parser::cursor::Cursor;
use json_parser::parser::chars_of_text;
use json_parser::Error;
use json_parser::Json;

#[test]
fn string_parsing() {
    let mut c = Cursor::new(chars_of_text("\"\""));
    assert_eq!(Json::read_string(&mut c).unwrap(), "");
    let mut c = Cursor::new(chars_of_text(""));
    assert!(Json::read_string(&mut c).is_err());
    let mut c = Cursor::new(chars_of_text("\""));
    assert!(Json::read_string(&mut c).is_err());
}

#[test]
fn bool_parsing() {
    let mut c = Cursor::new(chars_of_text("true"));
    assert!(Json::read_bool(&mut c).unwrap());
    let mut c = Cursor::new(chars_of_text("tru"));
    assert!(Json::read_bool(&mut c).is_err());
    let mut c = Cursor::new(chars_of_text("false"));
    assert!(!Json::read_bool(&mut c).unwrap());
    let mut c = Cursor::new(chars_of_text("fals"));
    assert!(Json::read_bool(&mut c).is_err());
}

#[test]
fn null_parsing() {
    let mut c = Cursor::new(chars_of_text("null"));
    Json::read_null(&mut c).unwrap();
    let mut c = Cursor::new(chars_of_text("nu"));
    assert!(Json::read_null(&mut c).is_err());
}

#[test]
fn number_parsing() {
    let mut c = Cursor::new(chars_of_text("-123.456"));
    assert_eq!(
        Json::read_number(&mut c).unwrap().parse::<f64>().unwrap(),
        -123.456
    );
    let mut c = Cursor::new(chars_of_text("hello"));
    assert!(Json::read_number(&mut c).is_err());
}

#[test]
fn list_parsing() {
    let mut c = Cursor::new(chars_of_text("{}"));
    assert!(Json::read_list(&mut c).is_err());
    let mut c = Cursor::new(chars_of_text("[]"));
    assert_eq!(Json::read_list(&mut c).unwrap(), Vec::new());
    let mut c = Cursor::new(chars_of_text("[-654.321, {},[], \"Hello\",false,null]"));
    assert_eq!(
        Json::read_list(&mut c).unwrap(),
        [
            Json::Number("-654.321".to_string()),
            Json::Object(Vec::new()),
            Json::List(Vec::new()),
            Json::String("Hello".to_string()),
            Json::Bool(false),
            Json::Null
        ]
    );
}

#[test]
fn object_parsing() {
    let mut c = Cursor::new(chars_of_text("[]"));
    assert!(Json::read_object(&mut c).is_err());
    let mut c = Cursor::new(chars_of_text("{}"));
    assert_eq!(Json::read_object(&mut c).unwrap(), Vec::new());
    let mut c = Cursor::new(chars_of_text("{\"number\":-123.456,\"object\":{}}"));
    assert_eq!(
        Json::read_object(&mut c).unwrap(),
        Vec::from([
            ("number".to_string(), Json::Number("-123.456".to_string())),
            ("object".to_string(), Json::Object(Vec::new()))
        ])
    );
    let mut c = Cursor::new(chars_of_text(
        "{\"number\":-123.456,\"object\":{},\"list\":[],\"string\": \"Hello\", \"bool\": true ,\"null\":null}",
    ));
    assert_eq!(
        Json::read_object(&mut c).unwrap(),
        Vec::from([
            ("number".to_string(), Json::Number("-123.456".to_string())),
            ("object".to_string(), Json::Object(Vec::new())),
            ("list".to_string(), Json::List(Vec::new())),
            ("string".to_string(), Json::String("Hello".to_string())),
            ("bool".to_string(), Json::Bool(true)),
            ("null".to_string(), Json::Null)
        ])
    );
}

#[test]
fn empty_input_is_unexpected_end_of_file() {
    assert_eq!(Json::from_text(""), Err(Error::UnexpectedEndOfFile));
    assert_eq!(Json::from_text("   \t\n"), Err(Error::UnexpectedEndOfFile));
}

#[test]
fn empty_string_value() {
    assert_eq!(Json::from_text("\"\""), Ok(Json::String(String::new())));
}

#[test]
fn unterminated_string_is_unclosed() {
    assert_eq!(Json::from_text("\"unterminated"), Err(Error::UnclosedString));
    assert_eq!(Json::from_text("\"ends on escape\\"), Err(Error::UnclosedString));
}

#[test]
fn escaped_quote_stays_verbatim() {
    assert_eq!(
        Json::from_text("\"a\\\"b\""),
        Ok(Json::String("a\\\"b".to_string()))
    );
    assert_eq!(
        Json::from_text("\"line\\n\""),
        Ok(Json::String("line\\n".to_string()))
    );
}

#[test]
fn boolean_literals() {
    assert_eq!(Json::from_text("true"), Ok(Json::Bool(true)));
    assert_eq!(Json::from_text("false"), Ok(Json::Bool(false)));
    assert_eq!(Json::from_text("tru"), Err(Error::InvalidValue));
    assert_eq!(Json::from_text("falsy"), Err(Error::InvalidValue));
}

#[test]
fn null_literal() {
    assert_eq!(Json::from_text("null"), Ok(Json::Null));
    assert_eq!(Json::from_text("nul"), Err(Error::InvalidValue));
}

#[test]
fn number_exact_value() {
    let parsed = Json::from_text("-123.456").unwrap();
    assert_eq!(parsed, Json::Number("-123.456".to_string()));
    match parsed {
        Json::Number(text) => assert_eq!(text.parse::<f64>().unwrap(), -123.456),
        _ => panic!("expected a number"),
    }
}

#[test]
fn number_grammar_edges() {
    assert_eq!(Json::from_text(".5"), Ok(Json::Number(".5".to_string())));
    assert_eq!(Json::from_text("5."), Ok(Json::Number("5.".to_string())));
    assert_eq!(Json::from_text("+1"), Ok(Json::Number("+1".to_string())));
    assert_eq!(Json::from_text("."), Err(Error::InvalidValue));
    assert_eq!(Json::from_text("--1"), Err(Error::InvalidValue));
    assert_eq!(Json::from_text("1.2.3"), Err(Error::InvalidValue));
    assert_eq!(Json::from_text("1-2"), Err(Error::InvalidValue));
    // `e` is not a number character, so the number ends before it and the
    // rest is trailing data, which the top-level entry ignores.
    assert_eq!(Json::from_text("1e10"), Ok(Json::Number("1".to_string())));
}

#[test]
fn trailing_comma_is_invalid_value() {
    assert_eq!(Json::from_text("[1, 2,]"), Err(Error::InvalidValue));
    assert_eq!(Json::from_text("{\"a\":1,}"), Err(Error::InvalidValue));
}

#[test]
fn list_of_mixed_values() {
    assert_eq!(
        Json::from_text("[-654.321, {},[], \"Hello\",false,null]"),
        Ok(Json::List(vec![
            Json::Number("-654.321".to_string()),
            Json::Object(Vec::new()),
            Json::List(Vec::new()),
            Json::String("Hello".to_string()),
            Json::Bool(false),
            Json::Null
        ]))
    );
}

#[test]
fn duplicate_keys_are_kept_in_order() {
    assert_eq!(
        Json::from_text("{\"a\":1,\"a\":2}"),
        Ok(Json::Object(vec![
            ("a".to_string(), Json::Number("1".to_string())),
            ("a".to_string(), Json::Number("2".to_string()))
        ]))
    );
}

#[test]
fn missing_comma_is_missing_separator() {
    assert_eq!(Json::from_text("[1 2]"), Err(Error::MissingSeparator));
}

#[test]
fn unclosed_containers() {
    assert_eq!(Json::from_text("[1"), Err(Error::UnclosedList));
    assert_eq!(Json::from_text("{\"a\":1"), Err(Error::UnclosedObject));
    // A list whose input ends where a value should begin.
    assert_eq!(Json::from_text("[ "), Err(Error::UnexpectedEndOfFile));
}

#[test]
fn object_separator_errors() {
    assert_eq!(Json::from_text("{\"a\" 1}"), Err(Error::MissingSeparator));
    assert_eq!(Json::from_text("{\"a\":1;\"b\":2}"), Err(Error::MissingSeparator));
    assert_eq!(Json::from_text("{1:2}"), Err(Error::InvalidValue));
}

#[test]
fn trailing_data_is_ignored() {
    assert_eq!(Json::from_text("true garbage"), Ok(Json::Bool(true)));
    assert_eq!(
        Json::from_text("  [ 1 ]  tail"),
        Ok(Json::List(vec![Json::Number("1".to_string())]))
    );
}

fn render(value: &Json) -> String {
    match value {
        Json::List(items) => {
            let parts: Vec<String> = items.iter().map(render).collect();
            format!("[{}]", parts.join(","))
        }
        Json::Object(entries) => {
            let parts: Vec<String> = entries
                .iter()
                .map(|(key, v)| format!("\"{}\":{}", key, render(v)))
                .collect();
            format!("{{{}}}", parts.join(","))
        }
        Json::String(text) => format!("\"{}\"", text),
        Json::Number(text) => text.clone(),
        Json::Bool(true) => "true".to_string(),
        Json::Bool(false) => "false".to_string(),
        Json::Null => "null".to_string(),
    }
}

#[test]
fn round_trip_through_rendering() {
    let texts = [
        "[-654.321, {},[], \"Hello\",false,null]",
        "{\"a\":1,\"a\":2}",
        "{\"number\":-123.456,\"object\":{},\"list\":[[true]],\"null\":null}",
        "\"plain\"",
        "-0.25",
        "[[[]]]",
    ];
    for text in texts {
        let first = Json::from_text(text).unwrap();
        let second = Json::from_text(&render(&first)).unwrap();
        assert_eq!(first, second);
    }
}

#[test]
fn bytes_agree_with_text() {
    let text = "[-654.321, {},[], \"Hello\",false,null]";
    let from_bytes = Json::from_bytes(text.as_bytes().to_vec());
    let from_text = Json::from_text(text);
    assert_eq!(from_bytes, from_text);
    assert_eq!(
        from_bytes.unwrap(),
        Json::List(vec![
            Json::Number("-654.321".to_string()),
            Json::Object(Vec::new()),
            Json::List(Vec::new()),
            Json::String("Hello".to_string()),
            Json::Bool(false),
            Json::Null
        ])
    );
}

#[test]
fn from_chars_entry_point() {
    assert_eq!(
        Json::from_chars(" null".chars().collect()),
        Ok(Json::Null)
    );
    assert_eq!(
        Json::from_chars(Vec::new()),
        Err(Error::UnexpectedEndOfFile)
    );
}
