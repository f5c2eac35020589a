use cursor_optimizer::json::{boolean, number_from_integer, parse, text, Value};

#[test]
fn round_trips_object() {
    let parsed = match parse(r#"{"name":"cursor","count":3,"nested":[1,2,3]}"#) {
        Ok(value) => value,
        Err(error) => panic!("{} at {}", error.message, error.position),
    };
    assert_eq!(parsed.get("name").and_then(Value::as_text), Some("cursor"));
    let count = parsed.get("count").and_then(Value::number_text).map(|digits| digits.parse::<f64>().unwrap() as i64);
    assert_eq!(count, Some(3));
}

#[test]
fn escapes_output() {
    let value = Value::Text("line\nbreak\"quote".to_string());
    assert_eq!(value.to_json_string(), r#""line\nbreak\"quote""#);
}

#[test]
fn parses_unicode_escape() {
    let parsed = match parse(r#""\uD83D\uDE00""#) {
        Ok(value) => value,
        Err(error) => panic!("{} at {}", error.message, error.position),
    };
    assert_eq!(parsed.as_text(), Some("\u{1F600}"));
}

#[test]
fn writes_documents_without_white_space() {
    let value = Value::Object(vec![
        ("a".to_string(), number_from_integer(-5)),
        ("b".to_string(), Value::Array(vec![boolean(true), Value::Null, text("x")])),
        ("c".to_string(), text("\u{1}\t")),
    ]);
    assert_eq!(value.to_json_string(), r#"{"a":-5,"b":[true,null,"x"],"c":"\u0001\t"}"#);
}

#[test]
fn large_integers_are_written_as_doubles() {
    assert_eq!(number_from_integer(9_007_199_254_740_993).to_json_string(), "9007199254740992");
    assert_eq!(number_from_integer(i64::MIN).to_json_string(), "-9223372036854776000");
    assert_eq!(number_from_integer(i64::MAX).to_json_string(), "9223372036854776000");
    assert_eq!(number_from_integer(9_007_199_254_740_994).to_json_string(), "9007199254740994");
    assert_eq!(number_from_integer(123_456_789_012_345_678).to_json_string(), "123456789012345680");
    assert_eq!(number_from_integer(100_000_000_000_000_000).to_json_string(), "100000000000000000");
    assert_eq!(number_from_integer(-9_007_199_254_740_991).to_json_string(), "-9007199254740991");
}

#[test]
fn parse_errors_name_the_place() {
    match parse("[1,") {
        Ok(_) => panic!("accepted a truncated array"),
        Err(error) => assert_eq!(error.position, 3),
    }
    assert!(parse("{\"a\" 1}").is_err());
    assert!(parse("tru").is_err());
    assert!(parse("1 2").is_err());
}

#[test]
fn parsed_documents_write_back_the_same() {
    let source = r#"{"k":[1.5e3,-0,"é\n",{"z":false}],"n":null}"#;
    let parsed = parse(source).ok().unwrap();
    assert_eq!(parsed.to_json_string(), source);
    let again = parse(&parsed.to_json_string()).ok().unwrap();
    assert_eq!(again.to_json_string(), source);
}

#[test]
fn lookups_take_the_first_member() {
    let parsed = parse(r#"{"a":1,"a":true}"#).ok().unwrap();
    assert_eq!(parsed.get("a").and_then(Value::number_text), Some("1"));
    assert_eq!(parsed.get("missing").is_none(), true);
    assert_eq!(Value::Null.get("a").is_none(), true);
}

#[test]
fn written_documents_read_back() {
    let value = Value::Object(vec![
        ("quote \" and \\ slash /".to_string(), text("tab\t bell\u{7} é 😀")),
        ("numbers".to_string(), Value::Array(vec![number_from_integer(-42), number_from_integer(0), number_from_integer(9_007_199_254_740_993)])),
        ("nested".to_string(), Value::Object(vec![("".to_string(), Value::Array(vec![])), ("f".to_string(), boolean(false))])),
        ("none".to_string(), Value::Null),
    ]);
    let written = value.to_json_string();
    let read = match parse(&written) {
        Ok(read) => read,
        Err(error) => panic!("{} at {}", error.message, error.position),
    };
    assert_eq!(read.to_json_string(), written);
    assert_eq!(read.get("quote \" and \\ slash /").and_then(Value::as_text), Some("tab\t bell\u{7} é 😀"));
    assert_eq!(read.get("none").map(|found| matches!(found, Value::Null)), Some(true));
}
