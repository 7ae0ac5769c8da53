use std::collections::HashMap;
use tinyserde::JsonParser;
use tinyserde::JsonValue;

#[test]
fn test_parse_json_obj_with_number() {
    let json_input = "{ \"foo\": 123 \n, \"bar\":    456 }".to_string();
    let mut parser = JsonParser {
        input: json_input,
        cursor: 0,
    };
    let expected_value = JsonValue::Object(HashMap::from([
        ("foo".to_string(), JsonValue::Number(123)),
        ("bar".to_string(), JsonValue::Number(456)),
    ]));
    match parser.parse() {
        Ok(value) => assert_eq!(value, expected_value),
        Err(_) => assert!(false),
    }
}

#[test]
fn test_parse_json_obj_with_string() {
    let json_input = "{ \"foo\": \"abcde\" }".to_string();
    let mut parser = JsonParser {
        input: json_input,
        cursor: 0,
    };
    let expected_value = JsonValue::Object(HashMap::from([(
        "foo".to_string(),
        JsonValue::String("abcde".to_string()),
    )]));
    match parser.parse() {
        Ok(value) => assert_eq!(value, expected_value),
        Err(_) => assert!(false),
    };
}

#[test]
fn test_parse_json_obj_with_bool() {
    let json_input = "{ \"foo\": false }".to_string();
    let mut parser = JsonParser {
        input: json_input,
        cursor: 0,
    };
    let expected_value =
        JsonValue::Object(HashMap::from([("foo".to_string(), JsonValue::Bool(false))]));
    match parser.parse() {
        Ok(value) => assert_eq!(value, expected_value),
        Err(_) => assert!(false),
    };
}

#[test]
fn test_parse_json_obj_with_null() {
    let json_input = "{ \"foo\": null }".to_string();
    let mut parser = JsonParser {
        input: json_input,
        cursor: 0,
    };
    let expected_value = JsonValue::Object(HashMap::from([("foo".to_string(), JsonValue::Null)]));
    match parser.parse() {
        Ok(value) => assert_eq!(value, expected_value),
        Err(_) => assert!(false),
    };
}

#[test]
fn test_parse_json_obj_with_array() {
    let json_input = "
[
  	{
		\"foo\": null
	},
	{
		\"bar\": 123
	},
	{
		\"baz\": \"abcde\"
	},
	345,
	\"efgh\",
	null,
	false
]
"
    .to_string();
    let mut parser = JsonParser {
        input: json_input,
        cursor: 0,
    };
    let expected_value = JsonValue::Array(vec![
        JsonValue::Object(HashMap::from([("foo".to_string(), JsonValue::Null)])),
        JsonValue::Object(HashMap::from([("bar".to_string(), JsonValue::Number(123))])),
        JsonValue::Object(HashMap::from([(
            "baz".to_string(),
            JsonValue::String("abcde".to_string()),
        )])),
        JsonValue::Number(345),
        JsonValue::String("efgh".to_string()),
        JsonValue::Null,
        JsonValue::Bool(false),
    ]);
    match parser.parse() {
        Ok(value) => assert_eq!(value, expected_value),
        Err(_) => assert!(false),
    };
}
