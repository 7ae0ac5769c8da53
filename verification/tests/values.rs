use std::collections::HashMap;
use tinyserde::parser::DEFAULT_MAX_DEPTH;
use tinyserde::JsonParser;
use tinyserde::JsonValue;
use tinyserde::ParserError;

fn read(text: &str) -> Result<JsonValue, ParserError> {
    let mut parser = JsonParser {
        input: text.to_string(),
        cursor: 0,
    };
    parser.parse()
}

fn read_with_cursor(text: &str) -> (Result<JsonValue, ParserError>, usize) {
    let mut parser = JsonParser {
        input: text.to_string(),
        cursor: 0,
    };
    let result = parser.parse();
    (result, parser.cursor)
}

fn text(s: &str) -> JsonValue {
    JsonValue::String(s.to_string())
}

fn unexpected(message: &str) -> Result<JsonValue, ParserError> {
    Err(ParserError::ParseError(message.to_string()))
}

fn malformed() -> Result<JsonValue, ParserError> {
    Err(ParserError::InvalidJson("Invalid JSON.".to_string()))
}

fn no_value() -> Result<JsonValue, ParserError> {
    Err(ParserError::ParseHelperFailed(
        "ParseHelper failed.".to_string(),
    ))
}

fn nested_arrays(levels: usize) -> String {
    let mut document = String::new();
    for _ in 0..levels {
        document.push('[');
    }
    for _ in 0..levels {
        document.push(']');
    }
    document
}

#[test]
fn empty_object_is_an_empty_mapping() {
    assert_eq!(read("{}"), Ok(JsonValue::Object(HashMap::new())));
    assert_eq!(read("{ \t\r\n }"), Ok(JsonValue::Object(HashMap::new())));
}

#[test]
fn empty_array_is_an_empty_sequence() {
    assert_eq!(read("[]"), Ok(JsonValue::Array(vec![])));
    assert_eq!(read("[ \t\r\n ]"), Ok(JsonValue::Array(vec![])));
}

#[test]
fn scalars_at_top_level() {
    assert_eq!(read("null"), Ok(JsonValue::Null));
    assert_eq!(read("true"), Ok(JsonValue::Bool(true)));
    assert_eq!(read("false"), Ok(JsonValue::Bool(false)));
    assert_eq!(read("\"abc\""), Ok(text("abc")));
    assert_eq!(read("\"\""), Ok(text("")));
    assert_eq!(read("42"), Ok(JsonValue::Number(42)));
}

#[test]
fn integers_are_read_exactly() {
    assert_eq!(read("0"), Ok(JsonValue::Number(0)));
    assert_eq!(read("10"), Ok(JsonValue::Number(10)));
    assert_eq!(read("100"), Ok(JsonValue::Number(100)));
    assert_eq!(read("105"), Ok(JsonValue::Number(105)));
    assert_eq!(read("-5"), Ok(JsonValue::Number(-5)));
    assert_eq!(read("-0"), Ok(JsonValue::Number(0)));
    assert_eq!(read("007"), Ok(JsonValue::Number(7)));
    assert_eq!(read("-120"), Ok(JsonValue::Number(-120)));
    assert_eq!(read("1234567890"), Ok(JsonValue::Number(1234567890)));
}

#[test]
fn integers_at_the_bounds() {
    assert_eq!(
        read("9223372036854775807"),
        Ok(JsonValue::Number(i64::MAX))
    );
    assert_eq!(
        read("9223372036854775806"),
        Ok(JsonValue::Number(i64::MAX - 1))
    );
    assert_eq!(
        read("-9223372036854775808"),
        Ok(JsonValue::Number(i64::MIN))
    );
    assert_eq!(
        read("-9223372036854775807"),
        Ok(JsonValue::Number(i64::MIN + 1))
    );
}

#[test]
fn integers_beyond_the_bounds_saturate() {
    assert_eq!(
        read("9223372036854775808"),
        Ok(JsonValue::Number(i64::MAX))
    );
    assert_eq!(
        read("-9223372036854775809"),
        Ok(JsonValue::Number(i64::MIN))
    );
    assert_eq!(
        read("99999999999999999999999999999999"),
        Ok(JsonValue::Number(i64::MAX))
    );
    assert_eq!(
        read("-99999999999999999999999999999999"),
        Ok(JsonValue::Number(i64::MIN))
    );
    assert_eq!(
        read("[92233720368547758070, 1]"),
        Ok(JsonValue::Array(vec![
            JsonValue::Number(i64::MAX),
            JsonValue::Number(1)
        ]))
    );
}

#[test]
fn minus_sign_needs_a_digit() {
    assert_eq!(
        read_with_cursor("-"),
        (unexpected("Expected a digit"), 1)
    );
    assert_eq!(
        read_with_cursor("[-]"),
        (unexpected("Expected a digit"), 2)
    );
    assert_eq!(
        read_with_cursor("--1"),
        (unexpected("Expected a digit"), 1)
    );
}

#[test]
fn number_stops_at_the_first_character_that_is_no_digit() {
    assert_eq!(
        read_with_cursor("12.5"),
        (Err(ParserError::ConsumeInputNotFinished(2)), 2)
    );
    assert_eq!(
        read_with_cursor("1-2"),
        (Err(ParserError::ConsumeInputNotFinished(1)), 1)
    );
}

#[test]
fn trailing_data_is_refused() {
    assert_eq!(
        read_with_cursor("123 abc"),
        (Err(ParserError::ConsumeInputNotFinished(4)), 4)
    );
    assert_eq!(
        read_with_cursor("truefalse"),
        (Err(ParserError::ConsumeInputNotFinished(4)), 4)
    );
    assert_eq!(
        read_with_cursor("[] \n ]"),
        (Err(ParserError::ConsumeInputNotFinished(5)), 5)
    );
}

#[test]
fn trailing_whitespace_is_read() {
    assert_eq!(
        read_with_cursor(" \t 123 \r\n "),
        (Ok(JsonValue::Number(123)), 10)
    );
}

#[test]
fn unterminated_object_is_refused() {
    assert_eq!(
        read_with_cursor("{\"a\":1"),
        (unexpected("Expected ','"), 6)
    );
    assert_eq!(
        read_with_cursor("{\"a\":"),
        (no_value(), 5)
    );
    assert_eq!(
        read_with_cursor("{\"a\""),
        (unexpected("Expected ':'"), 4)
    );
    assert_eq!(
        read_with_cursor("{"),
        (unexpected("Expected '\"' "), 1)
    );
}

#[test]
fn unterminated_array_is_refused() {
    assert_eq!(
        read_with_cursor("[1"),
        (unexpected("Expected ',' or ']'"), 2)
    );
    assert_eq!(read_with_cursor("[1,"), (no_value(), 3));
    assert_eq!(read_with_cursor("["), (no_value(), 1));
}

#[test]
fn nothing_to_read() {
    assert_eq!(read_with_cursor(""), (no_value(), 0));
    assert_eq!(read_with_cursor("  \n"), (no_value(), 3));
    assert_eq!(read_with_cursor("  x"), (no_value(), 2));
    assert_eq!(read_with_cursor("|"), (no_value(), 0));
    assert_eq!(read_with_cursor("]"), (no_value(), 0));
}

#[test]
fn trailing_comma_is_malformed() {
    assert_eq!(read_with_cursor("[1,]"), (malformed(), 3));
    assert_eq!(read_with_cursor("[1 , \n ]"), (malformed(), 7));
    assert_eq!(read_with_cursor("{\"a\":1,}"), (malformed(), 7));
    assert_eq!(read_with_cursor("{\"a\":1 ,  }"), (malformed(), 10));
}

#[test]
fn leading_comma_is_no_value() {
    assert_eq!(read_with_cursor("[,1]"), (no_value(), 1));
    assert_eq!(
        read_with_cursor("{,}"),
        (unexpected("Expected '\"' "), 1)
    );
}

#[test]
fn missing_separator_is_refused() {
    assert_eq!(
        read_with_cursor("[1 2]"),
        (unexpected("Expected ',' or ']'"), 3)
    );
    assert_eq!(
        read_with_cursor("{\"a\":1 \"b\":2}"),
        (unexpected("Expected ','"), 7)
    );
    assert_eq!(
        read_with_cursor("{\"a\" 1}"),
        (unexpected("Expected ':'"), 5)
    );
}

#[test]
fn key_must_be_a_string() {
    assert_eq!(
        read_with_cursor("{1:2}"),
        (unexpected("Expected '\"' "), 1)
    );
    assert_eq!(
        read_with_cursor("{\"a\":1, b:2}"),
        (unexpected("Expected '\"' "), 8)
    );
}

#[test]
fn literals_must_match_exactly() {
    assert_eq!(
        read_with_cursor("tru"),
        (unexpected("Expected either true or false"), 0)
    );
    assert_eq!(
        read_with_cursor("[fals]"),
        (unexpected("Expected either true or false"), 1)
    );
    assert_eq!(
        read_with_cursor(" nul"),
        (unexpected("Expected null"), 1)
    );
    assert_eq!(
        read_with_cursor("nill"),
        (unexpected("Expected null"), 0)
    );
    assert_eq!(
        read_with_cursor("True"),
        (no_value(), 0)
    );
}

#[test]
fn literals_after_characters_of_several_bytes() {
    assert_eq!(
        read_with_cursor("[\"\u{e9}\u{4e16}\u{1f600}\", true, null, false, 12]"),
        (
            Ok(JsonValue::Array(vec![
                text("\u{e9}\u{4e16}\u{1f600}"),
                JsonValue::Bool(true),
                JsonValue::Null,
                JsonValue::Bool(false),
                JsonValue::Number(12),
            ])),
            30
        )
    );
}

#[test]
fn cursor_counts_characters() {
    assert_eq!(
        read_with_cursor("\"\u{e9}\u{e9}\" x"),
        (Err(ParserError::ConsumeInputNotFinished(5)), 5)
    );
}

#[test]
fn strings_are_copied() {
    assert_eq!(read("\"efgh\""), Ok(text("efgh")));
    assert_eq!(read("\"a b\tc\""), Ok(text("a b\tc")));
    assert_eq!(read("\"{[,:]}\""), Ok(text("{[,:]}")));
    assert_eq!(read("\"\u{1f600}\""), Ok(text("\u{1f600}")));
}

#[test]
fn simple_escapes_are_decoded() {
    assert_eq!(read(r#""\"""#), Ok(text("\"")));
    assert_eq!(read(r#""\\""#), Ok(text("\\")));
    assert_eq!(read(r#""\/""#), Ok(text("/")));
    assert_eq!(read(r#""\b""#), Ok(text("\u{8}")));
    assert_eq!(read(r#""\f""#), Ok(text("\u{c}")));
    assert_eq!(read(r#""\n""#), Ok(text("\n")));
    assert_eq!(read(r#""\r""#), Ok(text("\r")));
    assert_eq!(read(r#""\t""#), Ok(text("\t")));
    assert_eq!(
        read(r#""a\"b\\c\/d\be\ff\ng\rh\ti""#),
        Ok(text("a\"b\\c/d\u{8}e\u{c}f\ng\rh\ti"))
    );
}

#[test]
fn unicode_escapes_are_decoded() {
    assert_eq!(read(r#""\u0041""#), Ok(text("A")));
    assert_eq!(read(r#""\u00e9""#), Ok(text("\u{e9}")));
    assert_eq!(read(r#""\u00E9""#), Ok(text("\u{e9}")));
    assert_eq!(read(r#""\u4e16\u754C""#), Ok(text("\u{4e16}\u{754c}")));
    assert_eq!(read(r#""\u0000""#), Ok(text("\u{0}")));
    assert_eq!(read(r#""\uFFFF""#), Ok(text("\u{ffff}")));
    assert_eq!(read(r#""\ud7ff\ue000""#), Ok(text("\u{d7ff}\u{e000}")));
    assert_eq!(read(r#""x\u0031y""#), Ok(text("x1y")));
}

#[test]
fn surrogate_pairs_are_decoded() {
    assert_eq!(read(r#""\ud83d\ude00""#), Ok(text("\u{1f600}")));
    assert_eq!(read(r#""\uD83D\uDE00""#), Ok(text("\u{1f600}")));
    assert_eq!(read(r#""\ud800\udc00""#), Ok(text("\u{10000}")));
    assert_eq!(read(r#""\udbff\udfff""#), Ok(text("\u{10ffff}")));
    assert_eq!(
        read_with_cursor(r#""a\ud83d\ude00b""#),
        (Ok(text("a\u{1f600}b")), 16)
    );
}

#[test]
fn lone_surrogates_are_refused() {
    let invalid = unexpected("Invalid escape sequence");
    assert_eq!(read_with_cursor(r#""\ud83d""#), (invalid, 1));
    assert_eq!(
        read_with_cursor(r#""\ude00""#),
        (unexpected("Invalid escape sequence"), 1)
    );
    assert_eq!(
        read_with_cursor(r#""ab\ud83dx""#),
        (unexpected("Invalid escape sequence"), 3)
    );
    assert_eq!(
        read_with_cursor(r#""\ud83d\u0041""#),
        (unexpected("Invalid escape sequence"), 1)
    );
    assert_eq!(
        read_with_cursor(r#""\ud83d\ud83d""#),
        (unexpected("Invalid escape sequence"), 1)
    );
}

#[test]
fn invalid_escapes_are_refused() {
    assert_eq!(
        read_with_cursor(r#""\x41""#),
        (unexpected("Invalid escape sequence"), 1)
    );
    assert_eq!(
        read_with_cursor(r#""ab\q""#),
        (unexpected("Invalid escape sequence"), 3)
    );
    assert_eq!(
        read_with_cursor(r#""\u12""#),
        (unexpected("Invalid escape sequence"), 1)
    );
    assert_eq!(
        read_with_cursor(r#""\u12g4""#),
        (unexpected("Invalid escape sequence"), 1)
    );
    assert_eq!(
        read_with_cursor(r#""\U0041""#),
        (unexpected("Invalid escape sequence"), 1)
    );
    assert_eq!(
        read_with_cursor("\"\\"),
        (unexpected("Invalid escape sequence"), 1)
    );
}

#[test]
fn unterminated_strings_are_refused() {
    assert_eq!(
        read_with_cursor("\"abc"),
        (unexpected("Unterminated string"), 4)
    );
    assert_eq!(
        read_with_cursor("\""),
        (unexpected("Unterminated string"), 1)
    );
    assert_eq!(
        read_with_cursor(r#""abc\""#),
        (unexpected("Unterminated string"), 6)
    );
    assert_eq!(
        read_with_cursor("{\"a"),
        (unexpected("Unterminated string"), 3)
    );
}

#[test]
fn object_with_two_numbers() {
    assert_eq!(
        read("{ \"foo\": 123 \n, \"bar\": 456 }"),
        Ok(JsonValue::Object(HashMap::from([
            ("foo".to_string(), JsonValue::Number(123)),
            ("bar".to_string(), JsonValue::Number(456)),
        ])))
    );
}

#[test]
fn array_of_seven_elements_in_source_order() {
    let expected = JsonValue::Array(vec![
        JsonValue::Object(HashMap::from([("foo".to_string(), JsonValue::Null)])),
        JsonValue::Object(HashMap::from([("bar".to_string(), JsonValue::Number(123))])),
        JsonValue::Object(HashMap::from([("baz".to_string(), text("abcde"))])),
        JsonValue::Number(345),
        text("efgh"),
        JsonValue::Null,
        JsonValue::Bool(false),
    ]);
    assert_eq!(
        read_with_cursor(
            "[{\"foo\":null},{\"bar\":123},{\"baz\":\"abcde\"},345,\"efgh\",null,false]"
        ),
        (Ok(expected), 64)
    );
}

#[test]
fn array_order_is_kept() {
    assert_eq!(
        read("[3,1,2]"),
        Ok(JsonValue::Array(vec![
            JsonValue::Number(3),
            JsonValue::Number(1),
            JsonValue::Number(2),
        ]))
    );
    assert_ne!(
        read("[1,2,3]"),
        Ok(JsonValue::Array(vec![
            JsonValue::Number(3),
            JsonValue::Number(1),
            JsonValue::Number(2),
        ]))
    );
}

#[test]
fn object_order_does_not_matter() {
    assert_eq!(read("{\"a\":1,\"b\":2}"), read("{\"b\":2,\"a\":1}"));
}

#[test]
fn duplicate_key_keeps_the_last_value() {
    assert_eq!(
        read("{\"a\":1,\"a\":2}"),
        Ok(JsonValue::Object(HashMap::from([(
            "a".to_string(),
            JsonValue::Number(2)
        )])))
    );
    assert_eq!(
        read("{\"a\":1,\"b\":true,\"a\":[],\"b\":null,\"a\":\"z\"}"),
        Ok(JsonValue::Object(HashMap::from([
            ("a".to_string(), text("z")),
            ("b".to_string(), JsonValue::Null),
        ])))
    );
}

#[test]
fn escaped_key_equals_plain_key() {
    assert_eq!(
        read(r#"{"a":1,"\u0061":2}"#),
        Ok(JsonValue::Object(HashMap::from([(
            "a".to_string(),
            JsonValue::Number(2)
        )])))
    );
}

#[test]
fn whitespace_between_tokens_changes_nothing() {
    let compact = read("{\"a\":[1,true,null,\"x y\"],\"b\":{\"c\":-7}}");
    let spaced = read(
        " \n{\t\"a\" \r\n: [ 1 ,\ttrue\n,\r null , \"x y\" ] ,\n\n \"b\" :{ \"c\"\t:\t-7\n}\r\n}\t ",
    );
    assert!(compact.is_ok());
    assert_eq!(compact, spaced);
    assert_eq!(
        compact,
        Ok(JsonValue::Object(HashMap::from([
            (
                "a".to_string(),
                JsonValue::Array(vec![
                    JsonValue::Number(1),
                    JsonValue::Bool(true),
                    JsonValue::Null,
                    text("x y"),
                ])
            ),
            (
                "b".to_string(),
                JsonValue::Object(HashMap::from([(
                    "c".to_string(),
                    JsonValue::Number(-7)
                )]))
            ),
        ])))
    );
}

#[test]
fn whitespace_inside_a_string_is_kept() {
    assert_ne!(read("\"x y\""), read("\"x  y\""));
    assert_eq!(read("\" \t\""), Ok(text(" \t")));
}

#[test]
fn other_separators_are_no_whitespace() {
    assert_eq!(read_with_cursor("\u{a0}1"), (no_value(), 0));
    assert_eq!(read_with_cursor("\u{b}1"), (no_value(), 0));
    assert_eq!(
        read_with_cursor("1\u{c}"),
        (Err(ParserError::ConsumeInputNotFinished(1)), 1)
    );
}

#[test]
fn depth_limit_is_configurable() {
    let mut parser = JsonParser {
        input: "[[1]]".to_string(),
        cursor: 0,
    };
    assert_eq!(
        parser.parse_with_max_depth(1),
        Err(ParserError::DepthExceeded)
    );
    assert_eq!(parser.cursor, 1);

    let mut parser = JsonParser {
        input: "[[1]]".to_string(),
        cursor: 0,
    };
    assert_eq!(
        parser.parse_with_max_depth(2),
        Ok(JsonValue::Array(vec![JsonValue::Array(vec![
            JsonValue::Number(1)
        ])]))
    );

    let mut parser = JsonParser {
        input: "{\"a\":{\"b\":[]}}".to_string(),
        cursor: 0,
    };
    assert_eq!(
        parser.parse_with_max_depth(2),
        Err(ParserError::DepthExceeded)
    );
    assert_eq!(parser.cursor, 10);
}

#[test]
fn depth_zero_reads_scalars_only() {
    let mut parser = JsonParser {
        input: " 17 ".to_string(),
        cursor: 0,
    };
    assert_eq!(parser.parse_with_max_depth(0), Ok(JsonValue::Number(17)));

    let mut parser = JsonParser {
        input: "[]".to_string(),
        cursor: 0,
    };
    assert_eq!(
        parser.parse_with_max_depth(0),
        Err(ParserError::DepthExceeded)
    );
    assert_eq!(parser.cursor, 0);

    let mut parser = JsonParser {
        input: "{}".to_string(),
        cursor: 0,
    };
    assert_eq!(
        parser.parse_with_max_depth(0),
        Err(ParserError::DepthExceeded)
    );
}

#[test]
fn depth_counts_nesting_not_siblings() {
    let mut parser = JsonParser {
        input: "[[],[],{},[1,2],{\"a\":3}]".to_string(),
        cursor: 0,
    };
    assert!(parser.parse_with_max_depth(2).is_ok());
}

#[test]
fn default_depth_limit() {
    assert_eq!(DEFAULT_MAX_DEPTH, 128);
    assert!(read(&nested_arrays(DEFAULT_MAX_DEPTH)).is_ok());
    assert_eq!(
        read_with_cursor(&nested_arrays(DEFAULT_MAX_DEPTH + 1)),
        (Err(ParserError::DepthExceeded), DEFAULT_MAX_DEPTH)
    );
}

#[test]
fn very_deep_nesting_fails_without_overflowing_the_stack() {
    let mut document = String::new();
    for _ in 0..200_000 {
        document.push('[');
    }
    assert_eq!(read(&document), Err(ParserError::DepthExceeded));
    let mut document = String::new();
    for _ in 0..100_000 {
        document.push_str("{\"k\":");
    }
    assert_eq!(read(&document), Err(ParserError::DepthExceeded));
}

#[test]
fn error_before_the_deep_part_comes_first() {
    let mut parser = JsonParser {
        input: "[x,[[[]]]]".to_string(),
        cursor: 0,
    };
    assert_eq!(parser.parse_with_max_depth(1), no_value());
}

#[test]
fn nested_error_surfaces_unchanged() {
    assert_eq!(
        read_with_cursor("[1,{\"a\":[true,{\"b\":tru}]}]"),
        (unexpected("Expected either true or false"), 19)
    );
    assert_eq!(
        read_with_cursor("{\"a\":{\"b\":[1,]}}"),
        (malformed(), 13)
    );
}

#[test]
fn parse_starts_at_the_cursor() {
    let mut parser = JsonParser {
        input: "xx 12".to_string(),
        cursor: 2,
    };
    assert_eq!(parser.parse(), Ok(JsonValue::Number(12)));
    assert_eq!(parser.cursor, 5);
    assert_eq!(parser.input, "xx 12");
}

#[test]
fn cursor_past_the_end_reads_nothing() {
    let mut parser = JsonParser {
        input: "12".to_string(),
        cursor: 2,
    };
    assert_eq!(parser.parse(), no_value());
    assert_eq!(parser.cursor, 2);

    let mut parser = JsonParser {
        input: "12".to_string(),
        cursor: 7,
    };
    assert_eq!(parser.parse(), no_value());
    assert_eq!(parser.cursor, 7);
}

#[test]
fn cursor_never_moves_back() {
    let documents = [
        "", " ", "1", "[1, 2", "{\"a\": 1} x", "\"ab", "[[[", "nul", "{\"a\":1,}",
    ];
    for document in documents {
        for start in 0..document.len() + 2 {
            let mut parser = JsonParser {
                input: document.to_string(),
                cursor: start,
            };
            let _ = parser.parse();
            assert!(parser.cursor >= start);
            if start <= document.len() {
                assert!(parser.cursor <= document.len());
            }
        }
    }
}
