//! JSON reading and writing.
use thumos::json_mini::{JsonError, JsonParser, JsonValue, JsonWriter, MAX_DEPTH};

#[test]
fn write_empty_object() {
    let mut w = JsonWriter::new();
    w.object_start();
    w.end();
    assert_eq!(w.finish(), "{}");
}

#[test]
fn write_empty_array() {
    let mut w = JsonWriter::new();
    w.array_start();
    w.end();
    assert_eq!(w.finish(), "[]");
}

#[test]
fn write_simple_object() {
    let mut w = JsonWriter::new();
    w.object_start();
    w.key("name");
    w.string_value("Alice");
    w.key("age");
    w.number_value(30);
    w.end();
    assert_eq!(w.finish(), r#"{"name":"Alice","age":30}"#);
}

#[test]
fn write_matrix_message_event() {
    let mut w = JsonWriter::new();
    w.object_start();
    w.key("msgtype");
    w.string_value("m.text");
    w.key("body");
    w.string_value("Hello from Thumos");
    w.end();
    let json = w.finish();
    assert_eq!(json, r#"{"msgtype":"m.text","body":"Hello from Thumos"}"#);
}

#[test]
fn write_nested_object() {
    let mut w = JsonWriter::new();
    w.object_start();
    w.key("outer");
    w.object_start();
    w.key("inner");
    w.string_value("value");
    w.end();
    w.end();
    assert_eq!(w.finish(), r#"{"outer":{"inner":"value"}}"#);
}

#[test]
fn write_array_of_strings() {
    let mut w = JsonWriter::new();
    w.array_start();
    w.string_value("one");
    w.string_value("two");
    w.string_value("three");
    w.end();
    assert_eq!(w.finish(), r#"["one","two","three"]"#);
}

#[test]
fn write_array_of_numbers() {
    let mut w = JsonWriter::new();
    w.array_start();
    w.number_value(1);
    w.number_value(2);
    w.number_value(3);
    w.end();
    assert_eq!(w.finish(), "[1,2,3]");
}

#[test]
fn write_mixed_array() {
    let mut w = JsonWriter::new();
    w.array_start();
    w.string_value("text");
    w.number_value(42);
    w.bool_value(true);
    w.null_value();
    w.end();
    assert_eq!(w.finish(), r#"["text",42,true,null]"#);
}

#[test]
fn write_bool_values() {
    let mut w = JsonWriter::new();
    w.object_start();
    w.key("yes");
    w.bool_value(true);
    w.key("no");
    w.bool_value(false);
    w.end();
    assert_eq!(w.finish(), r#"{"yes":true,"no":false}"#);
}

#[test]
fn write_null() {
    let mut w = JsonWriter::new();
    w.object_start();
    w.key("value");
    w.null_value();
    w.end();
    assert_eq!(w.finish(), r#"{"value":null}"#);
}

#[test]
fn write_negative_number() {
    let mut w = JsonWriter::new();
    w.object_start();
    w.key("n");
    w.number_value(-42);
    w.end();
    assert_eq!(w.finish(), r#"{"n":-42}"#);
}

#[test]
fn write_string_escapes() {
    let mut w = JsonWriter::new();
    w.object_start();
    w.key("msg");
    w.string_value("line1\nline2\ttab\"quote\\backslash");
    w.end();
    assert_eq!(
        w.finish(),
        r#"{"msg":"line1\nline2\ttab\"quote\\backslash"}"#
    );
}

#[test]
fn write_object_in_array() {
    let mut w = JsonWriter::new();
    w.array_start();
    w.object_start();
    w.key("id");
    w.number_value(1);
    w.end();
    w.object_start();
    w.key("id");
    w.number_value(2);
    w.end();
    w.end();
    assert_eq!(w.finish(), r#"[{"id":1},{"id":2}]"#);
}

#[test]
fn write_raw_value() {
    let mut w = JsonWriter::new();
    w.object_start();
    w.key("data");
    w.raw_value("[1,2,3]");
    w.end();
    assert_eq!(w.finish(), r#"{"data":[1,2,3]}"#);
}

#[test]
fn writer_len_and_empty() {
    let w = JsonWriter::new();
    assert!(w.is_empty());
    assert_eq!(w.len(), 0);
}

#[test]
fn writer_display() {
    let mut w = JsonWriter::new();
    w.object_start();
    w.key("k");
    w.string_value("v");
    w.end();
    assert_eq!(w.to_string(), r#"{"k":"v"}"#);
}

#[test]
fn write_matrix_login_request() {
    let mut w = JsonWriter::new();
    w.object_start();
    w.key("type");
    w.string_value("m.login.password");
    w.key("identifier");
    w.object_start();
    w.key("type");
    w.string_value("m.id.user");
    w.key("user");
    w.string_value("@thumos:matrix.local.lan");
    w.end();
    w.key("password");
    w.string_value("secret123");
    w.key("initial_device_display_name");
    w.string_value("Thumos Phone");
    w.end();
    let json = w.finish();

    let parsed = JsonParser::parse(json.as_bytes());
    assert!(parsed.is_ok(), "Failed to parse: {json}");
    let val = parsed.ok().unwrap();
    assert_eq!(
        val.get("type").and_then(JsonValue::as_str),
        Some("m.login.password")
    );
    assert_eq!(
        val.get("initial_device_display_name")
            .and_then(JsonValue::as_str),
        Some("Thumos Phone")
    );
}

#[test]
fn write_matrix_encrypted_event() {
    let mut w = JsonWriter::new();
    w.object_start();
    w.key("algorithm");
    w.string_value("m.megolm.v1.aes-sha2");
    w.key("ciphertext");
    w.string_value("AwgBEoABzQ...");
    w.key("device_id");
    w.string_value("THUMOS001");
    w.key("sender_key");
    w.string_value("Curve25519Key...");
    w.key("session_id");
    w.string_value("session123");
    w.end();
    let json = w.finish();
    let parsed = JsonParser::parse(json.as_bytes());
    assert!(parsed.is_ok());
}

#[test]
fn parse_null() {
    let val = JsonParser::parse(b"null");
    assert_eq!(val, Ok(JsonValue::Null));
}

#[test]
fn parse_true() {
    let val = JsonParser::parse(b"true");
    assert_eq!(val, Ok(JsonValue::Bool(true)));
}

#[test]
fn parse_false() {
    let val = JsonParser::parse(b"false");
    assert_eq!(val, Ok(JsonValue::Bool(false)));
}

#[test]
fn parse_positive_number() {
    let val = JsonParser::parse(b"42");
    assert_eq!(val, Ok(JsonValue::Number(42)));
}

#[test]
fn parse_negative_number() {
    let val = JsonParser::parse(b"-7");
    assert_eq!(val, Ok(JsonValue::Number(-7)));
}

#[test]
fn parse_zero() {
    let val = JsonParser::parse(b"0");
    assert_eq!(val, Ok(JsonValue::Number(0)));
}

#[test]
fn parse_leading_zero_rejected() {
    let val = JsonParser::parse(b"007");
    assert_eq!(val, Err(JsonError::InvalidNumber));
}

#[test]
fn parse_simple_string() {
    let val = JsonParser::parse(b"\"hello\"");
    assert_eq!(val, Ok(JsonValue::String(String::from("hello"))));
}

#[test]
fn parse_string_with_escapes() {
    let val = JsonParser::parse(b"\"line1\\nline2\\ttab\\\"quote\"");
    assert!(val.is_ok());
    let s = val.ok().unwrap();
    assert_eq!(s.as_str(), Some("line1\nline2\ttab\"quote"));
}

#[test]
fn parse_string_unicode_escape() {
    let val = JsonParser::parse(b"\"\\u0041\"");
    assert_eq!(val, Ok(JsonValue::String(String::from("A"))));
}

#[test]
fn parse_empty_string() {
    let val = JsonParser::parse(b"\"\"");
    assert_eq!(val, Ok(JsonValue::String(String::new())));
}

#[test]
fn parse_empty_object() {
    let val = JsonParser::parse(b"{}");
    assert_eq!(val, Ok(JsonValue::Object(Vec::new())));
}

#[test]
fn parse_empty_array() {
    let val = JsonParser::parse(b"[]");
    assert_eq!(val, Ok(JsonValue::Array(Vec::new())));
}

#[test]
fn parse_simple_object() {
    let json = br#"{"name":"Alice","age":30}"#;
    let val = JsonParser::parse(json);
    assert!(val.is_ok());
    let val = val.ok().unwrap();
    assert_eq!(val.get("name").and_then(JsonValue::as_str), Some("Alice"));
    assert_eq!(val.get("age").and_then(JsonValue::as_i64), Some(30));
}

#[test]
fn parse_nested_object() {
    let json = br#"{"outer":{"inner":"value"}}"#;
    let val = JsonParser::parse(json);
    assert!(val.is_ok());
    let val = val.ok().unwrap();
    let outer = val.get("outer");
    assert!(outer.is_some());
    assert_eq!(
        outer.and_then(|o| o.get("inner")).and_then(JsonValue::as_str),
        Some("value")
    );
}

#[test]
fn parse_array_of_numbers() {
    let json = b"[1,2,3]";
    let val = JsonParser::parse(json);
    assert!(val.is_ok());
    let val = val.ok().unwrap();
    let arr = val.as_array();
    assert!(arr.is_some());
    let arr = arr.unwrap();
    assert_eq!(arr.len(), 3);
    assert_eq!(arr[0].as_i64(), Some(1));
    assert_eq!(arr[1].as_i64(), Some(2));
    assert_eq!(arr[2].as_i64(), Some(3));
}

#[test]
fn parse_whitespace_tolerant() {
    let json = b"  {  \"key\"  :  \"value\"  }  ";
    let val = JsonParser::parse(json);
    assert!(val.is_ok());
    let val = val.ok().unwrap();
    assert_eq!(val.get("key").and_then(JsonValue::as_str), Some("value"));
}

#[test]
fn parse_matrix_message_event() {
    let json = br#"{"msgtype":"m.text","body":"Hello from Thumos"}"#;
    let val = JsonParser::parse(json);
    assert!(val.is_ok());
    let val = val.ok().unwrap();
    assert_eq!(
        val.get("msgtype").and_then(JsonValue::as_str),
        Some("m.text")
    );
    assert_eq!(
        val.get("body").and_then(JsonValue::as_str),
        Some("Hello from Thumos")
    );
}

#[test]
fn parse_matrix_sync_envelope() {
    let json = br#"{
        "next_batch": "s72595_4483_1934",
        "rooms": {
            "join": {
                "!room:example.com": {
                    "timeline": {
                        "events": [
                            {
                                "type": "m.room.message",
                                "sender": "@alice:example.com",
                                "content": {
                                    "msgtype": "m.text",
                                    "body": "hello"
                                },
                                "origin_server_ts": 1234567890,
                                "event_id": "$event1"
                            }
                        ]
                    }
                }
            }
        }
    }"#;
    let val = JsonParser::parse(json);
    assert!(val.is_ok());
    let val = val.ok().unwrap();

    assert_eq!(
        val.get("next_batch").and_then(JsonValue::as_str),
        Some("s72595_4483_1934")
    );

    let rooms = val.get("rooms");
    assert!(rooms.is_some());
    let join = rooms.and_then(|r| r.get("join"));
    assert!(join.is_some());
    let room = join.and_then(|j| j.get("!room:example.com"));
    assert!(room.is_some());
    let timeline = room.and_then(|r| r.get("timeline"));
    assert!(timeline.is_some());
    let events = timeline.and_then(|t| t.get("events"));
    assert!(events.is_some());
    let events_arr = events.and_then(JsonValue::as_array);
    assert!(events_arr.is_some());
    let events_arr = events_arr.unwrap();
    assert_eq!(events_arr.len(), 1);

    let event = &events_arr[0];
    assert_eq!(
        event.get("type").and_then(JsonValue::as_str),
        Some("m.room.message")
    );
    assert_eq!(
        event.get("origin_server_ts").and_then(JsonValue::as_i64),
        Some(1_234_567_890)
    );
    let content = event.get("content");
    assert_eq!(
        content.and_then(|c| c.get("body")).and_then(JsonValue::as_str),
        Some("hello")
    );
}

#[test]
fn roundtrip_simple_object() {
    let mut w = JsonWriter::new();
    w.object_start();
    w.key("key");
    w.string_value("value");
    w.key("num");
    w.number_value(42);
    w.key("flag");
    w.bool_value(true);
    w.key("nil");
    w.null_value();
    w.end();
    let json = w.finish();

    let parsed = JsonParser::parse(json.as_bytes());
    assert!(parsed.is_ok());
    let val = parsed.ok().unwrap();
    assert_eq!(val.get("key").and_then(JsonValue::as_str), Some("value"));
    assert_eq!(val.get("num").and_then(JsonValue::as_i64), Some(42));
    assert_eq!(val.get("flag").and_then(JsonValue::as_bool), Some(true));
    assert!(val.get("nil").map_or(false, JsonValue::is_null));
}

#[test]
fn roundtrip_nested_structure() {
    let mut w = JsonWriter::new();
    w.object_start();
    w.key("rooms");
    w.object_start();
    w.key("join");
    w.object_start();
    w.key("!room:ex.com");
    w.object_start();
    w.key("events");
    w.array_start();
    w.object_start();
    w.key("type");
    w.string_value("m.room.message");
    w.key("ts");
    w.number_value(1_700_000_000);
    w.end();
    w.end();
    w.end();
    w.end();
    w.end();
    w.end();
    let json = w.finish();

    let parsed = JsonParser::parse(json.as_bytes());
    assert!(parsed.is_ok());
    let val = parsed.ok().unwrap();
    let ts = val
        .get("rooms")
        .and_then(|r| r.get("join"))
        .and_then(|j| j.get("!room:ex.com"))
        .and_then(|room| room.get("events"))
        .and_then(JsonValue::as_array)
        .and_then(|events| events.first())
        .and_then(|e| e.get("ts"))
        .and_then(JsonValue::as_i64);
    assert_eq!(ts, Some(1_700_000_000));
}

#[test]
fn roundtrip_array_of_mixed() {
    let mut w = JsonWriter::new();
    w.array_start();
    w.string_value("text");
    w.number_value(-1);
    w.bool_value(false);
    w.null_value();
    w.array_start();
    w.number_value(1);
    w.number_value(2);
    w.end();
    w.end();
    let json = w.finish();

    let parsed = JsonParser::parse(json.as_bytes());
    assert!(parsed.is_ok());
    let val = parsed.ok().unwrap();
    let arr = val.as_array();
    assert!(arr.is_some());
    let arr = arr.unwrap();
    assert_eq!(arr.len(), 5);
    assert_eq!(arr[0].as_str(), Some("text"));
    assert_eq!(arr[1].as_i64(), Some(-1));
    assert_eq!(arr[2].as_bool(), Some(false));
    assert!(arr[3].is_null());
    assert!(arr[4].as_array().is_some());
}

#[test]
fn parse_empty_input() {
    assert_eq!(JsonParser::parse(b""), Err(JsonError::Empty));
}

#[test]
fn parse_whitespace_only() {
    assert_eq!(JsonParser::parse(b"   "), Err(JsonError::Empty));
}

#[test]
fn parse_trailing_data() {
    assert_eq!(JsonParser::parse(b"42 extra"), Err(JsonError::TrailingData));
}

#[test]
fn parse_unterminated_string() {
    assert_eq!(
        JsonParser::parse(b"\"no end"),
        Err(JsonError::UnterminatedString)
    );
}

#[test]
fn parse_invalid_escape() {
    assert_eq!(
        JsonParser::parse(b"\"bad \\x escape\""),
        Err(JsonError::InvalidEscape)
    );
}

#[test]
fn parse_invalid_unicode_escape() {
    assert_eq!(
        JsonParser::parse(b"\"\\uGGGG\""),
        Err(JsonError::InvalidUnicodeEscape)
    );
}

#[test]
fn parse_missing_colon() {
    assert_eq!(
        JsonParser::parse(b"{\"key\" \"value\"}"),
        Err(JsonError::ExpectedColon)
    );
}

#[test]
fn parse_missing_comma_in_object() {
    assert_eq!(
        JsonParser::parse(br#"{"a":1 "b":2}"#),
        Err(JsonError::ExpectedCommaOrEnd)
    );
}

#[test]
fn parse_missing_comma_in_array() {
    assert_eq!(
        JsonParser::parse(b"[1 2]"),
        Err(JsonError::ExpectedCommaOrEnd)
    );
}

#[test]
fn parse_invalid_literal() {
    assert_eq!(
        JsonParser::parse(b"nope"),
        Err(JsonError::InvalidLiteral)
    );
}

#[test]
fn parse_key_not_string() {
    assert_eq!(
        JsonParser::parse(b"{42:\"value\"}"),
        Err(JsonError::KeyNotString)
    );
}

#[test]
fn json_error_display() {
    assert_eq!(JsonError::Empty.to_string(), "empty JSON input");
    assert_eq!(
        JsonError::UnterminatedString.to_string(),
        "unterminated string"
    );
}

#[test]
fn json_value_display_null() {
    assert_eq!(JsonValue::Null.to_string(), "null");
}

#[test]
fn json_value_display_bool() {
    assert_eq!(JsonValue::Bool(true).to_string(), "true");
    assert_eq!(JsonValue::Bool(false).to_string(), "false");
}

#[test]
fn json_value_display_number() {
    assert_eq!(JsonValue::Number(42).to_string(), "42");
    assert_eq!(JsonValue::Number(-7).to_string(), "-7");
}

#[test]
fn json_value_display_string() {
    assert_eq!(
        JsonValue::String(String::from("hello")).to_string(),
        "\"hello\""
    );
}

#[test]
fn json_value_accessor_none_on_wrong_type() {
    let n = JsonValue::Number(42);
    assert_eq!(n.as_str(), None);
    assert_eq!(n.as_bool(), None);
    assert_eq!(n.as_array(), None);
    assert_eq!(n.as_object(), None);
    assert_eq!(n.get("key"), None);
    assert!(!n.is_null());
}

#[test]
fn large_timestamp_roundtrip() {
    let ts: i64 = 1_700_000_000_000;
    let mut w = JsonWriter::new();
    w.object_start();
    w.key("ts");
    w.number_value(ts);
    w.end();
    let json = w.finish();
    let parsed = JsonParser::parse(json.as_bytes()).ok().unwrap();
    assert_eq!(parsed.get("ts").and_then(JsonValue::as_i64), Some(ts));
}

/// A text of arrays nested to a depth.
fn nested(depth: usize) -> String {
    let mut text = "[".repeat(depth);
    text.push_str(&"]".repeat(depth));
    text
}

#[test]
fn nesting_is_bounded() {
    assert!(JsonParser::parse(nested(MAX_DEPTH).as_bytes()).is_ok());
    assert_eq!(
        JsonParser::parse(nested(MAX_DEPTH + 1).as_bytes()),
        Err(JsonError::TooDeep)
    );
    let mut objects = r#"{"a":"#.repeat(MAX_DEPTH + 1);
    objects.push('1');
    assert_eq!(
        JsonParser::parse(objects.as_bytes()),
        Err(JsonError::TooDeep)
    );
}

#[test]
fn unknown_characters_are_unexpected() {
    for text in ["?", "[", "{\"a\":", "[1,]", "+1", "\u{e9}"] {
        assert_eq!(
            JsonParser::parse(text.as_bytes()),
            Err(JsonError::UnexpectedChar),
            "{text}"
        );
    }
    assert_eq!(
        JsonParser::parse(b"\"\xff\""),
        Err(JsonError::UnexpectedChar)
    );
    assert_eq!(
        JsonParser::parse(b"\"\xc3a\""),
        Err(JsonError::UnexpectedChar)
    );
    assert_eq!(
        JsonParser::parse(b"\"\xc3"),
        Err(JsonError::UnterminatedString)
    );
}

#[test]
fn numbers_are_whole_and_fit() {
    assert_eq!(
        JsonParser::parse(b"-9223372036854775808"),
        Ok(JsonValue::Number(i64::MIN))
    );
    assert_eq!(
        JsonParser::parse(b"9223372036854775808"),
        Err(JsonError::InvalidNumber)
    );
    assert_eq!(JsonParser::parse(b"-"), Err(JsonError::InvalidNumber));
    assert_eq!(JsonParser::parse(b"-01"), Err(JsonError::InvalidNumber));
    assert_eq!(JsonParser::parse(b"1.5"), Err(JsonError::TrailingData));
    assert_eq!(JsonParser::parse(b"-0"), Ok(JsonValue::Number(0)));
}

#[test]
fn impossible_code_points_are_replaced() {
    let value = JsonParser::parse("\"\\ud800 \u{e9}\"".as_bytes()).expect("a string");
    assert_eq!(value.as_str(), Some("\u{FFFD} \u{E9}"));
    let value = JsonParser::parse(b"\"\xed\xa0\x80\"").expect("a string");
    assert_eq!(value.as_str(), Some("\u{FFFD}"));
}

#[test]
fn the_first_of_equal_keys_is_found() {
    let value = JsonParser::parse(br#"{"a":1,"a":2}"#).expect("an object");
    assert_eq!(value.get("a").and_then(JsonValue::as_i64), Some(1));
    assert_eq!(value.as_object().map(<[_]>::len), Some(2));
    assert!(value.get("b").is_none());
}

#[test]
fn what_was_written_reads_back() {
    let text = "quote \" slash / back \\ \n\r\t\u{8}\u{c}\u{1}\u{1f} \u{e9}\u{65e5}\u{1f600}";
    let mut w = JsonWriter::new();
    w.object_start();
    w.key(text);
    w.array_start();
    w.string_value(text);
    w.number_value(i64::MIN);
    w.bool_value(false);
    w.null_value();
    w.object_start();
    w.end();
    w.end();
    w.end();
    let written = w.finish();
    assert_eq!(
        JsonParser::parse(written.as_bytes()),
        Ok(JsonValue::Object(vec![(
            text.to_string(),
            JsonValue::Array(vec![
                JsonValue::String(text.to_string()),
                JsonValue::Number(i64::MIN),
                JsonValue::Bool(false),
                JsonValue::Null,
                JsonValue::Object(Vec::new()),
            ])
        )]))
    );
}

#[test]
fn a_writer_without_containers_closes_nothing() {
    let mut w = JsonWriter::new();
    w.end();
    assert_eq!(w.finish(), "");
}

#[test]
fn containers_are_shown_without_escapes() {
    let value = JsonParser::parse(br#" { "a" : [ 1 , "x\"y" ] , "b" : null } "#).expect("an object");
    assert_eq!(value.to_string(), "{\"a\":[1,\"x\"y\"],\"b\":null}");
}

#[test]
fn a_clone_is_the_same_document() {
    let root = JsonParser::parse(br#"{"a":[1,-2,"x",null,true,{"b":[]}],"c":""}"#).expect("valid");
    let copy = root.clone();
    assert_eq!(copy, root);
}
