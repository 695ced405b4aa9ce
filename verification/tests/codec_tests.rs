//! The wire codec: exact encodings, decodings, and round trips.

use omegga::json::Json;
use omegga::rpc::{decode, encode, Error, Message, RequestId};

fn req(id: i64, method: &str, params: Option<Json>) -> Message {
    Message::request(RequestId::Int(id), method.to_string(), params)
}

#[test]
fn encode_request_no_params() {
    let line = encode(req(-1, "ping", None));
    assert_eq!(line, "{\"id\":-1,\"method\":\"ping\"}");
}

#[test]
fn encode_request_with_params() {
    let params = Json::Obj(vec![("x".to_string(), Json::Int(1))]);
    let line = encode(req(7, "go", Some(params)));
    assert_eq!(line, "{\"id\":7,\"method\":\"go\",\"params\":{\"x\":1}}");
}

#[test]
fn encode_string_id() {
    let line = encode(Message::request(
        RequestId::Str("abc".to_string()),
        "m".to_string(),
        None,
    ));
    assert_eq!(line, "{\"id\":\"abc\",\"method\":\"m\"}");
}

#[test]
fn encode_notification() {
    let line = encode(Message::notification("event".to_string(), Some(Json::Null)));
    assert_eq!(line, "{\"method\":\"event\",\"params\":null}");
}

#[test]
fn encode_response_success() {
    let line = encode(Message::response(
        RequestId::Int(3),
        Some(Json::Str("pong".to_string())),
        None,
    ));
    assert_eq!(line, "{\"id\":3,\"result\":\"pong\"}");
}

#[test]
fn encode_response_error_with_data() {
    let err = Error {
        code: -32600,
        message: "bad".to_string(),
        data: Some(Json::Arr(vec![Json::Bool(true), Json::Int(0)])),
    };
    let line = encode(Message::response(RequestId::Int(9), None, Some(err)));
    assert_eq!(
        line,
        "{\"id\":9,\"error\":{\"code\":-32600,\"message\":\"bad\",\"data\":[true,0]}}"
    );
}

#[test]
fn encode_escapes_strings() {
    let line = encode(Message::notification(
        "a\"b\\c\nd\te\r".to_string(),
        None,
    ));
    assert_eq!(line, "{\"method\":\"a\\\"b\\\\c\\nd\\te\\r\"}");
}

#[test]
fn roundtrip_messages() {
    let samples = vec![
        req(-1, "ping", None),
        req(0, "x", Some(Json::Arr(vec![]))),
        req(i64::MAX, "big", Some(Json::Int(i64::MIN))),
        Message::request(RequestId::Str("k-1".to_string()), "m".to_string(), None),
        Message::notification("event".to_string(), Some(Json::Obj(vec![]))),
        Message::notification("quote\"".to_string(), Some(Json::Str("\\\n".to_string()))),
        Message::response(RequestId::Int(5), Some(Json::Null), None),
        Message::response(RequestId::Int(-7), None, None),
        Message::response(
            RequestId::Str("s".to_string()),
            None,
            Some(Error { code: 1, message: "e".to_string(), data: None }),
        ),
        Message::response(
            RequestId::Int(2),
            Some(Json::Int(42)),
            Some(Error {
                code: -1,
                message: "both".to_string(),
                data: Some(Json::Obj(vec![(
                    "k".to_string(),
                    Json::Arr(vec![Json::Int(1), Json::Str("two".to_string())]),
                )])),
            }),
        ),
    ];
    for m in samples {
        let line = encode(copy_message(&m));
        let back = decode(&line);
        assert_eq!(back, Some(m), "round trip failed for {}", line);
    }
}

/// A structural copy by hand, field by field; the library's types carry no
/// `Clone`.
fn copy_message(m: &Message) -> Message {
    {
        match m {
            Message::Request { id, method, params } => Message::Request {
                id: clone_id(id),
                method: method.clone(),
                params: params.as_ref().map(clone_json),
            },
            Message::Response { id, result, error } => Message::Response {
                id: clone_id(id),
                result: result.as_ref().map(clone_json),
                error: error.as_ref().map(|e| Error {
                    code: e.code,
                    message: e.message.clone(),
                    data: e.data.as_ref().map(clone_json),
                }),
            },
            Message::Notification { method, params } => Message::Notification {
                method: method.clone(),
                params: params.as_ref().map(clone_json),
            },
        }
    }
}

fn clone_id(id: &RequestId) -> RequestId {
    match id {
        RequestId::Int(n) => RequestId::Int(*n),
        RequestId::Str(s) => RequestId::Str(s.clone()),
    }
}

fn clone_json(j: &Json) -> Json {
    omegga::json::json_clone(j)
}

#[test]
fn decode_any_field_order() {
    let m = decode("{\"method\":\"go\",\"id\":1}");
    assert_eq!(m, Some(req(1, "go", None)));
    let m2 = decode("{\"result\":\"ok\",\"id\":4}");
    assert_eq!(
        m2,
        Some(Message::response(
            RequestId::Int(4),
            Some(Json::Str("ok".to_string())),
            None
        ))
    );
}

#[test]
fn decode_ignores_unknown_fields() {
    let m = decode("{\"id\":1,\"method\":\"go\",\"extra\":null}");
    assert_eq!(m, Some(req(1, "go", None)));
}

#[test]
fn decode_first_field_wins() {
    let m = decode("{\"id\":1,\"id\":2,\"method\":\"go\"}");
    assert_eq!(m, Some(req(1, "go", None)));
}

#[test]
fn decode_invalid_id_shape_falls_back() {
    // An id that is neither an integer nor a string is treated as absent, so
    // the object reads as a notification.
    let m = decode("{\"id\":true,\"method\":\"m\"}");
    assert_eq!(
        m,
        Some(Message::notification("m".to_string(), None))
    );
}

#[test]
fn decode_rejects_bad_lines() {
    for line in [
        "",
        "garbage",
        "{",
        "[1,2",
        "123",
        "null",
        "\"str\"",
        "[]",
        "{}",
        "{\"x\":1}",
        "{\"id\":1,\"method\":\"go\"} ",
        "{\"id\":1}{\"id\":2}",
        "{\"id\":1,\"error\":5}",
        "{\"id\":1,\"error\":{\"code\":\"x\",\"message\":\"m\"}}",
    ] {
        assert_eq!(decode(line), None, "line should be rejected: {:?}", line);
    }
}

#[test]
fn decode_numbers() {
    let m = decode("{\"id\":-9223372036854775808,\"method\":\"m\"}");
    assert_eq!(m, Some(req(i64::MIN, "m", None)));
    let m2 = decode("{\"id\":9223372036854775807,\"method\":\"m\"}");
    assert_eq!(m2, Some(req(i64::MAX, "m", None)));
    // One past the greatest representable magnitude is rejected.
    assert_eq!(decode("{\"id\":9223372036854775808,\"method\":\"m\"}"), None);
}

#[test]
fn encoded_lines_are_json_for_serde() {
    let err = Error {
        code: 1,
        message: "why \"so\"\n".to_string(),
        data: Some(Json::Obj(vec![("k".to_string(), Json::Null)])),
    };
    let line = encode(Message::response(RequestId::Int(1), None, Some(err)));
    let v: serde_json::Value = serde_json::from_str(&line).expect("emitted line must be JSON");
    assert_eq!(v["error"]["message"], serde_json::Value::from("why \"so\"\n"));
}

#[test]
fn decode_non_string_method_with_id_reads_as_response() {
    // With an id present and no string-valued method, the object is a
    // response; the bad method field is just an unknown field.
    let m = decode("{\"id\":1,\"method\":5}");
    assert_eq!(m, Some(Message::response(RequestId::Int(1), None, None)));
}
