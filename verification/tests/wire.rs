use tthsd::event::{encode_event, wire_type_name, Event, EventType};
use tthsd::json::{encode_object, JsonValue};
use tthsd::framing::{encode_frame, decode_frame_length, encode_envelope, next_backoff};

#[test]
fn event_json_exact_casing() {
    let e = Event {
        event_type: EventType::StartOne,
        name: String::from("n"),
        show_name: String::from("s"),
        id: String::from("i"),
    };
    assert_eq!(
        encode_event(&e),
        "{\"Type\":\"startOne\",\"Name\":\"n\",\"ShowName\":\"s\",\"ID\":\"i\"}"
    );
}

#[test]
fn wire_type_names() {
    assert_eq!(wire_type_name(EventType::Start), "start");
    assert_eq!(wire_type_name(EventType::StartOne), "startOne");
    assert_eq!(wire_type_name(EventType::Update), "update");
    assert_eq!(wire_type_name(EventType::End), "end");
    assert_eq!(wire_type_name(EventType::EndOne), "endOne");
    assert_eq!(wire_type_name(EventType::Msg), "msg");
    assert_eq!(wire_type_name(EventType::Error), "err");
}

#[test]
fn event_round_trip_through_general_json_parser() {
    // Encoded events parse back with every field intact, including
    // non-ASCII names and characters needing escapes.
    let e = Event {
        event_type: EventType::Msg,
        name: String::from("暂停"),
        show_name: String::from("say \"hi\"\\now"),
        id: String::from("id-1\n2"),
    };
    let text = encode_event(&e);
    let v: serde_json::Value = serde_json::from_str(&text).unwrap();
    assert_eq!(v["Type"].as_str().unwrap(), "msg");
    assert_eq!(v["Name"].as_str().unwrap(), "暂停");
    assert_eq!(v["ShowName"].as_str().unwrap(), "say \"hi\"\\now");
    assert_eq!(v["ID"].as_str().unwrap(), "id-1\n2");
}

#[test]
fn object_encoding_exact() {
    let pairs = vec![
        (String::from("a"), JsonValue::Str(String::from("b"))),
        (String::from("n"), JsonValue::Num(5)),
    ];
    assert_eq!(encode_object(&pairs), "{\"a\":\"b\",\"n\":5}");
}

#[test]
fn object_escapes_control_quote_backslash() {
    let pairs = vec![(String::from("k"), JsonValue::Str(String::from("a\"b\\c\nd")))];
    let text = encode_object(&pairs);
    assert_eq!(text, "{\"k\":\"a\\\"b\\\\c\\u000ad\"}");
    let v: serde_json::Value = serde_json::from_str(&text).unwrap();
    assert_eq!(v["k"].as_str().unwrap(), "a\"b\\c\nd");
}

#[test]
fn empty_object() {
    let pairs: Vec<(String, JsonValue)> = Vec::new();
    assert_eq!(encode_object(&pairs), "{}");
}

#[test]
fn large_number_encoding() {
    let pairs = vec![(String::from("n"), JsonValue::Num(u64::MAX))];
    assert_eq!(encode_object(&pairs), "{\"n\":18446744073709551615}");
}

#[test]
fn tcp_frame_layout() {
    let payload = vec![97u8, 98, 99];
    let frame = encode_frame(&payload);
    assert_eq!(frame, vec![0u8, 0, 0, 3, 97, 98, 99]);
    assert_eq!(decode_frame_length(&frame), Some(3));
}

#[test]
fn tcp_frame_length_round_trip_large() {
    let payload = vec![0u8; 70000];
    let frame = encode_frame(&payload);
    assert_eq!(decode_frame_length(&frame), Some(70000));
    assert_eq!(&frame[4..], &payload[..]);
    let short = vec![1u8, 2, 3];
    assert_eq!(decode_frame_length(&short), None);
}

#[test]
fn websocket_envelope_shape() {
    let env = encode_envelope("{\"Type\":\"end\"}", "{}");
    assert_eq!(env, "{\"event\":{\"Type\":\"end\"},\"data\":{}}");
    let v: serde_json::Value = serde_json::from_str(&env).unwrap();
    assert_eq!(v["event"]["Type"].as_str().unwrap(), "end");
}

#[test]
fn backoff_doubles_to_cap() {
    let mut b = 500u64;
    b = next_backoff(b);
    assert_eq!(b, 1000);
    b = next_backoff(b);
    assert_eq!(b, 2000);
    b = next_backoff(b);
    assert_eq!(b, 4000);
    b = next_backoff(b);
    assert_eq!(b, 5000);
    b = next_backoff(b);
    assert_eq!(b, 5000);
}

#[test]
fn native_event_round_trip() {
    let e = Event {
        event_type: EventType::EndOne,
        name: String::from("结束一个下载"),
        show_name: String::from("f\"q\\z\tw"),
        id: String::from("abc-123"),
    };
    let text = encode_event(&e);
    let back = tthsd::event::parse_event(&text).unwrap();
    assert_eq!(back.event_type, EventType::EndOne);
    assert_eq!(back.name, e.name);
    assert_eq!(back.show_name, e.show_name);
    assert_eq!(back.id, e.id);
}

#[test]
fn parse_event_rejects_malformed_input() {
    assert!(tthsd::event::parse_event("").is_none());
    assert!(tthsd::event::parse_event("{}").is_none());
    assert!(tthsd::event::parse_event("{\"Type\":\"nope\",\"Name\":\"\",\"ShowName\":\"\",\"ID\":\"\"}").is_none());
    assert!(tthsd::event::parse_event("{\"Type\":\"start\",\"Name\":\"\",\"ShowName\":\"\",\"ID\":\"\"}x").is_none());
}

#[test]
fn parse_event_accepts_every_type() {
    for t in [
        EventType::Start,
        EventType::StartOne,
        EventType::Update,
        EventType::End,
        EventType::EndOne,
        EventType::Msg,
        EventType::Error,
    ] {
        let e = Event {
            event_type: t,
            name: String::new(),
            show_name: String::new(),
            id: String::new(),
        };
        let back = tthsd::event::parse_event(&encode_event(&e)).unwrap();
        assert_eq!(back.event_type, t);
    }
}
