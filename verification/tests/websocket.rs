use jukebox::events::Payload;
use jukebox::json::to_json_string;
use jukebox::websocket::{websocket_notification, websocket_response};

#[test]
fn websocket_response_returns_array() {
    assert_eq!(
        websocket_response("hello", &Ok(Payload { json: "{}".to_string() })),
        "[\"hello\",{}]"
    );
    assert_eq!(
        websocket_response("hello", &Err(Payload { json: "{}".to_string() })),
        "[\"hello\",null,{}]"
    );
}

#[test]
fn websocket_notification_has_empty_id() {
    assert_eq!(
        websocket_notification(&Payload { json: "{\"x\":1}".to_string() }),
        "[\"\",{\"x\":1}]"
    );
}

#[test]
fn json_strings_are_escaped() {
    assert_eq!(to_json_string("plain"), "\"plain\"");
    assert_eq!(to_json_string("a\"b\\c"), "\"a\\\"b\\\\c\"");
    assert_eq!(to_json_string("tab\there\n"), "\"tab\\there\\n\"");
    assert_eq!(to_json_string("\u{1}\u{1f}"), "\"\\u0001\\u001f\"");
    assert_eq!(to_json_string("émoji 🎵"), "\"émoji 🎵\"");
}
