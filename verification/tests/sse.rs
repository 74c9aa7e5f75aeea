use desire::sse::{keep_alive_event, Event, Sse};
use std::time::Duration;

#[test]
fn renders_fields_in_order() {
    let event = Event::new()
        .id("7".to_owned())
        .event("tick".to_owned())
        .retry(3000)
        .data("hello".to_owned());
    assert_eq!(event.render(), "event:tick\nid:7\nretry:3000\ndata:hello\n\n");
}

#[test]
fn multi_line_data_repeats_data_field() {
    let event = Event::new().data("line1\nline2".to_owned());
    assert_eq!(event.render(), "data:line1\ndata:line2\n\n");
}

#[test]
fn comment_and_empty_event() {
    let event = Event::new().comment("keep-alive".to_owned());
    assert_eq!(event.render(), ":keep-alive\n\n");
}

#[test]
fn json_data_serializes() {
    let mut map = serde_json::Map::new();
    map.insert("ok".to_owned(), serde_json::Value::Bool(true));
    let value = serde_json::Value::Object(map);
    let event = Event::new().json_data(serde_json::to_string(&value).ok());
    assert_eq!(event.render(), "data:{\"ok\":true}\n\n");
}

#[test]
fn failed_serialization_sends_error_object() {
    let event = Event::new().json_data(None);
    assert_eq!(event.render(), "data:{\"error\":\"internal\"}\n\n");
}

#[test]
fn repeated_data_calls_append_lines() {
    let event = Event::new().data("a".to_owned()).data("b".to_owned());
    assert_eq!(event.render(), "data:a\ndata:b\n\n");
}

#[test]
fn empty_event_is_a_blank_line() {
    assert_eq!(Event::new().render(), "\n");
    assert_eq!(Event::default().render(), "\n");
}

#[test]
fn keep_alive_event_is_a_comment() {
    assert_eq!(keep_alive_event().render(), ":keep-alive\n\n");
}

#[test]
fn keep_alive_keeps_stream_and_interval() {
    let sse = Sse::new(vec![1u8, 2, 3]);
    let ka = sse.keep_alive(Duration::from_secs(15));
    let (events, interval) = ka.into_parts();
    assert_eq!(events, vec![1u8, 2, 3]);
    assert_eq!(interval, Duration::from_secs(15));
}
