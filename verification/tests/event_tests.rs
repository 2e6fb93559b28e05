use esl_rs::event::{Event, EventData};
use esl_rs::headers::HeaderMap;

fn data_with_body(body: &str) -> EventData {
    let mut h = HeaderMap::new();
    h.insert("Content-Type".to_string(), "text/event-json".to_string());
    EventData::new(h, Some(body.to_string()))
}

#[test]
fn json_body_classifies_and_exposes_variables() {
    let d = data_with_body("{\"Event-Name\":\"CHANNEL_ANSWER\",\"variable_call_id\":\"42\"}");
    assert_eq!(d.get_event_name(), Some("CHANNEL_ANSWER".to_string()));
    assert_eq!(d.get_var("call_id"), Some("42".to_string()));
    assert!(d.raw_body.is_none());
    let e = Event::from(d);
    assert!(matches!(e, Event::ChannelAnswer(_)));
    assert_eq!(e.data().get_var("call_id"), Some("42".to_string()));
}

#[test]
fn unknown_event_name_keeps_every_field() {
    let d = data_with_body("{\"Event-Name\":\"SOMETHING_NEW\",\"variable_call_id\":\"42\",\"Other\":\"x\"}");
    let e = Event::from(d);
    assert!(matches!(e, Event::Unknown(_)));
    assert_eq!(e.data().get_event_name(), Some("SOMETHING_NEW".to_string()));
    assert_eq!(e.data().get_var("call_id"), Some("42".to_string()));
    assert_eq!(e.data().get_body_by_key("Other"), Some("x".to_string()));
}

#[test]
fn missing_event_name_classifies_unknown() {
    let d = data_with_body("{\"Some-Field\":\"v\"}");
    let e = Event::from(d);
    assert!(matches!(e, Event::Unknown(_)));
}

#[test]
fn more_names_classify_to_their_cases() {
    let heartbeat = data_with_body("{\"Event-Name\":\"HEARTBEAT\"}");
    assert!(matches!(Event::from(heartbeat), Event::Heartbeat(_)));
    let job = data_with_body("{\"Event-Name\":\"BACKGROUND_JOB\"}");
    assert!(matches!(Event::from(job), Event::BackgroundJob(_)));
    let custom = data_with_body("{\"Event-Name\":\"CUSTOM\"}");
    assert!(matches!(Event::from(custom), Event::Custom(_)));
}

#[test]
fn invalid_json_keeps_raw_body() {
    let d = data_with_body("not json at all");
    assert_eq!(d.raw_body, Some("not json at all".to_string()));
    assert!(d.body.is_none());
    assert_eq!(d.get_event_name(), None);
}

#[test]
fn non_object_json_keeps_raw_body() {
    let d = data_with_body("[1, 2, 3]");
    assert_eq!(d.raw_body, Some("[1, 2, 3]".to_string()));
    assert!(d.body.is_none());
}

#[test]
fn non_string_json_values_are_dropped() {
    let d = data_with_body("{\"kept\":\"yes\",\"count\":7,\"flag\":true}");
    assert_eq!(d.get_body_by_key("kept"), Some("yes".to_string()));
    assert_eq!(d.get_body_by_key("count"), None);
    assert_eq!(d.get_body_by_key("flag"), None);
}

#[test]
fn header_accessors_read_protocol_headers() {
    let mut h = HeaderMap::new();
    h.insert("Job-UUID".to_string(), "abc-123".to_string());
    h.insert("Reply-Text".to_string(), "+OK".to_string());
    let d = EventData::new(h, None);
    assert_eq!(d.get_job_uuid(), Some("abc-123".to_string()));
    assert_eq!(d.get_header("Reply-Text"), Some("+OK".to_string()));
    assert_eq!(d.get_header("Absent"), None);
    assert!(d.body.is_none());
    assert!(d.raw_body.is_none());
}

#[test]
fn channel_call_uuid_comes_from_the_body() {
    let d = data_with_body("{\"Channel-Call-UUID\":\"u-1\"}");
    assert_eq!(d.get_channel_call_uuid(), Some("u-1".to_string()));
}
