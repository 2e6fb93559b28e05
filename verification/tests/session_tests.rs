use esl_rs::error::EslError;
use esl_rs::event::Event;
use esl_rs::session::Session;

#[test]
fn challenge_is_answered_and_withheld() {
    let mut s = Session::new("secret".to_string());
    let out = s.on_bytes(b"Content-Type: auth/request\n\n").unwrap();
    assert_eq!(out.replies, vec!["auth secret\n\n".to_string()]);
    assert!(out.events.is_empty());
    assert!(s.auth_result().is_none());
}

#[test]
fn accepted_reply_authenticates() {
    let mut s = Session::new("secret".to_string());
    let out = s.on_bytes(b"Content-Type: auth/request\n\n").unwrap();
    assert_eq!(out.replies, vec!["auth secret\n\n".to_string()]);
    let out = s
        .on_bytes(b"Content-Type: command/reply\nReply-Text: +OK accepted\n\n")
        .unwrap();
    assert!(out.replies.is_empty());
    assert_eq!(out.events.len(), 1);
    assert!(matches!(s.auth_result(), Some(Ok(()))));
}

#[test]
fn invalid_reply_fails_authentication() {
    let mut s = Session::new("secret".to_string());
    s.on_bytes(b"Content-Type: auth/request\n\n").unwrap();
    s.on_bytes(b"Content-Type: command/reply\nReply-Text: -ERR invalid\n\n")
        .unwrap();
    assert!(matches!(s.auth_result(), Some(Err(EslError::AuthFailed))));
}

#[test]
fn rude_rejection_fails_as_acl() {
    let mut s = Session::new("secret".to_string());
    s.on_bytes(b"Content-Type: text/rude-rejection\nContent-Length: 2\n\nno")
        .unwrap();
    assert!(matches!(s.auth_result(), Some(Err(EslError::AclRejected))));
}

#[test]
fn resolved_handshake_is_terminal() {
    let mut s = Session::new("secret".to_string());
    s.on_bytes(b"Content-Type: command/reply\nReply-Text: +OK accepted\n\n")
        .unwrap();
    assert!(matches!(s.auth_result(), Some(Ok(()))));
    // A later rejecting reply moves nothing.
    s.on_bytes(b"Content-Type: command/reply\nReply-Text: -ERR invalid\n\n")
        .unwrap();
    assert!(matches!(s.auth_result(), Some(Ok(()))));
}

#[test]
fn frames_split_at_arbitrary_byte_boundaries() {
    // Two frames, one with a body, fed in slices that cut through both the
    // header block and the body: the same two events come out, in order.
    let whole: &[u8] = b"A: 1\n\nContent-Type: x\nContent-Length: 3\n\nxyz";
    for cut in 0..whole.len() {
        let mut s = Session::new("pw".to_string());
        let first = s.on_bytes(&whole[..cut]).unwrap();
        let second = s.on_bytes(&whole[cut..]).unwrap();
        let mut events = first.events;
        events.extend(second.events);
        assert_eq!(events.len(), 2);
        assert_eq!(events[0].data().get_header("A"), Some("1".to_string()));
        assert_eq!(events[1].data().raw_body, Some("xyz".to_string()));
        assert!(matches!(events[0], Event::Unknown(_)));
    }
}

#[test]
fn one_read_with_many_frames_emits_them_all() {
    let mut s = Session::new("pw".to_string());
    let out = s.on_bytes(b"A: 1\n\nB: 2\n\nC: 3\n\n").unwrap();
    assert_eq!(out.events.len(), 3);
    assert_eq!(out.events[0].data().get_header("A"), Some("1".to_string()));
    assert_eq!(out.events[1].data().get_header("B"), Some("2".to_string()));
    assert_eq!(out.events[2].data().get_header("C"), Some("3".to_string()));
}

#[test]
fn liveness_goes_down_once_and_stays_down() {
    let mut s = Session::new("pw".to_string());
    assert_eq!(s.is_connected().unwrap(), true);
    s.mark_disconnected();
    assert!(matches!(s.is_connected(), Err(EslError::ConnectionError(_))));
    // Every subsequent call still errors.
    assert!(matches!(s.is_connected(), Err(EslError::ConnectionError(_))));
}

#[test]
fn framing_error_takes_the_connection_down() {
    let mut s = Session::new("pw".to_string());
    let r = s.on_bytes(b"garbage without colon\n\n");
    assert!(matches!(r, Err(EslError::ApiError(_))));
    assert!(matches!(s.is_connected(), Err(EslError::ConnectionError(_))));
}

#[test]
fn end_to_end_handshake_writes_exactly_one_command() {
    // A simulated socket: the server challenges, the engine answers with
    // the credentials, the server accepts.
    let mut s = Session::new("secret".to_string());
    let mut writes: Vec<String> = Vec::new();

    let out = s.on_bytes(b"Content-Type: auth/request\n\n").unwrap();
    writes.extend(out.replies);
    assert!(s.auth_result().is_none());

    let out = s
        .on_bytes(b"Content-Type: command/reply\nReply-Text: +OK accepted\n\n")
        .unwrap();
    writes.extend(out.replies);

    assert!(matches!(s.auth_result(), Some(Ok(()))));
    assert_eq!(writes, vec!["auth secret\n\n".to_string()]);
}

#[test]
fn event_with_json_body_classifies_through_the_session() {
    let mut s = Session::new("pw".to_string());
    let body = "{\"Event-Name\":\"HEARTBEAT\"}";
    let head = format!("Content-Type: text/event-json\nContent-Length: {}\n\n", body.len());
    let mut buf = head.into_bytes();
    buf.extend_from_slice(body.as_bytes());
    let out = s.on_bytes(&buf).unwrap();
    assert_eq!(out.events.len(), 1);
    assert!(matches!(out.events[0], Event::Heartbeat(_)));
}
