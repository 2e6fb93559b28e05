use esl_rs::codec::{extract_frame, get_header_end, parse_header, Frame};
use esl_rs::error::EslError;

#[test]
fn header_end_found_after_blank_line() {
    assert_eq!(get_header_end(b"Foo: bar\n\nrest"), Some(10));
    assert_eq!(get_header_end(b"Foo: bar\n"), None);
    assert_eq!(get_header_end(b""), None);
    assert_eq!(get_header_end(b"\n\n"), Some(2));
}

#[test]
fn parse_header_trims_whitespace() {
    let m = parse_header(b"Foo: bar\nBaz:   qux\n").unwrap();
    assert_eq!(m.get("Foo"), Some(&"bar".to_string()));
    assert_eq!(m.get("Baz"), Some(&"qux".to_string()));
    assert_eq!(m.get("foo"), None);
}

#[test]
fn parse_header_last_write_wins() {
    let m = parse_header(b"K: a\nK: b\n").unwrap();
    assert_eq!(m.get("K"), Some(&"b".to_string()));
}

#[test]
fn parse_header_without_colon_is_fatal() {
    let r = parse_header(b"no colon here\n");
    assert!(matches!(r, Err(EslError::ApiError(_))));
}

#[test]
fn extract_needs_more_without_blank_line() {
    let r = extract_frame(b"Content-Type: text/plain").unwrap();
    assert!(r.is_none());
}

#[test]
fn extract_frame_without_body() {
    let (f, used) = extract_frame(b"Content-Type: auth/request\n\ntail").unwrap().unwrap();
    assert_eq!(used, 28);
    assert_eq!(f.headers.get("Content-Type"), Some(&"auth/request".to_string()));
    assert!(f.body.is_none());
}

#[test]
fn content_length_boundary_one_byte_short() {
    // One byte short of the declared length: no frame, nothing consumed.
    let r = extract_frame(b"Content-Length: 5\n\nabcd").unwrap();
    assert!(r.is_none());
    // The final byte arrives: the frame completes immediately, byte-exact.
    let (f, used) = extract_frame(b"Content-Length: 5\n\nabcde").unwrap().unwrap();
    assert_eq!(used, 24);
    assert_eq!(f.body, Some(b"abcde".to_vec()));
}

#[test]
fn content_length_not_numeric_is_fatal() {
    let r = extract_frame(b"Content-Length: five\n\nabcde");
    assert!(matches!(r, Err(EslError::ApiError(_))));
}

#[test]
fn content_length_too_large_for_machine_is_fatal() {
    let r = extract_frame(b"Content-Length: 99999999999999999999999999\n\nx");
    assert!(matches!(r, Err(EslError::ApiError(_))));
}

fn drain(mut buf: Vec<u8>) -> (Vec<Frame>, Vec<u8>) {
    let mut frames = Vec::new();
    loop {
        match extract_frame(&buf).unwrap() {
            None => return (frames, buf),
            Some((f, used)) => {
                frames.push(f);
                buf = buf[used..].to_vec();
            }
        }
    }
}

#[test]
fn concatenated_frames_all_come_out_in_order() {
    let mut buf = Vec::new();
    buf.extend_from_slice(b"A: 1\n\n");
    buf.extend_from_slice(b"Content-Length: 3\n\nxyz");
    buf.extend_from_slice(b"B: 2\nC: 3\n\n");
    let (frames, rest) = drain(buf);
    assert_eq!(frames.len(), 3);
    assert_eq!(frames[0].headers.get("A"), Some(&"1".to_string()));
    assert!(frames[0].body.is_none());
    assert_eq!(frames[1].body, Some(b"xyz".to_vec()));
    assert_eq!(frames[2].headers.get("B"), Some(&"2".to_string()));
    assert_eq!(frames[2].headers.get("C"), Some(&"3".to_string()));
    assert!(rest.is_empty());
}

#[test]
fn body_bytes_are_exact_even_when_they_look_like_frames() {
    // The body may itself contain blank lines and header-like text.
    let (f, used) = extract_frame(b"Content-Length: 8\n\nX: 1\n\nab").unwrap().unwrap();
    assert_eq!(f.body, Some(b"X: 1\n\nab".to_vec()));
    assert_eq!(used, 27);
}
