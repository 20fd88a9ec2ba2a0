use http_server::msg::HttpMsg;
use http_server::request::HttpError;

#[test]
fn parse_basic_request() {
    let msg = HttpMsg::from("GET / HTTP/1.1\r\nHost: localhost\r\n\r\n").unwrap();
    assert_eq!(msg.headers, vec!["GET / HTTP/1.1".to_string(), "Host: localhost".to_string()]);
    assert!(msg.body.is_empty());
}

#[test]
fn parse_request_with_body() {
    let msg = HttpMsg::from("POST /files/a HTTP/1.1\r\nContent-Length: 3\r\n\r\nabc").unwrap();
    assert_eq!(
        msg.headers,
        vec!["POST /files/a HTTP/1.1".to_string(), "Content-Length: 3".to_string()]
    );
    assert_eq!(msg.body, b"abc".to_vec());
}

#[test]
fn parse_splits_at_first_separator() {
    let msg = HttpMsg::from("GET / HTTP/1.1\r\n\r\nB\r\n\r\nC").unwrap();
    assert_eq!(msg.headers, vec!["GET / HTTP/1.1".to_string()]);
    assert_eq!(msg.body, b"B\r\n\r\nC".to_vec());
}

#[test]
fn parse_missing_separator_is_malformed() {
    let r = HttpMsg::from("GET / HTTP/1.1\r\nHost: localhost\r\n");
    match r {
        Err(e) => assert_eq!(e, HttpError::MalformedRequest),
        Ok(_) => panic!("expected a malformed request"),
    }
}

#[test]
fn parse_empty_buffer_is_malformed() {
    assert!(HttpMsg::from("").is_err());
}

#[test]
fn content_length_present() {
    let msg = HttpMsg::from("GET / HTTP/1.1\r\nContent-Length: 42\r\n\r\n").unwrap();
    assert_eq!(msg.content_length(), Some(42));
}

#[test]
fn content_length_absent_is_zero() {
    let msg = HttpMsg::from("GET / HTTP/1.1\r\nHost: x\r\n\r\n").unwrap();
    assert_eq!(msg.content_length(), Some(0));
}

#[test]
fn content_length_not_a_number() {
    let msg = HttpMsg::from("GET / HTTP/1.1\r\nContent-Length: ten\r\n\r\n").unwrap();
    assert_eq!(msg.content_length(), None);
}

#[test]
fn content_length_empty_value() {
    let msg = HttpMsg::from("GET / HTTP/1.1\r\nContent-Length: \r\n\r\n").unwrap();
    assert_eq!(msg.content_length(), None);
}

#[test]
fn content_length_first_line_wins() {
    let msg =
        HttpMsg::from("GET / HTTP/1.1\r\nContent-Length: 7\r\nContent-Length: 9\r\n\r\n").unwrap();
    assert_eq!(msg.content_length(), Some(7));
}
