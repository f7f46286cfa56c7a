use ham_sync::http_head::{content_length_value, parse_header_line, request_line_parts, HeaderLine, RequestHead};

#[test]
fn request_lines_give_method_and_target() {
    assert_eq!(
        request_line_parts("POST /api/v1/logbooks/x/push?token=t HTTP/1.1\r\n"),
        ("POST".to_owned(), "/api/v1/logbooks/x/push?token=t".to_owned())
    );
    assert_eq!(request_line_parts("\r\n"), ("GET".to_owned(), "/".to_owned()));
    assert_eq!(request_line_parts("  DELETE   "), ("DELETE".to_owned(), "/".to_owned()));
}

#[test]
fn header_lines_are_trimmed_and_lower_cased() {
    assert_eq!(
        parse_header_line("Content-Type:  application/json \r\n"),
        HeaderLine::Field { name: "content-type".to_owned(), value: "application/json".to_owned() }
    );
    assert_eq!(
        parse_header_line("X-Request-Id: a:b\r\n"),
        HeaderLine::Field { name: "x-request-id".to_owned(), value: "a:b".to_owned() }
    );
    assert_eq!(parse_header_line("\r\n"), HeaderLine::End);
    assert_eq!(parse_header_line("garbage\r\n"), HeaderLine::Other);
}

#[test]
fn content_lengths_parse_as_rust_reads_a_usize() {
    assert_eq!(content_length_value("42"), 42);
    assert_eq!(content_length_value("+7"), 7);
    assert_eq!(content_length_value("+"), 0);
    assert_eq!(content_length_value(""), 0);
    assert_eq!(content_length_value("-1"), 0);
    assert_eq!(content_length_value("12a"), 0);
    assert_eq!(content_length_value("99999999999999999999999"), 0, "an overflowing length reads as none");
    assert_eq!(content_length_value(&usize::MAX.to_string()), usize::MAX);
}

#[test]
fn a_request_head_accumulates_until_the_blank_line() {
    let mut head = RequestHead::from_request_line("POST /api/v1/auth/pair HTTP/1.1\r\n");
    assert!(!head.take_header_line("Host: localhost\r\n"));
    assert!(!head.take_header_line("Content-Length: 12\r\n"));
    assert!(!head.take_header_line("content-length: 3\r\n"));
    assert!(!head.take_header_line("no colon here\r\n"));
    assert!(head.take_header_line("\r\n"));
    assert_eq!(head.method, "POST");
    assert_eq!(head.target, "/api/v1/auth/pair");
    assert_eq!(head.content_length, 3, "the last length wins");
    assert_eq!(head.headers.get("host").as_deref(), Some("localhost"));
    assert_eq!(head.headers.get("content-length").as_deref(), Some("3"));
}
