use mini_httpd::request::{HttpRequest, HttpRequestError};

fn header(req: &HttpRequest, name: &str) -> Option<String> {
    req.headers.get(&name.to_string()).cloned()
}

#[test]
fn request_line_with_three_tokens_parses() {
    let req = HttpRequest::from_request_line("GET /docs/a%20b.txt HTTP/1.1\r\n").unwrap();
    assert_eq!(req.method, "GET");
    assert_eq!(req.path, "/docs/a b.txt");
    assert_eq!(req.version, "HTTP/1.1");
    assert_eq!(req.headers.len(), 0);
    assert_eq!(req.body, "");
}

#[test]
fn request_line_tokens_split_on_any_whitespace() {
    let req = HttpRequest::from_request_line("  POST\t/x   HTTP/1.0 \r\n").unwrap();
    assert_eq!(req.method, "POST");
    assert_eq!(req.path, "/x");
    assert_eq!(req.version, "HTTP/1.0");
}

#[test]
fn request_line_with_other_token_counts_is_refused() {
    for line in ["", "\r\n", "GET\r\n", "GET /\r\n", "GET / HTTP/1.1 extra\r\n"] {
        assert!(matches!(
            HttpRequest::from_request_line(line),
            Err(HttpRequestError::InvalidRequestLine)
        ));
    }
}

#[test]
fn request_path_that_is_not_utf8_is_refused() {
    assert!(matches!(
        HttpRequest::from_request_line("GET /%FF%FE HTTP/1.1\r\n"),
        Err(HttpRequestError::InvalidPathEncoding)
    ));
}

#[test]
fn request_path_keeps_incomplete_escapes() {
    let req = HttpRequest::from_request_line("GET /100%25/%zz/%4 HTTP/1.1").unwrap();
    assert_eq!(req.path, "/100%/%zz/%4");
}

#[test]
fn header_lines_split_on_colon_space() {
    let mut req = HttpRequest::from_request_line("GET / HTTP/1.1\r\n").unwrap();
    assert_eq!(req.add_header_line("Host: example.org\r\n").unwrap(), true);
    assert_eq!(req.add_header_line("X-Pad:  spaced\r\n").unwrap(), true);
    assert_eq!(header(&req, "Host").as_deref(), Some("example.org"));
    assert_eq!(header(&req, "X-Pad").as_deref(), Some(" spaced"));
    assert_eq!(header(&req, "host"), None);
    assert_eq!(req.add_header_line("\r\n").unwrap(), false);
    assert_eq!(req.headers.len(), 2);
}

#[test]
fn malformed_header_lines_are_refused() {
    let mut req = HttpRequest::from_request_line("GET / HTTP/1.1\r\n").unwrap();
    for line in ["NoSeparator\r\n", "A:b\r\n", "A: b: c\r\n", "X-Empty: \r\n"] {
        assert!(matches!(
            req.add_header_line(line),
            Err(HttpRequestError::InvalidHeader)
        ));
    }
    assert_eq!(req.headers.len(), 0);
}

#[test]
fn last_header_occurrence_wins() {
    let data = b"GET / HTTP/1.1\r\nA: 1\r\nB: 2\r\nA: 3\r\n\r\n";
    let req = HttpRequest::try_from_bytes(data).unwrap();
    assert_eq!(header(&req, "A").as_deref(), Some("3"));
    assert_eq!(header(&req, "B").as_deref(), Some("2"));
    assert_eq!(req.headers.len(), 2);
}

#[test]
fn body_takes_exactly_the_declared_length() {
    let data = b"GET / HTTP/1.1\r\nContent-Length: 5\r\n\r\nhelloTRAILING";
    let req = HttpRequest::try_from_bytes(data).unwrap();
    assert_eq!(req.body, "hello");
    assert_eq!(req.content_length().unwrap(), Some(5));
}

#[test]
fn short_body_is_padded_with_zero_bytes() {
    let data = b"GET / HTTP/1.1\r\nContent-Length: 4\r\n\r\nhi";
    let req = HttpRequest::try_from_bytes(data).unwrap();
    assert_eq!(req.body, "hi\0\0");
}

#[test]
fn without_content_length_the_body_stays_empty() {
    let data = b"GET / HTTP/1.1\r\nHost: h\r\n\r\nignored bytes";
    let req = HttpRequest::try_from_bytes(data).unwrap();
    assert_eq!(req.body, "");
    assert_eq!(req.content_length().unwrap(), None);
}

#[test]
fn headers_end_at_end_of_input() {
    let req = HttpRequest::try_from_bytes(b"GET /a HTTP/1.1\r\nHost: h").unwrap();
    assert_eq!(header(&req, "Host").as_deref(), Some("h"));
}

#[test]
fn content_length_that_is_no_number_is_refused() {
    let data = b"GET / HTTP/1.1\r\nContent-Length: five\r\n\r\nhello";
    assert!(matches!(
        HttpRequest::try_from_bytes(data),
        Err(HttpRequestError::InvalidHeader)
    ));
    let data = b"GET / HTTP/1.1\r\nContent-Length: -1\r\n\r\n";
    assert!(matches!(
        HttpRequest::try_from_bytes(data),
        Err(HttpRequestError::InvalidHeader)
    ));
}

#[test]
fn content_length_with_plus_sign_is_accepted() {
    let data = b"GET / HTTP/1.1\r\nContent-Length: +2\r\n\r\nokay";
    let req = HttpRequest::try_from_bytes(data).unwrap();
    assert_eq!(req.body, "ok");
}

#[test]
fn body_that_is_not_utf8_is_refused() {
    let data = b"GET / HTTP/1.1\r\nContent-Length: 2\r\n\r\n\xff\xfe";
    assert!(matches!(
        HttpRequest::try_from_bytes(data),
        Err(HttpRequestError::InvalidBody)
    ));
}

#[test]
fn request_line_that_is_not_utf8_is_refused() {
    let data = b"GET /\xff HTTP/1.1\r\n\r\n";
    assert!(matches!(
        HttpRequest::try_from_bytes(data),
        Err(HttpRequestError::InvalidRequestLine)
    ));
}

#[test]
fn header_line_that_is_not_utf8_is_refused() {
    let data = b"GET / HTTP/1.1\r\nA: \xff\r\n\r\n";
    assert!(matches!(
        HttpRequest::try_from_bytes(data),
        Err(HttpRequestError::InvalidHeader)
    ));
}

#[test]
fn set_body_checks_utf8() {
    let mut req = HttpRequest::new();
    assert!(req.set_body(b"abc".to_vec()).is_ok());
    assert_eq!(req.body, "abc");
    assert!(matches!(
        req.set_body(vec![0xc3]),
        Err(HttpRequestError::InvalidBody)
    ));
    assert_eq!(req.body, "abc");
}
