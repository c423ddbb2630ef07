use mini_httpd::response::HttpResponse;

fn text(b: &[u8]) -> String {
    String::from_utf8(b.to_vec()).unwrap()
}

#[test]
fn serialises_status_headers_blank_line_and_body() {
    let resp = HttpResponse::ok().body("text/plain", b"hi".to_vec());
    let wire = resp.gen_resp_bytes();
    let s = text(&wire);
    assert!(s.starts_with("HTTP/1.1 200 OK\r\n"));
    assert!(s.contains("\r\nContent-Type: text/plain\r\n"));
    assert!(s.contains("\r\nContent-Length: 2\r\n"));
    assert!(s.contains("\r\nConnection: close\r\n"));
    assert!(s.ends_with("\r\n\r\nhi"));
    assert_eq!(s.matches("\r\n").count(), 5);
}

#[test]
fn with_status_sets_content_headers_only_for_a_body() {
    let empty = HttpResponse::with_status("204", "No Content", "text/plain", Vec::new());
    assert_eq!(empty.version, "HTTP/1.1");
    assert_eq!(empty.headers.len(), 1);
    assert_eq!(
        text(&empty.gen_resp_bytes()),
        "HTTP/1.1 204 No Content\r\nConnection: close\r\n\r\n"
    );
    let full = HttpResponse::with_status("200", "OK", "text/html", b"<p>".to_vec());
    assert_eq!(full.headers.len(), 3);
    assert_eq!(
        full.headers.get(&"Content-Length".to_string()).map(|s| s.as_str()),
        Some("3")
    );
    assert_eq!(
        full.headers.get(&"Content-Type".to_string()).map(|s| s.as_str()),
        Some("text/html")
    );
}

#[test]
fn status_constructors() {
    let cases = [
        (HttpResponse::ok(), "200", "OK"),
        (HttpResponse::bad_request(), "400", "Bad Request"),
        (HttpResponse::not_found(), "404", "Not Found"),
        (HttpResponse::internal_server_error(), "500", "Internal Server Error"),
        (HttpResponse::not_implemented(), "501", "Not Implemented"),
        (HttpResponse::new_with_status("418", "Teapot"), "418", "Teapot"),
    ];
    for (resp, code, reason) in cases {
        assert_eq!(resp.code, code);
        assert_eq!(resp.reason, reason);
        assert!(resp.body.is_empty());
        assert_eq!(
            text(&resp.gen_resp_bytes()),
            format!("HTTP/1.1 {} {}\r\nConnection: close\r\n\r\n", code, reason)
        );
    }
}

#[test]
fn body_replaces_earlier_content_headers() {
    let resp = HttpResponse::ok()
        .body("text/plain", b"first body".to_vec())
        .body("image/png", vec![0u8, 1, 2]);
    assert_eq!(resp.headers.len(), 3);
    assert_eq!(
        resp.headers.get(&"Content-Length".to_string()).map(|s| s.as_str()),
        Some("3")
    );
    assert_eq!(
        resp.headers.get(&"Content-Type".to_string()).map(|s| s.as_str()),
        Some("image/png")
    );
    assert!(resp.gen_resp_bytes().ends_with(&[b'\n', 0, 1, 2]));
}

#[test]
fn content_length_of_a_large_body() {
    let resp = HttpResponse::ok().body("application/octet-stream", vec![7u8; 1234567]);
    assert_eq!(
        resp.headers.get(&"Content-Length".to_string()).map(|s| s.as_str()),
        Some("1234567")
    );
}

#[test]
fn new_response_is_empty() {
    let resp = HttpResponse::new();
    assert_eq!(resp.version, "");
    assert_eq!(resp.code, "");
    assert_eq!(resp.headers.len(), 0);
}
