use rumwebs_http::errors::{InvalidRequest, InvalidRequestMethod, RequestParseError};
use rumwebs_http::request::{Request, RequestMethod, REQUEST_LINE_PATTERN};

fn header(req: &Request, name: &str) -> Option<String> {
    req.headers.as_ref().and_then(|h| h.get(&name.to_string()).cloned())
}

#[test]
fn parses_request_line_headers_and_body() {
    let req = Request::from_bytes(b"POST /form HTTP/1.1\r\nHost: example.com\r\nX-A: 1\r\n\r\nname=value")
        .unwrap();
    assert_eq!(req.method, RequestMethod::POST);
    assert_eq!(req.uri, "/form");
    assert_eq!(req.http_version, "HTTP/1.1");
    assert_eq!(header(&req, "Host"), Some("example.com".to_string()));
    assert_eq!(header(&req, "X-A"), Some("1".to_string()));
    assert_eq!(req.headers.as_ref().unwrap().len(), 2);
    assert_eq!(req.body, Some(b"name=value".to_vec()));
}

#[test]
fn request_without_separator_has_no_body() {
    let req = Request::from_bytes(b"GET / HTTP/1.0").unwrap();
    assert_eq!(req.method, RequestMethod::GET);
    assert_eq!(req.uri, "/");
    assert_eq!(req.http_version, "HTTP/1.0");
    assert_eq!(req.headers.as_ref().unwrap().len(), 0);
    assert_eq!(req.body, None);
}

#[test]
fn body_may_be_empty_or_not_utf8() {
    let req = Request::from_bytes(b"GET /x HTTP/1.1\r\n\r\n").unwrap();
    assert_eq!(req.body, Some(Vec::new()));
    let req = Request::from_bytes(b"PUT /x HTTP/1.1\r\n\r\n\xff\xfe").unwrap();
    assert_eq!(req.body, Some(vec![0xff, 0xfe]));
}

#[test]
fn later_header_wins_and_value_stops_at_next_separator() {
    let req = Request::from_bytes(b"GET / HTTP/1.1\r\nA: 1\r\nB: x: y\r\nA: 2\r\n\r\n").unwrap();
    assert_eq!(header(&req, "A"), Some("2".to_string()));
    assert_eq!(header(&req, "B"), Some("x".to_string()));
    let h = req.headers.as_ref().unwrap();
    let (k0, v0) = h.entry(0);
    assert_eq!((k0.as_str(), v0.as_str()), ("A", "2"));
}

#[test]
fn missing_http_mark_is_an_error_with_the_text() {
    let e = Request::from_bytes(b"hello").err().unwrap();
    assert_eq!(e.to_string(), "Unable to find request line in bytes hello");
}

#[test]
fn non_utf8_head_is_an_error() {
    let e = Request::from_bytes(b"GET /\xff HTTP/1.1\r\n\r\n").err().unwrap();
    assert_eq!(e.description(), "Failed to parse HTTP request into valid UTF-8.");
}

#[test]
fn bad_request_line_is_an_error() {
    let e = Request::from_bytes(b"FETCH / HTTP/1.1\r\n\r\n").err().unwrap();
    assert_eq!(e.to_string(), "Something is not right with this request line. FETCH / HTTP/1.1");
    let e = Request::from_bytes(b"GET nohost HTTP/1.1").err().unwrap();
    assert_eq!(e.to_string(), "Something is not right with this request line. GET nohost HTTP/1.1");
}

#[test]
fn header_without_separator_is_an_error() {
    let e = Request::from_bytes(b"GET / HTTP/1.1\r\nBroken\r\n\r\n").err().unwrap();
    assert_eq!(e.to_string(), "Couldn't get header value from header line Broken");
}

#[test]
fn lazy_target_keeps_spaces() {
    let req = Request::from_bytes(b"GET /a b HTTP/1.1").unwrap();
    assert_eq!(req.uri, "/a b");
    assert_eq!(req.to_string(), "GET /a b HTTP/1.1");
}

#[test]
fn default_request() {
    let req = Request::new();
    assert_eq!(req.method, RequestMethod::GET);
    assert_eq!(req.uri, "/");
    assert_eq!(req.http_version, "1.1");
    assert!(req.headers.is_none());
    assert!(req.body.is_none());
}

#[test]
fn method_names_round_trip() {
    let all = [
        RequestMethod::GET,
        RequestMethod::HEAD,
        RequestMethod::POST,
        RequestMethod::PUT,
        RequestMethod::DELETE,
        RequestMethod::CONNECT,
        RequestMethod::OPTIONS,
        RequestMethod::TRACE,
        RequestMethod::PATCH,
    ];
    for m in all.iter() {
        assert_eq!(RequestMethod::from_str(&m.to_string()).unwrap(), *m);
    }
    let e = RequestMethod::from_str("get").err().unwrap();
    assert_eq!(e.to_string(), "String doesn't make a valid HTTP request method.");
}

#[test]
fn method_error_converts_with_its_text() {
    let e: InvalidRequest = InvalidRequest::from(InvalidRequestMethod::new("bad method"));
    assert_eq!(e.to_string(), "bad method");
    assert_eq!(RequestParseError::new("x").description(), "x");
}

#[test]
fn request_line_pattern_is_anchored() {
    assert!(REQUEST_LINE_PATTERN.starts_with('^') && REQUEST_LINE_PATTERN.ends_with('$'));
    let e = Request::from_bytes(b"GET / HTTP/1.1 extra").err().unwrap();
    assert!(e.to_string().starts_with("Something is not right"));
}

#[test]
fn parsed_request_renders_its_request_line() {
    let req = Request::from_bytes(b"DELETE /item/7 HTTP/2.0\r\nHost: h\r\n\r\n").unwrap();
    assert_eq!(req.to_string(), "DELETE /item/7 HTTP/2.0");
    assert!(req.http_version.starts_with("HTTP/"));
    assert!(Request::from_bytes(b"GET / HTTP/1.10").is_err());
}

#[test]
fn request_line_is_the_text_before_the_first_line_break() {
    let bytes: &[u8] = b"GET /a HTTP/1.1\r\nHost: h\r\n\r\nx\r\ny";
    let req = Request::from_bytes(bytes).unwrap();
    let end = bytes.windows(2).position(|w| w == b"\r\n").unwrap();
    assert_eq!(req.to_string().as_bytes(), &bytes[..end]);
}
