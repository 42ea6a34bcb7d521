use rumwebs_http::headers::HeaderMap;
use rumwebs_http::response::Response;
use rumwebs_http::status_codes;

#[test]
fn format_http_response() {
    let status = status_codes::not_found();
    let body: Vec<u8> =
        b"<!DOCTYPE html>\r\n<html>\r\n<body>\r\n<h1>404 NOT FOUND</h1>\r\n</body>\r\n</html>".to_vec();
    let resp = Response::new()
        .with_status(status)
        .with_header(("Content-Type", "image/png"))
        .with_body(&body);
    assert_eq!(
        resp.to_string(),
        "HTTP/1.1 404 Not Found\r\nContent-Type: image/png\r\n\r\n<!DOCTYPE html>\r\n<html>\r\n<body>\r\n<h1>404 NOT FOUND</h1>\r\n</body>\r\n</html>"
    );
}

#[test]
fn format_http_response_without_body() {
    let status = status_codes::ok();
    let resp = Response::new().with_status(status);
    assert_eq!(resp.to_string(), "HTTP/1.1 200 OK\r\n\r\n");
}

#[test]
fn prepared_response_has_content_length() {
    let resp = Response::new().with_body(b"hello").prepare_response();
    assert_eq!(
        resp.message_bytes(),
        b"HTTP/1.1 200 OK\r\nContent-Length: 5\r\n\r\nhello".to_vec()
    );
}

#[test]
fn prepared_response_without_body_has_zero_length() {
    let resp = Response::new().prepare_response();
    assert_eq!(resp.to_string(), "HTTP/1.1 200 OK\r\nContent-Length: 0\r\n\r\n");
}

#[test]
fn later_header_value_replaces_earlier() {
    let resp = Response::new()
        .with_header(("A", "1"))
        .with_header(("B", "2"))
        .with_header(("A", "3"));
    assert_eq!(resp.to_string(), "HTTP/1.1 200 OK\r\nA: 3\r\nB: 2\r\n\r\n");
}

#[test]
fn version_and_header_map_replaced() {
    let mut headers = HeaderMap::new();
    headers.insert("X".to_string(), "y".to_string());
    let resp = Response::new()
        .with_header(("A", "1"))
        .with_headers(headers)
        .with_http_version("1.0")
        .with_status(status_codes::internal_server_error());
    assert_eq!(resp.to_string(), "HTTP/1.0 500 Internal Server Error\r\nX: y\r\n\r\n");
}

#[test]
fn invalid_utf8_body_is_replaced_in_text() {
    let resp = Response::new().with_body(&[0xff, b'a']);
    assert_eq!(resp.to_string(), "HTTP/1.1 200 OK\r\n\r\n\u{fffd}a");
    assert_eq!(resp.message_bytes(), b"HTTP/1.1 200 OK\r\n\r\n\xffa".to_vec());
}

#[test]
fn status_code_text() {
    assert_eq!(status_codes::not_found().to_string(), "404 Not Found");
    assert_eq!(status_codes::unauthorized().to_string(), "401 Unauthorized");
    assert_eq!(status_codes::moved_permanently().to_string(), "301 Moved Permanently");
}

#[test]
fn prepared_message_carries_the_body_length() {
    let resp = Response::new().with_body(b"hello").prepare_response();
    assert_eq!(resp.message_bytes(), b"HTTP/1.1 200 OK\r\nContent-Length: 5\r\n\r\nhello".to_vec());
}
