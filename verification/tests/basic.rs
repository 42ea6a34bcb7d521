use rumwebs_http::basic::{
    file_page_response, file_response, file_response_generator, image_response,
    new_response_generator, not_found_response, page_for, FileAccessPolicy, Page, Request,
    Response, ResponseGenerator, Server,
};
use rumwebs_http::request::RequestMethod;
use rumwebs_http::status_codes;

#[test]
fn basic_request_split_on_spaces() {
    let bytes = b"DELETE /item HTTP/1.1\r\nHost: h\r\n\r\nrest";
    assert!(!Request::from_bytes_panics(bytes));
    let req = Request::from_bytes(bytes).unwrap();
    assert_eq!(req.method, RequestMethod::DELETE);
    assert_eq!(req.uri, "/item");
    assert_eq!(req.http_version, "HTTP/1.1");
    assert_eq!(req.body, Some(b"rest".to_vec()));
    assert_eq!(req.to_string(), "DELETE request to /item");
}

#[test]
fn basic_request_errors() {
    let e = Request::from_bytes(b"nothing here").err().unwrap();
    assert_eq!(e.to_string(), "Bytes don't form a valid HTTP request.");
    let e = Request::from_bytes(b"FETCH / HTTP/1.1").err().unwrap();
    assert_eq!(e.to_string(), "Failed to find a valid HTTP request method.");
    let e = Request::from_bytes(b"GET / HTTP/1.1\xff").err().unwrap();
    assert_eq!(e.to_string(), "Failed to parse HTTP request into valid UTF-8.");
}

#[test]
fn basic_request_panicking_inputs_are_flagged() {
    assert!(Request::from_bytes_panics(b"GET /HTTP/1.1"));
    assert!(Request::from_bytes_panics(b"GET / HTTP/1.1\r\nBroken\r\n\r\n"));
    assert!(!Request::from_bytes_panics(b"FETCH / HTTP/1.1\r\nBroken\r\n\r\n"));
}

#[test]
fn basic_response_without_body_has_no_blank_line() {
    let resp = Response::new();
    assert_eq!(resp.to_string(), "HTTP/1.1 200 OK\r\n");
    let resp = Response::new().with_body(b"x".to_vec()).prepare_response();
    assert_eq!(resp.message_bytes(), b"HTTP/1.1 200 OK\r\nContent-Length: 1\r\n\r\nx".to_vec());
}

#[test]
fn basic_not_found_page() {
    let resp = not_found_response();
    let text = resp.to_string();
    assert!(text.starts_with("HTTP/1.1 404 Not Found\r\nContent-Length: 121\r\n\r\n<!DOCTYPE html>\n"));
    assert!(text.ends_with("</html>"));
    let resp = file_response(None);
    assert_eq!(resp.to_string(), text);
    let resp = file_response(Some(b"abc".to_vec()));
    assert_eq!(resp.to_string(), "HTTP/1.1 200 OK\r\nContent-Length: 3\r\n\r\nabc");
}

#[test]
fn basic_routes_fall_back_to_404() {
    let server = Server::bind("127.0.0.1:7878")
        .with_route("/", file_response_generator("res/index.html"))
        .with_route("/x", new_response_generator(7));
    assert_eq!(server.access_policy, FileAccessPolicy::AllowAll);
    assert_eq!(server.bind_addr, "127.0.0.1:7878");
    match server.route_for(&"/".to_string()) {
        Some(ResponseGenerator::File(p)) => assert_eq!(p, "res/index.html"),
        _ => panic!("expected a file route"),
    }
    assert!(matches!(server.route_for(&"/x".to_string()), Some(ResponseGenerator::Custom(7))));
    assert!(matches!(server.route_for(&"/nope".to_string()), Some(ResponseGenerator::NotFound)));
    let server = server.with_routes(rumwebs_http::headers::StrMap::new());
    assert!(server.route_for(&"/nope".to_string()).is_none());
}

#[test]
fn basic_pages() {
    assert!(matches!(page_for("/img"), Page::Image));
    match page_for("/sleep") {
        Page::File { status, path, sleep } => {
            assert_eq!(status.code, 200);
            assert_eq!(path, "res/index.html");
            assert!(sleep);
        }
        _ => panic!(),
    }
    match page_for("/other") {
        Page::File { status, path, sleep } => {
            assert_eq!(status.code, 404);
            assert_eq!(path, "res/404.html");
            assert!(!sleep);
        }
        _ => panic!(),
    }
    let resp = image_response(vec![1, 2]);
    let bytes = resp.message_bytes();
    assert!(bytes.ends_with(b"\r\n\r\n\x01\x02"));
    let resp = file_page_response(status_codes::not_found(), b"nf".to_vec());
    assert_eq!(resp.to_string(), "HTTP/1.1 404 Not Found\r\nContent-Length: 2\r\n\r\nnf");
}
