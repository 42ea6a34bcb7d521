use rumwebs_http::errors::InvalidRequest;
use rumwebs_http::headers::StrMap;
use rumwebs_http::request::Request;
use rumwebs_http::server::{
    bad_request_response, file_response, forbidden_response, get_unknown_route_handler,
    moved_permanently_response, not_found_response, redirect_response, restricted_file_handler,
    route_request, strip_port, Dispatch, GeneratorStep, ResponseGenerator, RouteTable, Server,
    ServerAccessPolicy, UnknownRoute,
};

#[test]
fn canned_pages() {
    assert_eq!(
        bad_request_response().to_string(),
        "HTTP/1.1 400 Bad Request\r\nContent-Length: 65\r\n\r\n<!DOCTYPE html><html><body><h1>400 BAD REQUEST</h1></body></html>"
    );
    assert_eq!(
        forbidden_response().to_string(),
        "HTTP/1.1 403 Forbidden\r\nContent-Length: 63\r\n\r\n<!DOCTYPE html><html><body><h1>403 FORBIDDEN</h1></body></html>"
    );
    assert_eq!(
        not_found_response().to_string(),
        "HTTP/1.1 404 Not Found\r\nContent-Length: 63\r\n\r\n<!DOCTYPE html><html><body><h1>404 NOT FOUND</h1></body></html>"
    );
    assert_eq!(
        moved_permanently_response("https://example.com").to_string(),
        "HTTP/1.1 301 Moved Permanently\r\nLocation: https://example.com\r\nContent-Length: 0\r\n\r\n"
    );
}

#[test]
fn file_route_answers() {
    assert_eq!(
        file_response(Some(b"<p>".to_vec())).to_string(),
        "HTTP/1.1 200 OK\r\nContent-Length: 3\r\n\r\n<p>"
    );
    assert_eq!(file_response(None).to_string(), not_found_response().to_string());
}

#[test]
fn generator_steps() {
    match ResponseGenerator::from_file("a.html".to_string()).step() {
        GeneratorStep::ReadFile(p) => assert_eq!(p, "a.html"),
        _ => panic!(),
    }
    assert!(matches!(ResponseGenerator::new(3).step(), GeneratorStep::RunCustom(3)));
    match ResponseGenerator::Forbidden.step() {
        GeneratorStep::Respond(r) => assert_eq!(r.to_string(), forbidden_response().to_string()),
        _ => panic!(),
    }
}

#[test]
fn unknown_routes_follow_the_policy() {
    match get_unknown_route_handler("/docs/a.txt", ServerAccessPolicy::AllowAll) {
        UnknownRoute::Generator(ResponseGenerator::File(p)) => assert_eq!(p, "docs/a.txt"),
        _ => panic!(),
    }
    match get_unknown_route_handler("/docs/a.txt", ServerAccessPolicy::RestrictUp) {
        UnknownRoute::CheckPath(p) => assert_eq!(p, "docs/a.txt"),
        _ => panic!(),
    }
    assert!(matches!(
        get_unknown_route_handler("/docs/a.txt", ServerAccessPolicy::Restricted),
        UnknownRoute::Generator(ResponseGenerator::NotFound)
    ));
    assert!(matches!(restricted_file_handler("x".to_string(), false), ResponseGenerator::Forbidden));
    assert!(matches!(restricted_file_handler("x".to_string(), true), ResponseGenerator::File(_)));
}

#[test]
fn requests_are_dispatched() {
    let mut routes: RouteTable = StrMap::new();
    routes.insert("/".to_string(), ResponseGenerator::new(1));
    let req = Request::from_bytes(b"GET / HTTP/1.1").unwrap();
    assert!(matches!(
        route_request(&routes, ServerAccessPolicy::Restricted, Ok(req)),
        Dispatch::Generate(ResponseGenerator::Custom(1), _)
    ));
    let req = Request::from_bytes(b"GET /missing HTTP/1.1").unwrap();
    assert!(matches!(
        route_request(&routes, ServerAccessPolicy::Restricted, Ok(req)),
        Dispatch::Generate(ResponseGenerator::NotFound, _)
    ));
    let req = Request::from_bytes(b"GET /f.txt HTTP/1.1").unwrap();
    match route_request(&routes, ServerAccessPolicy::RestrictUp, Ok(req)) {
        Dispatch::CheckPath(p, r) => {
            assert_eq!(p, "f.txt");
            assert_eq!(r.uri, "/f.txt");
        }
        _ => panic!(),
    }
    match route_request(&routes, ServerAccessPolicy::AllowAll, Err(InvalidRequest::new("x"))) {
        Dispatch::Respond(r) => assert_eq!(r.to_string(), bad_request_response().to_string()),
        _ => panic!(),
    }
}

#[test]
fn redirection_strips_the_port() {
    assert_eq!(strip_port("example.com:8080"), "example.com");
    assert_eq!(strip_port("example.com"), "example.com");
    assert_eq!(strip_port(":80"), "");
    let req = Request::from_bytes(b"GET /a HTTP/1.1\r\nHost: site.org:80\r\n\r\n");
    assert_eq!(
        redirect_response(&req, "fallback").to_string(),
        "HTTP/1.1 301 Moved Permanently\r\nLocation: https://site.org\r\nContent-Length: 0\r\n\r\n"
    );
    let req = Request::from_bytes(b"GET /a HTTP/1.1\r\n\r\n");
    assert_eq!(redirect_response(&req, "fallback").to_string(), bad_request_response().to_string());
    let req = Request::from_bytes(b"junk");
    assert_eq!(redirect_response(&req, "fallback").to_string(), bad_request_response().to_string());
}

#[test]
fn builder_binds_with_mandatory_routes() {
    let mut server = Server::builder()
        .with_ip("127.0.0.1")
        .with_http_port(8080)
        .with_tls_port(8443)
        .with_thread_count(4)
        .with_access_policy(ServerAccessPolicy::RestrictUp)
        .with_http_redirection(true)
        .set_default_host("example.com")
        .add_route_to_file("/", "res/index.html".to_string())
        .add_route("/404", ResponseGenerator::new(9))
        .bind();
    assert_eq!(server.bind_addr, "127.0.0.1:8080");
    assert_eq!(server.http_redirect_addr(), "127.0.0.1:8080");
    assert_eq!(server.thread_count(), 4);
    assert_eq!(server.default_host(), "example.com");
    assert!(!server.missing_certificates());
    assert!(!server.start_routes());
    assert_eq!(server.routes.len(), 4);
    assert!(matches!(server.routes.get(&"/404".to_string()), Some(ResponseGenerator::Custom(9))));
    assert!(matches!(server.routes.get(&"/400".to_string()), Some(ResponseGenerator::BadRequest)));
    assert!(matches!(server.routes.get(&"/403".to_string()), Some(ResponseGenerator::Forbidden)));
    assert!(matches!(server.routes.get(&"/".to_string()), Some(ResponseGenerator::File(_))));
}

#[test]
fn added_default_routes_are_kept() {
    let server = Server::builder()
        .add_route("/400", ResponseGenerator::new(1))
        .add_route("/403", ResponseGenerator::new(2))
        .bind();
    assert_eq!(server.unfinished_routes.len(), 3);
    assert!(matches!(server.unfinished_routes.get(&"/400".to_string()), Some(ResponseGenerator::Custom(1))));
    assert!(matches!(server.unfinished_routes.get(&"/403".to_string()), Some(ResponseGenerator::Custom(2))));
    assert!(matches!(server.unfinished_routes.get(&"/404".to_string()), Some(ResponseGenerator::NotFound)));
    assert_eq!(server.routes.len(), 0);
    assert_eq!(Server::builder().bind().bind_addr, ":0");
}

#[test]
fn tls_binds_to_the_tls_port() {
    let server = Server::builder()
        .with_ip("0.0.0.0")
        .with_http_port(80)
        .with_tls_port(443)
        .set_tls(true, false)
        .with_http_redirection(true)
        .bind();
    assert_eq!(server.bind_addr, "0.0.0.0:443");
    assert!(server.missing_certificates());
    let mut server = Server::builder().with_tls_port(443).set_tls(true, true).with_http_redirection(true).bind();
    assert!(!server.missing_certificates());
    assert!(server.start_routes());
}
