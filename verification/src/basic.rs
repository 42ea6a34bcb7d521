//! The plain HTTP variant: a request line split on spaces, responses that send the blank
//! line only together with a body, routes that fall back to `/404`, and the fixed pages of
//! the plain server.
use vstd::prelude::*;
use vstd::utf8::*;
use crate::bytes::{
    all_ascii, contains_seq, copy_range, decode_valid, join_with, lemma_encode_concat,
    lemma_split_from_valid, lemma_split_join, split_bytes, split_seq, views,
};
use crate::errors::RequestParseError;
use crate::headers::{lookup, HeaderMap, StrMap};
use crate::request::{
    body_of, decode_head_lines, has_http_mark, head_body_separator, head_lines, head_of, http_mark,
    lemma_head_body,
    lemma_headers_hold_lines, lemma_method_name_roundtrip, lemma_split_first_two, request_line, line_sets_key, method_name, opt_bytes,
    parse_header_line, parse_headers, parse_headers_upto, parse_method,
    split_head_body, RequestMethod, RequestView,
};
use crate::response::{self, head_text, new_response, prepared, with_header_view, ResponseView};
use crate::status_codes::{self, spec_not_found, spec_ok, StatusCode};

verus! {

broadcast use vstd::utf8::encode_utf8_valid_utf8;

/// Which files the server serves for paths without a route.
#[derive(Clone, Copy, Debug, PartialEq, Eq, Structural)]
pub enum FileAccessPolicy {
    /// Serve whatever file is requested.
    AllowAll,
    /// Serve files in the running directory or below it.
    RestrictUp,
}

/// A single space.
pub open spec fn space() -> Seq<u8> {
    seq![32u8]
}

/// The words of a request line, split at every space.
pub open spec fn line_items(line: Seq<char>) -> Seq<Seq<u8>> {
    split_seq(encode_utf8(line), space())
}

/// Parsing `b` stops with a panic: it holds `HTTP/` and a UTF-8 head, but the request line
/// has fewer than three words, or the method is known and a header line holds no `: `.
pub open spec fn parse_panics(b: Seq<u8>) -> bool {
    contains_seq(b, http_mark()) && valid_utf8(head_of(b)) && {
        let lines = head_lines(b);
        let items = line_items(lines[0]);
        items.len() < 3 || (parse_method(decode_utf8(items[0])) is Some && parse_headers_upto(
            lines,
            lines.len() as int,
        ) is Err)
    }
}

/// The request that `b` holds, or the description of what is wrong with it, where parsing
/// does not panic.
pub open spec fn parse_outcome(b: Seq<u8>) -> Result<RequestView, Seq<char>> {
    if !contains_seq(b, http_mark()) {
        Err("Bytes don't form a valid HTTP request."@)
    } else if !valid_utf8(head_of(b)) {
        Err("Failed to parse HTTP request into valid UTF-8."@)
    } else {
        let lines = head_lines(b);
        let items = line_items(lines[0]);
        match parse_method(decode_utf8(items[0])) {
            None => Err("Failed to find a valid HTTP request method."@),
            Some(method) => match parse_headers_upto(lines, lines.len() as int) {
                Ok(h) => Ok(
                    RequestView {
                        method,
                        uri: decode_utf8(items[1]),
                        http_version: decode_utf8(items[2]),
                        headers: Some(h),
                        body: body_of(b),
                    },
                ),
                Err(e) => Err(e),
            },
        }
    }
}

/// An HTTP request.
pub struct Request {
    pub method: RequestMethod,
    pub uri: String,
    pub http_version: String,
    pub headers: Option<HeaderMap>,
    pub body: Option<Vec<u8>>,
}

impl View for Request {
    type V = RequestView;

    open spec fn view(&self) -> RequestView {
        RequestView {
            method: self.method,
            uri: self.uri@,
            http_version: self.http_version@,
            headers: match self.headers {
                Some(h) => Some(h@),
                None => None,
            },
            body: opt_bytes(self.body),
        }
    }
}

/// A request that the simple parser accepts holds, under each header line's name, the
/// value of the last line that names it.
pub proof fn lemma_basic_headers_from_lines(b: Seq<u8>, i: int, k: Seq<char>, v: Seq<char>)
    requires
        parse_outcome(b) is Ok,
        1 <= i < head_lines(b).len(),
        parse_header_line(head_lines(b)[i]) == Ok::<(Seq<char>, Seq<char>), Seq<char>>((k, v)),
        forall|j: int| i < j < head_lines(b).len() ==> !#[trigger] line_sets_key(head_lines(b)[j], k),
    ensures
        parse_outcome(b)->Ok_0.headers matches Some(h) && lookup(h, k) == Some(v),
{
    lemma_headers_hold_lines(head_lines(b), head_lines(b).len() as int, i, k, v);
}

/// The body of a request that the simple parser accepts is what follows the first blank
/// line of the bytes, and a request without a body came from bytes without a blank line.
pub proof fn lemma_basic_body(b: Seq<u8>)
    requires
        parse_outcome(b) is Ok,
    ensures
        parse_outcome(b)->Ok_0.body matches Some(x) ==> head_of(b) + head_body_separator() + x == b
            && !contains_seq(head_of(b), head_body_separator()),
        parse_outcome(b)->Ok_0.body is None ==> !contains_seq(b, head_body_separator()),
{
    lemma_head_body(b);
}

/// A request line of exactly three words reads back as the request line of the request
/// that the simple parser makes of it.
pub proof fn lemma_basic_request_line(b: Seq<u8>)
    requires
        parse_outcome(b) is Ok,
        line_items(head_lines(b)[0]).len() == 3,
    ensures
        request_line(parse_outcome(b)->Ok_0) == head_lines(b)[0],
{
    let line = head_lines(b)[0];
    let enc = encode_utf8(line);
    let items = line_items(line);
    reveal_strlit(" ");
    assert(enc.subrange(0, enc.len() as int) =~= enc);
    assert(all_ascii(space()));
    lemma_split_from_valid(enc, space(), 0);
    lemma_split_join(enc, space(), 0);
    assert(items.drop_first().drop_first().len() == 1);
    assert(join_with(items, space()) == items[0] + space() + join_with(items.drop_first(), space()));
    let d1 = items.drop_first();
    let d2 = d1.drop_first();
    assert(d1[0] == items[1]);
    assert(d2[0] == items[2]);
    assert(join_with(d2, space()) == items[2]);
    assert(join_with(d1, space()) == d1[0] + space() + join_with(d2, space()));
    assert(join_with(items.drop_first(), space()) == items[1] + space() + items[2]);
    let r = parse_outcome(b)->Ok_0;
    lemma_method_name_roundtrip(r.method, decode_utf8(items[0]));
    decode_utf8_encode_utf8(items[0]);
    decode_utf8_encode_utf8(items[1]);
    decode_utf8_encode_utf8(items[2]);
    assert(is_ascii_chars(" "@));
    is_ascii_chars_encode_utf8(" "@);
    assert(encode_utf8(" "@) =~= space());
    let m = method_name(r.method);
    lemma_encode_concat(m, " "@);
    lemma_encode_concat(m + " "@, r.uri);
    lemma_encode_concat(m + " "@ + r.uri, " "@);
    lemma_encode_concat(m + " "@ + r.uri + " "@, r.http_version);
    assert(encode_utf8(request_line(r)) =~= enc);
    encode_utf8_decode_utf8(request_line(r));
    encode_utf8_decode_utf8(line);
}

/// What parsing gives when it does not panic.
pub open spec fn outcome_view(r: Result<Request, RequestParseError>) -> Result<RequestView, Seq<char>> {
    match r {
        Ok(req) => Ok(req@),
        Err(e) => Err(e.details@),
    }
}

/// Parses, or gives `None` where parsing panics.
fn parse(bytes: &[u8]) -> (r: Option<Result<Request, RequestParseError>>)
    ensures
        r is None <==> parse_panics(bytes@),
        r matches Some(o) ==> outcome_view(o) == parse_outcome(bytes@),
{
    if !has_http_mark(bytes) {
        return Some(Err(RequestParseError::new("Bytes don't form a valid HTTP request.")));
    }
    let (head, body) = split_head_body(bytes);
    let lines = match decode_head_lines(head.as_slice()) {
        Some(l) => l,
        None => {
            return Some(
                Err(RequestParseError::new("Failed to parse HTTP request into valid UTF-8.")),
            );
        },
    };
    let ghost lv = lines@.map_values(|l: String| l@);
    assert(lv == head_lines(bytes@));
    assert(lv[0] == lines@[0]@);
    let enc = lines[0].as_str().as_bytes();
    let sp: Vec<u8> = vec![32u8];
    assert(sp@ =~= space());
    let items = split_bytes(enc, sp.as_slice());
    proof {
        assert(enc@ == encode_utf8(lv[0]));
        assert(all_ascii(space()));
        assert(enc@.subrange(0, enc@.len() as int) =~= enc@);
        lemma_split_from_valid(enc@, space(), 0);
        lemma_split_first_two(enc@, space());
    }
    if items.len() < 3 {
        return None;
    }
    assert(views(items@)[0] == items@[0]@);
    assert(views(items@)[1] == items@[1]@);
    assert(views(items@)[2] == items@[2]@);
    assert(items@[0]@.subrange(0, items@[0]@.len() as int) =~= items@[0]@);
    assert(items@[1]@.subrange(0, items@[1]@.len() as int) =~= items@[1]@);
    assert(items@[2]@.subrange(0, items@[2]@.len() as int) =~= items@[2]@);
    let method_str = decode_valid(copy_range(items[0].as_slice(), 0, items[0].len()));
    let uri = decode_valid(copy_range(items[1].as_slice(), 0, items[1].len()));
    let http_version = decode_valid(copy_range(items[2].as_slice(), 0, items[2].len()));
    let method = match RequestMethod::from_str(method_str.as_str()) {
        Ok(m) => m,
        Err(_) => {
            return Some(
                Err(RequestParseError::new("Failed to find a valid HTTP request method.")),
            );
        },
    };
    match parse_headers(&lines) {
        Ok(headers) => Some(Ok(Request { method, uri, http_version, headers: Some(headers), body })),
        Err(_) => None,
    }
}

impl Request {
    /// The default request: `GET / 1.1` without headers or body.
    pub fn new() -> (r: Request)
        ensures
            r.method == RequestMethod::GET,
            r.uri@ == "/"@,
            r.http_version@ == "1.1"@,
            r.headers is None,
            r.body is None,
    {
        Request {
            method: RequestMethod::GET,
            uri: String::from_str("/"),
            http_version: String::from_str("1.1"),
            headers: None,
            body: None,
        }
    }

    /// Whether parsing `bytes` panics; see `parse_panics`.
    pub fn from_bytes_panics(bytes: &[u8]) -> (r: bool)
        ensures
            r == parse_panics(bytes@),
    {
        parse(bytes).is_none()
    }

    /// Parses a request: the head before the first CR LF CR LF must be UTF-8, its first line
    /// holds method, target and version separated by spaces, every further line is a
    /// header; what follows the separator is the body.
    pub fn from_bytes(bytes: &[u8]) -> (r: Result<Request, RequestParseError>)
        requires
            !parse_panics(bytes@),
        ensures
            outcome_view(r) == parse_outcome(bytes@),
    {
        match parse(bytes) {
            Some(r) => r,
            None => Err(RequestParseError::new("")),
        }
    }

    /// The method and the target, as in `GET request to /`.
    pub fn to_string(&self) -> (r: String)
        ensures
            r@ == method_name(self.method) + " request to "@ + self.uri@,
    {
        let mut s = self.method.to_string();
        s.append(" request to ");
        s.append(self.uri.as_str());
        s
    }
}

/// The bytes of a response on the wire: the UTF-8 head and, only with a body, an empty line
/// and the body.
pub open spec fn message(r: ResponseView) -> Seq<u8> {
    encode_utf8(head_text(r)) + match r.body {
        Some(b) => seq![13u8, 10u8] + b,
        None => Seq::empty(),
    }
}

/// An HTTP response.
pub struct Response(response::Response);

impl View for Response {
    type V = ResponseView;

    closed spec fn view(&self) -> ResponseView {
        self.0@
    }
}

impl Response {
    /// A fresh response: version `1.1`, status `200 OK`, an empty header map and no body.
    pub fn new() -> (r: Response)
        ensures
            r@ == new_response(spec_ok()),
    {
        Response(response::Response::new())
    }

    /// The response with its protocol version replaced.
    pub fn with_http_version(self, http_version: &str) -> (r: Response)
        ensures
            r@ == (ResponseView { http_version: http_version@, ..self@ }),
    {
        Response(self.0.with_http_version(http_version))
    }

    /// The response with its status replaced.
    pub fn with_status(self, status: StatusCode) -> (r: Response)
        ensures
            r@ == (ResponseView { status, ..self@ }),
    {
        Response(self.0.with_status(status))
    }

    /// The response with the header `k: v` stored, replacing an earlier value of `k`.
    pub fn with_header(self, header: (&str, &str)) -> (r: Response)
        ensures
            r@ == with_header_view(self@, header.0@, header.1@),
    {
        Response(self.0.with_header(header))
    }

    /// The response with its header map replaced.
    pub fn with_headers(self, headers: HeaderMap) -> (r: Response)
        ensures
            r@ == (ResponseView { headers: Some(headers@), ..self@ }),
    {
        Response(self.0.with_headers(headers))
    }

    /// The response with `body` as its body.
    pub fn with_body(self, body: Vec<u8>) -> (r: Response)
        ensures
            r@ == (ResponseView { body: Some(body@), ..self@ }),
    {
        Response(self.0.with_body(body.as_slice()))
    }

    /// The response made ready to send: a `Content-Length` header gives the body's length.
    pub fn prepare_response(self) -> (r: Response)
        ensures
            r@ == prepared(self@),
    {
        Response(self.0.prepare_response())
    }

    /// The bytes of the response on the wire.
    pub fn message_bytes(&self) -> (r: Vec<u8>)
        ensures
            r@ == message(self@),
    {
        let mut result = self.0.head_bytes();
        match self.0.body() {
            Some(b) => {
                result.push(13u8);
                result.push(10u8);
                crate::bytes::append_bytes(&mut result, b.as_slice());
            },
            None => {},
        }
        assert(result@ =~= message(self@));
        result
    }

    /// The response as text: its bytes read as UTF-8, invalid runs replaced.
    pub fn to_string(&self) -> (r: String)
        ensures
            r@ == crate::bytes::utf8_lossy_text(message(self@)),
            valid_utf8(message(self@)) ==> r@ == decode_utf8(message(self@)),
    {
        let bytes = self.message_bytes();
        crate::bytes::utf8_lossy(bytes.as_slice())
    }
}

/// The page sent with `404 Not Found`.
pub const NOT_FOUND_PAGE: &'static str = "<!DOCTYPE html>\n                            <html><body><h1>404 NOT FOUND</h1></body>\n                            </html>";

/// The response to a request for something that is not there.
pub fn not_found_response() -> (r: Response)
    ensures
        r@ == prepared(
            ResponseView {
                status: spec_not_found(),
                body: Some(encode_utf8(NOT_FOUND_PAGE@)),
                ..new_response(spec_ok())
            },
        ),
{
    let mut body: Vec<u8> = Vec::new();
    crate::bytes::append_bytes(&mut body, NOT_FOUND_PAGE.as_bytes());
    Response::new().with_status(status_codes::not_found()).with_body(body).prepare_response()
}

/// What answers the requests on a route.
pub enum ResponseGenerator {
    /// The contents of this file.
    File(String),
    /// The `404 Not Found` page.
    NotFound,
    /// The handler with this number, which the caller keeps.
    Custom(usize),
}

/// A response generator, as values.
pub ghost enum GeneratorView {
    File(Seq<char>),
    NotFound,
    Custom(usize),
}

impl View for ResponseGenerator {
    type V = GeneratorView;

    open spec fn view(&self) -> GeneratorView {
        match self {
            ResponseGenerator::File(p) => GeneratorView::File(p@),
            ResponseGenerator::NotFound => GeneratorView::NotFound,
            ResponseGenerator::Custom(id) => GeneratorView::Custom(*id),
        }
    }
}

/// A generator that runs the caller's handler number `id`.
pub fn new_response_generator(id: usize) -> (r: ResponseGenerator)
    ensures
        r@ == GeneratorView::Custom(id),
{
    ResponseGenerator::Custom(id)
}

/// A generator that answers with the contents of the file at `path`.
pub fn file_response_generator(path: &str) -> (r: ResponseGenerator)
    ensures
        r@ == GeneratorView::File(path@),
{
    ResponseGenerator::File(String::from_str(path))
}

/// The answer of a file route: the file's contents as the body, or `404 Not Found` when the
/// file could not be read.
pub fn file_response(contents: Option<Vec<u8>>) -> (r: Response)
    ensures
        match contents {
            Some(b) => r@ == prepared(ResponseView { body: Some(b@), ..new_response(spec_ok()) }),
            None => r@ == prepared(
                ResponseView {
                    status: spec_not_found(),
                    body: Some(encode_utf8(NOT_FOUND_PAGE@)),
                    ..new_response(spec_ok())
                },
            ),
        },
{
    match contents {
        Some(bytes) => Response::new().with_body(bytes).prepare_response(),
        None => not_found_response(),
    }
}

/// Routes: request targets to generators.
pub type RouteTable = StrMap<ResponseGenerator>;

/// A server's routes and settings.
pub struct Server {
    pub routes: RouteTable,
    pub access_policy: FileAccessPolicy,
    pub bind_addr: String,
}

impl Server {
    /// A server for `addr` that serves all files and routes `/404` to its page.
    pub fn bind(addr: &str) -> (s: Server)
        ensures
            s.bind_addr@ == addr@,
            s.access_policy == FileAccessPolicy::AllowAll,
            s.routes@ == seq![("/404"@, GeneratorView::NotFound)],
    {
        let mut routes: RouteTable = StrMap::new();
        routes.insert(String::from_str("/404"), ResponseGenerator::NotFound);
        assert(routes@ =~= seq![("/404"@, GeneratorView::NotFound)]);
        Server { routes, access_policy: FileAccessPolicy::AllowAll, bind_addr: String::from_str(addr) }
    }

    /// Adds a route, replacing an earlier route to the same target.
    pub fn with_route(self, route: &str, response: ResponseGenerator) -> (s: Server)
        ensures
            s.routes@ == crate::headers::inserted(self.routes@, route@, response@),
            s.access_policy == self.access_policy,
            s.bind_addr@ == self.bind_addr@,
    {
        let mut s = self;
        s.routes.insert(String::from_str(route), response);
        s
    }

    /// Replaces all routes.
    pub fn with_routes(self, routes: RouteTable) -> (s: Server)
        ensures
            s.routes@ == routes@,
            s.access_policy == self.access_policy,
            s.bind_addr@ == self.bind_addr@,
    {
        let mut s = self;
        s.routes = routes;
        s
    }

    /// The generator for a target: its route, or else the route of `/404`.
    pub fn route_for(&self, uri: &String) -> (r: Option<&ResponseGenerator>)
        ensures
            match crate::headers::lookup(self.routes@, uri@) {
                Some(g) => r matches Some(g2) && g2@ == g,
                None => match crate::headers::lookup(self.routes@, "/404"@) {
                    Some(g) => r matches Some(g2) && g2@ == g,
                    None => r is None,
                },
            },
    {
        match self.routes.get(uri) {
            Some(g) => Some(g),
            None => self.routes.get(&String::from_str("/404")),
        }
    }
}

/// What the plain server sends for a target.
pub enum Page {
    /// The picture, as `image/png`.
    Image,
    /// A file with a status, after a pause of five seconds where `sleep` is set.
    File { status: StatusCode, path: &'static str, sleep: bool },
}

/// The page for a target: `/img` is the picture, `/` and `/sleep` the index (the latter after
/// a pause), `/favicon.png` the icon, anything else the not-found page.
pub fn page_for(uri: &str) -> (r: Page)
    ensures
        uri@ == "/img"@ ==> r is Image,
        uri@ == "/"@ ==> (r matches Page::File { status, path, sleep } && status == spec_ok()
            && path@ == "res/index.html"@ && !sleep),
        uri@ == "/sleep"@ ==> (r matches Page::File { status, path, sleep } && status == spec_ok()
            && path@ == "res/index.html"@ && sleep),
        uri@ == "/favicon.png"@ ==> (r matches Page::File { status, path, sleep } && status
            == spec_ok() && path@ == "res/favicon.png"@ && !sleep),
        uri@ != "/img"@ && uri@ != "/"@ && uri@ != "/sleep"@ && uri@ != "/favicon.png"@ ==> (
        r matches Page::File { status, path, sleep } && status == spec_not_found() && path@
            == "res/404.html"@ && !sleep),
{
    proof {
        reveal_strlit("/img");
        reveal_strlit("/");
        reveal_strlit("/sleep");
        reveal_strlit("/favicon.png");
        assert("/img"@.len() == 4 && "/"@.len() == 1 && "/sleep"@.len() == 6
            && "/favicon.png"@.len() == 12);
    }
    if crate::request::str_eq(uri, "/img") {
        Page::Image
    } else if crate::request::str_eq(uri, "/") {
        Page::File { status: status_codes::ok(), path: "res/index.html", sleep: false }
    } else if crate::request::str_eq(uri, "/sleep") {
        Page::File { status: status_codes::ok(), path: "res/index.html", sleep: true }
    } else if crate::request::str_eq(uri, "/favicon.png") {
        Page::File { status: status_codes::ok(), path: "res/favicon.png", sleep: false }
    } else {
        Page::File { status: status_codes::not_found(), path: "res/404.html", sleep: false }
    }
}

/// The picture response: an `image/png` header and the picture as the body.
pub fn image_response(png: Vec<u8>) -> (r: Response)
    ensures
        r@ == prepared(
            ResponseView {
                body: Some(png@),
                ..with_header_view(new_response(spec_ok()), "Content-Type"@, "image/png"@)
            },
        ),
{
    Response::new().with_header(("Content-Type", "image/png")).with_body(png).prepare_response()
}

/// A file page: the status and the file's contents as the body.
pub fn file_page_response(status: StatusCode, document: Vec<u8>) -> (r: Response)
    ensures
        r@ == prepared(ResponseView { status, body: Some(document@), ..new_response(spec_ok()) }),
{
    Response::new().with_status(status).with_body(document).prepare_response()
}

} // verus!
