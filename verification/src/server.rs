//! The server's decisions: canned responses, routes and what answers a request, the
//! redirection of plain HTTP to HTTPS, and the server's settings as a builder assembles
//! them. Listening, reading and writing sockets, threads and TLS are left to the caller.
use vstd::prelude::*;
use vstd::string::StrSliceExecFns;
use vstd::utf8::encode_utf8;
use crate::bytes::{decimal, push_decimal};
use crate::errors::InvalidRequest;
use crate::headers::{distinct_keys, has_key, inserted, lemma_inserted_lookup, lookup, StrMap};
use crate::request::{Request, RequestView};
use crate::response::{new_response, prepared, with_header_view, Response, ResponseView};
use crate::status_codes::{
    spec_bad_request, spec_forbidden, spec_moved_permanently, spec_not_found, spec_ok,
};
use crate::status_codes;

verus! {

/// The page sent with `400 Bad Request`.
pub const BAD_REQUEST_PAGE: &'static str =
    "<!DOCTYPE html><html><body><h1>400 BAD REQUEST</h1></body></html>";

/// The page sent with `403 Forbidden`.
pub const FORBIDDEN_PAGE: &'static str =
    "<!DOCTYPE html><html><body><h1>403 FORBIDDEN</h1></body></html>";

/// The page sent with `404 Not Found`.
pub const NOT_FOUND_PAGE: &'static str =
    "<!DOCTYPE html><html><body><h1>404 NOT FOUND</h1></body></html>";

/// A prepared response with the given status and page as its body.
pub open spec fn page_response(status: status_codes::StatusCode, page: Seq<char>) -> ResponseView {
    prepared(ResponseView { status, body: Some(encode_utf8(page)), ..new_response(spec_ok()) })
}

/// A prepared `301 Moved Permanently` response that points to `to`.
pub open spec fn moved_permanently_view(to: Seq<char>) -> ResponseView {
    prepared(
        with_header_view(
            ResponseView { status: spec_moved_permanently(), ..new_response(spec_ok()) },
            "Location"@,
            to,
        ),
    )
}

/// A response that redirects to `to` for good.
pub fn moved_permanently_response(to: &str) -> (r: Response)
    ensures
        r@ == moved_permanently_view(to@),
{
    Response::new().with_status(status_codes::moved_permanently()).with_header(
        ("Location", to),
    ).prepare_response()
}

/// The response to a request that could not be parsed.
pub fn bad_request_response() -> (r: Response)
    ensures
        r@ == page_response(spec_bad_request(), BAD_REQUEST_PAGE@),
{
    Response::new().with_status(status_codes::bad_request()).with_body(
        BAD_REQUEST_PAGE.as_bytes(),
    ).prepare_response()
}

/// The response to a request for a file outside the served directory.
pub fn forbidden_response() -> (r: Response)
    ensures
        r@ == page_response(spec_forbidden(), FORBIDDEN_PAGE@),
{
    Response::new().with_status(status_codes::forbidden()).with_body(
        FORBIDDEN_PAGE.as_bytes(),
    ).prepare_response()
}

/// The response to a request for something that is not there.
pub fn not_found_response() -> (r: Response)
    ensures
        r@ == page_response(spec_not_found(), NOT_FOUND_PAGE@),
{
    Response::new().with_status(status_codes::not_found()).with_body(
        NOT_FOUND_PAGE.as_bytes(),
    ).prepare_response()
}

/// Which files the server serves for paths that have no route.
#[derive(Clone, Copy, Debug, PartialEq, Eq, Structural)]
pub enum ServerAccessPolicy {
    /// Serve whatever file is requested.
    AllowAll,
    /// Serve files in the running directory or below it.
    RestrictUp,
    /// Serve routed paths only.
    Restricted,
}

/// What answers the requests on a route.
pub enum ResponseGenerator {
    /// The contents of this file.
    File(String),
    /// The `400 Bad Request` page.
    BadRequest,
    /// The `403 Forbidden` page.
    Forbidden,
    /// The `404 Not Found` page.
    NotFound,
    /// The handler with this number, which the caller keeps.
    Custom(usize),
}

/// A response generator, as values.
pub ghost enum GeneratorView {
    File(Seq<char>),
    BadRequest,
    Forbidden,
    NotFound,
    Custom(usize),
}

impl View for ResponseGenerator {
    type V = GeneratorView;

    open spec fn view(&self) -> GeneratorView {
        match self {
            ResponseGenerator::File(p) => GeneratorView::File(p@),
            ResponseGenerator::BadRequest => GeneratorView::BadRequest,
            ResponseGenerator::Forbidden => GeneratorView::Forbidden,
            ResponseGenerator::NotFound => GeneratorView::NotFound,
            ResponseGenerator::Custom(id) => GeneratorView::Custom(*id),
        }
    }
}

/// The next thing to do to answer with a generator.
pub enum GeneratorStep {
    /// Send this response.
    Respond(Response),
    /// Read this file and hand its contents to `file_response`.
    ReadFile(String),
    /// Run the caller's handler with this number.
    RunCustom(usize),
}

impl ResponseGenerator {
    /// A generator that runs the caller's handler number `id`.
    pub fn new(id: usize) -> (r: ResponseGenerator)
        ensures
            r@ == GeneratorView::Custom(id),
    {
        ResponseGenerator::Custom(id)
    }

    /// A generator that answers with the contents of the file at `path`.
    pub fn from_file(path: String) -> (r: ResponseGenerator)
        ensures
            r@ == GeneratorView::File(path@),
    {
        ResponseGenerator::File(path)
    }

    /// A copy of the generator.
    pub fn duplicate(&self) -> (r: ResponseGenerator)
        ensures
            r@ == self@,
    {
        match self {
            ResponseGenerator::File(p) => ResponseGenerator::File(p.clone()),
            ResponseGenerator::BadRequest => ResponseGenerator::BadRequest,
            ResponseGenerator::Forbidden => ResponseGenerator::Forbidden,
            ResponseGenerator::NotFound => ResponseGenerator::NotFound,
            ResponseGenerator::Custom(id) => ResponseGenerator::Custom(*id),
        }
    }

    /// The next step to answer: a canned page is sent at once, a file is to be read, a
    /// handler of the caller's is to be run.
    pub fn step(&self) -> (r: GeneratorStep)
        ensures
            match self@ {
                GeneratorView::File(p) => r matches GeneratorStep::ReadFile(q) && q@ == p,
                GeneratorView::BadRequest => r matches GeneratorStep::Respond(resp) && resp@
                    == page_response(spec_bad_request(), BAD_REQUEST_PAGE@),
                GeneratorView::Forbidden => r matches GeneratorStep::Respond(resp) && resp@
                    == page_response(spec_forbidden(), FORBIDDEN_PAGE@),
                GeneratorView::NotFound => r matches GeneratorStep::Respond(resp) && resp@
                    == page_response(spec_not_found(), NOT_FOUND_PAGE@),
                GeneratorView::Custom(id) => r matches GeneratorStep::RunCustom(j) && j == id,
            },
    {
        match self {
            ResponseGenerator::File(p) => GeneratorStep::ReadFile(p.clone()),
            ResponseGenerator::BadRequest => GeneratorStep::Respond(bad_request_response()),
            ResponseGenerator::Forbidden => GeneratorStep::Respond(forbidden_response()),
            ResponseGenerator::NotFound => GeneratorStep::Respond(not_found_response()),
            ResponseGenerator::Custom(id) => GeneratorStep::RunCustom(*id),
        }
    }
}

/// The answer of a file route: the file's contents as the body, or `404 Not Found` when the
/// file could not be read.
pub fn file_response(contents: Option<Vec<u8>>) -> (r: Response)
    ensures
        match contents {
            Some(b) => r@ == prepared(ResponseView { body: Some(b@), ..new_response(spec_ok()) }),
            None => r@ == page_response(spec_not_found(), NOT_FOUND_PAGE@),
        },
{
    match contents {
        Some(bytes) => Response::new().with_body(bytes.as_slice()).prepare_response(),
        None => not_found_response(),
    }
}

/// Routes: request targets to generators.
pub type RouteTable = StrMap<ResponseGenerator>;

/// Routes, as values.
pub type RouteSeq = Seq<(Seq<char>, GeneratorView)>;

/// A copy of a route table.
pub fn copy_routes(routes: &RouteTable) -> (r: RouteTable)
    ensures
        r@ == routes@,
{
    let _ = routes.len();
    let mut r: RouteTable = StrMap::new();
    let mut i: usize = 0;
    while i < routes.len()
        invariant
            i <= routes@.len(),
            distinct_keys(routes@),
            r@ == routes@.subrange(0, i as int),
        decreases routes@.len() - i,
    {
        let (k, g) = routes.entry(i);
        proof {
            assert(!has_key(r@, k@)) by {
                if has_key(r@, k@) {
                    let p = choose|p: int| 0 <= p < r@.len() && r@[p].0 == k@;
                    assert(routes@[p].0 == routes@[i as int].0);
                }
            }
        }
        r.insert(k.clone(), g.duplicate());
        assert(r@ =~= routes@.subrange(0, i + 1));
        i = i + 1;
    }
    assert(routes@.subrange(0, routes@.len() as int) =~= routes@);
    r
}

/// The target without its first character.
pub open spec fn stripped(uri: Seq<char>) -> Seq<char> {
    uri.subrange(1, uri.len() as int)
}

/// The target can lose its first character: it is not empty and that character is ASCII.
pub open spec fn strippable(uri: Seq<char>) -> bool {
    uri.len() > 0 && (uri[0] as u32) < 128
}

/// What answers a target that has no route.
pub enum UnknownRoute {
    /// This generator.
    Generator(ResponseGenerator),
    /// The file at this path, if it lies in the running directory; see
    /// `restricted_file_handler`.
    CheckPath(String),
}

/// What answers a target that has no route, by the access policy: the file it names, that
/// file if it lies in the running directory, or `404 Not Found`.
pub fn get_unknown_route_handler(uri: &str, access_policy: ServerAccessPolicy) -> (r: UnknownRoute)
    requires
        strippable(uri@),
    ensures
        match access_policy {
            ServerAccessPolicy::AllowAll => r matches UnknownRoute::Generator(g) && g@
                == GeneratorView::File(stripped(uri@)),
            ServerAccessPolicy::RestrictUp => r matches UnknownRoute::CheckPath(p) && p@
                == stripped(uri@),
            ServerAccessPolicy::Restricted => r matches UnknownRoute::Generator(g) && g@
                == GeneratorView::NotFound,
        },
{
    let n = uri.unicode_len();
    let uri_stripped = uri.substring_char(1, n).to_owned();
    match access_policy {
        ServerAccessPolicy::AllowAll => UnknownRoute::Generator(
            ResponseGenerator::from_file(uri_stripped),
        ),
        ServerAccessPolicy::RestrictUp => UnknownRoute::CheckPath(uri_stripped),
        ServerAccessPolicy::Restricted => UnknownRoute::Generator(ResponseGenerator::NotFound),
    }
}

/// The answer for a file asked for under the restricting policy: the file if it lies in the
/// running directory, `403 Forbidden` otherwise.
pub fn restricted_file_handler(path: String, within_running_path: bool) -> (r: ResponseGenerator)
    ensures
        r@ == if within_running_path {
            GeneratorView::File(path@)
        } else {
            GeneratorView::Forbidden
        },
{
    if within_running_path {
        ResponseGenerator::from_file(path)
    } else {
        ResponseGenerator::Forbidden
    }
}

/// What to do with an incoming request.
pub enum Dispatch {
    /// Send this response.
    Respond(Response),
    /// Answer the request with this generator.
    Generate(ResponseGenerator, Request),
    /// Answer the request with the file at this path if it lies in the running directory;
    /// see `restricted_file_handler`.
    CheckPath(String, Request),
}

/// What answers a request: an unparsable request gets `400 Bad Request`; a routed target
/// gets its route's generator; any other target is left to the access policy.
pub fn route_request(
    routes: &RouteTable,
    access_policy: ServerAccessPolicy,
    parsed: Result<Request, InvalidRequest>,
) -> (r: Dispatch)
    requires
        parsed matches Ok(req) ==> (lookup(routes@, req.uri@) is None ==> strippable(req.uri@)),
    ensures
        match parsed {
            Err(_) => r matches Dispatch::Respond(resp) && resp@ == page_response(
                spec_bad_request(),
                BAD_REQUEST_PAGE@,
            ),
            Ok(req) => match lookup(routes@, req.uri@) {
                Some(g) => r matches Dispatch::Generate(g2, req2) && g2@ == g && req2@ == req@,
                None => match access_policy {
                    ServerAccessPolicy::AllowAll => r matches Dispatch::Generate(g2, req2) && g2@
                        == GeneratorView::File(stripped(req.uri@)) && req2@ == req@,
                    ServerAccessPolicy::RestrictUp => r matches Dispatch::CheckPath(p, req2) && p@
                        == stripped(req.uri@) && req2@ == req@,
                    ServerAccessPolicy::Restricted => r matches Dispatch::Generate(g2, req2) && g2@
                        == GeneratorView::NotFound && req2@ == req@,
                },
            },
        },
{
    match parsed {
        Err(_) => Dispatch::Respond(bad_request_response()),
        Ok(request) => {
            let found = match routes.get(&request.uri) {
                Some(g) => Some(g.duplicate()),
                None => None,
            };
            match found {
                Some(g) => Dispatch::Generate(g, request),
                None => match get_unknown_route_handler(request.uri.as_str(), access_policy) {
                    UnknownRoute::Generator(g) => Dispatch::Generate(g, request),
                    UnknownRoute::CheckPath(p) => Dispatch::CheckPath(p, request),
                },
            }
        },
    }
}

/// The position of the first `c` in `h` at or after `from`, or the length of `h`.
pub open spec fn first_char_from(h: Seq<char>, c: char, from: int) -> int
    decreases h.len() - from,
{
    if from < 0 || from >= h.len() {
        h.len() as int
    } else if h[from] == c {
        from
    } else {
        first_char_from(h, c, from + 1)
    }
}

/// A host name without its port: the text before the first `:`.
pub open spec fn host_without_port(host: Seq<char>) -> Seq<char> {
    host.subrange(0, first_char_from(host, ':', 0))
}

/// The text before the first `:`.
pub fn strip_port(host: &str) -> (r: String)
    ensures
        r@ == host_without_port(host@),
{
    let n = host.unicode_len();
    let mut i: usize = 0;
    while i < n && host.get_char(i) != ':'
        invariant
            i <= n,
            n == host@.len(),
            first_char_from(host@, ':', 0) == first_char_from(host@, ':', i as int),
        decreases n - i,
    {
        i = i + 1;
    }
    host.substring_char(0, i).to_owned()
}

/// Where `first_char_from` stops: at the first `c` at or after `from`, or at the end.
proof fn lemma_first_char_from(h: Seq<char>, c: char, from: int)
    requires
        0 <= from <= h.len(),
    ensures
        from <= first_char_from(h, c, from) <= h.len(),
        forall|i: int| from <= i < first_char_from(h, c, from) ==> #[trigger] h[i] != c,
        first_char_from(h, c, from) < h.len() ==> h[first_char_from(h, c, from)] == c,
    decreases h.len() - from,
{
    if from < h.len() && h[from] != c {
        lemma_first_char_from(h, c, from + 1);
    }
}

/// A host without its port is the host up to its first `:`: a prefix of the host that holds
/// no `:`, and either the whole host or followed in it by a `:`.
pub proof fn lemma_host_without_port(host: Seq<char>)
    ensures
        host_without_port(host).len() <= host.len(),
        host_without_port(host) == host.subrange(0, host_without_port(host).len() as int),
        forall|i: int|
            0 <= i < host_without_port(host).len() ==> #[trigger] host_without_port(host)[i]
                != ':',
        host_without_port(host).len() == host.len() || host[host_without_port(host).len() as int]
            == ':',
{
    lemma_first_char_from(host, ':', 0);
}

/// A parsed request that names its host is redirected for good to `https://` and that host
/// without its port, whatever the host holds.
pub proof fn lemma_redirect_to_host(req: RequestView, host: Seq<char>)
    requires
        req.headers matches Some(h) && lookup(h, "Host"@) == Some(host),
    ensures
        redirect_view(Ok(req)) == moved_permanently_view("https://"@ + host_without_port(host)),
{
}

/// A request that could not be parsed, or that names no host, is answered `400 Bad Request`.
pub proof fn lemma_redirect_without_host(parsed: Result<RequestView, Seq<char>>)
    requires
        !(parsed matches Ok(req) && req.headers matches Some(h) && lookup(h, "Host"@) is Some),
    ensures
        redirect_view(parsed) == page_response(spec_bad_request(), BAD_REQUEST_PAGE@),
{
}

/// The answer to a plain HTTP request when the server redirects to HTTPS: a permanent
/// redirect to `https://` and the request's host without its port, or `400 Bad Request`
/// when the request could not be parsed or names no host.
pub open spec fn redirect_view(parsed: Result<RequestView, Seq<char>>) -> ResponseView {
    match parsed {
        Ok(req) => match req.headers {
            Some(h) => match lookup(h, "Host"@) {
                Some(host) => moved_permanently_view("https://"@ + host_without_port(host)),
                None => page_response(spec_bad_request(), BAD_REQUEST_PAGE@),
            },
            None => page_response(spec_bad_request(), BAD_REQUEST_PAGE@),
        },
        Err(_) => page_response(spec_bad_request(), BAD_REQUEST_PAGE@),
    }
}

/// The answer to a plain HTTP request when the server redirects to HTTPS.
pub fn redirect_response(parsed: &Result<Request, InvalidRequest>, default_host: &str) -> (r: Response)
    ensures
        r@ == redirect_view(
            match parsed {
                Ok(req) => Ok(req@),
                Err(e) => Err(e.details@),
            },
        ),
{
    if let Ok(request) = parsed {
        if let Some(headers) = &request.headers {
            let host_key = String::from_str("Host");
            if let Some(host) = headers.get(&host_key) {
                let mut target = String::from_str("https://");
                let host_no_port = strip_port(host.as_str());
                target.append(host_no_port.as_str());
                return moved_permanently_response(target.as_str());
            }
        }
    }
    bad_request_response()
}

/// A server's settings and routes.
pub struct Server {
    /// The routes in force once the server has started.
    pub routes: RouteTable,
    pub unfinished_routes: RouteTable,
    pub access_policy: ServerAccessPolicy,
    /// The address the server listens on, set when it is bound.
    pub bind_addr: String,
    pub ip: String,
    pub http_port: usize,
    pub tls_port: usize,
    pub tls_enabled: bool,
    pub tls_configured: bool,
    pub redirect_http: bool,
    pub thread_count: usize,
    pub default_host: String,
}

/// Assembles a server's settings step by step.
pub struct ServerBuilder {
    server: Server,
}

impl Server {
    /// A builder with the default settings: no routes, restricted access, one thread, no
    /// TLS, no redirection, empty address and ports 0.
    pub fn builder() -> (b: ServerBuilder)
        ensures
            b.routes_view() == Seq::<(Seq<char>, GeneratorView)>::empty(),
            b.in_force_routes() == Seq::<(Seq<char>, GeneratorView)>::empty(),
            b.bind_addr_view() == Seq::<char>::empty(),
            b.access_policy() == ServerAccessPolicy::Restricted,
            b.ip_view() == Seq::<char>::empty(),
            b.http_port() == 0,
            b.tls_port() == 0,
            !b.tls_enabled(),
            !b.tls_configured(),
            !b.redirect_http(),
            b.thread_count() == 1,
            b.default_host_view() == Seq::<char>::empty(),
    {
        ServerBuilder {
            server: Server {
                routes: StrMap::new(),
                unfinished_routes: StrMap::new(),
                access_policy: ServerAccessPolicy::Restricted,
                bind_addr: String::new(),
                ip: String::new(),
                http_port: 0,
                tls_port: 0,
                tls_enabled: false,
                tls_configured: false,
                redirect_http: false,
                thread_count: 1,
                default_host: String::new(),
            },
        }
    }

    /// The routes that take force when the server starts.
    pub open spec fn unfinished_routes_view(&self) -> RouteSeq {
        self.unfinished_routes@
    }

    /// Whether TLS is enabled without a loaded certificate configuration.
    pub open spec fn missing_certificates_spec(&self) -> bool {
        self.tls_enabled && !self.tls_configured
    }

    /// Whether TLS is enabled without a loaded certificate configuration, which the server
    /// refuses to start with.
    pub fn missing_certificates(&self) -> (r: bool)
        ensures
            r == self.missing_certificates_spec(),
    {
        self.tls_enabled && !self.tls_configured
    }

    /// Puts the routes into force. Answers whether plain HTTP is to be redirected to HTTPS,
    /// which happens when TLS is enabled and redirection asked for.
    pub fn start_routes(&mut self) -> (redirect: bool)
        requires
            !old(self).missing_certificates_spec(),
        ensures
            final(self).routes@ == old(self).unfinished_routes_view(),
            final(self).unfinished_routes_view() == old(self).unfinished_routes_view(),
            final(self).tls_enabled == old(self).tls_enabled,
            final(self).access_policy == old(self).access_policy,
            final(self).bind_addr@ == old(self).bind_addr@,
            redirect == (old(self).tls_enabled && old(self).redirect_http_spec()),
    {
        self.routes = copy_routes(&self.unfinished_routes);
        self.tls_enabled && self.redirect_http
    }

    /// Whether plain HTTP is redirected.
    pub open spec fn redirect_http_spec(&self) -> bool {
        self.redirect_http
    }

    /// The plain HTTP address: the IP and the HTTP port.
    pub open spec fn http_addr_spec(&self) -> Seq<char> {
        self.ip@ + ":"@ + decimal(self.http_port as nat)
    }

    /// The plain HTTP address, where redirection listens.
    pub fn http_redirect_addr(&self) -> (r: String)
        ensures
            r@ == self.http_addr_spec(),
    {
        let mut s = self.ip.clone();
        s.append(":");
        push_decimal(&mut s, self.http_port);
        s
    }

    /// The host to fall back on.
    pub fn default_host(&self) -> (r: &str)
        ensures
            r@ == self.default_host@,
    {
        self.default_host.as_str()
    }

    /// The number of worker threads.
    pub open spec fn thread_count_spec(&self) -> usize {
        self.thread_count
    }

    /// The number of worker threads.
    pub fn thread_count(&self) -> (r: usize)
        ensures
            r == self.thread_count_spec(),
    {
        self.thread_count
    }
}

impl ServerBuilder {
    /// The routes added so far.
    pub closed spec fn routes_view(&self) -> RouteSeq {
        self.server.unfinished_routes@
    }

    /// The routes already in force.
    pub closed spec fn in_force_routes(&self) -> RouteSeq {
        self.server.routes@
    }

    /// The address set so far.
    pub closed spec fn bind_addr_view(&self) -> Seq<char> {
        self.server.bind_addr@
    }

    pub closed spec fn access_policy(&self) -> ServerAccessPolicy {
        self.server.access_policy
    }

    pub closed spec fn ip_view(&self) -> Seq<char> {
        self.server.ip@
    }

    pub closed spec fn http_port(&self) -> usize {
        self.server.http_port
    }

    pub closed spec fn tls_port(&self) -> usize {
        self.server.tls_port
    }

    pub closed spec fn tls_enabled(&self) -> bool {
        self.server.tls_enabled
    }

    pub closed spec fn tls_configured(&self) -> bool {
        self.server.tls_configured
    }

    pub closed spec fn redirect_http(&self) -> bool {
        self.server.redirect_http
    }

    pub closed spec fn thread_count(&self) -> usize {
        self.server.thread_count
    }

    pub closed spec fn default_host_view(&self) -> Seq<char> {
        self.server.default_host@
    }

    /// The builder's settings other than those named are those of `other`.
    pub open spec fn same_except_routes(&self, other: &ServerBuilder) -> bool {
        &&& self.in_force_routes() == other.in_force_routes()
        &&& self.bind_addr_view() == other.bind_addr_view()
        &&& self.access_policy() == other.access_policy()
        &&& self.ip_view() == other.ip_view()
        &&& self.http_port() == other.http_port()
        &&& self.tls_port() == other.tls_port()
        &&& self.tls_enabled() == other.tls_enabled()
        &&& self.tls_configured() == other.tls_configured()
        &&& self.redirect_http() == other.redirect_http()
        &&& self.thread_count() == other.thread_count()
        &&& self.default_host_view() == other.default_host_view()
    }

    /// Enables or disables TLS; `configured` tells whether a certificate configuration was
    /// loaded for it.
    pub fn set_tls(self, tls_enabled: bool, configured: bool) -> (b: ServerBuilder)
        ensures
            b.tls_enabled() == tls_enabled,
            b.tls_configured() == (self.tls_configured() || (tls_enabled && configured)),
            b.routes_view() == self.routes_view(),
            b.in_force_routes() == self.in_force_routes(),
            b.bind_addr_view() == self.bind_addr_view(),
            b.access_policy() == self.access_policy(),
            b.ip_view() == self.ip_view(),
            b.http_port() == self.http_port(),
            b.tls_port() == self.tls_port(),
            b.redirect_http() == self.redirect_http(),
            b.thread_count() == self.thread_count(),
            b.default_host_view() == self.default_host_view(),
    {
        let mut b = self;
        b.server.tls_enabled = tls_enabled;
        if tls_enabled && configured {
            b.server.tls_configured = true;
        }
        b
    }

    /// Adds a route, replacing an earlier route to the same target.
    pub fn add_route(self, route: &str, generator: ResponseGenerator) -> (b: ServerBuilder)
        ensures
            b.routes_view() == inserted(self.routes_view(), route@, generator@),
            b.same_except_routes(&self),
    {
        let mut b = self;
        b.server.unfinished_routes.insert(String::from_str(route), generator);
        b
    }

    /// Adds a route that answers with the contents of the file at `path`.
    pub fn add_route_to_file(self, route: &str, path: String) -> (b: ServerBuilder)
        ensures
            b.routes_view() == inserted(self.routes_view(), route@, GeneratorView::File(path@)),
            b.same_except_routes(&self),
    {
        self.add_route(route, ResponseGenerator::from_file(path))
    }

    /// Adds all routes of `routes`, in their order, each replacing an earlier route to the
    /// same target.
    pub fn add_routes(self, routes: RouteTable) -> (b: ServerBuilder)
        ensures
            b.routes_view() == inserted_all(self.routes_view(), routes@),
            b.same_except_routes(&self),
            forall|j: int|
                0 <= j < routes@.len() ==> lookup(b.routes_view(), #[trigger] routes@[j].0) == Some(
                    routes@[j].1,
                ),
    {
        let _ = self.server.unfinished_routes.len();
        let _ = routes.len();
        let mut b = self;
        let mut i: usize = 0;
        while i < routes.len()
            invariant
                i <= routes@.len(),
                b.routes_view() == inserted_all(self.routes_view(), routes@.subrange(0, i as int)),
                b.same_except_routes(&self),
            decreases routes@.len() - i,
        {
            let (k, g) = routes.entry(i);
            b.server.unfinished_routes.insert(k.clone(), g.duplicate());
            assert(routes@.subrange(0, i + 1).drop_last() =~= routes@.subrange(0, i as int));
            i = i + 1;
        }
        assert(routes@.subrange(0, routes@.len() as int) =~= routes@);
        assert forall|j: int| 0 <= j < routes@.len() implies lookup(
            b.routes_view(),
            #[trigger] routes@[j].0,
        ) == Some(routes@[j].1) by {
            lemma_add_routes_table(self.routes_view(), routes@, j, routes@[j].0);
        }
        b
    }

    /// Sets the IP address to listen on.
    pub fn with_ip(self, ip: &str) -> (b: ServerBuilder)
        ensures
            b.ip_view() == ip@,
            b.routes_view() == self.routes_view(),
            b.in_force_routes() == self.in_force_routes(),
            b.bind_addr_view() == self.bind_addr_view(),
            b.access_policy() == self.access_policy(),
            b.http_port() == self.http_port(),
            b.tls_port() == self.tls_port(),
            b.tls_enabled() == self.tls_enabled(),
            b.tls_configured() == self.tls_configured(),
            b.redirect_http() == self.redirect_http(),
            b.thread_count() == self.thread_count(),
            b.default_host_view() == self.default_host_view(),
    {
        let mut b = self;
        b.server.ip = String::from_str(ip);
        b
    }

    /// Sets the plain HTTP port.
    pub fn with_http_port(self, port: usize) -> (b: ServerBuilder)
        ensures
            b.http_port() == port,
            b.routes_view() == self.routes_view(),
            b.in_force_routes() == self.in_force_routes(),
            b.bind_addr_view() == self.bind_addr_view(),
            b.access_policy() == self.access_policy(),
            b.ip_view() == self.ip_view(),
            b.tls_port() == self.tls_port(),
            b.tls_enabled() == self.tls_enabled(),
            b.tls_configured() == self.tls_configured(),
            b.redirect_http() == self.redirect_http(),
            b.thread_count() == self.thread_count(),
            b.default_host_view() == self.default_host_view(),
    {
        let mut b = self;
        b.server.http_port = port;
        b
    }

    /// Sets the TLS port.
    pub fn with_tls_port(self, port: usize) -> (b: ServerBuilder)
        ensures
            b.tls_port() == port,
            b.routes_view() == self.routes_view(),
            b.in_force_routes() == self.in_force_routes(),
            b.bind_addr_view() == self.bind_addr_view(),
            b.access_policy() == self.access_policy(),
            b.ip_view() == self.ip_view(),
            b.http_port() == self.http_port(),
            b.tls_enabled() == self.tls_enabled(),
            b.tls_configured() == self.tls_configured(),
            b.redirect_http() == self.redirect_http(),
            b.thread_count() == self.thread_count(),
            b.default_host_view() == self.default_host_view(),
    {
        let mut b = self;
        b.server.tls_port = port;
        b
    }

    /// Sets the number of worker threads.
    pub fn with_thread_count(self, count: usize) -> (b: ServerBuilder)
        ensures
            b.thread_count() == count,
            b.routes_view() == self.routes_view(),
            b.in_force_routes() == self.in_force_routes(),
            b.bind_addr_view() == self.bind_addr_view(),
            b.access_policy() == self.access_policy(),
            b.ip_view() == self.ip_view(),
            b.http_port() == self.http_port(),
            b.tls_port() == self.tls_port(),
            b.tls_enabled() == self.tls_enabled(),
            b.tls_configured() == self.tls_configured(),
            b.redirect_http() == self.redirect_http(),
            b.default_host_view() == self.default_host_view(),
    {
        let mut b = self;
        b.server.thread_count = count;
        b
    }

    /// Sets the access policy for targets without a route.
    pub fn with_access_policy(self, policy: ServerAccessPolicy) -> (b: ServerBuilder)
        ensures
            b.access_policy() == policy,
            b.routes_view() == self.routes_view(),
            b.in_force_routes() == self.in_force_routes(),
            b.bind_addr_view() == self.bind_addr_view(),
            b.ip_view() == self.ip_view(),
            b.http_port() == self.http_port(),
            b.tls_port() == self.tls_port(),
            b.tls_enabled() == self.tls_enabled(),
            b.tls_configured() == self.tls_configured(),
            b.redirect_http() == self.redirect_http(),
            b.thread_count() == self.thread_count(),
            b.default_host_view() == self.default_host_view(),
    {
        let mut b = self;
        b.server.access_policy = policy;
        b
    }

    /// Sets whether plain HTTP is redirected to HTTPS.
    pub fn with_http_redirection(self, redirect_http: bool) -> (b: ServerBuilder)
        ensures
            b.redirect_http() == redirect_http,
            b.routes_view() == self.routes_view(),
            b.in_force_routes() == self.in_force_routes(),
            b.bind_addr_view() == self.bind_addr_view(),
            b.access_policy() == self.access_policy(),
            b.ip_view() == self.ip_view(),
            b.http_port() == self.http_port(),
            b.tls_port() == self.tls_port(),
            b.tls_enabled() == self.tls_enabled(),
            b.tls_configured() == self.tls_configured(),
            b.thread_count() == self.thread_count(),
            b.default_host_view() == self.default_host_view(),
    {
        let mut b = self;
        b.server.redirect_http = redirect_http;
        b
    }

    /// Sets the host to fall back on.
    pub fn set_default_host(self, default_host: &str) -> (b: ServerBuilder)
        ensures
            b.default_host_view() == default_host@,
            b.routes_view() == self.routes_view(),
            b.in_force_routes() == self.in_force_routes(),
            b.bind_addr_view() == self.bind_addr_view(),
            b.access_policy() == self.access_policy(),
            b.ip_view() == self.ip_view(),
            b.http_port() == self.http_port(),
            b.tls_port() == self.tls_port(),
            b.tls_enabled() == self.tls_enabled(),
            b.tls_configured() == self.tls_configured(),
            b.redirect_http() == self.redirect_http(),
            b.thread_count() == self.thread_count(),
    {
        let mut b = self;
        b.server.default_host = String::from_str(default_host);
        b
    }

    /// Adds the routes `/400`, `/403` and `/404` to their pages, each unless a route to it
    /// was added already.
    fn set_mandatory_routes(self) -> (b: ServerBuilder)
        ensures
            b.routes_view() == mandatory_routes(self.routes_view()),
            b.same_except_routes(&self),
    {
        let mut b = self;
        let r400 = String::from_str("/400");
        if !b.server.unfinished_routes.contains_key(&r400) {
            b = b.add_route("/400", ResponseGenerator::BadRequest);
        }
        let r403 = String::from_str("/403");
        if !b.server.unfinished_routes.contains_key(&r403) {
            b = b.add_route("/403", ResponseGenerator::Forbidden);
        }
        let r404 = String::from_str("/404");
        if !b.server.unfinished_routes.contains_key(&r404) {
            b = b.add_route("/404", ResponseGenerator::NotFound);
        }
        b
    }

    /// The server, bound to the IP and the TLS port when TLS is enabled, the HTTP port
    /// otherwise, with the routes `/400`, `/403` and `/404` added where none was added before.
    pub fn bind(self) -> (s: Server)
        ensures
            s.bind_addr@ == self.ip_view() + ":"@ + decimal(
                (if self.tls_enabled() {
                    self.tls_port()
                } else {
                    self.http_port()
                }) as nat,
            ),
            s.unfinished_routes_view() == mandatory_routes(self.routes_view()),
            s.routes@ == self.in_force_routes(),
            s.tls_enabled == self.tls_enabled(),
            s.access_policy == self.access_policy(),
            s.missing_certificates_spec() == (self.tls_enabled() && !self.tls_configured()),
            s.redirect_http_spec() == self.redirect_http(),
            s.http_addr_spec() == self.ip_view() + ":"@ + decimal(self.http_port() as nat),
            s.thread_count_spec() == self.thread_count(),
            s.default_host@ == self.default_host_view(),
    {
        let mut b = self;
        let port = if b.server.tls_enabled {
            b.server.tls_port
        } else {
            b.server.http_port
        };
        let mut addr = b.server.ip.clone();
        addr.append(":");
        push_decimal(&mut addr, port);
        b.server.bind_addr = addr;
        let b2 = b.set_mandatory_routes();
        b2.server
    }
}

/// The routes after storing each of `more` in turn.
pub open spec fn inserted_all(routes: RouteSeq, more: RouteSeq) -> RouteSeq
    decreases more.len(),
{
    if more.len() == 0 {
        routes
    } else {
        inserted(inserted_all(routes, more.drop_last()), more.last().0, more.last().1)
    }
}

/// Adding routes in turn never stores a target twice.
pub proof fn lemma_inserted_all_distinct(routes: RouteSeq, more: RouteSeq)
    requires
        distinct_keys(routes),
    ensures
        distinct_keys(inserted_all(routes, more)),
    decreases more.len(),
{
    if more.len() > 0 {
        lemma_inserted_all_distinct(routes, more.drop_last());
        let r = inserted_all(routes, more.drop_last());
        lemma_inserted_lookup(r, more.last().0, more.last().1, more.last().0);
    }
}

/// After adding a list of routes in turn, a target answers with the last route to it in
/// the list.
pub proof fn lemma_inserted_all_last(routes: RouteSeq, more: RouteSeq, j: int)
    requires
        distinct_keys(routes),
        0 <= j < more.len(),
        forall|j2: int| j < j2 < more.len() ==> #[trigger] more[j2].0 != more[j].0,
    ensures
        lookup(inserted_all(routes, more), more[j].0) == Some(more[j].1),
    decreases more.len(),
{
    let prev = more.drop_last();
    lemma_inserted_all_distinct(routes, prev);
    let r = inserted_all(routes, prev);
    lemma_inserted_lookup(r, more.last().0, more.last().1, more[j].0);
    if j < more.len() - 1 {
        assert(more.last().0 != more[j].0);
        assert forall|j2: int| j < j2 < prev.len() implies #[trigger] prev[j2].0 != prev[j].0 by {
            assert(prev[j2] == more[j2]);
        }
        lemma_inserted_all_last(routes, prev, j);
        assert(prev[j] == more[j]);
    }
}

/// After adding a list of routes in turn, a target that the list does not name keeps its
/// route.
pub proof fn lemma_inserted_all_untouched(routes: RouteSeq, more: RouteSeq, k: Seq<char>)
    requires
        distinct_keys(routes),
        forall|j: int| 0 <= j < more.len() ==> #[trigger] more[j].0 != k,
    ensures
        lookup(inserted_all(routes, more), k) == lookup(routes, k),
    decreases more.len(),
{
    if more.len() > 0 {
        let prev = more.drop_last();
        assert forall|j: int| 0 <= j < prev.len() implies #[trigger] prev[j].0 != k by {
            assert(prev[j] == more[j]);
        }
        lemma_inserted_all_untouched(routes, prev, k);
        lemma_inserted_all_distinct(routes, prev);
        assert(more[more.len() - 1].0 != k);
        lemma_inserted_lookup(inserted_all(routes, prev), more.last().0, more.last().1, k);
    }
}

/// Adding a route table, whose targets are distinct, puts every route of the table in force
/// and keeps every other route.
pub proof fn lemma_add_routes_table(routes: RouteSeq, table: RouteSeq, j: int, k: Seq<char>)
    requires
        distinct_keys(routes),
        distinct_keys(table),
        0 <= j < table.len(),
    ensures
        lookup(inserted_all(routes, table), table[j].0) == Some(table[j].1),
        (forall|j2: int| 0 <= j2 < table.len() ==> #[trigger] table[j2].0 != k) ==> lookup(
            inserted_all(routes, table),
            k,
        ) == lookup(routes, k),
{
    lemma_inserted_all_last(routes, table, j);
    if forall|j2: int| 0 <= j2 < table.len() ==> #[trigger] table[j2].0 != k {
        lemma_inserted_all_untouched(routes, table, k);
    }
}

/// The routes with `/400`, `/403` and `/404` stored, each unless `routes` holds it.
pub open spec fn mandatory_routes(routes: RouteSeq) -> RouteSeq {
    let r1 = if has_key(routes, "/400"@) {
        routes
    } else {
        inserted(routes, "/400"@, GeneratorView::BadRequest)
    };
    let r2 = if has_key(r1, "/403"@) {
        r1
    } else {
        inserted(r1, "/403"@, GeneratorView::Forbidden)
    };
    if has_key(r2, "/404"@) {
        r2
    } else {
        inserted(r2, "/404"@, GeneratorView::NotFound)
    }
}

/// The default for a target that must be routed, where no route to it was added.
pub open spec fn default_or(routes: RouteSeq, k: Seq<char>, default: GeneratorView) -> Option<
    GeneratorView,
> {
    match lookup(routes, k) {
        Some(g) => Some(g),
        None => Some(default),
    }
}

/// A bound server answers `/400`, `/403` and `/404` with the routes added to them, or else
/// with their pages, and keeps every other route.
pub proof fn lemma_mandatory_routes(routes: RouteSeq, k: Seq<char>)
    requires
        distinct_keys(routes),
    ensures
        lookup(mandatory_routes(routes), "/400"@) == default_or(
            routes,
            "/400"@,
            GeneratorView::BadRequest,
        ),
        lookup(mandatory_routes(routes), "/403"@) == default_or(
            routes,
            "/403"@,
            GeneratorView::Forbidden,
        ),
        lookup(mandatory_routes(routes), "/404"@) == default_or(
            routes,
            "/404"@,
            GeneratorView::NotFound,
        ),
        k != "/400"@ && k != "/403"@ && k != "/404"@ ==> lookup(mandatory_routes(routes), k)
            == lookup(routes, k),
        distinct_keys(mandatory_routes(routes)),
{
    reveal_strlit("/400");
    reveal_strlit("/403");
    reveal_strlit("/404");
    assert("/400"@ != "/403"@) by {
        assert("/400"@[3] != "/403"@[3]);
    }
    assert("/400"@ != "/404"@) by {
        assert("/400"@[3] != "/404"@[3]);
    }
    assert("/403"@ != "/404"@) by {
        assert("/403"@[3] != "/404"@[3]);
    }
    let r1 = if has_key(routes, "/400"@) {
        routes
    } else {
        inserted(routes, "/400"@, GeneratorView::BadRequest)
    };
    let r2 = if has_key(r1, "/403"@) {
        r1
    } else {
        inserted(r1, "/403"@, GeneratorView::Forbidden)
    };
    lemma_inserted_lookup(routes, "/400"@, GeneratorView::BadRequest, k);
    lemma_inserted_lookup(routes, "/400"@, GeneratorView::BadRequest, "/403"@);
    lemma_inserted_lookup(routes, "/400"@, GeneratorView::BadRequest, "/404"@);
    lemma_inserted_lookup(r1, "/403"@, GeneratorView::Forbidden, "/400"@);
    lemma_inserted_lookup(r1, "/403"@, GeneratorView::Forbidden, "/404"@);
    lemma_inserted_lookup(r1, "/403"@, GeneratorView::Forbidden, k);
    lemma_inserted_lookup(r2, "/404"@, GeneratorView::NotFound, "/400"@);
    lemma_inserted_lookup(r2, "/404"@, GeneratorView::NotFound, "/403"@);
    lemma_inserted_lookup(r2, "/404"@, GeneratorView::NotFound, k);
}

} // verus!
