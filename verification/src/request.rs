//! HTTP requests: the request method and the parsing of a request from raw bytes.
use vstd::prelude::*;
use vstd::utf8::*;
use crate::bytes::{
    all_ascii, contains_seq, copy_range, decode_valid, find_bytes, find_from, lemma_contains_iff_found,
    lemma_encode_concat,
    lemma_find_from, lemma_split_from_valid, lemma_valid_around_ascii, occurs_at, split_bytes,
    split_from, split_seq, string_from_utf8, utf8_lossy, utf8_lossy_text, views,
};
use crate::errors::{InvalidRequest, InvalidRequestMethod};
use crate::headers::{distinct_keys, inserted, lemma_inserted_lookup, lookup, HeaderMap, HeaderSeq};

verus! {

broadcast use vstd::utf8::encode_utf8_valid_utf8, vstd::utf8::encode_utf8_decode_utf8;

/// The HTTP request methods.
#[derive(Clone, Copy, Debug, PartialEq, Eq, Structural)]
pub enum RequestMethod {
    GET,
    HEAD,
    POST,
    PUT,
    DELETE,
    CONNECT,
    OPTIONS,
    TRACE,
    PATCH,
}

/// The name of a method as it appears on a request line.
pub open spec fn method_name(m: RequestMethod) -> Seq<char> {
    match m {
        RequestMethod::GET => "GET"@,
        RequestMethod::HEAD => "HEAD"@,
        RequestMethod::POST => "POST"@,
        RequestMethod::PUT => "PUT"@,
        RequestMethod::DELETE => "DELETE"@,
        RequestMethod::CONNECT => "CONNECT"@,
        RequestMethod::OPTIONS => "OPTIONS"@,
        RequestMethod::TRACE => "TRACE"@,
        RequestMethod::PATCH => "PATCH"@,
    }
}

/// The method whose name is `s`, if any.
pub open spec fn parse_method(s: Seq<char>) -> Option<RequestMethod> {
    if s == "GET"@ {
        Some(RequestMethod::GET)
    } else if s == "HEAD"@ {
        Some(RequestMethod::HEAD)
    } else if s == "POST"@ {
        Some(RequestMethod::POST)
    } else if s == "PUT"@ {
        Some(RequestMethod::PUT)
    } else if s == "DELETE"@ {
        Some(RequestMethod::DELETE)
    } else if s == "CONNECT"@ {
        Some(RequestMethod::CONNECT)
    } else if s == "OPTIONS"@ {
        Some(RequestMethod::OPTIONS)
    } else if s == "TRACE"@ {
        Some(RequestMethod::TRACE)
    } else if s == "PATCH"@ {
        Some(RequestMethod::PATCH)
    } else {
        None
    }
}

/// The description of the error for a word that names no method.
pub open spec fn invalid_method_msg() -> Seq<char> {
    "String doesn't make a valid HTTP request method."@
}

/// Whether two strings hold the same characters.
pub fn str_eq(a: &str, b: &str) -> (r: bool)
    ensures
        r == (a@ == b@),
{
    let x = a.as_bytes();
    let y = b.as_bytes();
    assert(x@ == encode_utf8(a@));
    assert(y@ == encode_utf8(b@));
    if x.len() != y.len() {
        proof {
            if a@ == b@ {
                assert(x@ == y@);
            }
        }
        return false;
    }
    let mut i: usize = 0;
    while i < x.len()
        invariant
            x.len() == y.len(),
            x@ == encode_utf8(a@),
            y@ == encode_utf8(b@),
            i <= x.len(),
            forall|j: int| 0 <= j < i ==> x@[j] == y@[j],
        decreases x.len() - i,
    {
        if x[i] != y[i] {
            proof {
                if a@ == b@ {
                    assert(x@ == y@);
                }
            }
            return false;
        }
        i = i + 1;
    }
    proof {
        assert(x@ =~= y@);
        assert(decode_utf8(encode_utf8(a@)) == a@);
        assert(decode_utf8(encode_utf8(b@)) == b@);
    }
    true
}

impl RequestMethod {
    /// The method named `s`, or an error when `s` names none.
    pub fn from_str(s: &str) -> (r: Result<RequestMethod, InvalidRequestMethod>)
        ensures
            match parse_method(s@) {
                Some(m) => r == Ok::<RequestMethod, InvalidRequestMethod>(m),
                None => r matches Err(e) && e.details@ == invalid_method_msg(),
            },
    {
        if str_eq(s, "GET") {
            Ok(RequestMethod::GET)
        } else if str_eq(s, "HEAD") {
            Ok(RequestMethod::HEAD)
        } else if str_eq(s, "POST") {
            Ok(RequestMethod::POST)
        } else if str_eq(s, "PUT") {
            Ok(RequestMethod::PUT)
        } else if str_eq(s, "DELETE") {
            Ok(RequestMethod::DELETE)
        } else if str_eq(s, "CONNECT") {
            Ok(RequestMethod::CONNECT)
        } else if str_eq(s, "OPTIONS") {
            Ok(RequestMethod::OPTIONS)
        } else if str_eq(s, "TRACE") {
            Ok(RequestMethod::TRACE)
        } else if str_eq(s, "PATCH") {
            Ok(RequestMethod::PATCH)
        } else {
            Err(InvalidRequestMethod::new("String doesn't make a valid HTTP request method."))
        }
    }

    /// The name of the method.
    pub fn to_string(&self) -> (r: String)
        ensures
            r@ == method_name(*self),
    {
        let text = match self {
            RequestMethod::GET => "GET",
            RequestMethod::HEAD => "HEAD",
            RequestMethod::POST => "POST",
            RequestMethod::PUT => "PUT",
            RequestMethod::DELETE => "DELETE",
            RequestMethod::CONNECT => "CONNECT",
            RequestMethod::OPTIONS => "OPTIONS",
            RequestMethod::TRACE => "TRACE",
            RequestMethod::PATCH => "PATCH",
        };
        text.to_owned()
    }
}

/// Reading a method's name gives the method back, and a word is read as a method only
/// when it is that method's name.
pub proof fn lemma_method_name_roundtrip(m: RequestMethod, s: Seq<char>)
    ensures
        parse_method(method_name(m)) == Some(m),
        parse_method(s) matches Some(m2) ==> s == method_name(m2),
{
    lemma_method_name_parses(m);
}

/// Each method is written as its HTTP token, and each token is read as its method.
pub proof fn lemma_method_tokens()
    ensures
        method_name(RequestMethod::GET) == "GET"@ && parse_method("GET"@) == Some(RequestMethod::GET),
        method_name(RequestMethod::HEAD) == "HEAD"@ && parse_method("HEAD"@) == Some(
            RequestMethod::HEAD,
        ),
        method_name(RequestMethod::POST) == "POST"@ && parse_method("POST"@) == Some(
            RequestMethod::POST,
        ),
        method_name(RequestMethod::PUT) == "PUT"@ && parse_method("PUT"@) == Some(RequestMethod::PUT),
        method_name(RequestMethod::DELETE) == "DELETE"@ && parse_method("DELETE"@) == Some(
            RequestMethod::DELETE,
        ),
        method_name(RequestMethod::CONNECT) == "CONNECT"@ && parse_method("CONNECT"@) == Some(
            RequestMethod::CONNECT,
        ),
        method_name(RequestMethod::OPTIONS) == "OPTIONS"@ && parse_method("OPTIONS"@) == Some(
            RequestMethod::OPTIONS,
        ),
        method_name(RequestMethod::TRACE) == "TRACE"@ && parse_method("TRACE"@) == Some(
            RequestMethod::TRACE,
        ),
        method_name(RequestMethod::PATCH) == "PATCH"@ && parse_method("PATCH"@) == Some(
            RequestMethod::PATCH,
        ),
{
    lemma_method_name_parses(RequestMethod::GET);
    lemma_method_name_parses(RequestMethod::HEAD);
    lemma_method_name_parses(RequestMethod::POST);
    lemma_method_name_parses(RequestMethod::PUT);
    lemma_method_name_parses(RequestMethod::DELETE);
    lemma_method_name_parses(RequestMethod::CONNECT);
    lemma_method_name_parses(RequestMethod::OPTIONS);
    lemma_method_name_parses(RequestMethod::TRACE);
    lemma_method_name_parses(RequestMethod::PATCH);
}

/// The nine HTTP method tokens.
pub open spec fn is_method_token(m: Seq<char>) -> bool {
    ||| m == "GET"@
    ||| m == "HEAD"@
    ||| m == "POST"@
    ||| m == "PUT"@
    ||| m == "DELETE"@
    ||| m == "CONNECT"@
    ||| m == "OPTIONS"@
    ||| m == "TRACE"@
    ||| m == "PATCH"@
}

/// A word is read as a method exactly when it is one of the nine HTTP method tokens.
pub proof fn lemma_parse_method_tokens(s: Seq<char>)
    ensures
        parse_method(s) is Some <==> is_method_token(s),
{
    lemma_method_tokens();
}

proof fn lemma_method_name_parses(m: RequestMethod)
    ensures
        parse_method(method_name(m)) == Some(m),
{
    reveal_strlit("GET");
    reveal_strlit("HEAD");
    reveal_strlit("POST");
    reveal_strlit("PUT");
    reveal_strlit("DELETE");
    reveal_strlit("CONNECT");
    reveal_strlit("OPTIONS");
    reveal_strlit("TRACE");
    reveal_strlit("PATCH");
    match m {
        RequestMethod::GET => {
        },
        RequestMethod::HEAD => {
            assert("HEAD"@.len() != "GET"@.len());
        },
        RequestMethod::POST => {
            assert("POST"@.len() != "GET"@.len());
            assert("POST"@[0] != "HEAD"@[0]);
        },
        RequestMethod::PUT => {
            assert("PUT"@[0] != "GET"@[0]);
            assert("PUT"@.len() != "HEAD"@.len());
            assert("PUT"@.len() != "POST"@.len());
        },
        RequestMethod::DELETE => {
            assert("DELETE"@.len() != "GET"@.len());
            assert("DELETE"@.len() != "HEAD"@.len());
            assert("DELETE"@.len() != "POST"@.len());
            assert("DELETE"@.len() != "PUT"@.len());
        },
        RequestMethod::CONNECT => {
            assert("CONNECT"@.len() != "GET"@.len());
            assert("CONNECT"@.len() != "HEAD"@.len());
            assert("CONNECT"@.len() != "POST"@.len());
            assert("CONNECT"@.len() != "PUT"@.len());
            assert("CONNECT"@.len() != "DELETE"@.len());
        },
        RequestMethod::OPTIONS => {
            assert("OPTIONS"@.len() != "GET"@.len());
            assert("OPTIONS"@.len() != "HEAD"@.len());
            assert("OPTIONS"@.len() != "POST"@.len());
            assert("OPTIONS"@.len() != "PUT"@.len());
            assert("OPTIONS"@.len() != "DELETE"@.len());
            assert("OPTIONS"@[0] != "CONNECT"@[0]);
        },
        RequestMethod::TRACE => {
            assert("TRACE"@.len() != "GET"@.len());
            assert("TRACE"@.len() != "HEAD"@.len());
            assert("TRACE"@.len() != "POST"@.len());
            assert("TRACE"@.len() != "PUT"@.len());
            assert("TRACE"@.len() != "DELETE"@.len());
            assert("TRACE"@.len() != "CONNECT"@.len());
            assert("TRACE"@.len() != "OPTIONS"@.len());
        },
        RequestMethod::PATCH => {
            assert("PATCH"@.len() != "GET"@.len());
            assert("PATCH"@.len() != "HEAD"@.len());
            assert("PATCH"@.len() != "POST"@.len());
            assert("PATCH"@.len() != "PUT"@.len());
            assert("PATCH"@.len() != "DELETE"@.len());
            assert("PATCH"@.len() != "CONNECT"@.len());
            assert("PATCH"@.len() != "OPTIONS"@.len());
            assert("PATCH"@[0] != "TRACE"@[0]);
        },
    }
}

/// The pattern that a request line must match: method, target and protocol version.
pub const REQUEST_LINE_PATTERN: &'static str =
    "^(GET|HEAD|POST|PUT|DELETE|CONNECT|OPTIONS|TRACE|PATCH) (/.*?) (HTTP/\\d\\.\\d)$";

/// The text of the first three capture groups of the leftmost match of the regular
/// expression `pattern` in `text`, as the `regex` crate computes them; `None` when the
/// pattern does not compile or does not match.
pub uninterp spec fn regex_captures(pattern: Seq<char>, text: Seq<char>) -> Option<
    (Option<Seq<char>>, Option<Seq<char>>, Option<Seq<char>>),
>;

/// On a match of the request line pattern against `text`, all three groups are present, the
/// first is one of the nine method tokens of the pattern, the second begins with `/`, the
/// third is `HTTP/`, a digit, `.` and a digit, and `text` is the three groups joined by
/// single spaces.
pub open spec fn request_line_groups(
    text: Seq<char>,
    c: Option<(Option<Seq<char>>, Option<Seq<char>>, Option<Seq<char>>)>,
) -> bool {
    c is Some ==> (c matches Some((Some(m), Some(u), Some(v))) && is_method_token(m) && u.len()
        > 0 && u[0] == '/' && v.len() == 8 && v.subrange(0, 5) == "HTTP/"@ && v[6] == '.' && text
        == m + " "@ + u + " "@ + v)
}

/// Three optional capture groups, as character sequences.
pub open spec fn captures_view(c: Option<(Option<String>, Option<String>, Option<String>)>) -> Option<
    (Option<Seq<char>>, Option<Seq<char>>, Option<Seq<char>>),
> {
    match c {
        None => None,
        Some((a, b, d)) => Some((opt_view(a), opt_view(b), opt_view(d))),
    }
}

/// An optional byte vector as an optional byte sequence.
pub open spec fn opt_bytes(b: Option<Vec<u8>>) -> Option<Seq<u8>> {
    match b {
        Some(x) => Some(x@),
        None => None,
    }
}

/// An optional string as an optional character sequence.
pub open spec fn opt_view(s: Option<String>) -> Option<Seq<char>> {
    match s {
        Some(x) => Some(x@),
        None => None,
    }
}

/// Compiles `pattern` with `regex::Regex::new` and calls `Regex::captures` on `text`,
/// handing back the text of capture groups 1 to 3. Claims that the result is
/// `regex_captures` of the pattern and the text, and, for the request line pattern, what
/// the regex syntax documentation gives for it: on a match all three groups take part,
/// the first is one of the listed method names, the second begins with `/`, the third is
/// `HTTP/` followed by a digit, `.` and a digit, and, the pattern being anchored at both
/// ends, the text is the three groups joined by the two spaces of the pattern. Nothing else
/// about what a pattern matches is stated.
#[verifier::external_body]
fn captures_of(pattern: &str, text: &str) -> (r: Option<(Option<String>, Option<String>, Option<String>)>)
    ensures
        captures_view(r) == regex_captures(pattern@, text@),
        pattern@ == REQUEST_LINE_PATTERN@ ==> request_line_groups(text@, captures_view(r)),
{
    let re = regex::Regex::new(pattern).ok()?;
    let caps = re.captures(text)?;
    let group = |i: usize| caps.get(i).map(|m| m.as_str().to_string());
    Some((group(1), group(2), group(3)))
}

/// A request, as values.
pub ghost struct RequestView {
    pub method: RequestMethod,
    pub uri: Seq<char>,
    pub http_version: Seq<char>,
    pub headers: Option<HeaderSeq>,
    pub body: Option<Seq<u8>>,
}

/// An HTTP request.
pub struct Request {
    pub method: RequestMethod,
    pub uri: String,
    pub http_version: String,
    pub headers: Option<HeaderMap>,
    pub body: Option<Vec<u8>>,
}

impl View for Request {
    type V = RequestView;

    open spec fn view(&self) -> RequestView {
        RequestView {
            method: self.method,
            uri: self.uri@,
            http_version: self.http_version@,
            headers: match self.headers {
                Some(h) => Some(h@),
                None => None,
            },
            body: opt_bytes(self.body),
        }
    }
}

/// The bytes `HTTP/`, which every request holds somewhere.
pub open spec fn http_mark() -> Seq<u8> {
    seq![72u8, 84u8, 84u8, 80u8, 47u8]
}

/// CR LF, the line separator.
pub open spec fn crlf() -> Seq<u8> {
    seq![13u8, 10u8]
}

/// CR LF CR LF, which separates the head of a request from its body.
pub open spec fn head_body_separator() -> Seq<u8> {
    seq![13u8, 10u8, 13u8, 10u8]
}

/// `: `, which separates a header's name from its value.
pub open spec fn colon_space() -> Seq<u8> {
    seq![58u8, 32u8]
}

/// The head of a request: everything before the first CR LF CR LF, or everything.
pub open spec fn head_of(b: Seq<u8>) -> Seq<u8> {
    match find_from(b, head_body_separator(), 0) {
        Some(p) => b.subrange(0, p),
        None => b,
    }
}

/// The body of a request: everything after the first CR LF CR LF, if there is one.
pub open spec fn body_of(b: Seq<u8>) -> Option<Seq<u8>> {
    match find_from(b, head_body_separator(), 0) {
        Some(p) => Some(b.subrange(p + 4, b.len() as int)),
        None => None,
    }
}

/// The name and value of a header line: the text before the first `: ` and the text
/// between the first and the second `: `; an error when the line holds no `: `.
pub open spec fn parse_header_line(line: Seq<char>) -> Result<(Seq<char>, Seq<char>), Seq<char>> {
    let parts = split_seq(encode_utf8(line), colon_space());
    if parts.len() >= 2 {
        Ok((decode_utf8(parts[0]), decode_utf8(parts[1])))
    } else {
        Err("Couldn't get header value from header line "@ + line)
    }
}

/// The headers of lines `1..n` of a request head, each stored in turn; the first bad line
/// gives the error.
pub open spec fn parse_headers_upto(lines: Seq<Seq<char>>, n: int) -> Result<HeaderSeq, Seq<char>>
    decreases n,
{
    if n <= 1 {
        Ok(Seq::empty())
    } else {
        match parse_headers_upto(lines, n - 1) {
            Err(e) => Err(e),
            Ok(h) => match parse_header_line(lines[n - 1]) {
                Err(e) => Err(e),
                Ok((k, v)) => Ok(inserted(h, k, v)),
            },
        }
    }
}

/// Once a header line is bad, the headers of every longer prefix carry its error.
pub proof fn lemma_headers_error_persists(lines: Seq<Seq<char>>, i: int, n: int)
    requires
        1 <= i <= n,
        parse_headers_upto(lines, i) is Err,
    ensures
        parse_headers_upto(lines, n) == parse_headers_upto(lines, i),
    decreases n - i,
{
    if n > i {
        lemma_headers_error_persists(lines, i, n - 1);
    }
}

/// The head, the blank line and the body make up the bytes again, and the head holds no
/// blank line; without a blank line the head is all of the bytes.
pub proof fn lemma_head_body(b: Seq<u8>)
    ensures
        body_of(b) matches Some(x) ==> head_of(b) + head_body_separator() + x == b,
        body_of(b) is None ==> head_of(b) == b,
        !contains_seq(head_of(b), head_body_separator()),
{
    lemma_find_from(b, head_body_separator(), 0);
    let head = head_of(b);
    match find_from(b, head_body_separator(), 0) {
        Some(p) => {
            assert(b.subrange(p, p + 4) == head_body_separator());
            assert(head + head_body_separator() + b.subrange(p + 4, b.len() as int) =~= b);
            if contains_seq(head, head_body_separator()) {
                let j = choose|j: int| occurs_at(head, head_body_separator(), j);
                assert(b.subrange(j, j + 4) =~= head.subrange(j, j + 4));
                assert(occurs_at(b, head_body_separator(), j));
            }
        },
        None => {
            if contains_seq(head, head_body_separator()) {
                let j = choose|j: int| occurs_at(head, head_body_separator(), j);
                assert(occurs_at(b, head_body_separator(), j));
            }
        },
    }
}

/// The body of a parsed request is what follows the first blank line of the bytes, and a
/// request without a body came from bytes without a blank line.
pub proof fn lemma_request_body(b: Seq<u8>)
    requires
        request_from_bytes(b) is Ok,
    ensures
        request_from_bytes(b)->Ok_0.body matches Some(x) ==> head_of(b) + head_body_separator() + x
            == b && !contains_seq(head_of(b), head_body_separator()),
        request_from_bytes(b)->Ok_0.body is None ==> !contains_seq(b, head_body_separator()),
{
    lemma_head_body(b);
}

/// A header line written as a name, `: ` and a value, neither of which holds `: `, reads
/// back as that name and value.
pub proof fn lemma_header_line_reads_back(k: Seq<char>, v: Seq<char>)
    requires
        !contains_seq(encode_utf8(k), colon_space()),
        !contains_seq(encode_utf8(v), colon_space()),
    ensures
        parse_header_line(k + ": "@ + v) == Ok::<(Seq<char>, Seq<char>), Seq<char>>((k, v)),
{
    let cs = colon_space();
    let ek = encode_utf8(k);
    let ev = encode_utf8(v);
    reveal_strlit(": ");
    assert(is_ascii_chars(": "@));
    is_ascii_chars_encode_utf8(": "@);
    assert(encode_utf8(": "@) =~= cs);
    lemma_encode_concat(k, ": "@);
    lemma_encode_concat(k + ": "@, v);
    let enc = encode_utf8(k + ": "@ + v);
    assert(enc =~= ek + cs + ev);
    let n = ek.len() as int;
    assert(enc.subrange(n, n + 2) =~= cs);
    assert(occurs_at(enc, cs, n));
    lemma_find_from(enc, cs, 0);
    lemma_find_from(enc, cs, n + 2);
    assert forall|j: int| 0 <= j < n implies !occurs_at(enc, cs, j) by {
        if occurs_at(enc, cs, j) {
            if j + 2 <= n {
                assert(ek.subrange(j, j + 2) =~= enc.subrange(j, j + 2));
                assert(occurs_at(ek, cs, j));
            } else {
                assert(enc.subrange(j, j + 2)[1] == cs[1]);
                assert(enc[j + 1] == cs[0]);
            }
        }
    }
    assert(find_from(enc, cs, 0) == Some(n));
    assert forall|j: int| n + 2 <= j implies !occurs_at(enc, cs, j) by {
        if occurs_at(enc, cs, j) {
            assert(ev.subrange(j - n - 2, j - n) =~= enc.subrange(j, j + 2));
            assert(occurs_at(ev, cs, j - n - 2));
        }
    }
    assert(find_from(enc, cs, n + 2) is None);
    lemma_split_first_two(enc, cs);
    assert(enc.subrange(0, n) =~= ek);
    assert(enc.subrange(n + 2, enc.len() as int) =~= ev);
}

/// The line is a header line that names the key `k`.
pub open spec fn line_sets_key(line: Seq<char>, k: Seq<char>) -> bool {
    parse_header_line(line) matches Ok((k2, _)) && k2 == k
}

/// Parsed headers never hold a name twice.
pub proof fn lemma_headers_distinct(lines: Seq<Seq<char>>, n: int)
    requires
        parse_headers_upto(lines, n) is Ok,
    ensures
        distinct_keys(parse_headers_upto(lines, n)->Ok_0),
    decreases n,
{
    if n > 1 {
        lemma_headers_distinct(lines, n - 1);
        let h = parse_headers_upto(lines, n - 1)->Ok_0;
        let (k, v) = parse_header_line(lines[n - 1])->Ok_0;
        lemma_inserted_lookup(h, k, v, k);
    }
}

/// A header line's value is what the parsed headers give for its name, unless a later line
/// names the same header again.
pub proof fn lemma_headers_hold_lines(
    lines: Seq<Seq<char>>,
    n: int,
    i: int,
    k: Seq<char>,
    v: Seq<char>,
)
    requires
        1 <= i < n,
        parse_headers_upto(lines, n) is Ok,
        parse_header_line(lines[i]) == Ok::<(Seq<char>, Seq<char>), Seq<char>>((k, v)),
        forall|j: int| i < j < n ==> !#[trigger] line_sets_key(lines[j], k),
    ensures
        lookup(parse_headers_upto(lines, n)->Ok_0, k) == Some(v),
    decreases n,
{
    lemma_headers_distinct(lines, n - 1);
    let h = parse_headers_upto(lines, n - 1)->Ok_0;
    let (k2, v2) = parse_header_line(lines[n - 1])->Ok_0;
    lemma_inserted_lookup(h, k2, v2, k);
    if n - 1 > i {
        assert(!line_sets_key(lines[n - 1], k));
        lemma_headers_hold_lines(lines, n - 1, i, k, v);
    }
}

/// A request parsed from bytes holds, under each header line's name, the value of the last
/// line that names it.
pub proof fn lemma_request_headers_from_lines(b: Seq<u8>, i: int, k: Seq<char>, v: Seq<char>)
    requires
        request_from_bytes(b) is Ok,
        1 <= i < head_lines(b).len(),
        parse_header_line(head_lines(b)[i]) == Ok::<(Seq<char>, Seq<char>), Seq<char>>((k, v)),
        forall|j: int| i < j < head_lines(b).len() ==> !#[trigger] line_sets_key(head_lines(b)[j], k),
    ensures
        request_from_bytes(b)->Ok_0.headers matches Some(h) && lookup(h, k) == Some(v),
{
    lemma_headers_hold_lines(head_lines(b), head_lines(b).len() as int, i, k, v);
}

/// The request given the captures of the request line, the lines of the head and the body.
pub open spec fn request_from_parts(
    caps: Option<(Option<Seq<char>>, Option<Seq<char>>, Option<Seq<char>>)>,
    lines: Seq<Seq<char>>,
    body: Option<Seq<u8>>,
) -> Result<RequestView, Seq<char>> {
    match caps {
        None => Err("Something is not right with this request line. "@ + lines[0]),
        Some((g1, g2, g3)) => match g1 {
            None => Err("Failed getting `method_str` from request line."@),
            Some(m) => match parse_method(m) {
                None => Err(invalid_method_msg()),
                Some(method) => match g2 {
                    None => Err("Failed getting `uri` from request line."@),
                    Some(uri) => match g3 {
                        None => Err("Failed getting `http_version` from request line."@),
                        Some(version) => match parse_headers_upto(lines, lines.len() as int) {
                            Err(e) => Err(e),
                            Ok(h) => Ok(
                                RequestView {
                                    method,
                                    uri,
                                    http_version: version,
                                    headers: Some(h),
                                    body,
                                },
                            ),
                        },
                    },
                },
            },
        },
    }
}

/// The lines of the head of `b`, decoded.
pub open spec fn head_lines(b: Seq<u8>) -> Seq<Seq<char>> {
    lines_of(head_of(b))
}

/// The request that `b` holds, or the description of what is wrong with it.
pub open spec fn request_from_bytes(b: Seq<u8>) -> Result<RequestView, Seq<char>> {
    if !contains_seq(b, http_mark()) {
        Err("Unable to find request line in bytes "@ + utf8_lossy_text(b))
    } else if !valid_utf8(head_of(b)) {
        Err("Failed to parse HTTP request into valid UTF-8."@)
    } else {
        request_from_parts(
            regex_captures(REQUEST_LINE_PATTERN@, head_lines(b)[0]),
            head_lines(b),
            body_of(b),
        )
    }
}

/// The result of parsing, as values.
pub open spec fn result_view(r: Result<Request, InvalidRequest>) -> Result<RequestView, Seq<char>> {
    match r {
        Ok(req) => Ok(req@),
        Err(e) => Err(e.details@),
    }
}

/// The first two pieces of a split: the text before the first separator, and, when there is
/// a separator, the text up to the next one or the end.
pub proof fn lemma_split_first_two(s: Seq<u8>, sep: Seq<u8>)
    requires
        sep.len() > 0,
    ensures
        split_seq(s, sep).len() >= 1,
        split_seq(s, sep)[0] == match find_from(s, sep, 0) {
            Some(i) => s.subrange(0, i),
            None => s,
        },
        split_seq(s, sep).len() >= 2 <==> find_from(s, sep, 0) is Some,
        find_from(s, sep, 0) matches Some(i) ==> split_seq(s, sep)[1] == match find_from(
            s,
            sep,
            i + sep.len(),
        ) {
            Some(j) => s.subrange(i + sep.len(), j),
            None => s.subrange(i + sep.len(), s.len() as int),
        },
{
    lemma_find_from(s, sep, 0);
    match find_from(s, sep, 0) {
        Some(i) => {
            lemma_find_from(s, sep, i + sep.len());
            let rest = split_from(s, sep, i + sep.len());
            assert(split_seq(s, sep) == seq![s.subrange(0, i)] + rest);
            assert(rest.len() >= 1);
        },
        None => {
            assert(s.subrange(0, s.len() as int) =~= s);
        },
    }
}

/// The head line separators and the `: ` are ASCII.
proof fn lemma_separators_ascii()
    ensures
        all_ascii(crlf()),
        all_ascii(colon_space()),
        all_ascii(head_body_separator()),
{
}

/// Splits one header line into its name and value.
fn parse_header_line_exec(line: &String) -> (r: Result<(String, String), String>)
    ensures
        match r {
            Ok((k, v)) => parse_header_line(line@) == Ok::<(Seq<char>, Seq<char>), Seq<char>>(
                (k@, v@),
            ),
            Err(e) => parse_header_line(line@) == Err::<(Seq<char>, Seq<char>), Seq<char>>(e@),
        },
{
    let enc = line.as_str().as_bytes();
    let sep: Vec<u8> = vec![58u8, 32u8];
    assert(sep@ =~= colon_space());
    proof {
        lemma_split_first_two(enc@, colon_space());
        lemma_find_from(enc@, colon_space(), 0);
        lemma_separators_ascii();
        assert(enc@ == encode_utf8(line@));
        assert(valid_utf8(enc@));
    }
    match find_bytes(enc, sep.as_slice(), 0) {
        None => {
            let mut msg = String::from_str("Couldn't get header value from header line ");
            msg.append(line.as_str());
            Err(msg)
        },
        Some(i) => {
            proof {
                lemma_valid_around_ascii(enc@, colon_space(), i as int);
                lemma_find_from(enc@, colon_space(), i + 2);
            }
            let key = decode_valid(copy_range(enc, 0, i));
            let value_end = match find_bytes(enc, sep.as_slice(), i + 2) {
                Some(j) => {
                    proof {
                        let rest = enc@.subrange(i + 2, enc@.len() as int);
                        assert(occurs_at(rest, colon_space(), j - (i + 2))) by {
                            assert(rest.subrange(j - (i + 2), j - i) =~= enc@.subrange(
                                j as int,
                                j + 2,
                            ));
                        }
                        lemma_valid_around_ascii(rest, colon_space(), j - (i + 2));
                        assert(rest.subrange(0, j - (i + 2)) =~= enc@.subrange(i + 2, j as int));
                    }
                    j
                },
                None => {
                    assert(enc@.subrange(i + 2, enc@.len() as int) =~= enc@.subrange(
                        i + 2,
                        enc.len() as int,
                    ));
                    enc.len()
                },
            };
            let value = decode_valid(copy_range(enc, i + 2, value_end));
            Ok((key, value))
        },
    }
}

/// The captures, the head lines and the body made into a request.
pub fn request_from_captures(
    caps: Option<(Option<String>, Option<String>, Option<String>)>,
    lines: &Vec<String>,
    body: Option<Vec<u8>>,
) -> (r: Result<Request, InvalidRequest>)
    requires
        lines.len() >= 1,
    ensures
        result_view(r) == request_from_parts(
            captures_view(caps),
            lines@.map_values(|l: String| l@),
            opt_bytes(body),
        ),
{
    match caps {
        None => {
            let mut msg = String::from_str("Something is not right with this request line. ");
            msg.append(lines[0].as_str());
            Err(InvalidRequest { details: msg })
        },
        Some((g1, g2, g3)) => {
            let method_str = match g1 {
                None => {
                    return Err(InvalidRequest::new("Failed getting `method_str` from request line."));
                },
                Some(m) => m,
            };
            let method = match RequestMethod::from_str(method_str.as_str()) {
                Ok(m) => m,
                Err(e) => {
                    return Err(InvalidRequest::from(e));
                },
            };
            let uri = match g2 {
                None => {
                    return Err(InvalidRequest::new("Failed getting `uri` from request line."));
                },
                Some(u) => u,
            };
            let http_version = match g3 {
                None => {
                    return Err(InvalidRequest::new("Failed getting `http_version` from request line."));
                },
                Some(v) => v,
            };
            let headers = match parse_headers(lines) {
                Ok(h) => h,
                Err(msg) => {
                    return Err(InvalidRequest { details: msg });
                },
            };
            Ok(Request { method, uri, http_version, headers: Some(headers), body })
        },
    }
}

/// Whether `bytes` hold `HTTP/` somewhere.
pub fn has_http_mark(bytes: &[u8]) -> (r: bool)
    ensures
        r == contains_seq(bytes@, http_mark()),
{
    let mark: Vec<u8> = vec![72u8, 84u8, 84u8, 80u8, 47u8];
    assert(mark@ =~= http_mark());
    proof {
        lemma_contains_iff_found(bytes@, http_mark());
    }
    find_bytes(bytes, mark.as_slice(), 0).is_some()
}

/// The head of a request, before the first CR LF CR LF, and the body after it.
pub fn split_head_body(bytes: &[u8]) -> (r: (Vec<u8>, Option<Vec<u8>>))
    ensures
        r.0@ == head_of(bytes@),
        opt_bytes(r.1) == body_of(bytes@),
{
    let separator: Vec<u8> = vec![13u8, 10u8, 13u8, 10u8];
    assert(separator@ =~= head_body_separator());
    proof {
        lemma_find_from(bytes@, head_body_separator(), 0);
    }
    match find_bytes(bytes, separator.as_slice(), 0) {
        Some(pos) => {
            assert(occurs_at(bytes@, head_body_separator(), pos as int));
            assert(head_body_separator().len() == 4);
            let n = bytes.len();
            assert(pos + 4 <= n);
            let body_start: usize = pos + 4;
            (copy_range(bytes, 0, pos), Some(copy_range(bytes, body_start, bytes.len())))
        },
        None => {
            let head = copy_range(bytes, 0, bytes.len());
            assert(head@ =~= bytes@);
            (head, None)
        },
    }
}

/// The lines of a head, as decoded text.
pub open spec fn lines_of(head: Seq<u8>) -> Seq<Seq<char>> {
    split_seq(head, crlf()).map_values(|l: Seq<u8>| decode_utf8(l))
}

/// The lines of a head separated by CR LF, decoded; `None` when the head is not UTF-8.
pub fn decode_head_lines(head: &[u8]) -> (r: Option<Vec<String>>)
    ensures
        r is Some <==> valid_utf8(head@),
        r matches Some(lines) ==> lines@.len() >= 1 && lines@.map_values(|l: String| l@)
            == lines_of(head@),
{
    let ghost hb = head@;
    let checked = string_from_utf8(copy_range(head, 0, head.len()));
    assert(head@.subrange(0, head@.len() as int) =~= head@);
    if checked.is_none() {
        return None;
    }
    let crlf_sep: Vec<u8> = vec![13u8, 10u8];
    assert(crlf_sep@ =~= crlf());
    let pieces = split_bytes(head, crlf_sep.as_slice());
    proof {
        lemma_separators_ascii();
        assert(hb.subrange(0, hb.len() as int) =~= hb);
        lemma_split_from_valid(hb, crlf(), 0);
        lemma_split_first_two(hb, crlf());
    }
    let mut lines: Vec<String> = Vec::new();
    let mut i: usize = 0;
    while i < pieces.len()
        invariant
            i <= pieces.len(),
            views(pieces@) == split_seq(hb, crlf()),
            forall|k: int|
                0 <= k < split_seq(hb, crlf()).len() ==> valid_utf8(
                    #[trigger] split_seq(hb, crlf())[k],
                ),
            lines@.len() == i,
            forall|k: int|
                0 <= k < i ==> #[trigger] lines@[k]@ == decode_utf8(split_seq(hb, crlf())[k]),
        decreases pieces.len() - i,
    {
        assert(views(pieces@)[i as int] == pieces@[i as int]@);
        assert(pieces@[i as int]@.subrange(0, pieces@[i as int]@.len() as int) =~= pieces@[i as int]@);
        let line = decode_valid(copy_range(pieces[i].as_slice(), 0, pieces[i].len()));
        lines.push(line);
        i = i + 1;
    }
    assert(lines@.map_values(|l: String| l@) =~= lines_of(hb));
    Some(lines)
}

/// The headers of lines `1..` of a head, each stored in turn; the first line without `: `
/// gives the error.
pub fn parse_headers(lines: &Vec<String>) -> (r: Result<HeaderMap, String>)
    requires
        lines.len() >= 1,
    ensures
        match r {
            Ok(h) => parse_headers_upto(lines@.map_values(|l: String| l@), lines.len() as int)
                == Ok::<HeaderSeq, Seq<char>>(h@),
            Err(e) => parse_headers_upto(lines@.map_values(|l: String| l@), lines.len() as int)
                == Err::<HeaderSeq, Seq<char>>(e@),
        },
{
    let ghost lv = lines@.map_values(|l: String| l@);
    let mut headers = HeaderMap::new();
    let mut i: usize = 1;
    while i < lines.len()
        invariant
            1 <= i <= lines.len(),
            lv == lines@.map_values(|l: String| l@),
            parse_headers_upto(lv, i as int) == Ok::<HeaderSeq, Seq<char>>(headers@),
        decreases lines.len() - i,
    {
        match parse_header_line_exec(&lines[i]) {
            Ok((k, v)) => {
                headers.insert(k, v);
            },
            Err(msg) => {
                proof {
                    assert(lv[i as int] == lines@[i as int]@);
                    assert(parse_headers_upto(lv, i + 1) == Err::<HeaderSeq, Seq<char>>(msg@));
                    lemma_headers_error_persists(lv, i + 1, lines.len() as int);
                }
                return Err(msg);
            },
        }
        i = i + 1;
    }
    Ok(headers)
}

/// The request line of a request: method, target and version separated by single spaces.
pub open spec fn request_line(r: RequestView) -> Seq<char> {
    method_name(r.method) + " "@ + r.uri + " "@ + r.http_version
}

/// The first line of a head that is valid UTF-8 is the first piece of the head cut at CR LF,
/// decoded; encoding it gives that piece back.
proof fn lemma_first_line(b: Seq<u8>)
    requires
        valid_utf8(head_of(b)),
    ensures
        split_seq(head_of(b), crlf()).len() >= 1,
        encode_utf8(head_lines(b)[0]) == split_seq(head_of(b), crlf())[0],
        split_seq(head_of(b), crlf())[0].len() <= b.len(),
        forall|x: int|
            0 <= x < split_seq(head_of(b), crlf())[0].len() ==> #[trigger] split_seq(
                head_of(b),
                crlf(),
            )[0][x] == b[x],
{
    let head = head_of(b);
    lemma_split_first_two(head, crlf());
    lemma_separators_ascii();
    assert(head.subrange(0, head.len() as int) =~= head);
    lemma_split_from_valid(head, crlf(), 0);
    let piece = split_seq(head, crlf())[0];
    assert(valid_utf8(piece));
    decode_utf8_encode_utf8(piece);
    assert(head_lines(b)[0] == decode_utf8(piece));
    lemma_find_from(b, head_body_separator(), 0);
}

/// The bytes before the first CR LF, or all the bytes where there is none.
pub open spec fn first_line_bytes(b: Seq<u8>) -> Seq<u8> {
    match find_from(b, crlf(), 0) {
        Some(q) => b.subrange(0, q),
        None => b,
    }
}

/// The first piece of the head cut at CR LF is the input before its first CR LF: the blank
/// line that ends the head starts with a CR LF, so no earlier CR LF reaches past the head.
proof fn lemma_first_piece(b: Seq<u8>)
    ensures
        split_seq(head_of(b), crlf())[0] == first_line_bytes(b),
{
    let head = head_of(b);
    lemma_split_first_two(head, crlf());
    lemma_find_from(b, head_body_separator(), 0);
    lemma_find_from(b, crlf(), 0);
    lemma_find_from(head, crlf(), 0);
    match find_from(b, head_body_separator(), 0) {
        Some(p) => {
            assert(head == b.subrange(0, p));
            assert(occurs_at(b, crlf(), p)) by {
                assert(b.subrange(p, p + 4)[0] == 13u8 && b.subrange(p, p + 4)[1] == 10u8);
                assert(b.subrange(p, p + 2) =~= crlf());
            }
            let q = find_from(b, crlf(), 0)->0;
            assert(q <= p);
            if q < p {
                assert(q + 2 <= p) by {
                    if q + 1 == p {
                        assert(b.subrange(q, q + 2)[1] == 10u8);
                        assert(b.subrange(p, p + 4)[0] == 13u8);
                    }
                }
                assert(head.subrange(q, q + 2) =~= b.subrange(q, q + 2));
                assert(occurs_at(head, crlf(), q));
                match find_from(head, crlf(), 0) {
                    Some(q2) => {
                        if q2 < q {
                            assert(head.subrange(q2, q2 + 2) =~= b.subrange(q2, q2 + 2));
                            assert(occurs_at(b, crlf(), q2));
                        }
                        assert(head.subrange(0, q) =~= b.subrange(0, q));
                    },
                    None => {},
                }
            } else {
                match find_from(head, crlf(), 0) {
                    Some(q2) => {
                        assert(head.subrange(q2, q2 + 2) =~= b.subrange(q2, q2 + 2));
                        assert(occurs_at(b, crlf(), q2));
                    },
                    None => {},
                }
            }
        },
        None => {
            assert(head == b);
        },
    }
}

/// A request line that matches the pattern holds `HTTP/`, so the bytes do too.
proof fn lemma_line_gives_mark(b: Seq<u8>, m: Seq<char>, u: Seq<char>, v: Seq<char>)
    requires
        valid_utf8(head_of(b)),
        head_lines(b)[0] == m + " "@ + u + " "@ + v,
        v.len() >= 5,
        v.subrange(0, 5) == "HTTP/"@,
    ensures
        contains_seq(b, http_mark()),
{
    lemma_first_line(b);
    let piece = split_seq(head_of(b), crlf())[0];
    let pre = m + " "@ + u + " "@;
    let rest = v.subrange(5, v.len() as int);
    reveal_strlit("HTTP/");
    assert(v =~= "HTTP/"@ + rest);
    assert(m + " "@ + u + " "@ + v =~= pre + ("HTTP/"@ + rest));
    lemma_encode_concat(pre, "HTTP/"@ + rest);
    lemma_encode_concat("HTTP/"@, rest);
    assert(is_ascii_chars("HTTP/"@));
    is_ascii_chars_encode_utf8("HTTP/"@);
    assert(encode_utf8("HTTP/"@) =~= http_mark());
    let k = encode_utf8(pre).len() as int;
    assert(piece == encode_utf8(pre) + (http_mark() + encode_utf8(rest)));
    assert forall|j: int| 0 <= j < 5 implies #[trigger] b.subrange(k, k + 5)[j] == http_mark()[j] by {
        assert(piece[k + j] == http_mark()[j]);
        assert(piece[k + j] == b[k + j]);
    }
    assert(b.subrange(k, k + 5) =~= http_mark());
    assert(occurs_at(b, http_mark(), k));
}

impl Request {
    /// The default request: `GET / 1.1` without headers or body.
    pub fn new() -> (r: Request)
        ensures
            r.method == RequestMethod::GET,
            r.uri@ == "/"@,
            r.http_version@ == "1.1"@,
            r.headers is None,
            r.body is None,
    {
        Request {
            method: RequestMethod::GET,
            uri: String::from_str("/"),
            http_version: String::from_str("1.1"),
            headers: None,
            body: None,
        }
    }

    /// Parses a request from raw bytes. The head, everything before the first CR LF CR LF,
    /// must be UTF-8; its first line must be a request line, every further line a header;
    /// what follows the separator is the body.
    pub fn from_bytes(bytes: &[u8]) -> (r: Result<Request, InvalidRequest>)
        ensures
            result_view(r) == request_from_bytes(bytes@),
            r is Ok <==> (valid_utf8(head_of(bytes@)) && regex_captures(
                REQUEST_LINE_PATTERN@,
                head_lines(bytes@)[0],
            ) is Some && parse_headers_upto(head_lines(bytes@), head_lines(bytes@).len() as int)
                is Ok),
            r matches Ok(req) ==> {
                &&& req.uri@.len() > 0 && req.uri@[0] == '/'
                &&& req.http_version@.len() == 8 && req.http_version@.subrange(0, 5) == "HTTP/"@
                &&& request_line(req@) == head_lines(bytes@)[0]
                &&& encode_utf8(request_line(req@)) == first_line_bytes(bytes@)
                &&& request_line(req@) == decode_utf8(first_line_bytes(bytes@))
            },
    {
        let mark = has_http_mark(bytes);
        let (head, body) = split_head_body(bytes);
        let decoded = decode_head_lines(head.as_slice());
        let caps = match &decoded {
            Some(lines) => captures_of(REQUEST_LINE_PATTERN, lines[0].as_str()),
            None => None,
        };
        proof {
            if decoded is Some {
                assert(decoded->0@[0]@ == head_lines(bytes@)[0]);
                lemma_first_line(bytes@);
                lemma_first_piece(bytes@);
                if let Some((Some(m), Some(u), Some(v))) = captures_view(caps) {
                    lemma_line_gives_mark(bytes@, m, u, v);
                    lemma_parse_method_tokens(m);
                    lemma_method_name_roundtrip(RequestMethod::GET, m);
                }
            }
        }
        if !mark {
            let mut msg = String::from_str("Unable to find request line in bytes ");
            let lossy = utf8_lossy(bytes);
            msg.append(lossy.as_str());
            return Err(InvalidRequest { details: msg });
        }
        let lines = match decoded {
            Some(l) => l,
            None => {
                return Err(InvalidRequest::new("Failed to parse HTTP request into valid UTF-8."));
            },
        };
        request_from_captures(caps, &lines, body)
    }

    /// The request line: method, target and version separated by spaces.
    pub fn to_string(&self) -> (r: String)
        ensures
            r@ == request_line(self@),
    {
        let mut s = self.method.to_string();
        s.append(" ");
        s.append(self.uri.as_str());
        s.append(" ");
        s.append(self.http_version.as_str());
        s
    }
}

} // verus!

