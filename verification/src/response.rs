//! HTTP responses: building them step by step and rendering them as bytes.
use vstd::prelude::*;
use vstd::utf8::*;
use crate::bytes::{
    append_bytes, decimal, decimal_string, find_from, is_numeral, lemma_decimal_numeral, numeral_value, lemma_encode_concat, lemma_find_from, occurs_at,
    utf8_lossy, utf8_lossy_text,
};
use crate::headers::{
    distinct_keys, has_key, inserted, key_pos, lemma_inserted_lookup, lookup, HeaderMap, HeaderSeq,
};
use crate::status_codes::{self, StatusCode};

verus! {

/// A response, as values.
pub ghost struct ResponseView {
    pub http_version: Seq<char>,
    pub status: StatusCode,
    pub headers: Option<HeaderSeq>,
    pub body: Option<Seq<u8>>,
}

/// An HTTP response.
pub struct Response {
    http_version: String,
    status: StatusCode,
    headers: Option<HeaderMap>,
    body: Option<Vec<u8>>,
}

impl View for Response {
    type V = ResponseView;

    closed spec fn view(&self) -> ResponseView {
        ResponseView {
            http_version: self.http_version@,
            status: self.status,
            headers: match self.headers {
                Some(h) => Some(h@),
                None => None,
            },
            body: match self.body {
                Some(b) => Some(b@),
                None => None,
            },
        }
    }
}

/// A fresh response: version `1.1`, status `200 OK`, an empty header map and no body.
pub open spec fn new_response(ok: StatusCode) -> ResponseView {
    ResponseView {
        http_version: "1.1"@,
        status: ok,
        headers: Some(Seq::empty()),
        body: None,
    }
}

/// The response with the header `k: v` stored, when it has a header map.
pub open spec fn with_header_view(r: ResponseView, k: Seq<char>, v: Seq<char>) -> ResponseView {
    ResponseView {
        headers: match r.headers {
            Some(h) => Some(inserted(h, k, v)),
            None => None,
        },
        ..r
    }
}

/// The length of the body, zero without one.
pub open spec fn body_len(r: ResponseView) -> nat {
    match r.body {
        Some(b) => b.len(),
        None => 0,
    }
}

/// The response with a `Content-Length` header that gives the length of its body.
pub open spec fn prepared(r: ResponseView) -> ResponseView {
    with_header_view(r, "Content-Length"@, decimal(body_len(r)))
}

/// The header lines of a header list, each `name: value` followed by CR LF.
pub open spec fn header_lines_text(h: HeaderSeq) -> Seq<char>
    decreases h.len(),
{
    if h.len() == 0 {
        Seq::empty()
    } else {
        header_lines_text(h.drop_last()) + h.last().0 + ": "@ + h.last().1 + "\r\n"@
    }
}

/// The status line and the header lines of a response.
pub open spec fn head_text(r: ResponseView) -> Seq<char> {
    "HTTP/"@ + r.http_version + " "@ + r.status.text() + "\r\n"@ + match r.headers {
        Some(h) => header_lines_text(h),
        None => Seq::empty(),
    }
}

/// The bytes of a response on the wire: the UTF-8 head, an empty line, then the body.
pub open spec fn message(r: ResponseView) -> Seq<u8> {
    encode_utf8(head_text(r)) + seq![13u8, 10u8] + match r.body {
        Some(b) => b,
        None => Seq::empty(),
    }
}

impl Response {
    /// A fresh response: version `1.1`, status `200 OK`, an empty header map and no body.
    pub fn new() -> (r: Response)
        ensures
            r@ == new_response(status_codes::ok()),
    {
        let h = HeaderMap::new();
        Response {
            http_version: String::from_str("1.1"),
            status: status_codes::ok(),
            headers: Some(h),
            body: None,
        }
    }

    /// The response with its protocol version replaced.
    pub fn with_http_version(self, http_version: &str) -> (r: Response)
        ensures
            r@ == (ResponseView { http_version: http_version@, ..self@ }),
    {
        let mut s = self;
        s.http_version = String::from_str(http_version);
        s
    }

    /// The response with its status replaced.
    pub fn with_status(self, status: StatusCode) -> (r: Response)
        ensures
            r@ == (ResponseView { status, ..self@ }),
    {
        let mut s = self;
        s.status = status;
        s
    }

    /// The response with the header `k: v` stored, replacing an earlier value of `k`;
    /// a response without a header map stays as it is.
    pub fn with_header(self, header: (&str, &str)) -> (r: Response)
        ensures
            r@ == with_header_view(self@, header.0@, header.1@),
    {
        let (k, v) = header;
        let mut s = self;
        match s.headers {
            Some(mut h) => {
                h.insert(String::from_str(k), String::from_str(v));
                s.headers = Some(h);
            },
            None => {},
        }
        s
    }

    /// The response with its header map replaced.
    pub fn with_headers(self, headers: HeaderMap) -> (r: Response)
        ensures
            r@ == (ResponseView { headers: Some(headers@), ..self@ }),
    {
        let mut s = self;
        s.headers = Some(headers);
        s
    }

    /// The response with a copy of `body` as its body.
    pub fn with_body(self, body: &[u8]) -> (r: Response)
        ensures
            r@ == (ResponseView { body: Some(body@), ..self@ }),
    {
        let mut s = self;
        let mut b: Vec<u8> = Vec::new();
        append_bytes(&mut b, body);
        s.body = Some(b);
        s
    }

    fn set_content_length_header(self) -> (r: Response)
        ensures
            r@ == prepared(self@),
    {
        let length: usize = match &self.body {
            Some(body) => body.len(),
            None => 0,
        };
        let text = decimal_string(length);
        self.with_header(("Content-Length", text.as_str()))
    }

    /// The response made ready to send: a `Content-Length` header gives the body's length.
    pub fn prepare_response(self) -> (r: Response)
        ensures
            r@ == prepared(self@),
    {
        self.set_content_length_header()
    }

    /// The UTF-8 bytes of the status line and the header lines.
    pub fn head_bytes(&self) -> (r: Vec<u8>)
        ensures
            r@ == encode_utf8(head_text(self@)),
    {
        let mut text = String::from_str("HTTP/");
        text.append(self.http_version.as_str());
        text.append(" ");
        let status = self.status.to_string();
        text.append(status.as_str());
        text.append("\r\n");
        let ghost status_line = text@;
        match &self.headers {
            Some(h) => {
                let mut i: usize = 0;
                while i < h.len()
                    invariant
                        i <= h@.len(),
                        text@ == status_line + header_lines_text(h@.subrange(0, i as int)),
                    decreases h@.len() - i,
                {
                    let (k, v) = h.entry(i);
                    text.append(k.as_str());
                    text.append(": ");
                    text.append(v.as_str());
                    text.append("\r\n");
                    assert(h@.subrange(0, i + 1).drop_last() =~= h@.subrange(0, i as int));
                    assert(text@ =~= status_line + header_lines_text(h@.subrange(0, i + 1)));
                    i = i + 1;
                }
                assert(h@.subrange(0, h@.len() as int) =~= h@);
            },
            None => {
                assert(text@ =~= status_line + Seq::<char>::empty());
            },
        }
        assert(text@ =~= head_text(self@));
        let mut result: Vec<u8> = Vec::new();
        append_bytes(&mut result, text.as_str().as_bytes());
        assert(result@ =~= encode_utf8(head_text(self@)));
        result
    }

    /// The body, if there is one.
    pub fn body(&self) -> (r: Option<&Vec<u8>>)
        ensures
            match r {
                Some(b) => self@.body == Some(b@),
                None => self@.body is None,
            },
    {
        match &self.body {
            Some(b) => Some(b),
            None => None,
        }
    }

    /// The bytes of the response on the wire.
    pub fn message_bytes(&self) -> (r: Vec<u8>)
        ensures
            r@ == message(self@),
    {
        let mut result = self.head_bytes();
        result.push(13u8);
        result.push(10u8);
        match &self.body {
            Some(b) => {
                append_bytes(&mut result, b.as_slice());
            },
            None => {},
        }
        assert(result@ =~= message(self@));
        result
    }

    /// The response as text: its bytes read as UTF-8, invalid runs replaced.
    pub fn to_string(&self) -> (r: String)
        ensures
            r@ == utf8_lossy_text(message(self@)),
            valid_utf8(message(self@)) ==> r@ == decode_utf8(message(self@)),
    {
        let bytes = self.message_bytes();
        utf8_lossy(bytes.as_slice())
    }
}

/// A prepared response carries a `Content-Length` header that gives the body's length in
/// decimal, and keeps its version, status, body and every other header.
pub proof fn lemma_prepared_content_length(r: ResponseView, k: Seq<char>)
    requires
        r.headers matches Some(h) && distinct_keys(h),
    ensures
        prepared(r).headers matches Some(h2) && lookup(h2, "Content-Length"@) == Some(
            decimal(body_len(r)),
        ) && distinct_keys(h2) && (k != "Content-Length"@ ==> lookup(h2, k) == lookup(
            r.headers->0,
            k,
        )),
        prepared(r).http_version == r.http_version,
        prepared(r).status == r.status,
        prepared(r).body == r.body,
{
    lemma_inserted_lookup(r.headers->0, "Content-Length"@, decimal(body_len(r)), k);
}

/// The `Content-Length` value of a prepared response is a decimal numeral that reads back
/// as the length of the body.
pub proof fn lemma_content_length_reads_back(r: ResponseView)
    requires
        r.headers matches Some(h) && distinct_keys(h),
    ensures
        prepared(r).headers matches Some(h2) && lookup(h2, "Content-Length"@) matches Some(v)
            && is_numeral(v) && numeral_value(v) == body_len(r),
{
    lemma_prepared_content_length(r, "Content-Length"@);
    lemma_decimal_numeral(body_len(r));
}

/// Storing a header makes it readable back, leaving every other header as it was.
pub proof fn lemma_with_header_lookup(r: ResponseView, k: Seq<char>, v: Seq<char>, k2: Seq<char>)
    requires
        r.headers matches Some(h) && distinct_keys(h),
    ensures
        with_header_view(r, k, v).headers matches Some(h2) && lookup(h2, k) == Some(v) && (k2
            != k ==> lookup(h2, k2) == lookup(r.headers->0, k2)),
{
    lemma_inserted_lookup(r.headers->0, k, v, k2);
}

/// The text holds no CR and no LF.
pub open spec fn no_line_break(s: Seq<char>) -> bool {
    forall|i: int| 0 <= i < s.len() ==> s[i] != '\r' && s[i] != '\n'
}

/// No header name or value holds a CR or an LF.
pub open spec fn headers_without_breaks(h: HeaderSeq) -> bool {
    forall|i: int| 0 <= i < h.len() ==> no_line_break(#[trigger] h[i].0) && no_line_break(h[i].1)
}

/// The blank line that ends a head: CR LF CR LF.
pub open spec fn blank_line() -> Seq<u8> {
    seq![13u8, 10u8, 13u8, 10u8]
}

/// A run of lines: at least one byte before its final CR LF, no CR first or just before
/// the final CR LF, and no CR LF CR LF anywhere in it.
pub open spec fn line_run(e: Seq<u8>) -> bool {
    &&& e.len() >= 3
    &&& e[0] != 13
    &&& e[e.len() - 3] != 13
    &&& e[e.len() - 2] == 13
    &&& e[e.len() - 1] == 10
    &&& forall|j: int| !#[trigger] occurs_at(e, blank_line(), j)
}

/// The encoding of a character other than CR and LF holds neither byte.
proof fn lemma_scalar_no_break(c: char)
    requires
        c != '\r' && c != '\n',
    ensures
        encode_scalar(c as u32).len() >= 1,
        forall|i: int|
            0 <= i < encode_scalar(c as u32).len() ==> #[trigger] encode_scalar(c as u32)[i] != 13
                && encode_scalar(c as u32)[i] != 10,
{
    let v = c as u32;
    if has_width_1_encoding(v) {
        assert(v != 13 && v != 10);
        assert(leading_byte_width_1(v) != 13 && leading_byte_width_1(v) != 10) by (bit_vector)
            requires
                v <= 0x7F,
                v != 13,
                v != 10,
        ;
    } else {
        assert(leading_byte_width_2(v) >= 0x80) by (bit_vector);
        assert(leading_byte_width_3(v) >= 0x80) by (bit_vector);
        assert(leading_byte_width_4(v) >= 0x80) by (bit_vector);
        assert(last_continuation_byte(v) >= 0x80) by (bit_vector);
        assert(second_last_continuation_byte(v) >= 0x80) by (bit_vector);
        assert(third_last_continuation_byte(v) >= 0x80) by (bit_vector);
    }
}

/// Text without CR and LF encodes to bytes without 13 and 10, one byte at least per
/// character.
proof fn lemma_encode_no_break(x: Seq<char>)
    requires
        no_line_break(x),
    ensures
        encode_utf8(x).len() >= x.len(),
        forall|i: int|
            0 <= i < encode_utf8(x).len() ==> #[trigger] encode_utf8(x)[i] != 13 && encode_utf8(
                x,
            )[i] != 10,
    decreases x.len(),
{
    if x.len() > 0 {
        lemma_scalar_no_break(x[0]);
        lemma_encode_no_break(x.drop_first());
        let a = encode_scalar(x[0] as u32);
        let b = encode_utf8(x.drop_first());
        assert(encode_utf8(x) == a + b);
        assert forall|i: int| 0 <= i < encode_utf8(x).len() implies #[trigger] encode_utf8(x)[i]
            != 13 && encode_utf8(x)[i] != 10 by {
            if i < a.len() {
                assert(encode_utf8(x)[i] == a[i]);
            } else {
                assert(encode_utf8(x)[i] == b[i - a.len()]);
            }
        }
    }
}

/// A line of text without CR and LF, followed by CR LF, is a run of lines.
proof fn lemma_line_run(x: Seq<char>)
    requires
        no_line_break(x),
        x.len() > 0,
    ensures
        line_run(encode_utf8(x + "\r\n"@)),
{
    reveal_strlit("\r\n");
    lemma_encode_concat(x, "\r\n"@);
    assert(is_ascii_chars("\r\n"@));
    is_ascii_chars_encode_utf8("\r\n"@);
    assert(encode_utf8("\r\n"@) =~= seq![13u8, 10u8]);
    lemma_encode_no_break(x);
    let y = encode_utf8(x);
    let e = encode_utf8(x + "\r\n"@);
    assert(e == y + seq![13u8, 10u8]);
    assert(e[0] == y[0]);
    assert(e[e.len() - 3] == y[y.len() - 1]);
    assert forall|j: int| !#[trigger] occurs_at(e, blank_line(), j) by {
        if occurs_at(e, blank_line(), j) {
            assert(e.subrange(j, j + 4)[0] == 13u8);
            assert(e[j] == 13);
            assert(e.subrange(j, j + 4)[2] == 13u8);
            assert(e[j + 2] == 13);
            if j < y.len() {
                assert(e[j] == y[j]);
            }
        }
    }
}

/// Two runs of lines joined make a run of lines.
proof fn lemma_line_run_concat(e1: Seq<u8>, e2: Seq<u8>)
    requires
        line_run(e1),
        line_run(e2),
    ensures
        line_run(e1 + e2),
{
    let e = e1 + e2;
    let n = e1.len() as int;
    assert forall|j: int| !#[trigger] occurs_at(e, blank_line(), j) by {
        if occurs_at(e, blank_line(), j) {
            assert(forall|k: int| 0 <= k < 4 ==> e.subrange(j, j + 4)[k] == blank_line()[k]);
            assert(forall|k: int| 0 <= k < 4 ==> e[j + k] == blank_line()[k]);
            if j + 4 <= n {
                assert(e1.subrange(j, j + 4) =~= e.subrange(j, j + 4));
                assert(occurs_at(e1, blank_line(), j));
            } else if j >= n {
                assert(e2.subrange(j - n, j - n + 4) =~= e.subrange(j, j + 4));
                assert(occurs_at(e2, blank_line(), j - n));
            } else if j == n - 3 {
                assert(e[j] == e1[n - 3]);
            } else if j == n - 2 {
                assert(e[j + 2] == e2[0]);
            } else {
                assert(e[j] == e1[n - 1]);
            }
        }
    }
    assert(e[0] == e1[0]);
    assert(e[e.len() - 3] == e2[e2.len() - 3]);
    assert(e[e.len() - 2] == e2[e2.len() - 2]);
    assert(e[e.len() - 1] == e2[e2.len() - 1]);
}

/// Decimal digits hold no CR and no LF.
proof fn lemma_decimal_no_break(n: nat)
    ensures
        no_line_break(decimal(n)),
        decimal(n).len() > 0,
    decreases n,
{
    if n < 10 {
        assert(decimal(n) == seq![crate::bytes::digit_char(n)]);
    } else {
        lemma_decimal_no_break(n / 10);
        let d = decimal(n / 10);
        assert(decimal(n) == d.push(crate::bytes::digit_char(n % 10)));
        assert forall|i: int| 0 <= i < decimal(n).len() implies decimal(n)[i] != '\r' && decimal(
            n,
        )[i] != '\n' by {
            if i < d.len() {
                assert(decimal(n)[i] == d[i]);
            }
        }
    }
}

/// Storing a header without CR or LF keeps a header list free of them.
proof fn lemma_inserted_without_breaks(h: HeaderSeq, k: Seq<char>, v: Seq<char>)
    requires
        headers_without_breaks(h),
        no_line_break(k),
        no_line_break(v),
    ensures
        headers_without_breaks(inserted(h, k, v)),
{
    let t = inserted(h, k, v);
    assert forall|i: int| 0 <= i < t.len() implies no_line_break(#[trigger] t[i].0) && no_line_break(
        t[i].1,
    ) by {
        if has_key(h, k) {
            if i != key_pos(h, k) {
                assert(t[i] == h[i]);
            }
        } else {
            if i < h.len() {
                assert(t[i] == h[i]);
            }
        }
    }
}

/// The header lines of a nonempty header list without CR or LF are a run of lines.
proof fn lemma_header_lines_run(h: HeaderSeq)
    requires
        h.len() > 0,
        headers_without_breaks(h),
    ensures
        line_run(encode_utf8(header_lines_text(h))),
    decreases h.len(),
{
    let prev = h.drop_last();
    let (k, v) = h.last();
    reveal_strlit(": ");
    reveal_strlit("\r\n");
    let line = k + ": "@ + v;
    assert(no_line_break(h[h.len() - 1].0) && no_line_break(h[h.len() - 1].1));
    assert(no_line_break(line)) by {
        assert forall|i: int| 0 <= i < line.len() implies line[i] != '\r' && line[i] != '\n' by {
            if i < k.len() {
                assert(line[i] == k[i]);
            } else if i >= k.len() + 2 {
                assert(line[i] == v[i - k.len() - 2]);
            }
        }
    }
    lemma_line_run(line);
    assert(header_lines_text(h) =~= header_lines_text(prev) + (line + "\r\n"@));
    if prev.len() > 0 {
        assert forall|i: int| 0 <= i < prev.len() implies no_line_break(#[trigger] prev[i].0)
            && no_line_break(prev[i].1) by {
            assert(prev[i] == h[i]);
        }
        lemma_header_lines_run(prev);
        lemma_encode_concat(header_lines_text(prev), line + "\r\n"@);
        lemma_line_run_concat(encode_utf8(header_lines_text(prev)), encode_utf8(line + "\r\n"@));
    } else {
        assert(header_lines_text(prev) =~= Seq::<char>::empty());
        assert(header_lines_text(h) =~= line + "\r\n"@);
    }
}

/// On the wire, a prepared response's head ends at the first blank line, the bytes after it
/// are exactly the body, and the `Content-Length` header gives their number. This holds
/// where the version, the reason phrase and the headers hold no CR or LF.
pub proof fn lemma_content_length_on_the_wire(r: ResponseView)
    requires
        r.headers matches Some(h) && distinct_keys(h) && headers_without_breaks(h),
        no_line_break(r.http_version),
        no_line_break(r.status.name@),
    ensures
        ({
            let m = message(prepared(r));
            find_from(m, blank_line(), 0) matches Some(p) && {
                &&& m.subrange(0, p + 2) == encode_utf8(head_text(prepared(r)))
                &&& m.subrange(p + 4, m.len() as int) == match r.body {
                    Some(b) => b,
                    None => Seq::empty(),
                }
                &&& prepared(r).headers matches Some(h2) && lookup(h2, "Content-Length"@) == Some(
                    decimal((m.len() - (p + 4)) as nat),
                )
            }
        }),
{
    let h = r.headers->0;
    let pr = prepared(r);
    let n = body_len(r);
    let body = match r.body {
        Some(b) => b,
        None => Seq::<u8>::empty(),
    };
    reveal_strlit("Content-Length");
    reveal_strlit("HTTP/");
    reveal_strlit(" ");
    reveal_strlit("\r\n");
    lemma_decimal_no_break(n);
    lemma_decimal_no_break(r.status.code as nat);
    assert(no_line_break("Content-Length"@));
    lemma_inserted_without_breaks(h, "Content-Length"@, decimal(n));
    lemma_prepared_content_length(r, "Content-Length"@);
    let h2 = pr.headers->0;
    assert(h2.len() > 0) by {
        crate::headers::lemma_inserted_lookup(h, "Content-Length"@, decimal(n), "Content-Length"@);
        if h2.len() == 0 {
            assert(!has_key(h2, "Content-Length"@));
        }
    }
    lemma_header_lines_run(h2);
    let text = pr.status.text();
    let status = "HTTP/"@ + pr.http_version + " "@ + text;
    assert(no_line_break(text)) by {
        let d = decimal(r.status.code as nat);
        assert forall|i: int| 0 <= i < text.len() implies text[i] != '\r' && text[i] != '\n' by {
            if i < d.len() {
                assert(text[i] == d[i]);
            } else if i > d.len() {
                assert(text[i] == r.status.name@[i - d.len() - 1]);
            }
        }
    }
    assert(no_line_break(status)) by {
        assert forall|i: int| 0 <= i < status.len() implies status[i] != '\r' && status[i] != '\n' by {
            if 5 <= i < 5 + pr.http_version.len() {
                assert(status[i] == pr.http_version[i - 5]);
            } else if i > 5 + pr.http_version.len() {
                assert(status[i] == text[i - 6 - pr.http_version.len()]);
            }
        }
    }
    lemma_line_run(status);
    assert(head_text(pr) =~= (status + "\r\n"@) + header_lines_text(h2));
    lemma_encode_concat(status + "\r\n"@, header_lines_text(h2));
    lemma_line_run_concat(encode_utf8(status + "\r\n"@), encode_utf8(header_lines_text(h2)));
    let e = encode_utf8(head_text(pr));
    let m = message(pr);
    assert(m =~= e + (seq![13u8, 10u8] + body));
    let p = e.len() - 2;
    assert(m.subrange(p, p + 4) =~= blank_line());
    assert(occurs_at(m, blank_line(), p));
    assert forall|j: int| 0 <= j < p implies !#[trigger] occurs_at(m, blank_line(), j) by {
        if occurs_at(m, blank_line(), j) {
            if j + 4 <= e.len() {
                assert(e.subrange(j, j + 4) =~= m.subrange(j, j + 4));
                assert(occurs_at(e, blank_line(), j));
            } else {
                assert(j == e.len() - 3);
                assert(m.subrange(j, j + 4)[0] == 13u8);
                assert(m[j] == e[j]);
            }
        }
    }
    lemma_find_from(m, blank_line(), 0);
    assert(find_from(m, blank_line(), 0) == Some(p));
    assert(m.subrange(0, p + 2) =~= e);
    assert(m.subrange(p + 4, m.len() as int) =~= body);
    assert(body.len() == n);
}

} // verus!
