//! Minimal HTTP/1.1 client, wire format only.
//!
//! [`HttpRequest::build_raw`] gives the bytes of a request for the caller to
//! send, [`HttpResponse::parse`] reads the bytes that came back. Bodies are
//! framed by `Content-Length`, or by the end of the connection where that
//! header is missing. No I/O happens here.
use crate::text::{
    ascii, byte_range, copy_bytes, decimal, decimal_bytes, decimal_number, find_byte, find_word,
    first_byte, first_word, has_word, is_digit, lemma_first_word, lower, push_decimal,
    read_decimal, same_bytes, same_ignoring_case, trim, trimmed, utf8_text,
};
use vstd::prelude::*;
use vstd::utf8::*;

verus! {

broadcast use vstd::string::group_string_axioms;

/// Maximum number of headers read from a response.
pub const MAX_RESPONSE_HEADERS: usize = 64;

/// Maximum response header block size (before the body).
pub const MAX_HEADER_BLOCK_SIZE: usize = 16_384;

/// Maximum response body size.
pub const MAX_BODY_SIZE: usize = 1_048_576;

// ---------------------------------------------------------------------------
// Errors
// ---------------------------------------------------------------------------

/// Errors from HTTP request building and response parsing.
#[derive(Debug, Clone, Copy, PartialEq, Eq, Structural)]
pub enum HttpError {
    /// The response data is incomplete: more bytes are needed.
    Incomplete,
    /// The status line is missing or malformed.
    MalformedStatusLine,
    /// A header line is malformed (missing `:` separator).
    MalformedHeader,
    /// The status code is not a valid 3-digit number.
    InvalidStatusCode,
    /// Too many headers in the response (exceeds [`MAX_RESPONSE_HEADERS`]).
    TooManyHeaders,
    /// The header block exceeds [`MAX_HEADER_BLOCK_SIZE`].
    HeaderBlockTooLarge,
    /// The Content-Length value is not a valid number.
    InvalidContentLength,
    /// The response body exceeds [`MAX_BODY_SIZE`].
    BodyTooLarge,
    /// The host field in a request is empty.
    EmptyHost,
    /// The path field in a request is empty.
    EmptyPath,
    /// The path field contains a CR or LF byte.
    InvalidPath,
    /// The host field contains a CR or LF byte.
    InvalidHost,
    /// A header name or value contains a CR or LF byte.
    InvalidHeader,
}

impl HttpError {
    /// What the error is called in diagnostics.
    pub open spec fn message(self) -> Seq<char> {
        match self {
            HttpError::Incomplete => "incomplete HTTP response"@,
            HttpError::MalformedStatusLine => "malformed HTTP status line"@,
            HttpError::MalformedHeader => "malformed HTTP header"@,
            HttpError::InvalidStatusCode => "invalid HTTP status code"@,
            HttpError::TooManyHeaders => "too many response headers"@,
            HttpError::HeaderBlockTooLarge => "header block too large"@,
            HttpError::InvalidContentLength => "invalid Content-Length value"@,
            HttpError::BodyTooLarge => "response body too large"@,
            HttpError::EmptyHost => "empty host in HTTP request"@,
            HttpError::EmptyPath => "empty path in HTTP request"@,
            HttpError::InvalidPath => "path contains CR or LF (CRLF injection)"@,
            HttpError::InvalidHost => "host contains CR or LF (CRLF injection)"@,
            HttpError::InvalidHeader => "header contains CR or LF (CRLF injection)"@,
        }
    }

    /// The diagnostic text of the error.
    pub fn to_string(&self) -> (r: String)
        ensures
            r@ == self.message(),
    {
        match self {
            HttpError::Incomplete => "incomplete HTTP response".to_owned(),
            HttpError::MalformedStatusLine => "malformed HTTP status line".to_owned(),
            HttpError::MalformedHeader => "malformed HTTP header".to_owned(),
            HttpError::InvalidStatusCode => "invalid HTTP status code".to_owned(),
            HttpError::TooManyHeaders => "too many response headers".to_owned(),
            HttpError::HeaderBlockTooLarge => "header block too large".to_owned(),
            HttpError::InvalidContentLength => "invalid Content-Length value".to_owned(),
            HttpError::BodyTooLarge => "response body too large".to_owned(),
            HttpError::EmptyHost => "empty host in HTTP request".to_owned(),
            HttpError::EmptyPath => "empty path in HTTP request".to_owned(),
            HttpError::InvalidPath => "path contains CR or LF (CRLF injection)".to_owned(),
            HttpError::InvalidHost => "host contains CR or LF (CRLF injection)".to_owned(),
            HttpError::InvalidHeader => "header contains CR or LF (CRLF injection)".to_owned(),
        }
    }
}

// ---------------------------------------------------------------------------
// Requests
// ---------------------------------------------------------------------------

/// HTTP request methods.
#[derive(Debug, Clone, Copy, PartialEq, Eq, Structural)]
pub enum HttpMethod {
    /// GET: retrieve a resource.
    Get,
    /// POST: create or submit data.
    Post,
    /// PUT: create or replace a resource.
    Put,
    /// DELETE: remove a resource.
    Delete,
}

impl HttpMethod {
    /// The wire name of the method.
    pub open spec fn name(self) -> Seq<char> {
        match self {
            HttpMethod::Get => "GET"@,
            HttpMethod::Post => "POST"@,
            HttpMethod::Put => "PUT"@,
            HttpMethod::Delete => "DELETE"@,
        }
    }

    /// Return the method as its HTTP wire-format string.
    pub fn as_str(self) -> (r: &'static str)
        ensures
            r@ == self.name(),
    {
        match self {
            HttpMethod::Get => "GET",
            HttpMethod::Post => "POST",
            HttpMethod::Put => "PUT",
            HttpMethod::Delete => "DELETE",
        }
    }

    /// The text of the method.
    pub fn to_string(&self) -> (r: String)
        ensures
            r@ == self.name(),
    {
        self.as_str().to_owned()
    }
}

/// An HTTP/1.1 request, ready to be serialized to wire format.
#[derive(Debug, Clone)]
pub struct HttpRequest {
    /// The HTTP method.
    pub method: HttpMethod,
    /// The request path.
    pub path: String,
    /// The Host header value.
    pub host: String,
    /// Additional headers as (name, value) pairs.
    pub headers: Vec<(String, String)>,
    /// Optional request body.
    pub body: Option<Vec<u8>>,
}

/// The names and values of headers.
pub open spec fn header_texts(hs: Seq<(String, String)>) -> Seq<(Seq<char>, Seq<char>)> {
    Seq::new(hs.len(), |i: int| (hs[i].0@, hs[i].1@))
}

/// What an [`HttpRequest`] stands for.
#[verifier::ext_equal]
pub struct RequestModel {
    pub method: HttpMethod,
    pub path: Seq<char>,
    pub host: Seq<char>,
    pub headers: Seq<(Seq<char>, Seq<char>)>,
    pub body: Option<Seq<u8>>,
}

impl View for HttpRequest {
    type V = RequestModel;

    open spec fn view(&self) -> RequestModel {
        RequestModel {
            method: self.method,
            path: self.path@,
            host: self.host@,
            headers: header_texts(self.headers@),
            body: match self.body {
                Some(b) => Some(b@),
                None => None,
            },
        }
    }
}

/// The line terminator.
pub open spec fn crlf() -> Seq<u8> {
    seq![0x0Du8, 0x0Au8]
}

/// Whether bytes hold a CR or an LF.
pub open spec fn has_line_break(s: Seq<u8>) -> bool {
    exists|i: int| 0 <= i < s.len() && (#[trigger] s[i] == 0x0D || s[i] == 0x0A)
}

/// Whether a header breaks out of its line.
pub open spec fn header_breaks(h: (Seq<char>, Seq<char>)) -> bool {
    has_line_break(encode_utf8(h.0)) || has_line_break(encode_utf8(h.1))
}

/// Whether a header name is that of the body length.
pub open spec fn names_content_length(name: Seq<char>) -> bool {
    lower(encode_utf8(name)) == lower(encode_utf8("content-length"@))
}

/// The line of a header.
pub open spec fn header_bytes(h: (Seq<char>, Seq<char>)) -> Seq<u8> {
    encode_utf8(h.0) + encode_utf8(": "@) + encode_utf8(h.1) + crlf()
}

/// The lines of headers.
pub open spec fn headers_bytes(hs: Seq<(Seq<char>, Seq<char>)>) -> Seq<u8>
    decreases hs.len(),
{
    if hs.len() == 0 {
        Seq::empty()
    } else {
        headers_bytes(hs.drop_last()) + header_bytes(hs.last())
    }
}

impl RequestModel {
    /// The size of the body.
    pub open spec fn body_len(self) -> nat {
        match self.body {
            Some(b) => b.len(),
            None => 0,
        }
    }

    /// Whether the request line and the header that carries the body length
    /// have to be supplied.
    pub open spec fn adds_content_length(self) -> bool {
        self.body_len() > 0 && !exists|i: int|
            0 <= i < self.headers.len() && names_content_length((#[trigger] self.headers[i]).0)
    }

    /// The request line.
    pub open spec fn request_line(self) -> Seq<u8> {
        encode_utf8(self.method.name()) + encode_utf8(" "@) + encode_utf8(self.path)
            + encode_utf8(" HTTP/1.1"@) + crlf()
    }

    /// The line of the host header.
    pub open spec fn host_line(self) -> Seq<u8> {
        encode_utf8("Host: "@) + encode_utf8(self.host) + crlf()
    }

    /// The line of the body length, where the request does not bring its own.
    pub open spec fn length_line(self) -> Seq<u8> {
        if self.adds_content_length() {
            encode_utf8("Content-Length: "@) + decimal(self.body_len()) + crlf()
        } else {
            Seq::empty()
        }
    }

    /// Everything up to the empty line.
    pub open spec fn head(self) -> Seq<u8> {
        self.request_line() + self.host_line() + self.length_line() + headers_bytes(self.headers)
    }

    /// The request on the wire.
    pub open spec fn wire(self) -> Seq<u8> {
        self.head() + crlf() + (match self.body {
            Some(b) => b,
            None => Seq::empty(),
        })
    }

    /// Why the request cannot be put on the wire, where it cannot.
    pub open spec fn fault(self) -> Option<HttpError> {
        if self.host.len() == 0 {
            Some(HttpError::EmptyHost)
        } else if self.path.len() == 0 {
            Some(HttpError::EmptyPath)
        } else if has_line_break(encode_utf8(self.path)) {
            Some(HttpError::InvalidPath)
        } else if has_line_break(encode_utf8(self.host)) {
            Some(HttpError::InvalidHost)
        } else if exists|i: int|
            0 <= i < self.headers.len() && header_breaks(#[trigger] self.headers[i]) {
            Some(HttpError::InvalidHeader)
        } else {
            None
        }
    }
}

/// Return true if `s` contains a bare CR or LF byte.
pub fn contains_crlf(s: &str) -> (r: bool)
    ensures
        r == has_line_break(encode_utf8(s@)),
{
    let b = s.as_bytes();
    let mut i: usize = 0;
    while i < b.len()
        invariant
            i <= b@.len(),
            forall|j: int| 0 <= j < i ==> #[trigger] b@[j] != 0x0D && b@[j] != 0x0A,
            b@ == encode_utf8(s@),
        decreases b@.len() - i,
    {
        if b[i] == 0x0D || b[i] == 0x0A {
            return true;
        }
        i += 1;
    }
    false
}

/// Appends the line terminator.
fn push_crlf(buf: &mut Vec<u8>)
    ensures
        final(buf)@ == old(buf)@ + crlf(),
{
    buf.push(0x0D);
    buf.push(0x0A);
    assert(buf@ =~= old(buf)@ + crlf());
}

/// Appends the bytes of a text.
fn push_text(buf: &mut Vec<u8>, s: &str)
    ensures
        final(buf)@ == old(buf)@ + encode_utf8(s@),
{
    let ghost before = buf@;
    buf.extend_from_slice(s.as_bytes());
    assert(buf@ =~= before + encode_utf8(s@));
}

impl HttpRequest {
    /// Create a new request with the given method, host, and path, without
    /// headers and body.
    pub fn new(method: HttpMethod, host: String, path: String) -> (r: Self)
        ensures
            r@ == (RequestModel {
                method,
                path: path@,
                host: host@,
                headers: Seq::empty(),
                body: None,
            }),
    {
        let r = HttpRequest { method, path, host, headers: Vec::new(), body: None };
        assert(r@.headers =~= Seq::empty());
        r
    }

    /// Add a header to the request.
    pub fn add_header(&mut self, name: String, value: String)
        ensures
            final(self)@ == (RequestModel {
                headers: old(self)@.headers.push((name@, value@)),
                ..old(self)@
            }),
    {
        self.headers.push((name, value));
        assert(self@.headers =~= old(self)@.headers.push((name@, value@)));
    }

    /// Set the request body.
    pub fn set_body(&mut self, body: Vec<u8>)
        ensures
            final(self)@ == (RequestModel { body: Some(body@), ..old(self)@ }),
    {
        self.body = Some(body);
    }

    /// Serialize this request to HTTP/1.1 wire format: request line, host,
    /// body length where the headers do not give it, the headers in order, an
    /// empty line and the body. A field with a line break in it is refused, so
    /// that no field can add a header of its own.
    pub fn build_raw(&self) -> (r: Result<Vec<u8>, HttpError>)
        ensures
            match self@.fault() {
                Some(e) => r == Err::<Vec<u8>, HttpError>(e),
                None => r is Ok && r->Ok_0@ == self@.wire(),
            },
    {
        if self.host.as_str().is_empty() {
            return Err(HttpError::EmptyHost);
        }
        if self.path.as_str().is_empty() {
            return Err(HttpError::EmptyPath);
        }
        if contains_crlf(self.path.as_str()) {
            return Err(HttpError::InvalidPath);
        }
        if contains_crlf(self.host.as_str()) {
            return Err(HttpError::InvalidHost);
        }
        let ghost m = self@;
        let n: usize = self.headers.len();
        let mut has_content_length = false;
        let mut i: usize = 0;
        while i < n
            invariant
                i <= n,
                n == self.headers@.len(),
                m == self@,
                m.headers == header_texts(self.headers@),
                self@.host.len() > 0,
                self@.path.len() > 0,
                !has_line_break(encode_utf8(self@.path)),
                !has_line_break(encode_utf8(self@.host)),
                forall|j: int| 0 <= j < i ==> !header_breaks(#[trigger] m.headers[j]),
                has_content_length == exists|j: int|
                    0 <= j < i && names_content_length((#[trigger] m.headers[j]).0),
            decreases n - i,
        {
            assert(m.headers[i as int] == (self.headers@[i as int].0@, self.headers@[i as int].1@));
            if contains_crlf(self.headers[i].0.as_str()) || contains_crlf(
                self.headers[i].1.as_str(),
            ) {
                return Err(HttpError::InvalidHeader);
            }
            if is_content_length(self.headers[i].0.as_str()) {
                has_content_length = true;
            }
            i += 1;
        }
        let mut buf: Vec<u8> = Vec::new();
        push_text(&mut buf, self.method.as_str());
        push_text(&mut buf, " ");
        push_text(&mut buf, self.path.as_str());
        push_text(&mut buf, " HTTP/1.1");
        push_crlf(&mut buf);
        assert(buf@ =~= m.request_line());
        push_text(&mut buf, "Host: ");
        push_text(&mut buf, self.host.as_str());
        push_crlf(&mut buf);
        assert(buf@ =~= m.request_line() + m.host_line());
        let body_len: usize = match &self.body {
            Some(b) => b.len(),
            None => 0,
        };
        if body_len > 0 && !has_content_length {
            push_text(&mut buf, "Content-Length: ");
            write_usize_to_buf(&mut buf, body_len);
            push_crlf(&mut buf);
        }
        let ghost front = m.request_line() + m.host_line() + m.length_line();
        assert(buf@ =~= front);
        let mut i: usize = 0;
        assert(m.headers.take(0) =~= Seq::empty());
        assert(front + headers_bytes(m.headers.take(0)) =~= front);
        while i < n
            invariant
                i <= n,
                n == self.headers@.len(),
                m == self@,
                m.headers == header_texts(self.headers@),
                buf@ == front + headers_bytes(m.headers.take(i as int)),
            decreases n - i,
        {
            let ghost before = buf@;
            assert(m.headers[i as int] == (self.headers@[i as int].0@, self.headers@[i as int].1@));
            push_text(&mut buf, self.headers[i].0.as_str());
            push_text(&mut buf, ": ");
            push_text(&mut buf, self.headers[i].1.as_str());
            push_crlf(&mut buf);
            proof {
                let longer = m.headers.take(i + 1);
                assert(longer.drop_last() =~= m.headers.take(i as int));
                assert(longer.last() == m.headers[i as int]);
                assert(buf@ =~= before + header_bytes(m.headers[i as int]));
                assert(buf@ =~= front + headers_bytes(longer));
            }
            i += 1;
        }
        assert(m.headers.take(n as int) =~= m.headers);
        push_crlf(&mut buf);
        assert(buf@ =~= m.head() + crlf());
        match &self.body {
            Some(body) => {
                buf.extend_from_slice(body.as_slice());
                assert(buf@ =~= m.wire());
            },
            None => {
                assert(buf@ =~= m.wire());
            },
        }
        Ok(buf)
    }

    /// The request line without its terminator, for diagnostics.
    pub fn to_string(&self) -> (r: String)
        ensures
            r@ == self@.method.name() + " "@ + self@.path + " HTTP/1.1"@,
    {
        let mut out = self.method.as_str().to_owned();
        out.append(" ");
        out.append(self.path.as_str());
        out.append(" HTTP/1.1");
        out
    }
}

/// Whether a header name is that of the body length.
fn is_content_length(name: &str) -> (r: bool)
    ensures
        r == names_content_length(name@),
{
    same_ignoring_case(name.as_bytes(), "content-length".as_bytes())
}

/// Write a usize as ASCII decimal digits into a byte buffer.
pub fn write_usize_to_buf(buf: &mut Vec<u8>, n: usize)
    ensures
        final(buf)@ == old(buf)@ + decimal(n as nat),
{
    let ghost before = buf@;
    let digits = decimal_bytes(n as u64);
    buf.extend_from_slice(digits.as_slice());
    assert(buf@ =~= before + decimal(n as nat));
}

// ---------------------------------------------------------------------------
// Responses
// ---------------------------------------------------------------------------

/// A parsed HTTP/1.1 response.
#[derive(Debug, Clone, PartialEq, Eq)]
pub struct HttpResponse {
    /// The HTTP status code.
    pub status: u16,
    /// Response headers as (name, value) pairs, in wire order.
    pub headers: Vec<(String, String)>,
    /// The response body (may be empty).
    pub body: Vec<u8>,
    /// Bytes of the input that the response took (header block, empty line and
    /// body).
    pub consumed: usize,
}

/// What an [`HttpResponse`] stands for.
#[verifier::ext_equal]
pub struct ResponseModel {
    pub status: int,
    pub headers: Seq<(Seq<char>, Seq<char>)>,
    pub body: Seq<u8>,
    pub consumed: int,
}

impl View for HttpResponse {
    type V = ResponseModel;

    open spec fn view(&self) -> ResponseModel {
        ResponseModel {
            status: self.status as int,
            headers: header_texts(self.headers@),
            body: self.body@,
            consumed: self.consumed as int,
        }
    }
}

/// The empty line that ends the header block.
pub open spec fn blank_line() -> Seq<u8> {
    seq![0x0Du8, 0x0Au8, 0x0Du8, 0x0Au8]
}

/// The bytes of `HTTP/`.
pub open spec fn http_slash() -> Seq<u8> {
    seq![0x48u8, 0x54u8, 0x54u8, 0x50u8, 0x2Fu8]
}

/// The number that three digits stand for.
pub open spec fn three_digits(s: Seq<u8>) -> Option<int> {
    if s.len() == 3 && is_digit(s[0]) && is_digit(s[1]) && is_digit(s[2]) {
        Some((s[0] - 0x30) * 100 + (s[1] - 0x30) * 10 + (s[2] - 0x30))
    } else {
        None
    }
}

/// The status code of a header block and the length of its status line with the
/// line terminator: the three digits behind the first space of a line that
/// starts with `HTTP/`. Without header lines the status line is the whole block.
pub open spec fn status_line(block: Seq<u8>) -> Result<(int, int), HttpError> {
    let e = line_end(block, 0);
    let line = block.take(e);
    let space = first_byte(line, 0x20);
    if line.len() < 12 || !has_word(line, 0, http_slash()) || space is None || space->0 + 4
        > line.len() {
        Err(HttpError::MalformedStatusLine)
    } else {
        match three_digits(line.subrange(space->0 + 1, space->0 + 4)) {
            Some(code) => if 100 <= code <= 599 {
                Ok(
                    (
                        code,
                        if e < block.len() {
                            e + 2
                        } else {
                            e
                        },
                    ),
                )
            } else {
                Err(HttpError::InvalidStatusCode)
            },
            None => Err(HttpError::InvalidStatusCode),
        }
    }
}

/// The name and value of a header line: the texts around its first colon,
/// without the white space around them.
pub open spec fn header_line(line: Seq<u8>) -> Result<(Seq<char>, Seq<char>), HttpError> {
    match first_byte(line, 0x3A) {
        None => Err(HttpError::MalformedHeader),
        Some(c) => if c == 0 || !valid_utf8(line.take(c)) || !valid_utf8(line.skip(c + 1)) {
            Err(HttpError::MalformedHeader)
        } else {
            Ok((trimmed(decode_utf8(line.take(c))), trimmed(decode_utf8(line.skip(c + 1)))))
        },
    }
}

/// The end of the line that starts at a position.
pub open spec fn line_end(d: Seq<u8>, pos: int) -> int {
    match first_word(d, crlf(), pos) {
        Some(e) => e,
        None => d.len() as int,
    }
}

/// The headers from a position on; `n` were read before it. Empty lines are
/// skipped.
pub open spec fn headers_from(d: Seq<u8>, pos: int, n: nat) -> Result<
    Seq<(Seq<char>, Seq<char>)>,
    HttpError,
>
    decreases d.len() - pos,
{
    if pos < 0 || pos >= d.len() {
        Ok(Seq::empty())
    } else if has_word(d, pos, crlf()) {
        headers_from(d, pos + 2, n)
    } else {
        proof {
            lemma_first_word(d, crlf(), pos);
        }
        let e = line_end(d, pos);
        let next = if e + 2 <= d.len() {
            e + 2
        } else {
            d.len() as int
        };
        match header_line(d.subrange(pos, e)) {
            Err(err) => Err(err),
            Ok(h) => if n + 1 > MAX_RESPONSE_HEADERS {
                Err(HttpError::TooManyHeaders)
            } else {
                prepend_headers(seq![h], headers_from(d, next, n + 1))
            },
        }
    }
}

/// Headers with others put in front.
pub open spec fn prepend_headers(
    front: Seq<(Seq<char>, Seq<char>)>,
    r: Result<Seq<(Seq<char>, Seq<char>)>, HttpError>,
) -> Result<Seq<(Seq<char>, Seq<char>)>, HttpError> {
    match r {
        Ok(hs) => Ok(front + hs),
        Err(e) => Err(e),
    }
}

/// The position of the first header whose name is the given one but for case.
pub open spec fn header_index(
    hs: Seq<(Seq<char>, Seq<char>)>,
    name: Seq<char>,
    from: int,
) -> Option<int>
    decreases hs.len() - from,
{
    if !(0 <= from < hs.len()) {
        None
    } else if lower(encode_utf8(hs[from].0)) == lower(encode_utf8(name)) {
        Some(from)
    } else {
        header_index(hs, name, from + 1)
    }
}

/// The value of the first header with a name.
pub open spec fn header_value(hs: Seq<(Seq<char>, Seq<char>)>, name: Seq<char>) -> Option<
    Seq<char>,
> {
    match header_index(hs, name, 0) {
        Some(i) => Some(hs[i].1),
        None => None,
    }
}

/// The length that a header value states.
pub open spec fn length_value(v: Seq<char>) -> Option<nat> {
    match decimal_number(encode_utf8(trimmed(v))) {
        Some(n) => if n <= usize::MAX {
            Some(n)
        } else {
            None
        },
        None => None,
    }
}

/// The body length that headers state, if they do.
pub open spec fn stated_length(hs: Seq<(Seq<char>, Seq<char>)>) -> Result<Option<nat>, HttpError> {
    match header_value(hs, "content-length"@) {
        None => Ok(None),
        Some(v) => match length_value(v) {
            Some(n) => Ok(Some(n)),
            None => Err(HttpError::InvalidContentLength),
        },
    }
}

/// The status, the headers and the stated body length of a header block.
pub open spec fn response_head(block: Seq<u8>) -> Result<
    (int, Seq<(Seq<char>, Seq<char>)>, Option<nat>),
    HttpError,
> {
    match status_line(block) {
        Err(e) => Err(e),
        Ok((status, n)) => match headers_from(block.skip(n), 0, 0) {
            Err(e) => Err(e),
            Ok(headers) => match stated_length(headers) {
                Err(e) => Err(e),
                Ok(length) => Ok((status, headers, length)),
            },
        },
    }
}

/// The response that bytes stand for.
pub open spec fn response(d: Seq<u8>) -> Result<ResponseModel, HttpError> {
    match first_word(d, blank_line(), 0) {
        None => Err(HttpError::Incomplete),
        Some(h) => if h > MAX_HEADER_BLOCK_SIZE {
            Err(HttpError::HeaderBlockTooLarge)
        } else {
            match response_head(d.take(h)) {
                Err(e) => Err(e),
                Ok((status, headers, length)) => {
                    let start = h + 4;
                    match length {
                        Some(n) => if n > MAX_BODY_SIZE {
                            Err(HttpError::BodyTooLarge)
                        } else if start + n > d.len() {
                            Err(HttpError::Incomplete)
                        } else {
                            Ok(
                                ResponseModel {
                                    status,
                                    headers,
                                    body: d.subrange(start, start + n),
                                    consumed: start + n,
                                },
                            )
                        },
                        None => if d.len() - start > MAX_BODY_SIZE {
                            Err(HttpError::BodyTooLarge)
                        } else {
                            Ok(
                                ResponseModel {
                                    status,
                                    headers,
                                    body: d.skip(start),
                                    consumed: d.len() as int,
                                },
                            )
                        },
                    }
                },
            }
        },
    }
}

impl HttpResponse {
    /// Parse a complete HTTP/1.1 response from raw bytes. The body is as long as
    /// Content-Length says, or everything behind the header block where that
    /// header is missing.
    pub fn parse(data: &[u8]) -> (r: Result<Self, HttpError>)
        ensures
            match response(data@) {
                Ok(m) => r is Ok && r->Ok_0@ == m,
                Err(e) => r == Err::<HttpResponse, HttpError>(e),
            },
    {
        let header_end: usize = match find_header_end(data) {
            Some(h) => h,
            None => {
                return Err(HttpError::Incomplete);
            },
        };
        if header_end > MAX_HEADER_BLOCK_SIZE {
            return Err(HttpError::HeaderBlockTooLarge);
        }
        let block = byte_range(data, 0, header_end);
        assert(block@ == data@.take(header_end as int));
        let body_start: usize = header_end + 4;
        let (status, line_len): (u16, usize) = match parse_status_line(block) {
            Ok(p) => p,
            Err(e) => {
                return Err(e);
            },
        };
        let rest = byte_range(block, line_len, block.len());
        assert(rest@ =~= block@.skip(line_len as int));
        let headers = match parse_headers(rest) {
            Ok(h) => h,
            Err(e) => {
                return Err(e);
            },
        };
        let length = match find_content_length(headers.as_slice()) {
            Ok(l) => l,
            Err(e) => {
                return Err(e);
            },
        };
        let body = match length {
            Some(len) => {
                if len > MAX_BODY_SIZE {
                    return Err(HttpError::BodyTooLarge);
                }
                if data.len() - body_start < len {
                    return Err(HttpError::Incomplete);
                }
                copy_bytes(byte_range(data, body_start, body_start + len))
            },
            None => {
                if data.len() - body_start > MAX_BODY_SIZE {
                    return Err(HttpError::BodyTooLarge);
                }
                let remaining = byte_range(data, body_start, data.len());
                assert(remaining@ =~= data@.skip(body_start as int));
                copy_bytes(remaining)
            },
        };
        let consumed: usize = body_start + body.len();
        Ok(HttpResponse { status, headers, body, consumed })
    }

    /// Return the value of the first header matching `name` but for case.
    pub fn header(&self, name: &str) -> (r: Option<&str>)
        ensures
            match header_value(self@.headers, name@) {
                Some(v) => r is Some && r->0@ == v,
                None => r is None,
            },
    {
        let ghost hs = self@.headers;
        let mut i: usize = 0;
        while i < self.headers.len()
            invariant
                i <= self.headers@.len(),
                hs == header_texts(self.headers@),
                hs == self@.headers,
                header_index(hs, name@, 0) == header_index(hs, name@, i as int),
            decreases self.headers@.len() - i,
        {
            if same_ignoring_case(self.headers[i].0.as_str().as_bytes(), name.as_bytes()) {
                return Some(self.headers[i].1.as_str());
            }
            i += 1;
        }
        None
    }

    /// Return the Content-Length value, if present and valid.
    pub fn content_length(&self) -> (r: Option<usize>)
        ensures
            match header_value(self@.headers, "content-length"@) {
                None => r is None,
                Some(v) => match length_value(v) {
                    Some(n) => r is Some && r->0 == n,
                    None => r is None,
                },
            },
    {
        match self.header("content-length") {
            Some(v) => read_length(v),
            None => None,
        }
    }

    /// Return true if the response indicates success (2xx status).
    pub fn is_success(&self) -> (r: bool)
        ensures
            r == (200 <= self@.status < 300),
    {
        200 <= self.status && self.status < 300
    }

    /// Return the body as a UTF-8 string, if valid.
    pub fn body_as_str(&self) -> (r: Option<&str>)
        ensures
            match r {
                Some(s) => valid_utf8(self@.body) && encode_utf8(s@) == self@.body,
                None => !valid_utf8(self@.body),
            },
    {
        utf8_text(self.body.as_slice())
    }

    /// Total bytes consumed by this response (headers + body).
    pub fn total_bytes(&self) -> (r: usize)
        ensures
            r == self@.consumed,
    {
        self.consumed
    }

    /// The status and the body size, for diagnostics.
    pub fn to_string(&self) -> (r: String)
        ensures
            r@ == "HTTP "@ + ascii(decimal(self@.status as nat)) + " ("@ + ascii(
                decimal(self@.body.len()),
            ) + " bytes body)"@,
    {
        let mut out = "HTTP ".to_owned();
        push_decimal(&mut out, self.status as u64);
        out.append(" (");
        push_decimal(&mut out, self.body.len() as u64);
        out.append(" bytes body)");
        out
    }
}

/// Reads the length that a header value states.
fn read_length(v: &str) -> (r: Option<usize>)
    ensures
        match length_value(v@) {
            Some(n) => r is Some && r->0 == n,
            None => r is None,
        },
{
    match read_decimal(trim(v).as_bytes(), usize::MAX as u64) {
        Some(n) => Some(n as usize),
        None => None,
    }
}

/// Find the position of the empty line that ends the header block.
pub fn find_header_end(data: &[u8]) -> (r: Option<usize>)
    ensures
        match first_word(data@, blank_line(), 0) {
            Some(p) => r is Some && r->0 == p,
            None => r is None,
        },
        r matches Some(p) ==> p + 4 <= data@.len(),
{
    let word: [u8; 4] = [0x0D, 0x0A, 0x0D, 0x0A];
    assert(word@ =~= blank_line());
    find_word(data, word.as_slice(), 0)
}

/// Find the first line terminator from a position on.
fn find_crlf_from(data: &[u8], from: usize) -> (r: Option<usize>)
    requires
        from <= data@.len(),
    ensures
        match first_word(data@, crlf(), from as int) {
            Some(p) => r is Some && r->0 == p,
            None => r is None,
        },
        r matches Some(p) ==> from <= p && p + 2 <= data@.len(),
{
    let word: [u8; 2] = [0x0D, 0x0A];
    assert(word@ =~= crlf());
    find_word(data, word.as_slice(), from)
}

/// Find the first line terminator.
pub fn find_crlf(data: &[u8]) -> (r: Option<usize>)
    ensures
        match first_word(data@, crlf(), 0) {
            Some(p) => r is Some && r->0 == p,
            None => r is None,
        },
        r matches Some(p) ==> p + 2 <= data@.len(),
{
    find_crlf_from(data, 0)
}

/// Parse the HTTP status line: the status code and the bytes that the line takes
/// with its terminator.
pub fn parse_status_line(header_block: &[u8]) -> (r: Result<(u16, usize), HttpError>)
    ensures
        match status_line(header_block@) {
            Ok((code, n)) => r is Ok && r->Ok_0.0 == code && r->Ok_0.1 == n,
            Err(e) => r == Err::<(u16, usize), HttpError>(e),
        },
        r matches Ok((c, n)) ==> n <= header_block@.len(),
{
    assert(header_block@.len() == header_block.len());
    let (end, next): (usize, usize) = match find_crlf(header_block) {
        Some(e) => (e, e + 2),
        None => (header_block.len(), header_block.len()),
    };
    let line = byte_range(header_block, 0, end);
    assert(line@ == header_block@.take(end as int));
    if line.len() < 12 {
        return Err(HttpError::MalformedStatusLine);
    }
    let slash: [u8; 5] = [0x48, 0x54, 0x54, 0x50, 0x2F];
    assert(slash@ =~= http_slash());
    if !same_bytes(byte_range(line, 0, 5), slash.as_slice()) {
        return Err(HttpError::MalformedStatusLine);
    }
    let space: usize = match memchr_byte(0x20, line) {
        Some(p) => p,
        None => {
            return Err(HttpError::MalformedStatusLine);
        },
    };
    if line.len() - space < 4 {
        return Err(HttpError::MalformedStatusLine);
    }
    match parse_u16_from_ascii(byte_range(line, space + 1, space + 4)) {
        None => Err(HttpError::InvalidStatusCode),
        Some(status) => {
            if status < 100 || status > 599 {
                Err(HttpError::InvalidStatusCode)
            } else {
                Ok((status, next))
            }
        },
    }
}

/// Parse header lines, each `Name: Value` with its line terminator (the last may
/// lack it).
pub fn parse_headers(data: &[u8]) -> (r: Result<Vec<(String, String)>, HttpError>)
    ensures
        match headers_from(data@, 0, 0) {
            Ok(hs) => r is Ok && header_texts(r->Ok_0@) == hs,
            Err(e) => r == Err::<Vec<(String, String)>, HttpError>(e),
        },
{
    let ghost d = data@;
    let mut headers: Vec<(String, String)> = Vec::new();
    let mut pos: usize = 0;
    proof {
        assert(header_texts(headers@) =~= Seq::empty());
        if let Ok(hs) = headers_from(d, 0, 0) {
            assert(Seq::<(Seq<char>, Seq<char>)>::empty() + hs =~= hs);
        }
    }
    while pos < data.len()
        invariant
            pos <= data@.len(),
            d == data@,
            headers@.len() <= MAX_RESPONSE_HEADERS,
            headers_from(d, 0, 0) == prepend_headers(
                header_texts(headers@),
                headers_from(d, pos as int, headers@.len()),
            ),
        decreases data@.len() - pos,
    {
        let ghost at = pos as int;
        let ghost before = headers@;
        proof {
            lemma_first_word(d, crlf(), at);
        }
        let end: usize = match find_crlf_from(data, pos) {
            Some(e) => e,
            None => data.len(),
        };
        if end == pos {
            assert(has_word(d, at, crlf()));
            pos += 2;
            continue;
        }
        assert(!has_word(d, at, crlf()));
        let h = match parse_header_line(byte_range(data, pos, end)) {
            Ok(h) => h,
            Err(e) => {
                return Err(e);
            },
        };
        let ghost entry = (h.0@, h.1@);
        headers.push(h);
        if headers.len() > MAX_RESPONSE_HEADERS {
            return Err(HttpError::TooManyHeaders);
        }
        pos = if data.len() - end >= 2 {
            end + 2
        } else {
            data.len()
        };
        proof {
            assert(header_texts(headers@) =~= header_texts(before).push(entry));
            if let Ok(hs) = headers_from(d, pos as int, headers@.len()) {
                assert(header_texts(before) + (seq![entry] + hs) =~= header_texts(headers@) + hs);
            }
        }
    }
    proof {
        assert(header_texts(headers@) + Seq::empty() =~= header_texts(headers@));
    }
    Ok(headers)
}

/// Parse one header line.
fn parse_header_line(line: &[u8]) -> (r: Result<(String, String), HttpError>)
    ensures
        match header_line(line@) {
            Ok(h) => r is Ok && (r->Ok_0.0@, r->Ok_0.1@) == h,
            Err(e) => r == Err::<(String, String), HttpError>(e),
        },
{
    assert(line@.len() == line.len());
    let colon: usize = match memchr_byte(0x3A, line) {
        Some(c) => c,
        None => {
            return Err(HttpError::MalformedHeader);
        },
    };
    if colon == 0 {
        return Err(HttpError::MalformedHeader);
    }
    let name_bytes = byte_range(line, 0, colon);
    let value_bytes = byte_range(line, colon + 1, line.len());
    proof {
        assert(name_bytes@ =~= line@.take(colon as int));
        assert(value_bytes@ =~= line@.skip(colon + 1));
    }
    let name = match utf8_text(name_bytes) {
        Some(s) => s,
        None => {
            return Err(HttpError::MalformedHeader);
        },
    };
    let value = match utf8_text(value_bytes) {
        Some(s) => s,
        None => {
            return Err(HttpError::MalformedHeader);
        },
    };
    proof {
        encode_utf8_decode_utf8(name@);
        encode_utf8_decode_utf8(value@);
    }
    Ok((trim(name).to_owned(), trim(value).to_owned()))
}

/// Find the Content-Length value from parsed headers; a value that is no number
/// is an error.
pub fn find_content_length(headers: &[(String, String)]) -> (r: Result<Option<usize>, HttpError>)
    ensures
        match stated_length(header_texts(headers@)) {
            Ok(Some(n)) => r is Ok && r->Ok_0 is Some && r->Ok_0->0 == n,
            Ok(None) => r == Ok::<Option<usize>, HttpError>(None),
            Err(e) => r == Err::<Option<usize>, HttpError>(e),
        },
{
    let ghost hs = header_texts(headers@);
    let mut i: usize = 0;
    while i < headers.len()
        invariant
            i <= headers@.len(),
            hs == header_texts(headers@),
            header_index(hs, "content-length"@, 0) == header_index(
                hs,
                "content-length"@,
                i as int,
            ),
        decreases headers@.len() - i,
    {
        if is_content_length(headers[i].0.as_str()) {
            return match read_length(headers[i].1.as_str()) {
                Some(n) => Ok(Some(n)),
                None => Err(HttpError::InvalidContentLength),
            };
        }
        i += 1;
    }
    Ok(None)
}

/// Find the first occurrence of `needle` in `haystack`.
pub fn memchr_byte(needle: u8, haystack: &[u8]) -> (r: Option<usize>)
    ensures
        match first_byte(haystack@, needle) {
            Some(p) => r is Some && r->0 == p,
            None => r is None,
        },
        r matches Some(p) ==> p < haystack@.len() && haystack@[p as int] == needle,
{
    find_byte(haystack, needle)
}

/// Parse a 3-digit ASCII number into a u16.
pub fn parse_u16_from_ascii(bytes: &[u8]) -> (r: Option<u16>)
    ensures
        match three_digits(bytes@) {
            Some(n) => r is Some && r->0 == n,
            None => r is None,
        },
{
    if bytes.len() != 3 {
        return None;
    }
    let h = match digit_value(bytes[0]) {
        Some(v) => v,
        None => {
            return None;
        },
    };
    let t = match digit_value(bytes[1]) {
        Some(v) => v,
        None => {
            return None;
        },
    };
    let o = match digit_value(bytes[2]) {
        Some(v) => v,
        None => {
            return None;
        },
    };
    Some(h * 100 + t * 10 + o)
}

/// Convert an ASCII digit byte to its numeric value.
pub fn digit_value(b: u8) -> (r: Option<u16>)
    ensures
        r == (if is_digit(b) {
            Some((b - 0x30) as u16)
        } else {
            None::<u16>
        }),
{
    if 0x30 <= b && b <= 0x39 {
        Some((b - 0x30) as u16)
    } else {
        None
    }
}

// ---------------------------------------------------------------------------
// Convenience constructors
// ---------------------------------------------------------------------------

/// A request as its constructors leave it.
pub open spec fn plain_request(method: HttpMethod, host: Seq<char>, path: Seq<char>) -> RequestModel {
    RequestModel { method, path, host, headers: Seq::empty(), body: None }
}

/// A request with a JSON body.
pub open spec fn json_request(
    method: HttpMethod,
    host: Seq<char>,
    path: Seq<char>,
    body: Seq<u8>,
) -> RequestModel {
    RequestModel {
        method,
        path,
        host,
        headers: seq![("Content-Type"@, "application/json"@)],
        body: Some(body),
    }
}

/// Build a GET request for the given host and path.
pub fn get(host: &str, path: &str) -> (r: HttpRequest)
    ensures
        r@ == plain_request(HttpMethod::Get, host@, path@),
{
    HttpRequest::new(HttpMethod::Get, host.to_owned(), path.to_owned())
}

/// A request with a JSON body and its content type.
fn with_json(method: HttpMethod, host: &str, path: &str, body: &[u8]) -> (r: HttpRequest)
    ensures
        r@ == json_request(method, host@, path@, body@),
{
    let mut req = HttpRequest::new(method, host.to_owned(), path.to_owned());
    req.add_header("Content-Type".to_owned(), "application/json".to_owned());
    req.set_body(copy_bytes(body));
    assert(req@.headers =~= seq![("Content-Type"@, "application/json"@)]);
    req
}

/// Build a POST request with a JSON body.
pub fn post_json(host: &str, path: &str, body: &[u8]) -> (r: HttpRequest)
    ensures
        r@ == json_request(HttpMethod::Post, host@, path@, body@),
{
    with_json(HttpMethod::Post, host, path, body)
}

/// Build a PUT request with a JSON body.
pub fn put_json(host: &str, path: &str, body: &[u8]) -> (r: HttpRequest)
    ensures
        r@ == json_request(HttpMethod::Put, host@, path@, body@),
{
    with_json(HttpMethod::Put, host, path, body)
}

/// Build a DELETE request for the given host and path.
pub fn delete(host: &str, path: &str) -> (r: HttpRequest)
    ensures
        r@ == plain_request(HttpMethod::Delete, host@, path@),
{
    HttpRequest::new(HttpMethod::Delete, host.to_owned(), path.to_owned())
}

/// The header that carries an access token.
pub open spec fn auth_header(token: Seq<char>) -> (Seq<char>, Seq<char>) {
    ("Authorization"@, "Bearer "@ + token)
}

/// Add a Bearer token Authorization header to a request.
pub fn with_auth(req: &mut HttpRequest, token: &str)
    ensures
        final(req)@ == (RequestModel {
            headers: old(req)@.headers.push(auth_header(token@)),
            ..old(req)@
        }),
{
    let mut value = "Bearer ".to_owned();
    value.append(token);
    req.add_header("Authorization".to_owned(), value);
}

} // verus!
