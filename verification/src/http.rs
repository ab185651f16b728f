//! HTTP protocol: requests and responses, their wire format, and the two directions
//! between them (`from_bytes` reads a message, `as_bytes` writes one).
//!
//! A message on the wire is a start line, the header fields one per line, an empty line
//! and the body, which runs to the end of the bytes:
//!
//! ```text
//! request:  METHOD SP target SP HTTP/major.minor CRLF (name ":" OWS value OWS CRLF)* CRLF body
//! response: HTTP/major.minor SP code SP reason CRLF (name ":" OWS value OWS CRLF)* CRLF body
//! ```
//!
//! Version numbers and the status code are canonical decimal numerals of a `u16`. The
//! target is visible ASCII; names are visible ASCII without `:`. Values and the reason
//! phrase are UTF-8 text: visible ASCII, spaces, horizontal tabs and bytes above ASCII.
//! Spaces and tabs around a value are not part of it. The header keeps each name once: a
//! later field with a name that is already present replaces its value, as a map would.
use vstd::prelude::*;
use vstd::slice::slice_to_vec;
use vstd::utf8::{decode_utf8, encode_utf8, encode_utf8_decode_utf8, valid_utf8};
use crate::decimal::{decimal_digits, parse_u16, push_decimal};
use crate::header::{names_distinct, HttpHeader};
use crate::laws::{lemma_parsed_request_wf, lemma_parsed_response_wf};
use crate::reader::{method_name, read_header_block, read_request_line, read_status_line};
use crate::writer::{push_crlf, push_header, push_version};
use crate::wire::{
    crlf, find_byte, find_crlf, find_crlf_from, http_prefix, is_target, is_text, is_token,
    is_ows_byte, lemma_find_crlf_bounds, push_bytes, push_str_bytes, skip_ows, trim_ows_end, COLON,
    DOT, SP,
};

verus! {

/// Why bytes are not an HTTP message.
#[derive(Debug, Clone, Copy, PartialEq, Eq, Structural)]
pub enum HttpError {
    /// A line of the start line or the header section has no `\r\n` after it.
    Incomplete,
    /// The start line is not a request line (or status line).
    InvalidStartLine,
    /// A header line is not `name: value`.
    InvalidHeader,
}

// ----- request -----

/// A request, either as raw text or as a parsed message.
#[derive(Debug)]
pub enum Request {
    Raw(String),
    Parsed(HttpRequest),
}

/// HTTP request
#[derive(Debug)]
pub struct HttpRequest {
    /// request line
    pub req_line: HttpRequestLine,
    /// request header
    pub header: HttpHeader,
    /// request body
    pub body: Vec<u8>,
}

/// HTTP request line
#[derive(Debug)]
pub struct HttpRequestLine {
    /// request function
    pub func: HttpRequestFunction,
    /// request url
    pub url: String,
    /// http version
    pub version: (u16, u16),
}

/// Request method.
#[derive(Debug, Clone, Copy, PartialEq, Eq, Structural)]
pub enum HttpRequestFunction {
    GET,
    POST,
    PUT,
    HEAD,
    DELETE,
    TRACE,
    CONNECT,
    OPTIONS,
}

// ----- response -----

/// A response, either as raw text or as a parsed message.
pub enum Response {
    Raw(String),
    Parsed(HttpResponse),
}

/// HTTP response
pub struct HttpResponse {
    pub status_line: HttpResponseStatusLine,
    pub headers: HttpHeader,
    pub body: Vec<u8>,
}

/// HTTP status line
pub struct HttpResponseStatusLine {
    pub verson: (u16, u16),
    pub code: u16,
    pub msg: String,
}

// ----- models -----

/// What a request is: its parts as characters and bytes.
pub struct RequestModel {
    pub func: HttpRequestFunction,
    pub url: Seq<char>,
    pub version: (u16, u16),
    pub header: Seq<(Seq<char>, Seq<char>)>,
    pub body: Seq<u8>,
}

/// What a response is: its parts as characters and bytes.
pub struct ResponseModel {
    pub version: (u16, u16),
    pub code: u16,
    pub msg: Seq<char>,
    pub headers: Seq<(Seq<char>, Seq<char>)>,
    pub body: Seq<u8>,
}

/// The header fields as pairs of character sequences.
pub open spec fn header_view(h: Seq<(String, String)>) -> Seq<(Seq<char>, Seq<char>)> {
    h.map_values(|p: (String, String)| (p.0@, p.1@))
}

impl View for HttpRequest {
    type V = RequestModel;

    open spec fn view(&self) -> RequestModel {
        RequestModel {
            func: self.req_line.func,
            url: self.req_line.url@,
            version: self.req_line.version,
            header: self.header@,
            body: self.body@,
        }
    }
}

impl View for HttpResponse {
    type V = ResponseModel;

    open spec fn view(&self) -> ResponseModel {
        ResponseModel {
            version: self.status_line.verson,
            code: self.status_line.code,
            msg: self.status_line.msg@,
            headers: self.headers@,
            body: self.body@,
        }
    }
}

// ----- header as a map -----

/// The first position at or after `i` of a field named `n`.
pub open spec fn find_name(h: Seq<(Seq<char>, Seq<char>)>, n: Seq<char>, i: int) -> Option<int>
    decreases h.len() - i,
{
    if i < 0 || i >= h.len() {
        None
    } else if h[i].0 == n {
        Some(i)
    } else {
        find_name(h, n, i + 1)
    }
}

/// The header after setting field `n` to `v`: the value is replaced where the name is
/// present, and the field is appended where it is not.
pub open spec fn header_insert(
    h: Seq<(Seq<char>, Seq<char>)>,
    n: Seq<char>,
    v: Seq<char>,
) -> Seq<(Seq<char>, Seq<char>)> {
    match find_name(h, n, 0) {
        Some(i) => h.update(i, (n, v)),
        None => h.push((n, v)),
    }
}

/// A field that can be written as one header line and read back: a token name and a text
/// value that neither starts nor ends with whitespace.
pub open spec fn wf_field(f: (Seq<char>, Seq<char>)) -> bool {
    &&& is_token(encode_utf8(f.0))
    &&& is_text(encode_utf8(f.1))
    &&& (encode_utf8(f.1).len() > 0 ==> !is_ows_byte(encode_utf8(f.1)[0]) && !is_ows_byte(
        encode_utf8(f.1).last(),
    ))
}

/// Well-formed header fields, with no name twice.
pub open spec fn wf_header(h: Seq<(Seq<char>, Seq<char>)>) -> bool {
    &&& forall|i: int| 0 <= i < h.len() ==> #[trigger] wf_field(h[i])
    &&& names_distinct(h)
}

/// A request that its wire format describes exactly.
pub open spec fn wf_request(m: RequestModel) -> bool {
    is_target(encode_utf8(m.url)) && wf_header(m.header)
}

/// A response that its wire format describes exactly.
pub open spec fn wf_response(m: ResponseModel) -> bool {
    is_text(encode_utf8(m.msg)) && wf_header(m.headers)
}

// ----- wire format: writing -----

/// The name of a method on the wire.
pub open spec fn method_bytes(f: HttpRequestFunction) -> Seq<u8> {
    match f {
        HttpRequestFunction::GET => seq![71u8, 69u8, 84u8],
        HttpRequestFunction::POST => seq![80u8, 79u8, 83u8, 84u8],
        HttpRequestFunction::PUT => seq![80u8, 85u8, 84u8],
        HttpRequestFunction::HEAD => seq![72u8, 69u8, 65u8, 68u8],
        HttpRequestFunction::DELETE => seq![68u8, 69u8, 76u8, 69u8, 84u8, 69u8],
        HttpRequestFunction::TRACE => seq![84u8, 82u8, 65u8, 67u8, 69u8],
        HttpRequestFunction::CONNECT => seq![67u8, 79u8, 78u8, 78u8, 69u8, 67u8, 84u8],
        HttpRequestFunction::OPTIONS => seq![79u8, 80u8, 84u8, 73u8, 79u8, 78u8, 83u8],
    }
}

/// `HTTP/major.minor`
pub open spec fn version_bytes(v: (u16, u16)) -> Seq<u8> {
    http_prefix() + decimal_digits(v.0 as nat) + seq![DOT] + decimal_digits(v.1 as nat)
}

/// `name: value\r\n`
pub open spec fn field_bytes(f: (Seq<char>, Seq<char>)) -> Seq<u8> {
    encode_utf8(f.0) + seq![COLON, SP] + encode_utf8(f.1) + crlf()
}

/// The header lines, in order.
pub open spec fn header_bytes(h: Seq<(Seq<char>, Seq<char>)>) -> Seq<u8>
    decreases h.len(),
{
    if h.len() == 0 {
        Seq::<u8>::empty()
    } else {
        field_bytes(h[0]) + header_bytes(h.drop_first())
    }
}

/// The bytes of a request.
pub open spec fn request_bytes(m: RequestModel) -> Seq<u8> {
    method_bytes(m.func) + seq![SP] + encode_utf8(m.url) + seq![SP] + version_bytes(m.version)
        + crlf() + header_bytes(m.header) + crlf() + m.body
}

/// The bytes of a response.
pub open spec fn response_bytes(m: ResponseModel) -> Seq<u8> {
    version_bytes(m.version) + seq![SP] + decimal_digits(m.code as nat) + seq![SP] + encode_utf8(
        m.msg,
    ) + crlf() + header_bytes(m.headers) + crlf() + m.body
}

// ----- wire format: reading -----

/// The method that a name denotes.
pub open spec fn parse_method(l: Seq<u8>) -> Option<HttpRequestFunction> {
    if l == method_bytes(HttpRequestFunction::GET) {
        Some(HttpRequestFunction::GET)
    } else if l == method_bytes(HttpRequestFunction::POST) {
        Some(HttpRequestFunction::POST)
    } else if l == method_bytes(HttpRequestFunction::PUT) {
        Some(HttpRequestFunction::PUT)
    } else if l == method_bytes(HttpRequestFunction::HEAD) {
        Some(HttpRequestFunction::HEAD)
    } else if l == method_bytes(HttpRequestFunction::DELETE) {
        Some(HttpRequestFunction::DELETE)
    } else if l == method_bytes(HttpRequestFunction::TRACE) {
        Some(HttpRequestFunction::TRACE)
    } else if l == method_bytes(HttpRequestFunction::CONNECT) {
        Some(HttpRequestFunction::CONNECT)
    } else if l == method_bytes(HttpRequestFunction::OPTIONS) {
        Some(HttpRequestFunction::OPTIONS)
    } else {
        None
    }
}

/// The version that `HTTP/major.minor` denotes.
pub open spec fn parse_version(l: Seq<u8>) -> Option<(u16, u16)> {
    if l.len() >= 5 && l.take(5) == http_prefix() {
        match find_byte(l, DOT, 5) {
            Some(d) => match (parse_u16(l.subrange(5, d)), parse_u16(l.subrange(d + 1, l.len() as int))) {
                (Some(a), Some(b)) => Some((a, b)),
                _ => None,
            },
            None => None,
        }
    } else {
        None
    }
}

/// A request line: method, the bytes of the target, and version.
pub open spec fn parse_request_line(l: Seq<u8>) -> Option<(HttpRequestFunction, Seq<u8>, (u16, u16))> {
    match find_byte(l, SP, 0) {
        None => None,
        Some(i) => match parse_method(l.take(i)) {
            None => None,
            Some(f) => match find_byte(l, SP, i + 1) {
                None => None,
                Some(j) => {
                    let target = l.subrange(i + 1, j);
                    if is_target(target) {
                        match parse_version(l.subrange(j + 1, l.len() as int)) {
                            Some(v) => Some((f, target, v)),
                            None => None,
                        }
                    } else {
                        None
                    }
                },
            },
        },
    }
}

/// A status line: version, code, and the bytes of the reason phrase.
pub open spec fn parse_status_line(l: Seq<u8>) -> Option<((u16, u16), u16, Seq<u8>)> {
    match find_byte(l, SP, 0) {
        None => None,
        Some(i) => match parse_version(l.take(i)) {
            None => None,
            Some(v) => match find_byte(l, SP, i + 1) {
                None => None,
                Some(j) => match parse_u16(l.subrange(i + 1, j)) {
                    None => None,
                    Some(c) => {
                        let reason = l.subrange(j + 1, l.len() as int);
                        if is_text(reason) && valid_utf8(reason) {
                            Some((v, c, reason))
                        } else {
                            None
                        }
                    },
                },
            },
        },
    }
}

/// A header line: the bytes of the name and of the value, the whitespace around the value
/// left out.
pub open spec fn parse_field(l: Seq<u8>) -> Option<(Seq<u8>, Seq<u8>)> {
    match find_byte(l, COLON, 0) {
        None => None,
        Some(c) => {
            let name = l.take(c);
            let start = skip_ows(l, c + 1);
            let value = l.subrange(start, trim_ows_end(l, start, l.len() as int));
            if is_token(name) && is_text(value) && valid_utf8(value) {
                Some((name, value))
            } else {
                None
            }
        },
    }
}

/// Reads the header lines of `s` from `pos` on, into `acc`, up to and including the empty
/// line; gives the header and where the body starts.
pub open spec fn parse_header_block(
    s: Seq<u8>,
    pos: int,
    acc: Seq<(Seq<char>, Seq<char>)>,
) -> Result<(Seq<(Seq<char>, Seq<char>)>, int), HttpError>
    decreases s.len() - pos,
{
    match find_crlf(s, pos) {
        None => Err(HttpError::Incomplete),
        Some(k) => {
            proof {
                lemma_find_crlf_bounds(s, pos);
            }
            if k == pos {
                Ok((acc, k + 2))
            } else {
                match parse_field(s.subrange(pos, k)) {
                    None => Err(HttpError::InvalidHeader),
                    Some((n, v)) => parse_header_block(
                        s,
                        k + 2,
                        header_insert(acc, decode_utf8(n), decode_utf8(v)),
                    ),
                }
            }
        },
    }
}

/// The request that `s` holds, or why it holds none.
pub open spec fn parse_request(s: Seq<u8>) -> Result<RequestModel, HttpError> {
    match find_crlf(s, 0) {
        None => Err(HttpError::Incomplete),
        Some(k) => match parse_request_line(s.take(k)) {
            None => Err(HttpError::InvalidStartLine),
            Some((f, target, v)) => match parse_header_block(s, k + 2, Seq::empty()) {
                Err(e) => Err(e),
                Ok((h, b)) => Ok(
                    RequestModel {
                        func: f,
                        url: decode_utf8(target),
                        version: v,
                        header: h,
                        body: s.subrange(b, s.len() as int),
                    },
                ),
            },
        },
    }
}

/// The response that `s` holds, or why it holds none.
pub open spec fn parse_response(s: Seq<u8>) -> Result<ResponseModel, HttpError> {
    match find_crlf(s, 0) {
        None => Err(HttpError::Incomplete),
        Some(k) => match parse_status_line(s.take(k)) {
            None => Err(HttpError::InvalidStartLine),
            Some((v, c, reason)) => match parse_header_block(s, k + 2, Seq::empty()) {
                Err(e) => Err(e),
                Ok((h, b)) => Ok(
                    ResponseModel {
                        version: v,
                        code: c,
                        msg: decode_utf8(reason),
                        headers: h,
                        body: s.subrange(b, s.len() as int),
                    },
                ),
            },
        },
    }
}

/// The request that a default `HttpRequest` holds: `GET`, empty target, version 0.0, no
/// header, no body.
pub open spec fn default_request() -> RequestModel {
    RequestModel {
        func: HttpRequestFunction::GET,
        url: Seq::empty(),
        version: (0, 0),
        header: Seq::empty(),
        body: Seq::empty(),
    }
}

/// The response that a default `HttpResponse` holds: `HTTP/1.1 500 Internal Server Error`,
/// no header, no body.
pub open spec fn default_response() -> ResponseModel {
    ResponseModel {
        version: (1, 1),
        code: 500,
        msg: "Internal Server Error"@,
        headers: Seq::empty(),
        body: Seq::empty(),
    }
}

impl HttpRequest {
    /// Reads a request from its bytes.
    pub fn from_bytes(bytes: &[u8]) -> (r: Result<Self, HttpError>)
        ensures
            parse_request(bytes@) == match r {
                Ok(q) => Ok::<RequestModel, HttpError>(q@),
                Err(e) => Err(e),
            },
            r matches Ok(q) ==> wf_request(q@),
    {
        let len = bytes.len();
        let k = match find_crlf_from(bytes, 0) {
            None => return Err(HttpError::Incomplete),
            Some(k) => k,
        };
        let line = &bytes[0..k];
        assert(line@ =~= bytes@.take(k as int));
        let (func, url, version) = match read_request_line(line) {
            None => return Err(HttpError::InvalidStartLine),
            Some(t) => t,
        };
        let (header, b) = match read_header_block(bytes, k + 2) {
            Err(e) => return Err(e),
            Ok(t) => t,
        };
        let body = slice_to_vec(&bytes[b..len]);
        proof {
            encode_utf8_decode_utf8(url@);
        }
        let req = HttpRequest { req_line: HttpRequestLine { func, url, version }, header, body };
        assert(req@.body =~= bytes@.subrange(b as int, bytes@.len() as int));
        proof {
            lemma_parsed_request_wf(bytes@);
        }
        Ok(req)
    }

    /// The bytes of this request.
    pub fn as_bytes(&self) -> (r: Vec<u8>)
        ensures
            r@ == request_bytes(self@),
    {
        let mut out = method_name(self.req_line.func);
        out.push(SP);
        push_str_bytes(&mut out, &self.req_line.url);
        out.push(SP);
        push_version(&mut out, self.req_line.version);
        push_crlf(&mut out);
        push_header(&mut out, &self.header);
        push_crlf(&mut out);
        push_bytes(&mut out, self.body.as_slice());
        assert(out@ =~= request_bytes(self@));
        out
    }
}

impl HttpResponse {
    /// The bytes of this response.
    pub fn as_bytes(&self) -> (r: Vec<u8>)
        ensures
            r@ == response_bytes(self@),
    {
        let mut out: Vec<u8> = Vec::new();
        push_version(&mut out, self.status_line.verson);
        out.push(SP);
        push_decimal(&mut out, self.status_line.code);
        out.push(SP);
        push_str_bytes(&mut out, &self.status_line.msg);
        push_crlf(&mut out);
        push_header(&mut out, &self.headers);
        push_crlf(&mut out);
        push_bytes(&mut out, self.body.as_slice());
        assert(out@ =~= response_bytes(self@));
        out
    }

    /// Reads a response from its bytes.
    pub fn from_bytes(bytes: &[u8]) -> (r: Result<Self, HttpError>)
        ensures
            parse_response(bytes@) == match r {
                Ok(q) => Ok::<ResponseModel, HttpError>(q@),
                Err(e) => Err(e),
            },
            r matches Ok(q) ==> wf_response(q@),
    {
        let len = bytes.len();
        let k = match find_crlf_from(bytes, 0) {
            None => return Err(HttpError::Incomplete),
            Some(k) => k,
        };
        let line = &bytes[0..k];
        assert(line@ =~= bytes@.take(k as int));
        let (verson, code, msg) = match read_status_line(line) {
            None => return Err(HttpError::InvalidStartLine),
            Some(t) => t,
        };
        let (headers, b) = match read_header_block(bytes, k + 2) {
            Err(e) => return Err(e),
            Ok(t) => t,
        };
        let body = slice_to_vec(&bytes[b..len]);
        proof {
            encode_utf8_decode_utf8(msg@);
        }
        let resp = HttpResponse { status_line: HttpResponseStatusLine { verson, code, msg }, headers, body };
        assert(resp@.body =~= bytes@.subrange(b as int, bytes@.len() as int));
        proof {
            lemma_parsed_response_wf(bytes@);
        }
        Ok(resp)
    }
}

impl Request {
    /// The bytes of this request: the UTF-8 encoding of the raw text, or the wire format of
    /// the parsed message.
    pub fn as_bytes(&self) -> (r: Vec<u8>)
        ensures
            r@ == match self {
                Request::Raw(s) => encode_utf8(s@),
                Request::Parsed(q) => request_bytes(q@),
            },
    {
        match self {
            Request::Raw(s) => slice_to_vec(s.as_str().as_bytes()),
            Request::Parsed(q) => q.as_bytes(),
        }
    }
}

impl Response {
    /// The bytes of this response: the UTF-8 encoding of the raw text, or the wire format of
    /// the parsed message.
    pub fn as_bytes(&self) -> (r: Vec<u8>)
        ensures
            r@ == match self {
                Response::Raw(s) => encode_utf8(s@),
                Response::Parsed(q) => response_bytes(q@),
            },
    {
        match self {
            Response::Raw(s) => slice_to_vec(s.as_str().as_bytes()),
            Response::Parsed(q) => q.as_bytes(),
        }
    }
}

impl Default for HttpRequestFunction {
    fn default() -> (r: Self)
        ensures
            r == HttpRequestFunction::GET,
    {
        HttpRequestFunction::GET
    }
}

impl Default for HttpRequestLine {
    fn default() -> (r: Self)
        ensures
            r.func == HttpRequestFunction::GET,
            r.url@ == Seq::<char>::empty(),
            r.version == (0u16, 0u16),
    {
        HttpRequestLine { func: HttpRequestFunction::default(), url: String::new(), version: (0, 0) }
    }
}

impl Default for HttpRequest {
    fn default() -> (r: Self)
        ensures
            r@ == default_request(),
    {
        let r = HttpRequest { req_line: HttpRequestLine::default(), header: HttpHeader::new(), body: Vec::new() };
        assert(r@.header =~= default_request().header);
        r
    }
}

impl Default for HttpResponse {
    /// `HTTP/1.1 500 Internal Server Error`, no header, no body: what a server answers when
    /// it has no response of its own to give.
    fn default() -> (r: Self)
        ensures
            r@ == default_response(),
    {
        let r = HttpResponse {
            status_line: HttpResponseStatusLine {
                verson: (1, 1),
                code: 500,
                msg: "Internal Server Error".to_owned(),
            },
            headers: HttpHeader::new(),
            body: Vec::new(),
        };
        assert(r@.headers =~= default_response().headers);
        r
    }
}

} // verus!
