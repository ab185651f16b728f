use ashina::header::HttpHeader;
use ashina::http::{
    HttpError, HttpRequest, HttpRequestFunction, HttpRequestLine, HttpResponse,
    HttpResponseStatusLine, Request, Response,
};

fn pairs(h: &HttpHeader) -> Vec<(&str, &str)> {
    h.fields().iter().map(|(n, v)| (n.as_str(), v.as_str())).collect()
}

fn header(fields: &[(&str, &str)]) -> HttpHeader {
    let mut h = HttpHeader::new();
    for (n, v) in fields {
        h.insert(n.to_string(), v.to_string());
    }
    h
}

#[test]
fn parses_request_with_header_and_body() {
    let raw = b"GET /index.html HTTP/1.1\r\nHost: example.com\r\nAccept: */*\r\n\r\nhello";
    let req = HttpRequest::from_bytes(raw).unwrap();
    assert_eq!(req.req_line.func, HttpRequestFunction::GET);
    assert_eq!(req.req_line.url, "/index.html");
    assert_eq!(req.req_line.version, (1, 1));
    assert_eq!(pairs(&req.header), vec![("Host", "example.com"), ("Accept", "*/*")]);
    assert_eq!(req.body, b"hello".to_vec());
}

#[test]
fn parses_every_method() {
    let names = [
        ("GET", HttpRequestFunction::GET),
        ("POST", HttpRequestFunction::POST),
        ("PUT", HttpRequestFunction::PUT),
        ("HEAD", HttpRequestFunction::HEAD),
        ("DELETE", HttpRequestFunction::DELETE),
        ("TRACE", HttpRequestFunction::TRACE),
        ("CONNECT", HttpRequestFunction::CONNECT),
        ("OPTIONS", HttpRequestFunction::OPTIONS),
    ];
    for (name, f) in names {
        let raw = format!("{} / HTTP/1.0\r\n\r\n", name);
        let req = HttpRequest::from_bytes(raw.as_bytes()).unwrap();
        assert_eq!(req.req_line.func, f);
        assert_eq!(req.as_bytes(), raw.as_bytes().to_vec());
    }
}

#[test]
fn later_field_replaces_earlier_one_of_same_name() {
    let raw = b"POST /a HTTP/1.1\r\nA: 1\r\nB: 2\r\nA: 3\r\n\r\n";
    let req = HttpRequest::from_bytes(raw).unwrap();
    assert_eq!(pairs(&req.header), vec![("A", "3"), ("B", "2")]);
}

#[test]
fn spaces_after_colon_are_skipped() {
    let raw = b"GET / HTTP/1.1\r\nHost:    x y \r\nEmpty:\r\n\r\n";
    let req = HttpRequest::from_bytes(raw).unwrap();
    assert_eq!(pairs(&req.header), vec![("Host", "x y"), ("Empty", "")]);
}

#[test]
fn request_roundtrip_on_concrete_values() {
    let req = HttpRequest {
        req_line: HttpRequestLine {
            func: HttpRequestFunction::PUT,
            url: "/items/42?x=1".to_string(),
            version: (2, 0),
        },
        header: header(&[("Content-Type", "text/plain"), ("X-Empty", "")]),
        body: vec![0, 13, 10, 255],
    };
    let bytes = req.as_bytes();
    assert_eq!(
        bytes,
        b"PUT /items/42?x=1 HTTP/2.0\r\nContent-Type: text/plain\r\nX-Empty: \r\n\r\n\x00\r\n\xff"
            .to_vec()
    );
    let back = HttpRequest::from_bytes(&bytes).unwrap();
    assert_eq!(back.req_line.func, req.req_line.func);
    assert_eq!(back.req_line.url, req.req_line.url);
    assert_eq!(back.req_line.version, req.req_line.version);
    assert_eq!(pairs(&back.header), pairs(&req.header));
    assert_eq!(back.body, req.body);
}

#[test]
fn reread_of_parsed_request_is_stable() {
    let raw = b"DELETE /x HTTP/1.1\r\nk:v\r\nk:  w\r\n\r\nbody";
    let first = HttpRequest::from_bytes(raw).unwrap();
    let again = HttpRequest::from_bytes(&first.as_bytes()).unwrap();
    assert_eq!(first.as_bytes(), again.as_bytes());
    assert_eq!(first.as_bytes(), b"DELETE /x HTTP/1.1\r\nk: w\r\n\r\nbody".to_vec());
}

#[test]
fn versions_are_canonical_u16_numerals() {
    assert_eq!(
        HttpRequest::from_bytes(b"GET / HTTP/65535.0\r\n\r\n").unwrap().req_line.version,
        (65535, 0)
    );
    for bad in [
        &b"GET / HTTP/65536.0\r\n\r\n"[..],
        b"GET / HTTP/01.1\r\n\r\n",
        b"GET / HTTP/1.\r\n\r\n",
        b"GET / HTTP/1\r\n\r\n",
        b"GET / http/1.1\r\n\r\n",
        b"GET / HTTP/1.1 \r\n\r\n",
    ] {
        assert_eq!(HttpRequest::from_bytes(bad).err(), Some(HttpError::InvalidStartLine));
    }
}

#[test]
fn empty_target_is_accepted() {
    let req = HttpRequest::from_bytes(b"GET  HTTP/0.0\r\n\r\n").unwrap();
    assert_eq!(req.req_line.url, "");
}

#[test]
fn error_incomplete() {
    assert_eq!(HttpRequest::from_bytes(b"").err(), Some(HttpError::Incomplete));
    assert_eq!(HttpRequest::from_bytes(b"GET / HTTP/1.1").err(), Some(HttpError::Incomplete));
    assert_eq!(
        HttpRequest::from_bytes(b"GET / HTTP/1.1\r\nHost: a\r\n").err(),
        Some(HttpError::Incomplete)
    );
    assert_eq!(HttpResponse::from_bytes(b"HTTP/1.1 200 OK\n\n").err(), Some(HttpError::Incomplete));
}

#[test]
fn error_invalid_start_line() {
    assert_eq!(
        HttpRequest::from_bytes(b"FETCH / HTTP/1.1\r\n\r\n").err(),
        Some(HttpError::InvalidStartLine)
    );
    assert_eq!(
        HttpRequest::from_bytes(b"get / HTTP/1.1\r\n\r\n").err(),
        Some(HttpError::InvalidStartLine)
    );
    assert_eq!(
        HttpRequest::from_bytes("GET /\u{e9} HTTP/1.1\r\n\r\n".as_bytes()).err(),
        Some(HttpError::InvalidStartLine)
    );
    assert_eq!(
        HttpResponse::from_bytes(b"HTTP/1.1 200\r\n\r\n").err(),
        Some(HttpError::InvalidStartLine)
    );
    assert_eq!(
        HttpResponse::from_bytes(b"HTTP/1.1 2x0 OK\r\n\r\n").err(),
        Some(HttpError::InvalidStartLine)
    );
}

#[test]
fn error_invalid_header() {
    for bad in [
        &b"GET / HTTP/1.1\r\nno colon\r\n\r\n"[..],
        b"GET / HTTP/1.1\r\n: empty name\r\n\r\n",
        b"GET / HTTP/1.1\r\nBad Name: x\r\n\r\n",
        b"GET / HTTP/1.1\r\nCtl: a\x01b\r\n\r\n",
        b"GET / HTTP/1.1\r\nLatin1: \xe9\r\n\r\n",
        b"GET / HTTP/1.1\r\nDel: \x7f\r\n\r\n",
    ] {
        assert_eq!(HttpRequest::from_bytes(bad).err(), Some(HttpError::InvalidHeader));
    }
}

#[test]
fn parses_response() {
    let raw = b"HTTP/1.0 404 Not Found\r\nServer: Ashina\r\n\r\nnope";
    let resp = HttpResponse::from_bytes(raw).unwrap();
    assert_eq!(resp.status_line.verson, (1, 0));
    assert_eq!(resp.status_line.code, 404);
    assert_eq!(resp.status_line.msg, "Not Found");
    assert_eq!(pairs(&resp.headers), vec![("Server", "Ashina")]);
    assert_eq!(resp.body, b"nope".to_vec());
    assert_eq!(resp.as_bytes(), raw.to_vec());
}

#[test]
fn response_roundtrip_on_concrete_values() {
    let resp = HttpResponse {
        status_line: HttpResponseStatusLine { verson: (1, 1), code: 0, msg: "".to_string() },
        headers: header(&[("Content-Length", "3")]),
        body: b"abc".to_vec(),
    };
    let bytes = resp.as_bytes();
    assert_eq!(bytes, b"HTTP/1.1 0 \r\nContent-Length: 3\r\n\r\nabc".to_vec());
    let back = HttpResponse::from_bytes(&bytes).unwrap();
    assert_eq!(back.status_line.verson, (1, 1));
    assert_eq!(back.status_line.code, 0);
    assert_eq!(back.status_line.msg, "");
    assert_eq!(pairs(&back.headers), pairs(&resp.headers));
    assert_eq!(back.body, resp.body);
}

#[test]
fn defaults() {
    let req = HttpRequest::default();
    assert_eq!(req.req_line.func, HttpRequestFunction::GET);
    assert_eq!(req.as_bytes(), b"GET  HTTP/0.0\r\n\r\n".to_vec());
    assert_eq!(HttpRequestFunction::default(), HttpRequestFunction::GET);
    let resp = HttpResponse::default();
    assert_eq!(resp.as_bytes(), b"HTTP/1.1 500 Internal Server Error\r\n\r\n".to_vec());
}

#[test]
fn raw_and_parsed_request_bytes() {
    let raw = Request::Raw("h\u{e9}llo".to_string());
    assert_eq!(raw.as_bytes(), vec![104, 0xc3, 0xa9, 108, 108, 111]);
    let parsed = Request::Parsed(HttpRequest::from_bytes(b"HEAD / HTTP/1.1\r\n\r\n").unwrap());
    assert_eq!(parsed.as_bytes(), b"HEAD / HTTP/1.1\r\n\r\n".to_vec());
}

#[test]
fn raw_and_parsed_response_bytes() {
    let raw = Response::Raw("HTTP/1.1 204 No Content\r\n\r\n".to_string());
    assert_eq!(raw.as_bytes(), b"HTTP/1.1 204 No Content\r\n\r\n".to_vec());
    let parsed = Response::Parsed(HttpResponse::default());
    assert_eq!(parsed.as_bytes(), b"HTTP/1.1 500 Internal Server Error\r\n\r\n".to_vec());
}

#[test]
fn whitespace_around_values_is_cut_off() {
    let raw = b"GET / HTTP/1.1\r\nTab:\tx\t \r\nMixed: \t a b\t\r\nBlank: \t \r\n\r\n";
    let req = HttpRequest::from_bytes(raw).unwrap();
    assert_eq!(pairs(&req.header), vec![("Tab", "x"), ("Mixed", "a b"), ("Blank", "")]);
}

#[test]
fn tab_inside_value_reads_back() {
    let req = HttpRequest {
        req_line: HttpRequestLine {
            func: HttpRequestFunction::GET,
            url: "/".to_string(),
            version: (1, 1),
        },
        header: header(&[("X", "a\tb")]),
        body: vec![],
    };
    let bytes = req.as_bytes();
    assert_eq!(bytes, b"GET / HTTP/1.1\r\nX: a\tb\r\n\r\n".to_vec());
    let back = HttpRequest::from_bytes(&bytes).unwrap();
    assert_eq!(pairs(&back.header), vec![("X", "a\tb")]);
}

#[test]
fn tab_and_utf8_in_reason_read_back() {
    let resp = HttpResponse {
        status_line: HttpResponseStatusLine {
            verson: (1, 1),
            code: 200,
            msg: "a\tb \u{e9}".to_string(),
        },
        headers: header(&[("Name", "gr\u{fc}\u{df} dich")]),
        body: vec![],
    };
    let back = HttpResponse::from_bytes(&resp.as_bytes()).unwrap();
    assert_eq!(back.status_line.msg, "a\tb \u{e9}");
    assert_eq!(pairs(&back.headers), vec![("Name", "gr\u{fc}\u{df} dich")]);
}

#[test]
fn utf8_value_reads_as_characters() {
    let raw = "GET / HTTP/1.1\r\nGreeting: h\u{e9}llo\r\n\r\n";
    let req = HttpRequest::from_bytes(raw.as_bytes()).unwrap();
    assert_eq!(req.header.get("Greeting"), Some(&"h\u{e9}llo".to_string()));
    assert_eq!(req.header.get("greeting"), None);
}

#[test]
fn header_acts_as_a_map() {
    let mut h = HttpHeader::new();
    assert_eq!(h.len(), 0);
    assert_eq!(h.insert("A".to_string(), "1".to_string()), None);
    assert_eq!(h.insert("B".to_string(), "2".to_string()), None);
    assert_eq!(h.insert("A".to_string(), "3".to_string()), Some("1".to_string()));
    assert_eq!(h.len(), 2);
    assert_eq!(h.get("A"), Some(&"3".to_string()));
    assert_eq!(h.get("B"), Some(&"2".to_string()));
    assert_eq!(h.get("C"), None);
    assert_eq!(pairs(&h), vec![("A", "3"), ("B", "2")]);
}
