//! Reading the parts of a message: start lines, header lines and the header section.
use vstd::prelude::*;
use vstd::utf8::{encode_utf8, encode_utf8_decode_utf8};
use crate::decimal::parse_u16_at;
use crate::header::HttpHeader;
use crate::http::{
    method_bytes, parse_field, parse_header_block, parse_method, parse_request_line,
    parse_status_line, parse_version, HttpError, HttpRequestFunction,
};
use crate::wire::{
    ascii_to_string, check_target, check_text, check_token, find_byte_from, find_crlf_from,
    http_prefix, lemma_find_byte_bounds, lemma_find_crlf_bounds, skip_ows_from, trim_ows_end_at,
    utf8_checked, COLON, DOT, SP,
};

verus! {

/// Whether `a` and `b` hold the same bytes.
pub fn bytes_equal(a: &[u8], b: &[u8]) -> (r: bool)
    ensures
        r == (a@ == b@),
{
    if a.len() != b.len() {
        return false;
    }
    let mut i: usize = 0;
    while i < a.len()
        invariant
            a@.len() == b@.len(),
            i <= a@.len(),
            forall|j: int| 0 <= j < i ==> a@[j] == b@[j],
        decreases a.len() - i,
    {
        if a[i] != b[i] {
            return false;
        }
        i = i + 1;
    }
    assert(a@ =~= b@);
    true
}

/// The name of a method on the wire.
pub fn method_name(f: HttpRequestFunction) -> (r: Vec<u8>)
    ensures
        r@ == method_bytes(f),
{
    let r = match f {
        HttpRequestFunction::GET => vec![71u8, 69u8, 84u8],
        HttpRequestFunction::POST => vec![80u8, 79u8, 83u8, 84u8],
        HttpRequestFunction::PUT => vec![80u8, 85u8, 84u8],
        HttpRequestFunction::HEAD => vec![72u8, 69u8, 65u8, 68u8],
        HttpRequestFunction::DELETE => vec![68u8, 69u8, 76u8, 69u8, 84u8, 69u8],
        HttpRequestFunction::TRACE => vec![84u8, 82u8, 65u8, 67u8, 69u8],
        HttpRequestFunction::CONNECT => vec![67u8, 79u8, 78u8, 78u8, 69u8, 67u8, 84u8],
        HttpRequestFunction::OPTIONS => vec![79u8, 80u8, 84u8, 73u8, 79u8, 78u8, 83u8],
    };
    assert(r@ =~= method_bytes(f));
    r
}

/// The method that the name `l` denotes.
pub fn read_method(l: &[u8]) -> (r: Option<HttpRequestFunction>)
    ensures
        r == parse_method(l@),
{
    if bytes_equal(l, method_name(HttpRequestFunction::GET).as_slice()) {
        Some(HttpRequestFunction::GET)
    } else if bytes_equal(l, method_name(HttpRequestFunction::POST).as_slice()) {
        Some(HttpRequestFunction::POST)
    } else if bytes_equal(l, method_name(HttpRequestFunction::PUT).as_slice()) {
        Some(HttpRequestFunction::PUT)
    } else if bytes_equal(l, method_name(HttpRequestFunction::HEAD).as_slice()) {
        Some(HttpRequestFunction::HEAD)
    } else if bytes_equal(l, method_name(HttpRequestFunction::DELETE).as_slice()) {
        Some(HttpRequestFunction::DELETE)
    } else if bytes_equal(l, method_name(HttpRequestFunction::TRACE).as_slice()) {
        Some(HttpRequestFunction::TRACE)
    } else if bytes_equal(l, method_name(HttpRequestFunction::CONNECT).as_slice()) {
        Some(HttpRequestFunction::CONNECT)
    } else if bytes_equal(l, method_name(HttpRequestFunction::OPTIONS).as_slice()) {
        Some(HttpRequestFunction::OPTIONS)
    } else {
        None
    }
}

/// The version that `HTTP/major.minor` in `l` denotes.
pub fn read_version(l: &[u8]) -> (r: Option<(u16, u16)>)
    ensures
        r == parse_version(l@),
{
    if l.len() < 5 {
        return None;
    }
    if !(l[0] == 72 && l[1] == 84 && l[2] == 84 && l[3] == 80 && l[4] == 47) {
        proof {
            let t = l@.take(5);
            assert(t[0] == l@[0] && t[1] == l@[1] && t[2] == l@[2] && t[3] == l@[3] && t[4] == l@[4]);
            let p = http_prefix();
            assert(p[0] == 72 && p[1] == 84 && p[2] == 84 && p[3] == 80 && p[4] == 47);
            assert(t != p);
        }
        return None;
    }
    assert(l@.take(5) =~= http_prefix());
    let d = match find_byte_from(l, DOT, 5) {
        None => return None,
        Some(d) => d,
    };
    proof {
        lemma_find_byte_bounds(l@, DOT, 5);
    }
    let major = parse_u16_at(l, 5, d);
    let minor = parse_u16_at(l, d + 1, l.len());
    match (major, minor) {
        (Some(a), Some(b)) => Some((a, b)),
        _ => None,
    }
}

/// Reads a request line: method, target, version.
pub fn read_request_line(l: &[u8]) -> (r: Option<(HttpRequestFunction, String, (u16, u16))>)
    ensures
        match r {
            Some((f, u, v)) => parse_request_line(l@) == Some((f, encode_utf8(u@), v)),
            None => parse_request_line(l@) is None,
        },
{
    let len = l.len();
    let i = match find_byte_from(l, SP, 0) {
        None => return None,
        Some(i) => i,
    };
    proof {
        lemma_find_byte_bounds(l@, SP, 0);
    }
    let head = &l[0..i];
    assert(head@ =~= l@.take(i as int));
    let f = match read_method(head) {
        None => return None,
        Some(f) => f,
    };
    let j = match find_byte_from(l, SP, i + 1) {
        None => return None,
        Some(j) => j,
    };
    proof {
        lemma_find_byte_bounds(l@, SP, i + 1);
    }
    let target = &l[i + 1..j];
    if !check_target(target) {
        return None;
    }
    let v = match read_version(&l[j + 1..len]) {
        None => return None,
        Some(v) => v,
    };
    let u = ascii_to_string(target);
    Some((f, u, v))
}

/// Reads a status line: version, code, reason phrase.
pub fn read_status_line(l: &[u8]) -> (r: Option<((u16, u16), u16, String)>)
    ensures
        match r {
            Some((v, c, m)) => parse_status_line(l@) == Some((v, c, encode_utf8(m@))),
            None => parse_status_line(l@) is None,
        },
{
    let len = l.len();
    let i = match find_byte_from(l, SP, 0) {
        None => return None,
        Some(i) => i,
    };
    proof {
        lemma_find_byte_bounds(l@, SP, 0);
    }
    let head = &l[0..i];
    assert(head@ =~= l@.take(i as int));
    let v = match read_version(head) {
        None => return None,
        Some(v) => v,
    };
    let j = match find_byte_from(l, SP, i + 1) {
        None => return None,
        Some(j) => j,
    };
    proof {
        lemma_find_byte_bounds(l@, SP, i + 1);
    }
    let c = match parse_u16_at(l, i + 1, j) {
        None => return None,
        Some(c) => c,
    };
    let reason = &l[j + 1..len];
    if !check_text(reason) {
        return None;
    }
    let m = match utf8_checked(reason) {
        None => return None,
        Some(m) => m,
    };
    Some((v, c, m))
}

/// Reads a header line: name and value.
pub fn read_field(l: &[u8]) -> (r: Option<(String, String)>)
    ensures
        match r {
            Some((n, v)) => parse_field(l@) == Some((encode_utf8(n@), encode_utf8(v@))),
            None => parse_field(l@) is None,
        },
{
    let len = l.len();
    let c = match find_byte_from(l, COLON, 0) {
        None => return None,
        Some(c) => c,
    };
    let start = skip_ows_from(l, c + 1);
    let end = trim_ows_end_at(l, start, len);
    let name = &l[0..c];
    let value = &l[start..end];
    assert(name@ =~= l@.take(c as int));
    if !(check_token(name) && check_text(value)) {
        return None;
    }
    let v = match utf8_checked(value) {
        None => return None,
        Some(v) => v,
    };
    let n = ascii_to_string(name);
    Some((n, v))
}

/// Reads the header lines of `s` from `pos` on, up to and including the empty line;
/// gives the header and where the body starts.
pub fn read_header_block(s: &[u8], pos: usize) -> (r: Result<(HttpHeader, usize), HttpError>)
    requires
        pos <= s@.len(),
    ensures
        match r {
            Ok((h, b)) => parse_header_block(s@, pos as int, Seq::empty()) == Ok::<_, HttpError>(
                (h@, b as int),
            ),
            Err(e) => parse_header_block(s@, pos as int, Seq::empty()) == Err::<(Seq<(Seq<char>, Seq<char>)>, int), HttpError>(e),
        },
        r matches Ok((h, b)) ==> pos <= b <= s@.len(),
{
    let len = s.len();
    let mut h = HttpHeader::new();
    let mut p = pos;
    loop
        invariant
            pos <= p <= s@.len(),
            len == s@.len(),
            parse_header_block(s@, pos as int, Seq::empty()) == parse_header_block(
                s@,
                p as int,
                h@,
            ),
        decreases s@.len() - p,
    {
        let e = match find_crlf_from(s, p) {
            None => return Err(HttpError::Incomplete),
            Some(e) => e,
        };
        proof {
            lemma_find_crlf_bounds(s@, p as int);
        }
        if e == p {
            return Ok((h, e + 2));
        }
        let line = &s[p..e];
        match read_field(line) {
            None => return Err(HttpError::InvalidHeader),
            Some((n, v)) => {
                proof {
                    encode_utf8_decode_utf8(n@);
                    encode_utf8_decode_utf8(v@);
                }
                h.insert(n, v);
                p = e + 2;
            },
        }
    }
}

} // verus!
