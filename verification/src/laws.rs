//! What holds between reading and writing messages.
use vstd::prelude::*;
use vstd::utf8::{
    decode_utf8, decode_utf8_encode_utf8, encode_utf8, encode_utf8_decode_utf8,
    encode_utf8_valid_utf8, valid_utf8,
};
use crate::decimal::{
    decimal_digits, is_digit, lemma_decimal_digits_props, lemma_parse_decimal_digits,
};
use crate::http::{
    field_bytes, find_name, header_bytes, header_insert, method_bytes, parse_field,
    parse_header_block, parse_method, parse_request, parse_request_line, parse_response,
    parse_status_line, parse_version, request_bytes, response_bytes, version_bytes, wf_field,
    wf_header, wf_request, wf_response, HttpRequestFunction, RequestModel, ResponseModel,
};
use crate::wire::{
    crlf, find_byte, find_crlf, http_prefix, is_ascii_bytes, is_target, is_target_byte, is_text,
    is_text_byte, is_token, is_token_byte, lemma_ascii_valid_utf8, lemma_find_byte_at,
    lemma_find_byte_bounds, lemma_find_crlf_at, lemma_find_crlf_bounds, lemma_skip_ows_bounds,
    lemma_trim_ows_end_bounds, skip_ows, trim_ows_end, COLON, CR, DOT, SP,
};

verus! {

/// Every byte of `s` lies in `lo..=hi`.
spec fn bytes_among(s: Seq<u8>, lo: u8, hi: u8) -> bool {
    forall|i: int| 0 <= i < s.len() ==> lo <= #[trigger] s[i] <= hi
}

proof fn lemma_version_bytes_shape(v: (u16, u16))
    ensures
        version_bytes(v).len() >= 5,
        version_bytes(v).take(5) == http_prefix(),
        forall|i: int|
            0 <= i < version_bytes(v).len() ==> #[trigger] version_bytes(v)[i] != SP
                && version_bytes(v)[i] != CR,
        find_byte(version_bytes(v), DOT, 5) == Some(5 + decimal_digits(v.0 as nat).len() as int),
        version_bytes(v).subrange(5, 5 + decimal_digits(v.0 as nat).len() as int) == decimal_digits(
            v.0 as nat,
        ),
        version_bytes(v).subrange(
            5 + decimal_digits(v.0 as nat).len() as int + 1,
            version_bytes(v).len() as int,
        ) == decimal_digits(v.1 as nat),
{
    let a = decimal_digits(v.0 as nat);
    let b = decimal_digits(v.1 as nat);
    let s = version_bytes(v);
    let na: int = a.len() as int;
    lemma_decimal_digits_props(v.0 as nat);
    lemma_decimal_digits_props(v.1 as nat);
    let p = http_prefix();
    assert(s =~= p + a + seq![DOT] + b);
    assert(s.take(5) =~= p);
    assert forall|i: int| 0 <= i < s.len() implies #[trigger] s[i] != SP && s[i] != CR by {
        if i < 5 {
            assert(s[i] == p[i]);
        } else if i < 5 + na {
            assert(s[i] == a[i - 5]);
            assert(is_digit(a[i - 5]));
        } else if i == 5 + na {
            assert(s[i] == DOT);
        } else {
            assert(s[i] == b[i - 6 - na]);
            assert(is_digit(b[i - 6 - na]));
        }
    }
    assert forall|j: int| 5 <= j < 5 + na implies s[j] != DOT by {
        assert(s[j] == a[j - 5]);
        assert(is_digit(a[j - 5]));
    }
    assert(s[5 + na] == DOT);
    lemma_find_byte_at(s, DOT, 5, 5 + na);
    assert(s.subrange(5, 5 + na) =~= a);
    assert(s.subrange(5 + na + 1, s.len() as int) =~= b);
}

/// Reading back the version that `version_bytes` writes gives the version again.
pub proof fn lemma_version_roundtrip(v: (u16, u16))
    ensures
        parse_version(version_bytes(v)) == Some(v),
{
    lemma_version_bytes_shape(v);
    lemma_parse_decimal_digits(v.0);
    lemma_parse_decimal_digits(v.1);
}

/// Reading back the name of a method gives the method again.
pub proof fn lemma_method_roundtrip(f: HttpRequestFunction)
    ensures
        parse_method(method_bytes(f)) == Some(f),
{
    let g = method_bytes(HttpRequestFunction::GET);
    let po = method_bytes(HttpRequestFunction::POST);
    let pu = method_bytes(HttpRequestFunction::PUT);
    let h = method_bytes(HttpRequestFunction::HEAD);
    let d = method_bytes(HttpRequestFunction::DELETE);
    let t = method_bytes(HttpRequestFunction::TRACE);
    let c = method_bytes(HttpRequestFunction::CONNECT);
    let o = method_bytes(HttpRequestFunction::OPTIONS);
    assert(g.len() == 3 && g[0] == 71);
    assert(po.len() == 4 && po[0] == 80 && po[1] == 79);
    assert(pu.len() == 3 && pu[0] == 80);
    assert(h.len() == 4 && h[0] == 72);
    assert(d.len() == 6);
    assert(t.len() == 5);
    assert(c.len() == 7 && c[0] == 67);
    assert(o.len() == 7 && o[0] == 79);
}

proof fn lemma_method_letters(f: HttpRequestFunction)
    ensures
        bytes_among(method_bytes(f), 65, 90),
{
    let m = method_bytes(f);
    assert forall|i: int| 0 <= i < m.len() implies 65 <= #[trigger] m[i] <= 90 by {
        match f {
            HttpRequestFunction::GET => {
                assert(i == 0 || i == 1 || i == 2);
            },
            HttpRequestFunction::POST => {
                assert(i == 0 || i == 1 || i == 2 || i == 3);
            },
            HttpRequestFunction::PUT => {
                assert(i == 0 || i == 1 || i == 2);
            },
            HttpRequestFunction::HEAD => {
                assert(i == 0 || i == 1 || i == 2 || i == 3);
            },
            HttpRequestFunction::DELETE => {
                assert(i == 0 || i == 1 || i == 2 || i == 3 || i == 4 || i == 5);
            },
            HttpRequestFunction::TRACE => {
                assert(i == 0 || i == 1 || i == 2 || i == 3 || i == 4);
            },
            HttpRequestFunction::CONNECT => {
                assert(i == 0 || i == 1 || i == 2 || i == 3 || i == 4 || i == 5 || i == 6);
            },
            HttpRequestFunction::OPTIONS => {
                assert(i == 0 || i == 1 || i == 2 || i == 3 || i == 4 || i == 5 || i == 6);
            },
        }
    }
}

/// The request line that names `f`, the target `t` and the version `v`.
pub open spec fn request_line_bytes(f: HttpRequestFunction, t: Seq<u8>, v: (u16, u16)) -> Seq<u8> {
    method_bytes(f) + seq![SP] + t + seq![SP] + version_bytes(v)
}

/// A request line reads back as what it was written from, and holds no carriage return.
pub proof fn lemma_request_line_roundtrip(f: HttpRequestFunction, t: Seq<u8>, v: (u16, u16))
    requires
        is_target(t),
    ensures
        parse_request_line(request_line_bytes(f, t, v)) == Some((f, t, v)),
        forall|i: int|
            0 <= i < request_line_bytes(f, t, v).len() ==> #[trigger] request_line_bytes(f, t, v)[i]
                != CR,
{
    let m = method_bytes(f);
    let vb = version_bytes(v);
    let l = request_line_bytes(f, t, v);
    let ml: int = m.len() as int;
    let tl: int = t.len() as int;
    lemma_method_letters(f);
    lemma_version_bytes_shape(v);
    lemma_method_roundtrip(f);
    lemma_version_roundtrip(v);
    assert forall|j: int| 0 <= j < ml implies l[j] != SP by {
        assert(l[j] == m[j]);
    }
    assert(l[ml] == SP);
    lemma_find_byte_at(l, SP, 0, ml);
    assert(l.take(ml) =~= m);
    assert forall|j: int| ml + 1 <= j < ml + 1 + tl implies l[j] != SP by {
        assert(l[j] == t[j - ml - 1]);
        assert(is_target_byte(t[j - ml - 1]));
    }
    assert(l[ml + 1 + tl] == SP);
    lemma_find_byte_at(l, SP, ml + 1, ml + 1 + tl);
    assert(l.subrange(ml + 1, ml + 1 + tl) =~= t);
    assert(l.subrange(ml + 1 + tl + 1, l.len() as int) =~= vb);
    assert forall|i: int| 0 <= i < l.len() implies #[trigger] l[i] != CR by {
        if i < ml {
            assert(l[i] == m[i]);
        } else if i == ml {
        } else if i < ml + 1 + tl {
            assert(l[i] == t[i - ml - 1]);
            assert(is_target_byte(t[i - ml - 1]));
        } else if i == ml + 1 + tl {
        } else {
            assert(l[i] == vb[i - ml - 2 - tl]);
        }
    }
}

/// The status line that gives the version `v`, the code `c` and the reason `r`.
pub open spec fn status_line_bytes(v: (u16, u16), c: u16, r: Seq<u8>) -> Seq<u8> {
    version_bytes(v) + seq![SP] + decimal_digits(c as nat) + seq![SP] + r
}

/// A status line reads back as what it was written from, and holds no carriage return.
pub proof fn lemma_status_line_roundtrip(v: (u16, u16), c: u16, r: Seq<u8>)
    requires
        is_text(r),
        valid_utf8(r),
    ensures
        parse_status_line(status_line_bytes(v, c, r)) == Some((v, c, r)),
        forall|i: int|
            0 <= i < status_line_bytes(v, c, r).len() ==> #[trigger] status_line_bytes(v, c, r)[i]
                != CR,
{
    let vb = version_bytes(v);
    let d = decimal_digits(c as nat);
    let l = status_line_bytes(v, c, r);
    let vl: int = vb.len() as int;
    let dl: int = d.len() as int;
    lemma_version_bytes_shape(v);
    lemma_version_roundtrip(v);
    lemma_decimal_digits_props(c as nat);
    lemma_parse_decimal_digits(c);
    assert forall|j: int| 0 <= j < vl implies l[j] != SP by {
        assert(l[j] == vb[j]);
    }
    assert(l[vl] == SP);
    lemma_find_byte_at(l, SP, 0, vl);
    assert(l.take(vl) =~= vb);
    assert forall|j: int| vl + 1 <= j < vl + 1 + dl implies l[j] != SP by {
        assert(l[j] == d[j - vl - 1]);
        assert(is_digit(d[j - vl - 1]));
    }
    assert(l[vl + 1 + dl] == SP);
    lemma_find_byte_at(l, SP, vl + 1, vl + 1 + dl);
    assert(l.subrange(vl + 1, vl + 1 + dl) =~= d);
    assert(l.subrange(vl + 1 + dl + 1, l.len() as int) =~= r);
    assert forall|i: int| 0 <= i < l.len() implies #[trigger] l[i] != CR by {
        if i < vl {
            assert(l[i] == vb[i]);
        } else if i == vl {
        } else if i < vl + 1 + dl {
            assert(l[i] == d[i - vl - 1]);
            assert(is_digit(d[i - vl - 1]));
        } else if i == vl + 1 + dl {
        } else {
            assert(l[i] == r[i - vl - 2 - dl]);
            assert(is_text_byte(r[i - vl - 2 - dl]));
        }
    }
}

/// The header line of a field, without its line end.
pub open spec fn field_line_bytes(f: (Seq<char>, Seq<char>)) -> Seq<u8> {
    encode_utf8(f.0) + seq![COLON, SP] + encode_utf8(f.1)
}

/// A well-formed field reads back from its line, and its line holds no carriage return.
pub proof fn lemma_field_roundtrip(f: (Seq<char>, Seq<char>))
    requires
        wf_field(f),
    ensures
        parse_field(field_line_bytes(f)) == Some((encode_utf8(f.0), encode_utf8(f.1))),
        forall|i: int|
            0 <= i < field_line_bytes(f).len() ==> #[trigger] field_line_bytes(f)[i] != CR,
        field_bytes(f) == field_line_bytes(f) + crlf(),
{
    let n = encode_utf8(f.0);
    let v = encode_utf8(f.1);
    let l = field_line_bytes(f);
    let nl: int = n.len() as int;
    assert forall|j: int| 0 <= j < nl implies l[j] != COLON by {
        assert(l[j] == n[j]);
        assert(is_token_byte(n[j]));
    }
    assert(l[nl] == COLON);
    lemma_find_byte_at(l, COLON, 0, nl);
    assert(l.take(nl) =~= n);
    assert(l[nl + 1] == SP);
    if v.len() > 0 {
        assert(l[nl + 2] == v[0]);
        assert(l[l.len() - 1] == v.last());
    }
    assert(skip_ows(l, nl + 2) == nl + 2);
    assert(skip_ows(l, nl + 1) == nl + 2);
    assert(trim_ows_end(l, nl + 2, l.len() as int) == l.len());
    assert(l.subrange(nl + 2, l.len() as int) =~= v);
    encode_utf8_valid_utf8(f.1);
    assert forall|i: int| 0 <= i < l.len() implies #[trigger] l[i] != CR by {
        if i < nl {
            assert(l[i] == n[i]);
            assert(is_token_byte(n[i]));
        } else if i < nl + 2 {
        } else {
            assert(l[i] == v[i - nl - 2]);
            assert(is_text_byte(v[i - nl - 2]));
        }
    }
    assert(field_bytes(f) =~= l + crlf());
}

proof fn lemma_find_name_absent(h: Seq<(Seq<char>, Seq<char>)>, n: Seq<char>, i: int)
    requires
        forall|j: int| 0 <= j < h.len() ==> #[trigger] h[j].0 != n,
    ensures
        find_name(h, n, i) is None,
    decreases h.len() - i,
{
    if 0 <= i < h.len() {
        lemma_find_name_absent(h, n, i + 1);
    }
}

proof fn lemma_find_name_bounds(h: Seq<(Seq<char>, Seq<char>)>, n: Seq<char>, i: int)
    ensures
        find_name(h, n, i) matches Some(k) ==> 0 <= k < h.len() && h[k].0 == n,
        find_name(h, n, i) is None ==> forall|j: int| 0 <= i <= j < h.len() ==> #[trigger] h[j].0 != n,
    decreases h.len() - i,
{
    if 0 <= i < h.len() && h[i].0 != n {
        lemma_find_name_bounds(h, n, i + 1);
    }
}

/// Reading the header section that `header_bytes(h2)` writes, after fields `acc`, gives
/// `acc + h2` and the position of the body.
proof fn lemma_header_block_roundtrip(
    s: Seq<u8>,
    pos: int,
    acc: Seq<(Seq<char>, Seq<char>)>,
    h2: Seq<(Seq<char>, Seq<char>)>,
    body: Seq<u8>,
)
    requires
        0 <= pos <= s.len(),
        s.subrange(pos, s.len() as int) == header_bytes(h2) + crlf() + body,
        wf_header(acc + h2),
    ensures
        parse_header_block(s, pos, acc) == Ok::<_, crate::http::HttpError>(
            (acc + h2, s.len() - body.len()),
        ),
    decreases h2.len(),
{
    let rest = s.subrange(pos, s.len() as int);
    if h2.len() == 0 {
        assert(header_bytes(h2) == Seq::<u8>::empty());
        assert(rest =~= crlf() + body);
        assert(s[pos] == rest[0] && s[pos + 1] == rest[1]);
        lemma_find_crlf_at(s, pos, pos);
        assert(acc + h2 =~= acc);
    } else {
        let f = h2[0];
        let tail = h2.drop_first();
        let l = field_line_bytes(f);
        let ll: int = l.len() as int;
        assert(wf_field((acc + h2)[acc.len() as int]));
        lemma_field_roundtrip(f);
        assert(header_bytes(h2) == field_bytes(f) + header_bytes(tail));
        assert(rest =~= l + crlf() + (header_bytes(tail) + crlf() + body));
        assert forall|j: int| pos <= j < pos + ll implies s[j] != CR by {
            assert(s[j] == rest[j - pos]);
            assert(rest[j - pos] == l[j - pos]);
        }
        assert(s[pos + ll] == rest[ll]);
        assert(s[pos + ll + 1] == rest[ll + 1]);
        lemma_find_crlf_at(s, pos, pos + ll);
        assert(s.subrange(pos, pos + ll) =~= l);
        encode_utf8_decode_utf8(f.0);
        encode_utf8_decode_utf8(f.1);
        assert forall|j: int| 0 <= j < acc.len() implies #[trigger] acc[j].0 != f.0 by {
            assert((acc + h2)[j] == acc[j]);
            assert((acc + h2)[acc.len() as int] == f);
        }
        lemma_find_name_absent(acc, f.0, 0);
        assert(header_insert(acc, f.0, f.1) == acc.push(f));
        assert(acc.push(f) + tail =~= acc + h2);
        let x = header_bytes(tail) + crlf() + body;
        assert(rest.subrange(ll + 2, rest.len() as int) =~= x);
        assert(s.subrange(pos + ll + 2, s.len() as int) =~= rest.subrange(ll + 2, rest.len() as int));
        lemma_header_block_roundtrip(s, pos + ll + 2, acc.push(f), tail, body);
    }
}

/// Writing a well-formed request and reading the bytes back gives the same request.
pub proof fn lemma_request_roundtrip(m: RequestModel)
    requires
        wf_request(m),
    ensures
        parse_request(request_bytes(m)) == Ok::<RequestModel, crate::http::HttpError>(m),
{
    let t = encode_utf8(m.url);
    let l = request_line_bytes(m.func, t, m.version);
    let s = request_bytes(m);
    let ll: int = l.len() as int;
    lemma_request_line_roundtrip(m.func, t, m.version);
    assert(s =~= l + crlf() + (header_bytes(m.header) + crlf() + m.body));
    assert forall|j: int| 0 <= j < ll implies s[j] != CR by {
        assert(s[j] == l[j]);
    }
    lemma_find_crlf_at(s, 0, ll);
    assert(s.take(ll) =~= l);
    encode_utf8_decode_utf8(m.url);
    assert(s.subrange(ll + 2, s.len() as int) =~= header_bytes(m.header) + crlf() + m.body);
    assert(Seq::<(Seq<char>, Seq<char>)>::empty() + m.header =~= m.header);
    lemma_header_block_roundtrip(s, ll + 2, Seq::empty(), m.header, m.body);
    assert(s.subrange(s.len() - m.body.len(), s.len() as int) =~= m.body);
}

/// Writing a well-formed response and reading the bytes back gives the same response.
pub proof fn lemma_response_roundtrip(m: ResponseModel)
    requires
        wf_response(m),
    ensures
        parse_response(response_bytes(m)) == Ok::<ResponseModel, crate::http::HttpError>(m),
{
    let r = encode_utf8(m.msg);
    let l = status_line_bytes(m.version, m.code, r);
    let s = response_bytes(m);
    let ll: int = l.len() as int;
    encode_utf8_valid_utf8(m.msg);
    lemma_status_line_roundtrip(m.version, m.code, r);
    assert(s =~= l + crlf() + (header_bytes(m.headers) + crlf() + m.body));
    assert forall|j: int| 0 <= j < ll implies s[j] != CR by {
        assert(s[j] == l[j]);
    }
    lemma_find_crlf_at(s, 0, ll);
    assert(s.take(ll) =~= l);
    encode_utf8_decode_utf8(m.msg);
    assert(s.subrange(ll + 2, s.len() as int) =~= header_bytes(m.headers) + crlf() + m.body);
    assert(Seq::<(Seq<char>, Seq<char>)>::empty() + m.headers =~= m.headers);
    lemma_header_block_roundtrip(s, ll + 2, Seq::empty(), m.headers, m.body);
    assert(s.subrange(s.len() - m.body.len(), s.len() as int) =~= m.body);
}

proof fn lemma_classes_ascii(s: Seq<u8>)
    ensures
        is_target(s) ==> is_ascii_bytes(s),
        is_token(s) ==> is_ascii_bytes(s),
{
    if is_target(s) {
        assert forall|i: int| 0 <= i < s.len() implies #[trigger] s[i] < 128 by {
            assert(is_target_byte(s[i]));
        }
    }
    if is_token(s) {
        assert forall|i: int| 0 <= i < s.len() implies #[trigger] s[i] < 128 by {
            assert(is_token_byte(s[i]));
        }
    }
}

/// The characters of ASCII bytes encode back to the same bytes.
proof fn lemma_ascii_decode_encode(s: Seq<u8>)
    requires
        is_ascii_bytes(s),
    ensures
        encode_utf8(decode_utf8(s)) == s,
{
    lemma_ascii_valid_utf8(s);
    decode_utf8_encode_utf8(s);
}

/// A field read from a header line is well-formed.
proof fn lemma_parsed_field_wf(l: Seq<u8>)
    requires
        parse_field(l) is Some,
    ensures
        wf_field((decode_utf8(parse_field(l).unwrap().0), decode_utf8(parse_field(l).unwrap().1))),
{
    let c = find_byte(l, COLON, 0).unwrap();
    lemma_find_byte_bounds(l, COLON, 0);
    lemma_skip_ows_bounds(l, c + 1);
    let k = skip_ows(l, c + 1);
    lemma_trim_ows_end_bounds(l, k, l.len() as int);
    let e = trim_ows_end(l, k, l.len() as int);
    let n = l.take(c);
    let v = l.subrange(k, e);
    lemma_classes_ascii(n);
    lemma_ascii_decode_encode(n);
    decode_utf8_encode_utf8(v);
    if v.len() > 0 {
        assert(v[0] == l[k]);
        assert(v.last() == l[e - 1]);
    }
}

/// Setting a well-formed field keeps a header well-formed.
proof fn lemma_insert_wf(h: Seq<(Seq<char>, Seq<char>)>, n: Seq<char>, v: Seq<char>)
    requires
        wf_header(h),
        wf_field((n, v)),
    ensures
        wf_header(header_insert(h, n, v)),
{
    lemma_find_name_bounds(h, n, 0);
    let r = header_insert(h, n, v);
    match find_name(h, n, 0) {
        Some(i) => {
            assert forall|j: int| 0 <= j < r.len() implies #[trigger] wf_field(r[j]) by {
                if j != i {
                    assert(r[j] == h[j]);
                }
            }
            assert forall|a: int, b: int| 0 <= a < b < r.len() implies #[trigger] r[a].0 != #[trigger] r[b].0 by {
                assert(r[a].0 == h[a].0);
                assert(r[b].0 == h[b].0);
            }
        },
        None => {
            assert forall|j: int| 0 <= j < r.len() implies #[trigger] wf_field(r[j]) by {
                if j < h.len() {
                    assert(r[j] == h[j]);
                }
            }
            assert forall|a: int, b: int| 0 <= a < b < r.len() implies #[trigger] r[a].0 != #[trigger] r[b].0 by {
                assert(r[a] == h[a]);
                if b < h.len() {
                    assert(r[b] == h[b]);
                } else {
                    assert(r[b].0 == n);
                }
            }
        },
    }
}

/// The header read from a header section is well-formed when the fields before it were.
proof fn lemma_header_block_wf(s: Seq<u8>, pos: int, acc: Seq<(Seq<char>, Seq<char>)>)
    requires
        wf_header(acc),
    ensures
        parse_header_block(s, pos, acc) matches Ok((h, b)) ==> wf_header(h) && b <= s.len(),
    decreases s.len() - pos,
{
    lemma_find_crlf_bounds(s, pos);
    if let Some(k) = find_crlf(s, pos) {
        if k != pos {
            if let Some((n, v)) = parse_field(s.subrange(pos, k)) {
                lemma_parsed_field_wf(s.subrange(pos, k));
                lemma_insert_wf(acc, decode_utf8(n), decode_utf8(v));
                lemma_header_block_wf(s, k + 2, header_insert(acc, decode_utf8(n), decode_utf8(v)));
            }
        }
    }
}

/// A request read from bytes is well-formed: its wire format describes it exactly, and its
/// header holds each name once.
pub proof fn lemma_parsed_request_wf(s: Seq<u8>)
    requires
        parse_request(s) is Ok,
    ensures
        wf_request(parse_request(s).unwrap()),
{
    let k = find_crlf(s, 0).unwrap();
    let (f, t, v) = parse_request_line(s.take(k)).unwrap();
    let l = s.take(k);
    let i = find_byte(l, SP, 0).unwrap();
    let j = find_byte(l, SP, i + 1).unwrap();
    assert(t == l.subrange(i + 1, j));
    lemma_classes_ascii(t);
    lemma_ascii_decode_encode(t);
    assert(wf_header(Seq::<(Seq<char>, Seq<char>)>::empty()));
    lemma_header_block_wf(s, k + 2, Seq::empty());
}

/// A response read from bytes is well-formed: its wire format describes it exactly, and its
/// header holds each name once.
pub proof fn lemma_parsed_response_wf(s: Seq<u8>)
    requires
        parse_response(s) is Ok,
    ensures
        wf_response(parse_response(s).unwrap()),
{
    let k = find_crlf(s, 0).unwrap();
    let l = s.take(k);
    let i = find_byte(l, SP, 0).unwrap();
    let j = find_byte(l, SP, i + 1).unwrap();
    let r = l.subrange(j + 1, l.len() as int);
    decode_utf8_encode_utf8(r);
    assert(wf_header(Seq::<(Seq<char>, Seq<char>)>::empty()));
    lemma_header_block_wf(s, k + 2, Seq::empty());
}

/// Writing a request that was read from bytes and reading it again gives the same request.
pub proof fn lemma_request_reread(s: Seq<u8>)
    requires
        parse_request(s) is Ok,
    ensures
        parse_request(request_bytes(parse_request(s).unwrap())) == parse_request(s),
{
    lemma_parsed_request_wf(s);
    lemma_request_roundtrip(parse_request(s).unwrap());
}

/// Writing a response that was read from bytes and reading it again gives the same response.
pub proof fn lemma_response_reread(s: Seq<u8>)
    requires
        parse_response(s) is Ok,
    ensures
        parse_response(response_bytes(parse_response(s).unwrap())) == parse_response(s),
{
    lemma_parsed_response_wf(s);
    lemma_response_roundtrip(parse_response(s).unwrap());
}

} // verus!
