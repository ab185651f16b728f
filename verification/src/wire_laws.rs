//! What the wire format admits, stated byte by byte: which bytes a target, a name, a value
//! and a reason phrase may hold, what whitespace is cut from a value, and that a message
//! made of such parts reads back as itself.
use vstd::prelude::*;
use vstd::utf8::{encode_utf8, valid_utf8};
use crate::decimal::decimal_digits;
use crate::header::names_distinct;
use crate::http::{
    find_name, header_insert, method_bytes, parse_method, parse_field, parse_request, parse_request_line, parse_response,
    parse_status_line, request_bytes, response_bytes, version_bytes, wf_field, wf_request,
    wf_response, HttpError, HttpRequestFunction, RequestModel, ResponseModel,
};
use crate::laws::{
    lemma_method_roundtrip, lemma_request_line_roundtrip, lemma_request_roundtrip, lemma_response_roundtrip,
    lemma_status_line_roundtrip, request_line_bytes, status_line_bytes,
};
use crate::wire::{
    crlf, find_byte, http_prefix, is_ows_byte, is_target, is_target_byte, is_text, is_text_byte,
    is_token, is_token_byte, lemma_find_byte_at, skip_ows, trim_ows_end, COLON, CR, DOT, LF, SP,
};

verus! {

/// The byte classes of the format: a target byte is visible ASCII; a name byte is visible
/// ASCII but `:`; a text byte is a tab, a space, visible ASCII or above ASCII; whitespace
/// is a space or a tab.
pub proof fn law_byte_classes(b: u8)
    ensures
        is_target_byte(b) <==> 33 <= b <= 126,
        is_token_byte(b) <==> (33 <= b <= 126 && b != 58),
        is_text_byte(b) <==> (b == 9 || 32 <= b <= 126 || b >= 128),
        is_ows_byte(b) <==> (b == 32 || b == 9),
{
}

/// Every request target of visible ASCII bytes reads back from its request line, for
/// every method and version.
pub proof fn law_request_line_visible_target(f: HttpRequestFunction, t: Seq<u8>, v: (u16, u16))
    requires
        forall|i: int| 0 <= i < t.len() ==> 33 <= #[trigger] t[i] <= 126,
    ensures
        parse_request_line(method_bytes(f) + seq![32u8] + t + seq![32u8] + version_bytes(v))
            == Some((f, t, v)),
{
    assert(is_target(t)) by {
        assert forall|i: int| 0 <= i < t.len() implies #[trigger] is_target_byte(t[i]) by {
            assert(33 <= t[i] <= 126);
        }
    }
    lemma_request_line_roundtrip(f, t, v);
    assert(request_line_bytes(f, t, v) =~= method_bytes(f) + seq![32u8] + t + seq![32u8]
        + version_bytes(v));
}

/// Every reason phrase of tabs, spaces, visible ASCII and UTF-8 above ASCII reads back from
/// its status line, for every version and code.
pub proof fn law_status_line_text_reason(v: (u16, u16), c: u16, r: Seq<u8>)
    requires
        forall|i: int| 0 <= i < r.len() ==> (#[trigger] r[i] == 9 || 32 <= r[i] <= 126 || r[i]
            >= 128),
        valid_utf8(r),
    ensures
        parse_status_line(version_bytes(v) + seq![32u8] + decimal_digits(c as nat) + seq![32u8] + r)
            == Some((v, c, r)),
{
    assert(is_text(r)) by {
        assert forall|i: int| 0 <= i < r.len() implies #[trigger] is_text_byte(r[i]) by {
            assert(r[i] == 9 || 32 <= r[i] <= 126 || r[i] >= 128);
        }
    }
    lemma_status_line_roundtrip(v, c, r);
    assert(status_line_bytes(v, c, r) =~= version_bytes(v) + seq![32u8] + decimal_digits(
        c as nat,
    ) + seq![32u8] + r);
}

proof fn lemma_skip_ows_run(s: Seq<u8>, i: int, k: int)
    requires
        0 <= i <= k <= s.len(),
        forall|j: int| i <= j < k ==> #[trigger] is_ows_byte(s[j]),
        k < s.len() ==> !is_ows_byte(s[k]),
    ensures
        skip_ows(s, i) == k,
    decreases k - i,
{
    if i < k {
        assert(is_ows_byte(s[i]));
        lemma_skip_ows_run(s, i + 1, k);
    }
}

proof fn lemma_trim_ows_run(s: Seq<u8>, lo: int, hi: int, e: int)
    requires
        0 <= lo <= e <= hi <= s.len(),
        forall|j: int| e <= j < hi ==> #[trigger] is_ows_byte(s[j]),
        lo < e ==> !is_ows_byte(s[e - 1]),
    ensures
        trim_ows_end(s, lo, hi) == e,
    decreases hi - e,
{
    if e < hi {
        assert(is_ows_byte(s[hi - 1]));
        lemma_trim_ows_run(s, lo, hi - 1, e);
    }
}

/// A header line `name:` followed by whitespace, a value and whitespace reads as the name and
/// exactly the value: the spaces and tabs around it, and nothing else, are cut off.
pub proof fn law_field_line(name: Seq<u8>, w1: Seq<u8>, v: Seq<u8>, w2: Seq<u8>)
    requires
        name.len() > 0,
        forall|i: int| 0 <= i < name.len() ==> (33 <= #[trigger] name[i] <= 126 && name[i] != 58),
        forall|i: int| 0 <= i < v.len() ==> (#[trigger] v[i] == 9 || 32 <= v[i] <= 126 || v[i]
            >= 128),
        valid_utf8(v),
        v.len() > 0 ==> (v[0] != 32 && v[0] != 9 && v.last() != 32 && v.last() != 9),
        forall|i: int| 0 <= i < w1.len() ==> (#[trigger] w1[i] == 32 || w1[i] == 9),
        forall|i: int| 0 <= i < w2.len() ==> (#[trigger] w2[i] == 32 || w2[i] == 9),
    ensures
        parse_field(name + seq![58u8] + w1 + v + w2) == Some((name, v)),
{
    let l = name + seq![58u8] + w1 + v + w2;
    let nl: int = name.len() as int;
    let a: int = nl + 1 + w1.len();
    let e: int = a + v.len();
    assert forall|j: int| 0 <= j < nl implies l[j] != 58 by {
        assert(l[j] == name[j]);
    }
    assert(l[nl] == 58);
    lemma_find_byte_at(l, 58, 0, nl);
    assert(find_byte(l, 58, 0) == Some(nl));
    assert(l.take(nl) =~= name);
    assert forall|j: int| nl + 1 <= j < a implies #[trigger] is_ows_byte(l[j]) by {
        assert(l[j] == w1[j - nl - 1]);
    }
    assert forall|j: int| e <= j < l.len() implies #[trigger] is_ows_byte(l[j]) by {
        assert(l[j] == w2[j - e]);
    }
    if v.len() > 0 {
        assert(l[a] == v[0]);
        lemma_skip_ows_run(l, nl + 1, a);
        assert(l[e - 1] == v.last());
        lemma_trim_ows_run(l, a, l.len() as int, e);
        assert(l.subrange(a, e) =~= v);
    } else {
        assert forall|j: int| nl + 1 <= j < l.len() implies #[trigger] is_ows_byte(l[j]) by {
            if j < a {
                assert(l[j] == w1[j - nl - 1]);
            } else {
                assert(l[j] == w2[j - e]);
            }
        }
        lemma_skip_ows_run(l, nl + 1, l.len() as int);
        lemma_trim_ows_run(l, l.len() as int, l.len() as int, l.len() as int);
        assert(l.subrange(l.len() as int, l.len() as int) =~= v);
    }
    assert(is_token(name)) by {
        assert forall|i: int| 0 <= i < name.len() implies #[trigger] is_token_byte(name[i]) by {
            assert(33 <= name[i] <= 126 && name[i] != 58);
        }
    }
    assert(is_text(v)) by {
        assert forall|i: int| 0 <= i < v.len() implies #[trigger] is_text_byte(v[i]) by {
            assert(v[i] == 9 || 32 <= v[i] <= 126 || v[i] >= 128);
        }
    }
}

/// A field of a name of visible ASCII but `:`, and a value of tabs, spaces, visible ASCII
/// and bytes above ASCII that neither starts nor ends with a space or a tab.
pub open spec fn plain_field(f: (Seq<char>, Seq<char>)) -> bool {
    let n = encode_utf8(f.0);
    let v = encode_utf8(f.1);
    &&& n.len() > 0
    &&& forall|i: int| 0 <= i < n.len() ==> (33 <= #[trigger] n[i] <= 126 && n[i] != 58)
    &&& forall|i: int| 0 <= i < v.len() ==> (#[trigger] v[i] == 9 || 32 <= v[i] <= 126 || v[i]
        >= 128)
    &&& v.len() > 0 ==> (v[0] != 32 && v[0] != 9 && v.last() != 32 && v.last() != 9)
}

proof fn lemma_plain_header_wf(h: Seq<(Seq<char>, Seq<char>)>)
    requires
        forall|i: int| 0 <= i < h.len() ==> #[trigger] plain_field(h[i]),
        forall|i: int, j: int| 0 <= i < j < h.len() ==> h[i].0 != h[j].0,
    ensures
        crate::http::wf_header(h),
{
    assert forall|i: int| 0 <= i < h.len() implies #[trigger] wf_field(h[i]) by {
        assert(plain_field(h[i]));
        let n = encode_utf8(h[i].0);
        let v = encode_utf8(h[i].1);
        assert forall|k: int| 0 <= k < n.len() implies #[trigger] is_token_byte(n[k]) by {
            assert(33 <= n[k] <= 126 && n[k] != 58);
        }
        assert forall|k: int| 0 <= k < v.len() implies #[trigger] is_text_byte(v[k]) by {
            assert(v[k] == 9 || 32 <= v[k] <= 126 || v[k] >= 128);
        }
    }
    assert(names_distinct(h));
}

/// A request whose target is visible ASCII and whose fields are plain, each name once, is
/// written with its target verbatim and reads back as itself.
pub proof fn law_request_roundtrip_plain(m: RequestModel)
    requires
        forall|i: int|
            0 <= i < encode_utf8(m.url).len() ==> 33 <= #[trigger] encode_utf8(m.url)[i] <= 126,
        forall|i: int| 0 <= i < m.header.len() ==> #[trigger] plain_field(m.header[i]),
        forall|i: int, j: int| 0 <= i < j < m.header.len() ==> m.header[i].0 != m.header[j].0,
    ensures
        request_bytes(m).subrange(
            method_bytes(m.func).len() as int + 1,
            method_bytes(m.func).len() as int + 1 + encode_utf8(m.url).len() as int,
        ) == encode_utf8(m.url),
        parse_request(request_bytes(m)) == Ok::<RequestModel, HttpError>(m),
{
    let t = encode_utf8(m.url);
    assert(is_target(t)) by {
        assert forall|i: int| 0 <= i < t.len() implies #[trigger] is_target_byte(t[i]) by {
            assert(33 <= t[i] <= 126);
        }
    }
    lemma_plain_header_wf(m.header);
    assert(wf_request(m));
    lemma_request_roundtrip(m);
    let ml: int = method_bytes(m.func).len() as int;
    assert(request_bytes(m).subrange(ml + 1, ml + 1 + t.len()) =~= t);
}

/// A response whose reason phrase is text and whose fields are plain, each name once, reads
/// back as itself.
pub proof fn law_response_roundtrip_plain(m: ResponseModel)
    requires
        forall|i: int|
            0 <= i < encode_utf8(m.msg).len() ==> (#[trigger] encode_utf8(m.msg)[i] == 9 || 32
                <= encode_utf8(m.msg)[i] <= 126 || encode_utf8(m.msg)[i] >= 128),
        forall|i: int| 0 <= i < m.headers.len() ==> #[trigger] plain_field(m.headers[i]),
        forall|i: int, j: int| 0 <= i < j < m.headers.len() ==> m.headers[i].0 != m.headers[j].0,
    ensures
        parse_response(response_bytes(m)) == Ok::<ResponseModel, HttpError>(m),
{
    let r = encode_utf8(m.msg);
    assert(is_text(r)) by {
        assert forall|i: int| 0 <= i < r.len() implies #[trigger] is_text_byte(r[i]) by {
            assert(r[i] == 9 || 32 <= r[i] <= 126 || r[i] >= 128);
        }
    }
    lemma_plain_header_wf(m.headers);
    assert(wf_response(m));
    lemma_response_roundtrip(m);
}

/// The delimiters of the format: a line ends in carriage return and line feed; a version
/// opens with `HTTP/` and has a dot between its numbers; the start line is split by
/// spaces; a name ends in a colon.
pub proof fn law_delimiters()
    ensures
        crlf() == seq![13u8, 10u8],
        http_prefix() == seq![72u8, 84u8, 84u8, 80u8, 47u8],
        CR == 13u8 && LF == 10u8 && SP == 32u8 && COLON == 58u8 && DOT == 46u8,
{
}

/// The names of the methods on the wire, and that each name reads as its method.
pub proof fn law_method_names()
    ensures
        method_bytes(HttpRequestFunction::GET) == seq![71u8, 69u8, 84u8],
        method_bytes(HttpRequestFunction::POST) == seq![80u8, 79u8, 83u8, 84u8],
        method_bytes(HttpRequestFunction::PUT) == seq![80u8, 85u8, 84u8],
        method_bytes(HttpRequestFunction::HEAD) == seq![72u8, 69u8, 65u8, 68u8],
        method_bytes(HttpRequestFunction::DELETE) == seq![68u8, 69u8, 76u8, 69u8, 84u8, 69u8],
        method_bytes(HttpRequestFunction::TRACE) == seq![84u8, 82u8, 65u8, 67u8, 69u8],
        method_bytes(HttpRequestFunction::CONNECT) == seq![67u8, 79u8, 78u8, 78u8, 69u8, 67u8, 84u8],
        method_bytes(HttpRequestFunction::OPTIONS) == seq![79u8, 80u8, 84u8, 73u8, 79u8, 78u8, 83u8],
        forall|f: HttpRequestFunction| parse_method(#[trigger] method_bytes(f)) == Some(f),
{
    assert forall|f: HttpRequestFunction| parse_method(#[trigger] method_bytes(f)) == Some(f) by {
        lemma_method_roundtrip(f);
    }
}

/// A version is written as `HTTP/`, the major number's digits, a dot, and the minor
/// number's digits.
pub proof fn law_version_text(v: (u16, u16))
    ensures
        version_bytes(v).take(5) == seq![72u8, 84u8, 84u8, 80u8, 47u8],
        version_bytes(v)[5 + decimal_digits(v.0 as nat).len() as int] == 46u8,
        version_bytes(v).subrange(5, 5 + decimal_digits(v.0 as nat).len() as int)
            == decimal_digits(v.0 as nat),
        version_bytes(v).skip(6 + decimal_digits(v.0 as nat).len() as int) == decimal_digits(
            v.1 as nat,
        ),
{
    let a = decimal_digits(v.0 as nat);
    let s = version_bytes(v);
    assert(s.take(5) =~= seq![72u8, 84u8, 84u8, 80u8, 47u8]);
    assert(s.subrange(5, 5 + a.len() as int) =~= a);
    assert(s.skip(6 + a.len() as int) =~= decimal_digits(v.1 as nat));
}

/// Setting a field in a header where each name occurs once: afterwards each name still
/// occurs once, the field holds the new value, the other fields keep their places and
/// values, and the header grows by one field exactly when the name was absent, at its end.
pub proof fn law_header_insert(h: Seq<(Seq<char>, Seq<char>)>, n: Seq<char>, v: Seq<char>)
    requires
        names_distinct(h),
    ensures
        names_distinct(header_insert(h, n, v)),
        exists|i: int|
            0 <= i < header_insert(h, n, v).len() && #[trigger] header_insert(h, n, v)[i] == (n, v),
        forall|i: int|
            0 <= i < h.len() && h[i].0 != n ==> #[trigger] header_insert(h, n, v)[i] == h[i],
        (forall|i: int| 0 <= i < h.len() ==> #[trigger] h[i].0 != n) ==> header_insert(h, n, v)
            == h.push((n, v)),
        (exists|i: int| 0 <= i < h.len() && #[trigger] h[i].0 == n) ==> header_insert(h, n, v).len()
            == h.len(),
{
    lemma_find_name_props(h, n, 0);
    let r = header_insert(h, n, v);
    match find_name(h, n, 0) {
        Some(k) => {
            assert(r[k] == (n, v));
            assert forall|a: int, b: int| 0 <= a < b < r.len() implies #[trigger] r[a].0
                != #[trigger] r[b].0 by {
                assert(r[a].0 == h[a].0);
                assert(r[b].0 == h[b].0);
            }
        },
        None => {
            assert(r[h.len() as int] == (n, v));
            assert forall|a: int, b: int| 0 <= a < b < r.len() implies #[trigger] r[a].0
                != #[trigger] r[b].0 by {
                assert(r[a] == h[a]);
                if b < h.len() {
                    assert(r[b] == h[b]);
                }
            }
        },
    }
}

proof fn lemma_find_name_props(h: Seq<(Seq<char>, Seq<char>)>, n: Seq<char>, i: int)
    ensures
        find_name(h, n, i) matches Some(k) ==> 0 <= k < h.len() && h[k].0 == n,
        find_name(h, n, i) is None ==> forall|j: int| 0 <= i <= j < h.len() ==> #[trigger] h[j].0 != n,
    decreases h.len() - i,
{
    if 0 <= i < h.len() && h[i].0 != n {
        lemma_find_name_props(h, n, i + 1);
    }
}

} // verus!
