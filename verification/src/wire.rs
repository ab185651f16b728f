//! Bytes of the HTTP/1.x wire format: delimiters, character classes and searches.
use vstd::prelude::*;
use vstd::utf8::*;

verus! {

/// Carriage return.
pub const CR: u8 = 13;
/// Line feed.
pub const LF: u8 = 10;
/// Space, the separator inside a start line.
pub const SP: u8 = 32;
/// The colon that ends a header name.
pub const COLON: u8 = 58;
/// The dot between the major and the minor version number.
pub const DOT: u8 = 46;
/// Horizontal tab.
pub const HTAB: u8 = 9;

/// The line terminator `\r\n`.
pub open spec fn crlf() -> Seq<u8> {
    seq![CR, LF]
}

/// The bytes `HTTP/` that open a protocol version.
pub open spec fn http_prefix() -> Seq<u8> {
    seq![72u8, 84u8, 84u8, 80u8, 47u8]
}

/// Visible ASCII: the bytes a request target may hold.
pub open spec fn is_target_byte(b: u8) -> bool {
    33 <= b <= 126
}

/// Visible ASCII but the colon: the bytes a header name may hold.
pub open spec fn is_token_byte(b: u8) -> bool {
    33 <= b <= 126 && b != COLON
}

/// Visible ASCII, space, horizontal tab and the bytes above ASCII: the bytes of a reason
/// phrase or a header value.
pub open spec fn is_text_byte(b: u8) -> bool {
    b == HTAB || (32 <= b <= 126) || b >= 128
}

/// Optional whitespace: a space or a horizontal tab.
pub open spec fn is_ows_byte(b: u8) -> bool {
    b == SP || b == HTAB
}

/// Every byte is a request-target byte.
pub open spec fn is_target(s: Seq<u8>) -> bool {
    forall|i: int| 0 <= i < s.len() ==> #[trigger] is_target_byte(s[i])
}

/// A header name: one or more token bytes.
pub open spec fn is_token(s: Seq<u8>) -> bool {
    &&& s.len() > 0
    &&& forall|i: int| 0 <= i < s.len() ==> #[trigger] is_token_byte(s[i])
}

/// Every byte is a text byte.
pub open spec fn is_text(s: Seq<u8>) -> bool {
    forall|i: int| 0 <= i < s.len() ==> #[trigger] is_text_byte(s[i])
}

/// Every byte is ASCII.
pub open spec fn is_ascii_bytes(s: Seq<u8>) -> bool {
    forall|i: int| 0 <= i < s.len() ==> #[trigger] s[i] < 128
}

/// The first position at or after `i` that holds `b`.
pub open spec fn find_byte(s: Seq<u8>, b: u8, i: int) -> Option<int>
    decreases s.len() - i,
{
    if i < 0 || i >= s.len() {
        None
    } else if s[i] == b {
        Some(i)
    } else {
        find_byte(s, b, i + 1)
    }
}

/// The first position at or after `i` where `\r\n` starts.
pub open spec fn find_crlf(s: Seq<u8>, i: int) -> Option<int>
    decreases s.len() - i,
{
    if i < 0 || i + 1 >= s.len() {
        None
    } else if s[i] == CR && s[i + 1] == LF {
        Some(i)
    } else {
        find_crlf(s, i + 1)
    }
}

/// The first position at or after `i` that does not hold whitespace (or the end).
pub open spec fn skip_ows(s: Seq<u8>, i: int) -> int
    decreases s.len() - i,
{
    if 0 <= i < s.len() && is_ows_byte(s[i]) {
        skip_ows(s, i + 1)
    } else {
        i
    }
}

/// The end of `s[lo..hi]` once the whitespace at its end is cut off.
pub open spec fn trim_ows_end(s: Seq<u8>, lo: int, hi: int) -> int
    decreases hi - lo,
{
    if lo < hi && is_ows_byte(s[hi - 1]) {
        trim_ows_end(s, lo, hi - 1)
    } else {
        hi
    }
}

/// Where `find_byte` lands: on the byte, with none of it before.
pub proof fn lemma_find_byte_bounds(s: Seq<u8>, b: u8, i: int)
    ensures
        find_byte(s, b, i) matches Some(k) ==> i <= k < s.len() && s[k] == b,
        find_byte(s, b, i) matches Some(k) ==> forall|j: int| i <= j < k ==> s[j] != b,
        find_byte(s, b, i) is None ==> forall|j: int| 0 <= i <= j < s.len() ==> s[j] != b,
    decreases s.len() - i,
{
    if 0 <= i < s.len() && s[i] != b {
        lemma_find_byte_bounds(s, b, i + 1);
    }
}

/// `find_byte` lands on the first occurrence of the byte.
pub proof fn lemma_find_byte_at(s: Seq<u8>, b: u8, i: int, k: int)
    requires
        0 <= i <= k < s.len(),
        s[k] == b,
        forall|j: int| i <= j < k ==> s[j] != b,
    ensures
        find_byte(s, b, i) == Some(k),
    decreases k - i,
{
    if i < k {
        lemma_find_byte_at(s, b, i + 1, k);
    }
}

/// Where `find_crlf` lands: on a `\r\n`, with none before.
pub proof fn lemma_find_crlf_bounds(s: Seq<u8>, i: int)
    ensures
        find_crlf(s, i) matches Some(k) ==> 0 <= i <= k && k + 1 < s.len() && s[k] == CR && s[k + 1] == LF,
        find_crlf(s, i) matches Some(k) ==> forall|j: int| i <= j < k ==> !(#[trigger] s[j] == CR && s[j + 1] == LF),
    decreases s.len() - i,
{
    if 0 <= i && i + 1 < s.len() && !(s[i] == CR && s[i + 1] == LF) {
        lemma_find_crlf_bounds(s, i + 1);
    }
}

/// `find_crlf` lands on the first carriage return when a line feed follows it.
pub proof fn lemma_find_crlf_at(s: Seq<u8>, i: int, k: int)
    requires
        0 <= i <= k,
        k + 1 < s.len(),
        s[k] == CR,
        s[k + 1] == LF,
        forall|j: int| i <= j < k ==> s[j] != CR,
    ensures
        find_crlf(s, i) == Some(k),
    decreases k - i,
{
    if i < k {
        lemma_find_crlf_at(s, i + 1, k);
    }
}

/// `skip_ows` stays in bounds and stops on a byte that is not whitespace.
pub proof fn lemma_skip_ows_bounds(s: Seq<u8>, i: int)
    requires
        0 <= i <= s.len(),
    ensures
        i <= skip_ows(s, i) <= s.len(),
        skip_ows(s, i) < s.len() ==> !is_ows_byte(s[skip_ows(s, i)]),
    decreases s.len() - i,
{
    if i < s.len() && is_ows_byte(s[i]) {
        lemma_skip_ows_bounds(s, i + 1);
    }
}

/// `trim_ows_end` stays in bounds and stops after a byte that is not whitespace.
pub proof fn lemma_trim_ows_end_bounds(s: Seq<u8>, lo: int, hi: int)
    requires
        lo <= hi,
    ensures
        lo <= trim_ows_end(s, lo, hi) <= hi,
        lo < trim_ows_end(s, lo, hi) ==> !is_ows_byte(s[trim_ows_end(s, lo, hi) - 1]),
    decreases hi - lo,
{
    if lo < hi && is_ows_byte(s[hi - 1]) {
        lemma_trim_ows_end_bounds(s, lo, hi - 1);
    }
}

/// ASCII bytes are valid UTF-8.
pub proof fn lemma_ascii_valid_utf8(s: Seq<u8>)
    requires
        is_ascii_bytes(s),
    ensures
        valid_utf8(s),
{
    assert(s.subrange(0, 0) =~= Seq::<u8>::empty());
    assert(valid_utf8(Seq::<u8>::empty()));
    assert(partial_valid_utf8(s, 0));
    assert forall|i: int| 0 <= 0 <= i < s.len() <= s.len() implies #[trigger] is_leading_byte_width_1(
        s[i],
    ) by {
        assert(s[i] < 128);
    }
    partial_valid_utf8_extend_ascii_block(s, 0, s.len() as int);
    assert(s.subrange(0, s.len() as int) =~= s);
}

/// The first position at or after `from` in `s` that holds `b`.
pub fn find_byte_from(s: &[u8], b: u8, from: usize) -> (r: Option<usize>)
    ensures
        match r {
            Some(k) => find_byte(s@, b, from as int) == Some(k as int),
            None => find_byte(s@, b, from as int) is None,
        },
        r matches Some(k) ==> from <= k < s@.len() && s@[k as int] == b,
{
    proof {
        lemma_find_byte_bounds(s@, b, from as int);
    }
    let mut i = from;
    while i < s.len()
        invariant
            from <= i,
            find_byte(s@, b, from as int) == find_byte(s@, b, i as int),
        decreases s.len() - i,
    {
        if s[i] == b {
            return Some(i);
        }
        i = i + 1;
    }
    None
}

/// The first position at or after `from` in `s` where `\r\n` starts.
pub fn find_crlf_from(s: &[u8], from: usize) -> (r: Option<usize>)
    ensures
        match r {
            Some(k) => find_crlf(s@, from as int) == Some(k as int),
            None => find_crlf(s@, from as int) is None,
        },
        r matches Some(k) ==> from <= k && k + 1 < s@.len(),
{
    proof {
        lemma_find_crlf_bounds(s@, from as int);
    }
    let mut i = from;
    while i < s.len() && s.len() - i >= 2
        invariant
            from <= i,
            find_crlf(s@, from as int) == find_crlf(s@, i as int),
        decreases s.len() - i,
    {
        if s[i] == CR && s[i + 1] == LF {
            return Some(i);
        }
        i = i + 1;
    }
    None
}

/// The first position at or after `from` in `s` that does not hold whitespace.
pub fn skip_ows_from(s: &[u8], from: usize) -> (r: usize)
    requires
        from <= s@.len(),
    ensures
        r as int == skip_ows(s@, from as int),
        from <= r <= s@.len(),
{
    proof {
        lemma_skip_ows_bounds(s@, from as int);
    }
    let mut i = from;
    while i < s.len() && (s[i] == SP || s[i] == HTAB)
        invariant
            from <= i <= s@.len(),
            skip_ows(s@, from as int) == skip_ows(s@, i as int),
        decreases s.len() - i,
    {
        i = i + 1;
    }
    i
}

/// The end of `s[lo..hi]` once the whitespace at its end is cut off.
pub fn trim_ows_end_at(s: &[u8], lo: usize, hi: usize) -> (r: usize)
    requires
        lo <= hi <= s@.len(),
    ensures
        r as int == trim_ows_end(s@, lo as int, hi as int),
        lo <= r <= hi,
{
    proof {
        lemma_trim_ows_end_bounds(s@, lo as int, hi as int);
    }
    let mut j = hi;
    while lo < j && (s[j - 1] == SP || s[j - 1] == HTAB)
        invariant
            lo <= j <= hi <= s@.len(),
            trim_ows_end(s@, lo as int, hi as int) == trim_ows_end(s@, lo as int, j as int),
        decreases j - lo,
    {
        j = j - 1;
    }
    j
}

/// Whether every byte of `s` may stand in a request target.
pub fn check_target(s: &[u8]) -> (r: bool)
    ensures
        r == is_target(s@),
        r ==> is_ascii_bytes(s@),
{
    let mut i: usize = 0;
    while i < s.len()
        invariant
            i <= s@.len(),
            forall|j: int| 0 <= j < i ==> #[trigger] is_target_byte(s@[j]),
        decreases s.len() - i,
    {
        if !(33 <= s[i] && s[i] <= 126) {
            assert(!is_target_byte(s@[i as int]));
            return false;
        }
        i = i + 1;
    }
    assert forall|j: int| 0 <= j < s@.len() implies #[trigger] s@[j] < 128 by {
        assert(is_target_byte(s@[j]));
    }
    true
}

/// Whether `s` is a header name.
pub fn check_token(s: &[u8]) -> (r: bool)
    ensures
        r == is_token(s@),
        r ==> is_ascii_bytes(s@),
{
    if s.len() == 0 {
        return false;
    }
    let mut i: usize = 0;
    while i < s.len()
        invariant
            i <= s@.len(),
            forall|j: int| 0 <= j < i ==> #[trigger] is_token_byte(s@[j]),
        decreases s.len() - i,
    {
        if !(33 <= s[i] && s[i] <= 126 && s[i] != COLON) {
            assert(!is_token_byte(s@[i as int]));
            return false;
        }
        i = i + 1;
    }
    assert forall|j: int| 0 <= j < s@.len() implies #[trigger] s@[j] < 128 by {
        assert(is_token_byte(s@[j]));
    }
    true
}

/// Whether every byte of `s` is a text byte.
pub fn check_text(s: &[u8]) -> (r: bool)
    ensures
        r == is_text(s@),
{
    let mut i: usize = 0;
    while i < s.len()
        invariant
            i <= s@.len(),
            forall|j: int| 0 <= j < i ==> #[trigger] is_text_byte(s@[j]),
        decreases s.len() - i,
    {
        if !(s[i] == HTAB || (32 <= s[i] && s[i] <= 126) || s[i] >= 128) {
            assert(!is_text_byte(s@[i as int]));
            return false;
        }
        i = i + 1;
    }
    true
}

/// Appends `b` to `out`.
pub fn push_bytes(out: &mut Vec<u8>, b: &[u8])
    ensures
        final(out)@ == old(out)@ + b@,
{
    let mut i: usize = 0;
    while i < b.len()
        invariant
            i <= b@.len(),
            out@ == old(out)@ + b@.subrange(0, i as int),
        decreases b.len() - i,
    {
        out.push(b[i]);
        i = i + 1;
        assert(out@ =~= old(out)@ + b@.subrange(0, i as int));
    }
    assert(b@.subrange(0, b@.len() as int) =~= b@);
}

/// Calls `std::str::from_utf8`, which the standard library documents to succeed exactly on
/// valid UTF-8 and then to return the string whose encoding is the given bytes.
#[verifier::external_body]
fn str_from_utf8(bytes: &[u8]) -> (r: Option<&str>)
    ensures
        r is Some <==> valid_utf8(bytes@),
        r matches Some(s) ==> s@ == decode_utf8(bytes@),
{
    std::str::from_utf8(bytes).ok()
}

/// The string that the ASCII bytes `b` spell.
pub fn ascii_to_string(b: &[u8]) -> (r: String)
    requires
        is_ascii_bytes(b@),
    ensures
        valid_utf8(b@),
        r@ == decode_utf8(b@),
        encode_utf8(r@) == b@,
{
    proof {
        lemma_ascii_valid_utf8(b@);
    }
    utf8_to_string(b)
}

/// The string whose UTF-8 encoding is `b`, where `b` is valid UTF-8.
pub fn utf8_checked(b: &[u8]) -> (r: Option<String>)
    ensures
        r is Some <==> valid_utf8(b@),
        r matches Some(s) ==> s@ == decode_utf8(b@) && encode_utf8(s@) == b@,
{
    match str_from_utf8(b) {
        Some(s) => {
            proof {
                decode_utf8_encode_utf8(b@);
            }
            Some(s.to_owned())
        },
        None => None,
    }
}

/// The string whose UTF-8 encoding is `b`.
pub fn utf8_to_string(b: &[u8]) -> (r: String)
    requires
        valid_utf8(b@),
    ensures
        r@ == decode_utf8(b@),
        encode_utf8(r@) == b@,
{
    proof {
        decode_utf8_encode_utf8(b@);
    }
    match str_from_utf8(b) {
        Some(s) => s.to_owned(),
        None => {
            proof {
                assert(false);
            }
            String::new()
        },
    }
}

/// Appends the UTF-8 encoding of `s` to `out`.
pub fn push_str_bytes(out: &mut Vec<u8>, s: &String)
    ensures
        final(out)@ == old(out)@ + encode_utf8(s@),
{
    let b = s.as_str().as_bytes();
    push_bytes(out, b);
}

} // verus!
