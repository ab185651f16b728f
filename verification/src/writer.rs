//! Writing the parts of a message: versions and header sections.
use vstd::prelude::*;
use crate::decimal::push_decimal;
use crate::header::HttpHeader;
use crate::http::{field_bytes, header_bytes, header_view, version_bytes};
use crate::wire::{crlf, http_prefix, push_str_bytes, COLON, CR, DOT, LF, SP};

verus! {

/// Appends `HTTP/major.minor` to `out`.
pub fn push_version(out: &mut Vec<u8>, v: (u16, u16))
    ensures
        final(out)@ == old(out)@ + version_bytes(v),
{
    out.push(72);
    out.push(84);
    out.push(84);
    out.push(80);
    out.push(47);
    assert(out@ =~= old(out)@ + http_prefix());
    push_decimal(out, v.0);
    out.push(DOT);
    push_decimal(out, v.1);
    assert(out@ =~= old(out)@ + version_bytes(v));
}

/// Appending a field to a header appends its line to the header's bytes.
pub proof fn lemma_header_bytes_push(h: Seq<(Seq<char>, Seq<char>)>, f: (Seq<char>, Seq<char>))
    ensures
        header_bytes(h.push(f)) == header_bytes(h) + field_bytes(f),
    decreases h.len(),
{
    if h.len() == 0 {
        assert(h.push(f).drop_first() =~= Seq::<(Seq<char>, Seq<char>)>::empty());
        assert(header_bytes(h.push(f).drop_first()) == Seq::<u8>::empty());
        assert(h.push(f)[0] == f);
        assert(header_bytes(h) == Seq::<u8>::empty());
        assert(header_bytes(h.push(f)) =~= header_bytes(h) + field_bytes(f));
    } else {
        lemma_header_bytes_push(h.drop_first(), f);
        assert(h.push(f).drop_first() =~= h.drop_first().push(f));
        assert(h.push(f)[0] == h[0]);
        assert(header_bytes(h.push(f)) =~= header_bytes(h) + field_bytes(f));
    }
}

/// Appends the header lines of `h` to `out`.
pub fn push_header(out: &mut Vec<u8>, header: &HttpHeader)
    ensures
        final(out)@ == old(out)@ + header_bytes(header@),
{
    let h = header.fields();
    let ghost hv = header_view(h@);
    let mut i: usize = 0;
    assert(hv.take(0) =~= Seq::<(Seq<char>, Seq<char>)>::empty());
    while i < h.len()
        invariant
            hv == header_view(h@),
            i <= h@.len(),
            out@ == old(out)@ + header_bytes(hv.take(i as int)),
        decreases h.len() - i,
    {
        let ghost before = out@;
        push_str_bytes(out, &h[i].0);
        out.push(COLON);
        out.push(SP);
        push_str_bytes(out, &h[i].1);
        out.push(CR);
        out.push(LF);
        proof {
            assert(hv.take(i + 1) =~= hv.take(i as int).push(hv[i as int]));
            lemma_header_bytes_push(hv.take(i as int), hv[i as int]);
            assert(out@ =~= before + field_bytes(hv[i as int]));
        }
        i = i + 1;
    }
    assert(hv.take(h@.len() as int) =~= hv);
}

/// Appends `\r\n` to `out`.
pub fn push_crlf(out: &mut Vec<u8>)
    ensures
        final(out)@ == old(out)@ + crlf(),
{
    out.push(CR);
    out.push(LF);
    assert(out@ =~= old(out)@ + crlf());
}

} // verus!
