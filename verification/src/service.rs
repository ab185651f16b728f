//! service handler
use vstd::prelude::*;
use vstd::utf8::{encode_utf8, is_ascii_chars, is_ascii_chars_encode_utf8};
use crate::decimal::decimal_digits;
use crate::http::{
    field_bytes, header_bytes, response_bytes, version_bytes, wf_field, wf_header, wf_response,
    HttpError, HttpRequest, HttpResponse, ResponseModel,
};
use crate::laws::lemma_response_roundtrip;
use crate::wire::{is_text_byte, is_token_byte};

verus! {

/// The response `simple_handler` gives: `HTTP/1.1 200 OK`, the field `Server: Ashina`, and
/// the body `Goobye, Sekiro.`.
pub open spec fn simple_reply() -> ResponseModel {
    ResponseModel {
        version: (1, 1),
        code: 200,
        msg: "OK"@,
        headers: seq![("Server"@, "Ashina"@)],
        body: encode_utf8("Goobye, Sekiro."@),
    }
}

proof fn lemma_ascii_encode(c: Seq<char>)
    requires
        is_ascii_chars(c),
    ensures
        encode_utf8(c) == c.map_values(|x: char| x as u8),
{
    is_ascii_chars_encode_utf8(c);
    assert(encode_utf8(c) =~= c.map_values(|x: char| x as u8));
}

/// Answers every request with the same greeting.
pub fn simple_handler(_req: &HttpRequest) -> (r: Result<HttpResponse, HttpError>)
    ensures
        r matches Ok(resp) && resp@ == simple_reply(),
{
    let text = "HTTP/1.1 200 OK\r\nServer: Ashina\r\n\r\nGoobye, Sekiro.";
    let bytes = text.as_bytes();
    proof {
        reveal_strlit("HTTP/1.1 200 OK\r\nServer: Ashina\r\n\r\nGoobye, Sekiro.");
        reveal_strlit("OK");
        reveal_strlit("Server");
        reveal_strlit("Ashina");
        reveal_strlit("Goobye, Sekiro.");
        lemma_ascii_encode(text@);
        lemma_ascii_encode("OK"@);
        lemma_ascii_encode("Server"@);
        lemma_ascii_encode("Ashina"@);
        lemma_ascii_encode("Goobye, Sekiro."@);
        let m = simple_reply();
        let ok = encode_utf8("OK"@);
        let server = encode_utf8("Server"@);
        let ashina = encode_utf8("Ashina"@);
        assert(ok =~= seq![79u8, 75u8]);
        assert(server =~= seq![83u8, 101u8, 114u8, 118u8, 101u8, 114u8]);
        assert(ashina =~= seq![65u8, 115u8, 104u8, 105u8, 110u8, 97u8]);
        reveal_with_fuel(decimal_digits, 3);
        assert(decimal_digits(1) =~= seq![49u8]);
        assert(decimal_digits(200) =~= seq![50u8, 48u8, 48u8]);
        assert(version_bytes((1, 1)) =~= seq![72u8, 84u8, 84u8, 80u8, 47u8, 49u8, 46u8, 49u8]);
        let f = ("Server"@, "Ashina"@);
        assert(m.headers.drop_first() =~= Seq::<(Seq<char>, Seq<char>)>::empty());
        assert(header_bytes(m.headers.drop_first()) == Seq::<u8>::empty());
        assert(header_bytes(m.headers) =~= field_bytes(f));
        assert(bytes@ =~= response_bytes(m));
        assert forall|i: int| 0 <= i < server.len() implies #[trigger] is_token_byte(server[i]) by {
        }
        assert forall|i: int| 0 <= i < ashina.len() implies #[trigger] is_text_byte(ashina[i]) by {
        }
        assert forall|i: int| 0 <= i < ok.len() implies #[trigger] is_text_byte(ok[i]) by {
        }
        assert(wf_field(f));
        assert(wf_header(m.headers));
        assert(wf_response(m));
        lemma_response_roundtrip(m);
    }
    HttpResponse::from_bytes(bytes)
}

} // verus!
