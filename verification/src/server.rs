//! The server's decisions: where it listens, what it makes of the bytes a connection sends,
//! and what it sends back.
use vstd::prelude::*;
use vstd::utf8::{encode_utf8, encode_utf8_valid_utf8, valid_utf8_concat};
use crate::decimal::{
    decimal_digits, digits_value, is_digit, lemma_decimal_digits_props, lemma_parse_decimal_digits,
    parse_u16, push_decimal,
};
use crate::http::{
    default_request, default_response, parse_request, response_bytes, HttpRequest, HttpResponse,
};
use crate::wire::{lemma_ascii_valid_utf8, push_bytes, COLON};

verus! {

/// How many bytes the server reads from a connection.
pub const BUFFER_SIZE: usize = 1024;

/// Where a server is to listen: an IP address and a port, each set or not.
pub struct HttpServerBuilder<'ashina> {
    ip: Option<&'ashina str>,
    port: Option<u16>,
}

impl<'ashina> View for HttpServerBuilder<'ashina> {
    type V = (Option<Seq<char>>, Option<u16>);

    closed spec fn view(&self) -> (Option<Seq<char>>, Option<u16>) {
        (
            match self.ip {
                Some(s) => Some(s@),
                None => None,
            },
            self.port,
        )
    }
}

/// The address `ip:port`.
pub open spec fn address_bytes(ip: Seq<char>, port: u16) -> Seq<u8> {
    encode_utf8(ip) + seq![COLON] + decimal_digits(port as nat)
}

/// The address is the IP, one colon, and a numeral of decimal digits whose value is the
/// port, and that reads back as the port.
pub proof fn law_address_reads_back(ip: Seq<char>, port: u16)
    ensures
        address_bytes(ip, port).take(encode_utf8(ip).len() as int) == encode_utf8(ip),
        address_bytes(ip, port)[encode_utf8(ip).len() as int] == 58u8,
        forall|i: int|
            encode_utf8(ip).len() < i < address_bytes(ip, port).len() ==> 48
                <= #[trigger] address_bytes(ip, port)[i] <= 57,
        digits_value(address_bytes(ip, port).skip(encode_utf8(ip).len() as int + 1)) == port,
        parse_u16(address_bytes(ip, port).skip(encode_utf8(ip).len() as int + 1)) == Some(port),
{
    let a = address_bytes(ip, port);
    let n: int = encode_utf8(ip).len() as int;
    let d = decimal_digits(port as nat);
    lemma_decimal_digits_props(port as nat);
    lemma_parse_decimal_digits(port);
    assert(a.take(n) =~= encode_utf8(ip));
    assert(a.skip(n + 1) =~= d);
    assert forall|i: int| n < i < a.len() implies 48 <= #[trigger] a[i] <= 57 by {
        assert(a[i] == d[i - n - 1]);
        assert(is_digit(d[i - n - 1]));
    }
}

impl<'ashina> HttpServerBuilder<'ashina> {
    /// A builder with neither address nor port.
    pub fn new() -> (r: Self)
        ensures
            r@ == (None::<Seq<char>>, None::<u16>),
    {
        Self { ip: None, port: None }
    }

    /// Sets the IP address.
    pub fn ip(&mut self, ip: &'ashina str) -> (r: &mut Self)
        ensures
            (*r)@ == (Some(ip@), old(self)@.1),
            *final(self) == *final(r),
    {
        self.ip = Some(ip);
        self
    }

    /// Sets the port.
    pub fn port(&mut self, port: u16) -> (r: &mut Self)
        ensures
            (*r)@ == (old(self)@.0, Some(port)),
            *final(self) == *final(r),
    {
        self.port = Some(port);
        self
    }

    /// The address to listen on, `ip:port`, once both are set.
    pub fn address(&self) -> (r: Option<String>)
        ensures
            match (self@.0, self@.1) {
                (Some(ip), Some(port)) => r matches Some(s) && encode_utf8(s@) == address_bytes(
                    ip,
                    port,
                ) && parse_u16(encode_utf8(s@).skip(encode_utf8(ip).len() as int + 1)) == Some(
                    port,
                ),
                _ => r is None,
            },
    {
        match (self.ip, self.port) {
            (Some(ip), Some(port)) => {
                let mut b: Vec<u8> = Vec::new();
                push_bytes(&mut b, ip.as_bytes());
                let ghost ip_bytes = b@;
                b.push(COLON);
                push_decimal(&mut b, port);
                proof {
                    lemma_decimal_digits_props(port as nat);
                    let tail = seq![COLON] + decimal_digits(port as nat);
                    assert(b@ =~= ip_bytes + tail);
                    assert forall|i: int| 0 <= i < tail.len() implies #[trigger] tail[i] < 128 by {
                        if i > 0 {
                            assert(tail[i] == decimal_digits(port as nat)[i - 1]);
                            assert(is_digit(decimal_digits(port as nat)[i - 1]));
                        } else {
                            assert(tail[0] == COLON);
                        }
                    }
                    lemma_ascii_valid_utf8(tail);
                    encode_utf8_valid_utf8(ip@);
                    valid_utf8_concat(ip_bytes, tail);
                }
                let s = crate::wire::utf8_to_string(b.as_slice());
                proof {
                    law_address_reads_back(ip@, port);
                }
                Some(s)
            },
            _ => None,
        }
    }
}

/// The request that the bytes read from a connection hold, or the default request where
/// they hold none.
pub fn read_request(buf: &[u8]) -> (r: HttpRequest)
    ensures
        r@ == match parse_request(buf@) {
            Ok(m) => m,
            Err(_) => default_request(),
        },
{
    match HttpRequest::from_bytes(buf) {
        Ok(q) => q,
        Err(_) => HttpRequest::default(),
    }
}

/// The bytes that answer a connection: those of the service's response, or of the default
/// response where the service gave none.
pub fn reply_bytes(reply: Option<HttpResponse>) -> (r: Vec<u8>)
    ensures
        r@ == response_bytes(
            match reply {
                Some(x) => x@,
                None => default_response(),
            },
        ),
{
    match reply {
        Some(x) => x.as_bytes(),
        None => HttpResponse::default().as_bytes(),
    }
}

} // verus!
