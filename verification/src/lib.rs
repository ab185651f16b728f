//! HTTP/1.x message model, wire format and server helpers.
use vstd::prelude::*;

pub mod decimal;
pub mod wire;
pub mod http;
pub mod header;
pub mod reader;
pub mod writer;
pub mod laws;
pub mod wire_laws;
pub mod server;
pub mod service;
pub mod xtask;
pub mod fio;

verus! {

} // verus!
