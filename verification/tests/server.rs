use ashina::fio::bench_rounds;
use ashina::http::HttpRequest;
use ashina::server::{read_request, reply_bytes, HttpServerBuilder, BUFFER_SIZE};
use ashina::service::simple_handler;
use ashina::xtask::{build, XTask};

#[test]
fn builder_address() {
    let mut b = HttpServerBuilder::new();
    assert_eq!(b.address(), None);
    b.ip("0.0.0.0");
    assert_eq!(b.address(), None);
    b.port(3344);
    assert_eq!(b.address(), Some("0.0.0.0:3344".to_string()));
    let mut c = HttpServerBuilder::new();
    c.port(0).ip("::1");
    assert_eq!(c.address(), Some("::1:0".to_string()));
    c.port(65535);
    assert_eq!(c.address(), Some("::1:65535".to_string()));
}

#[test]
fn simple_handler_greets() {
    let req = HttpRequest::default();
    let resp = simple_handler(&req).unwrap();
    assert_eq!(resp.status_line.verson, (1, 1));
    assert_eq!(resp.status_line.code, 200);
    assert_eq!(resp.status_line.msg, "OK");
    assert_eq!(
        resp.headers.fields(),
        &vec![("Server".to_string(), "Ashina".to_string())]
    );
    assert_eq!(resp.body, b"Goobye, Sekiro.".to_vec());
    assert_eq!(
        resp.as_bytes(),
        b"HTTP/1.1 200 OK\r\nServer: Ashina\r\n\r\nGoobye, Sekiro.".to_vec()
    );
}

#[test]
fn connection_buffer_is_read_with_its_padding() {
    let mut buf = vec![0u8; BUFFER_SIZE];
    let msg = b"GET /x HTTP/1.1\r\nHost: h\r\n\r\n";
    buf[..msg.len()].copy_from_slice(msg);
    let req = read_request(&buf);
    assert_eq!(req.req_line.url, "/x");
    assert_eq!(req.body.len(), BUFFER_SIZE - msg.len());
    assert!(req.body.iter().all(|b| *b == 0));
}

#[test]
fn unreadable_request_becomes_default() {
    let req = read_request(&[0u8; 16]);
    assert_eq!(req.as_bytes(), HttpRequest::default().as_bytes());
}

#[test]
fn reply_falls_back_to_default_response() {
    assert_eq!(reply_bytes(None), b"HTTP/1.1 500 Internal Server Error\r\n\r\n".to_vec());
    let ok = simple_handler(&HttpRequest::default()).ok();
    assert_eq!(
        reply_bytes(ok),
        b"HTTP/1.1 200 OK\r\nServer: Ashina\r\n\r\nGoobye, Sekiro.".to_vec()
    );
}

#[test]
fn cargo_build_runs() {
    let debug = build(false, Some("/opt/cargo".to_string()));
    assert_eq!(debug.program, "/opt/cargo");
    assert_eq!(debug.package, "ashina");
    assert_eq!(debug.args, vec!["build".to_string()]);
    let release = XTask::build("emma-fio", true, None);
    assert_eq!(release.program, "cargo");
    assert_eq!(release.package, "emma-fio");
    assert_eq!(release.args, vec!["build".to_string(), "--release".to_string()]);
}

#[test]
fn benchmark_rounds() {
    assert_eq!(bench_rounds(0), 0);
    assert_eq!(bench_rounds(100), 0);
    assert_eq!(bench_rounds(512), 1);
    assert_eq!(bench_rounds(1024), 2);
    assert_eq!(bench_rounds(1500), 2);
}
