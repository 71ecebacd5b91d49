use minihttp::encoding::apply_encoding;
use minihttp::encoding::finish;
use minihttp::request::Request;
use minihttp::response::Response;
use minihttp::routes::file_read_response;
use minihttp::routes::file_write_response;
use minihttp::routes::route;
use minihttp::routes::user_agent;
use minihttp::routes::Routed;

use std::io::Read;

fn parse(text: &[u8]) -> Request {
    Request::new(text).expect("request should parse")
}

fn ready(r: Routed) -> Response {
    match r {
        Routed::Ready(resp) => resp,
        _ => panic!("expected a finished response"),
    }
}

fn header<'a>(resp: &'a Response, key: &str) -> Option<&'a [u8]> {
    let want: Vec<u8> = key.bytes().map(|b| b.to_ascii_lowercase()).collect();
    resp.headers
        .iter()
        .find(|(k, _)| k.to_ascii_lowercase() == want)
        .map(|(_, v)| v.as_slice())
}

fn gunzip(data: &[u8]) -> Vec<u8> {
    let mut out = Vec::new();
    flate2::read::GzDecoder::new(data)
        .read_to_end(&mut out)
        .expect("gzip data should decode");
    out
}

#[test]
fn echo_returns_the_segment() {
    let rq = parse(b"GET /echo/abc HTTP/1.1\r\n\r\n");
    let resp = ready(route(&rq));
    assert_eq!(resp.status_code, 200);
    assert_eq!(resp.body, b"abc".to_vec());
    assert_eq!(header(&resp, "Content-Length"), Some(b"3".as_slice()));
    assert_eq!(header(&resp, "Content-Type"), Some(b"text/plain".as_slice()));
}

#[test]
fn echo_of_echo_is_rejected() {
    let rq = parse(b"GET /echo/echo HTTP/1.1\r\n\r\n");
    let resp = ready(route(&rq));
    assert_eq!(resp.status_code, 400);
    assert_eq!(resp.status_text, b"Bad Request".to_vec());
}

#[test]
fn echo_without_segment_is_rejected() {
    let rq = parse(b"GET /echo HTTP/1.1\r\n\r\n");
    let resp = ready(route(&rq));
    assert_eq!(resp.status_code, 400);
}

#[test]
fn root_greets() {
    let rq = parse(b"GET / HTTP/1.1\r\n\r\n");
    let resp = ready(route(&rq));
    assert_eq!(resp.status_code, 200);
    assert_eq!(resp.body, b"Hello, World!".to_vec());
    assert!(resp.headers.is_empty());
}

#[test]
fn unknown_route_is_not_found() {
    let rq = parse(b"GET /nothing/here HTTP/1.1\r\n\r\n");
    let resp = ready(route(&rq));
    assert_eq!(resp.status_code, 404);
    assert!(resp.body.is_empty());
}

#[test]
fn user_agent_reflects_the_header() {
    let rq = parse(b"GET /user-agent HTTP/1.1\r\nHost: x\r\nUser-Agent: foo/1.0\r\n\r\n");
    let resp = user_agent(&rq);
    assert_eq!(resp.status_code, 200);
    assert_eq!(resp.body, b"foo/1.0".to_vec());
    assert_eq!(header(&resp, "Content-Length"), Some(b"7".as_slice()));
}

#[test]
fn user_agent_header_key_is_case_insensitive() {
    let rq = parse(b"GET /user-agent HTTP/1.1\r\nuSeR-aGeNt: quux\r\n\r\n");
    let resp = ready(route(&rq));
    assert_eq!(resp.body, b"quux".to_vec());
}

#[test]
fn user_agent_defaults_to_unknown() {
    let rq = parse(b"GET /user-agent HTTP/1.1\r\nHost: x\r\n\r\n");
    let resp = ready(route(&rq));
    assert_eq!(resp.status_code, 200);
    assert_eq!(resp.body, b"unknown".to_vec());
}

#[test]
fn files_get_yields_a_read_of_the_last_segment() {
    let rq = parse(b"GET /files/notes.txt HTTP/1.1\r\n\r\n");
    match route(&rq) {
        Routed::ReadFile(name) => assert_eq!(name, b"notes.txt".to_vec()),
        _ => panic!("expected a file read"),
    }
}

#[test]
fn files_post_yields_a_write_of_the_body() {
    let rq = parse(b"POST /files/data.bin HTTP/1.1\r\nContent-Type: text/plain\r\nhello world\r\n\r\n");
    match route(&rq) {
        Routed::WriteFile(name, body) => {
            assert_eq!(name, b"data.bin".to_vec());
            assert_eq!(body, b"hello world".to_vec());
        },
        _ => panic!("expected a file write"),
    }
}

#[test]
fn files_round_trip_returns_the_stored_bytes() {
    let post = parse(b"POST /files/f HTTP/1.1\r\nstored body\r\n\r\n");
    let stored = match route(&post) {
        Routed::WriteFile(name, body) => {
            assert_eq!(name, b"f".to_vec());
            body
        },
        _ => panic!("expected a file write"),
    };
    let get = parse(b"GET /files/f HTTP/1.1\r\n\r\n");
    match route(&get) {
        Routed::ReadFile(name) => assert_eq!(name, b"f".to_vec()),
        _ => panic!("expected a file read"),
    }
    let resp = file_read_response(Some(stored));
    assert_eq!(resp.status_code, 200);
    assert_eq!(resp.body, b"stored body".to_vec());
    assert_eq!(header(&resp, "Content-Length"), Some(b"11".as_slice()));
    assert_eq!(
        header(&resp, "Content-Type"),
        Some(b"application/octet-stream".as_slice())
    );
}

#[test]
fn files_get_of_a_missing_file_is_not_found() {
    let resp = file_read_response(None);
    assert_eq!(resp.status_code, 404);
    assert!(resp.body.is_empty());
}

#[test]
fn files_write_outcomes() {
    let created = file_write_response(true);
    assert_eq!(created.status_code, 201);
    assert!(created.body.is_empty());
    let failed = file_write_response(false);
    assert_eq!(failed.status_code, 500);
}

#[test]
fn files_with_other_method_is_refused() {
    let rq = parse(b"DELETE /files/f HTTP/1.1\r\n\r\n");
    let resp = ready(route(&rq));
    assert_eq!(resp.status_code, 405);
}

#[test]
fn gzip_negotiation_compresses_and_labels() {
    let rq = parse(b"GET /echo/abcabcabc HTTP/1.1\r\nAccept-Encoding: gzip\r\n\r\n");
    let plain = ready(route(&rq));
    let plain_body = plain.body.clone();
    let resp = apply_encoding(&rq, plain);
    assert_eq!(header(&resp, "Content-Encoding"), Some(b"gzip".as_slice()));
    assert!(resp.body != plain_body);
    assert_eq!(gunzip(&resp.body), plain_body);
    let want_len = resp.body.len().to_string();
    assert_eq!(header(&resp, "Content-Length"), Some(want_len.as_bytes()));
}

#[test]
fn gzip_negotiation_honours_a_value_list() {
    let rq = parse(b"GET / HTTP/1.1\r\nAccept-Encoding: deflate, gzip, br\r\n\r\n");
    let plain = ready(route(&rq));
    let resp = apply_encoding(&rq, plain);
    assert_eq!(header(&resp, "Content-Encoding"), Some(b"gzip".as_slice()));
    assert_eq!(gunzip(&resp.body), b"Hello, World!".to_vec());
}

#[test]
fn no_accept_encoding_leaves_the_response_alone() {
    let rq = parse(b"GET / HTTP/1.1\r\n\r\n");
    let plain = ready(route(&rq));
    let resp = apply_encoding(&rq, plain);
    assert_eq!(resp.body, b"Hello, World!".to_vec());
    assert!(header(&resp, "Content-Encoding").is_none());
}

#[test]
fn other_encodings_are_not_applied() {
    let rq = parse(b"GET / HTTP/1.1\r\nAccept-Encoding: deflate, br\r\n\r\n");
    let resp = apply_encoding(&rq, ready(route(&rq)));
    assert!(header(&resp, "Content-Encoding").is_none());
    assert_eq!(resp.body, b"Hello, World!".to_vec());
}

#[test]
fn to_bytes_is_byte_exact() {
    let resp = Response {
        status_code: 200,
        status_text: b"OK".to_vec(),
        headers: vec![(b"A".to_vec(), b"b".to_vec()), (b"C".to_vec(), b"d e".to_vec())],
        body: b"xy".to_vec(),
    };
    assert_eq!(
        resp.to_bytes(),
        b"HTTP/1.1 200 OK\r\nA: b\r\nC: d e\r\n\r\nxy".to_vec()
    );
}

#[test]
fn to_bytes_keeps_binary_bodies() {
    let resp = Response {
        status_code: 404,
        status_text: b"Not Found".to_vec(),
        headers: vec![],
        body: vec![0, 159, 146, 150],
    };
    assert_eq!(
        resp.to_bytes(),
        [b"HTTP/1.1 404 Not Found\r\n\r\n".as_slice(), &[0, 159, 146, 150]].concat()
    );
}

#[test]
fn parser_splits_method_path_and_headers() {
    let rq = parse(b"POST /files/a.txt HTTP/1.1\r\nHost: localhost\r\nContent-Type: x\r\n\r\n");
    assert_eq!(rq.method, b"POST".to_vec());
    assert_eq!(rq.path, b"/files/a.txt".to_vec());
    assert_eq!(rq.path_parts, vec![b"files".to_vec(), b"a.txt".to_vec()]);
    assert_eq!(
        rq.headers,
        vec![
            (b"Host".to_vec(), b"localhost".to_vec()),
            (b"Content-Type".to_vec(), b"x".to_vec()),
        ]
    );
    assert!(rq.body.is_empty());
}

#[test]
fn parser_drops_empty_path_segments() {
    let rq = parse(b"GET //echo///abc/ HTTP/1.1\r\n\r\n");
    assert_eq!(rq.path_parts, vec![b"echo".to_vec(), b"abc".to_vec()]);
}

#[test]
fn parser_strips_trailing_null_padding() {
    let mut buffer = [0u8; 1024];
    let text = b"POST /files/f HTTP/1.1\r\nraw body";
    buffer[..text.len()].copy_from_slice(text);
    let rq = parse(&buffer);
    assert_eq!(rq.body, b"raw body".to_vec());
}

#[test]
fn parser_rejects_a_single_token() {
    assert!(Request::new(b"GET\r\n\r\n").is_none());
}

#[test]
fn parser_rejects_an_empty_buffer() {
    assert!(Request::new(b"").is_none());
    assert!(Request::new(&[0u8; 64]).is_none());
}

#[test]
fn parser_replaces_invalid_utf8() {
    let rq = parse(b"GET / HTTP/1.1\r\n\xff\r\n\r\n");
    assert_eq!(rq.body, vec![0xef, 0xbf, 0xbd]);
}

#[test]
fn parser_takes_value_after_first_separator() {
    let rq = parse(b"GET / HTTP/1.1\r\nX: a: b\r\n\r\n");
    assert_eq!(rq.headers, vec![(b"X".to_vec(), b"a: b".to_vec())]);
}

#[test]
fn finish_serializes_the_root_greeting() {
    let rq = parse(b"GET / HTTP/1.1\r\n\r\n");
    let bytes = finish(&rq, ready(route(&rq)));
    assert_eq!(bytes, b"HTTP/1.1 200 OK\r\n\r\nHello, World!".to_vec());
}

#[test]
fn finish_compresses_when_asked() {
    let rq = parse(b"GET /echo/xyzxyz HTTP/1.1\r\nAccept-Encoding: gzip\r\n\r\n");
    let bytes = finish(&rq, ready(route(&rq)));
    let text = String::from_utf8_lossy(&bytes).to_string();
    assert!(text.starts_with("HTTP/1.1 200 OK\r\n"));
    assert!(text.contains("Content-Encoding: gzip\r\n"));
    let split_at = bytes.windows(4).position(|w| w == b"\r\n\r\n").unwrap();
    assert_eq!(gunzip(&bytes[split_at + 4..]), b"xyzxyz".to_vec());
}

#[test]
fn doubled_space_makes_the_path_token_empty() {
    let rq = parse(b"GET  /echo/abc HTTP/1.1\r\n\r\n");
    assert_eq!(rq.path, Vec::<u8>::new());
    assert!(rq.path_parts.is_empty());
    let resp = ready(route(&rq));
    assert_eq!(resp.body, b"Hello, World!".to_vec());
}

#[test]
fn surrounding_whitespace_is_trimmed() {
    let rq = parse(b"  \r\nGET /echo/a HTTP/1.1\r\n\r\n  ");
    assert_eq!(rq.method, b"GET".to_vec());
    assert_eq!(ready(route(&rq)).body, b"a".to_vec());
}
