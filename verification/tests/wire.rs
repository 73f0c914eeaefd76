//! Checks of the response builder and of gzip compression on the wire.
use std::io::Read;

use minihttp::handlers::{negotiate, respond, FileOutcome};
use minihttp::request::Request;
use minihttp::response::{CompressionKind, Response, StatusCode};

fn gunzip(data: &[u8]) -> Vec<u8> {
    let mut decoder = flate2::read::GzDecoder::new(data);
    let mut out = Vec::new();
    decoder.read_to_end(&mut out).expect("body should be a gzip stream");
    out
}

/// The body is whatever follows the first blank line.
fn split_head_body(wire: &[u8]) -> (Vec<u8>, Vec<u8>) {
    let sep = b"\r\n\r\n";
    let pos = wire
        .windows(sep.len())
        .position(|w| w == sep)
        .expect("response should contain a blank line");
    (wire[..pos + sep.len()].to_vec(), wire[pos + sep.len()..].to_vec())
}

#[test]
fn echo_gzip_round_trips() {
    let input = b"GET /echo/abc HTTP/1.1\r\nAccept-Encoding: gzip\r\n\r\n";
    let (req, _) = Request::new(input, true).expect("request should parse");
    let wire = respond(&req, FileOutcome::NoIo);
    let (head, body) = split_head_body(&wire);
    let head_text = String::from_utf8(head).unwrap();
    assert!(head_text.starts_with("HTTP/1.1 200 OK\r\n"));
    assert!(head_text.contains("Content-Encoding: gzip\r\n"));
    assert!(head_text.contains(&format!("Content-Length: {}\r\n", body.len())));
    // A gzip stream is not the plain content.
    assert_ne!(body, b"abc".to_vec());
    assert_eq!(gunzip(&body), b"abc".to_vec());
}

#[test]
fn echo_gzip_among_others() {
    let input = b"GET /echo/hey HTTP/1.1\r\nAccept-Encoding: deflate, gzip, br\r\n\r\n";
    let (req, _) = Request::new(input, true).expect("request should parse");
    let wire = respond(&req, FileOutcome::NoIo);
    let (head, body) = split_head_body(&wire);
    let head_text = String::from_utf8(head).unwrap();
    assert!(head_text.contains("Content-Encoding: gzip\r\n"));
    assert_eq!(gunzip(&body), b"hey".to_vec());
}

#[test]
fn echo_unsupported_encoding_stays_plain() {
    let input = b"GET /echo/abc HTTP/1.1\r\nAccept-Encoding: deflate\r\n\r\n";
    let (req, _) = Request::new(input, true).expect("request should parse");
    let wire = respond(&req, FileOutcome::NoIo);
    // The supported subset is empty: the header is present but names
    // nothing, and the body stays uncompressed.
    assert_eq!(
        wire,
        b"HTTP/1.1 200 OK\r\nContent-Type: text/plain\r\nContent-Length: 3\r\nContent-Encoding: \r\n\r\nabc"
            .to_vec()
    );
}

#[test]
fn negotiate_keeps_client_order() {
    let (joined, kind) = negotiate(b"gzip, deflate, gzip");
    assert_eq!(joined, b"gzip, gzip".to_vec());
    assert!(matches!(kind, CompressionKind::Gzip));

    let (joined, kind) = negotiate(b"br");
    assert_eq!(joined, Vec::<u8>::new());
    assert!(matches!(kind, CompressionKind::NoCompression));
}

#[test]
fn builder_emits_headers_in_insertion_order() {
    let wire = Response::new(StatusCode::Okay)
        .with_header(b"A".to_vec(), b"1".to_vec())
        .with_header(b"B".to_vec(), b"2".to_vec())
        .with_body(b"xy".to_vec())
        .build();
    assert_eq!(wire, b"HTTP/1.1 200 OK\r\nA: 1\r\nB: 2\r\n\r\nxy".to_vec());
}

#[test]
fn builder_replaces_repeated_header_in_place() {
    let wire = Response::new(StatusCode::Created)
        .with_header(b"A".to_vec(), b"1".to_vec())
        .with_header(b"B".to_vec(), b"2".to_vec())
        .with_header(b"A".to_vec(), b"3".to_vec())
        .build();
    assert_eq!(wire, b"HTTP/1.1 201 Created\r\nA: 3\r\nB: 2\r\n\r\n".to_vec());
}

#[test]
fn builder_fixes_content_length_when_compressing() {
    let wire = Response::new(StatusCode::Okay)
        .with_header(b"Content-Length".to_vec(), b"5".to_vec())
        .with_body(b"hello".to_vec())
        .with_compression(CompressionKind::Gzip)
        .build();
    let (head, body) = split_head_body(&wire);
    let head_text = String::from_utf8(head).unwrap();
    assert!(head_text.contains(&format!("Content-Length: {}\r\n", body.len())));
    assert_eq!(gunzip(&body), b"hello".to_vec());
}

#[test]
fn status_lines_are_exact() {
    assert_eq!(
        Response::new(StatusCode::Okay).build(),
        b"HTTP/1.1 200 OK\r\n\r\n".to_vec()
    );
    assert_eq!(
        Response::new(StatusCode::Created).build(),
        b"HTTP/1.1 201 Created\r\n\r\n".to_vec()
    );
    assert_eq!(
        Response::new(StatusCode::NotFound).build(),
        b"HTTP/1.1 404 Not Found\r\n\r\n".to_vec()
    );
}
