//! End-to-end checks of parsing, dispatch and the exact wire responses.
use minihttp::handlers::{plan_request, respond, should_close, FileAction, FileOutcome};
use minihttp::request::{ParseError, Request};

fn parse(input: &[u8]) -> (Request, usize) {
    Request::new(input, true).expect("request should parse")
}

fn answer(input: &[u8]) -> Vec<u8> {
    let (req, _) = parse(input);
    respond(&req, FileOutcome::NoIo)
}

#[test]
fn echo_basic() {
    let bytes = answer(b"GET /echo/abc HTTP/1.1\r\nHost: localhost\r\n\r\n");
    assert_eq!(
        bytes,
        b"HTTP/1.1 200 OK\r\nContent-Type: text/plain\r\nContent-Length: 3\r\n\r\nabc".to_vec()
    );
}

#[test]
fn echo_empty_segment() {
    let bytes = answer(b"GET /echo/ HTTP/1.1\r\n\r\n");
    assert_eq!(
        bytes,
        b"HTTP/1.1 200 OK\r\nContent-Type: text/plain\r\nContent-Length: 0\r\n\r\n".to_vec()
    );
}

#[test]
fn echo_long_content_length() {
    let bytes = answer(b"GET /echo/abcdefghij HTTP/1.1\r\n\r\n");
    assert_eq!(
        bytes,
        b"HTTP/1.1 200 OK\r\nContent-Type: text/plain\r\nContent-Length: 10\r\n\r\nabcdefghij"
            .to_vec()
    );
}

#[test]
fn echo_without_second_segment_is_not_found() {
    let bytes = answer(b"GET /echo HTTP/1.1\r\n\r\n");
    assert_eq!(bytes, b"HTTP/1.1 404 Not Found\r\n\r\n".to_vec());
}

#[test]
fn echo_connection_header_copied() {
    let bytes = answer(b"GET /echo/hi HTTP/1.1\r\nConnection: close\r\n\r\n");
    assert_eq!(
        bytes,
        b"HTTP/1.1 200 OK\r\nContent-Type: text/plain\r\nContent-Length: 2\r\nConnection: close\r\n\r\nhi"
            .to_vec()
    );
}

#[test]
fn user_agent_reflected() {
    let bytes = answer(b"GET /user-agent HTTP/1.1\r\nUser-Agent: xyz\r\n\r\n");
    assert_eq!(
        bytes,
        b"HTTP/1.1 200 OK\r\nContent-Type: text/plain\r\nContent-Length: 3\r\n\r\nxyz".to_vec()
    );
}

#[test]
fn user_agent_missing_is_not_found() {
    let bytes = answer(b"GET /user-agent HTTP/1.1\r\nHost: x\r\n\r\n");
    assert_eq!(bytes, b"HTTP/1.1 404 Not Found\r\n\r\n".to_vec());
}

#[test]
fn root_is_empty_ok() {
    let bytes = answer(b"GET / HTTP/1.1\r\n\r\n");
    assert_eq!(bytes, b"HTTP/1.1 200 OK\r\n\r\n".to_vec());
}

#[test]
fn unknown_route_is_exactly_not_found() {
    let bytes = answer(b"GET /nonsense HTTP/1.1\r\n\r\n");
    assert_eq!(bytes, b"HTTP/1.1 404 Not Found\r\n\r\n".to_vec());
}

#[test]
fn unknown_method_route_combination_is_not_found() {
    let bytes = answer(b"POST /echo/abc HTTP/1.1\r\n\r\n");
    assert_eq!(bytes, b"HTTP/1.1 404 Not Found\r\n\r\n".to_vec());
}

#[test]
fn files_read_found() {
    let (req, _) = parse(b"GET /files/foo HTTP/1.1\r\n\r\n");
    match plan_request(&req) {
        FileAction::ReadFile { name } => assert_eq!(name, b"foo".to_vec()),
        _ => panic!("expected a read plan"),
    }
    let bytes = respond(
        &req,
        FileOutcome::ReadResult { contents: Some(b"hello".to_vec()) },
    );
    assert_eq!(
        bytes,
        b"HTTP/1.1 200 OK\r\nContent-Type: application/octet-stream\r\nContent-Length: 5\r\n\r\nhello"
            .to_vec()
    );
}

#[test]
fn files_read_missing_is_not_found() {
    let (req, _) = parse(b"GET /files/missing HTTP/1.1\r\n\r\n");
    let bytes = respond(&req, FileOutcome::ReadResult { contents: None });
    assert_eq!(bytes, b"HTTP/1.1 404 Not Found\r\n\r\n".to_vec());
}

#[test]
fn files_round_trip() {
    // A tiny stand-in for the storage collaborator: one slot per name.
    let mut store: Vec<(Vec<u8>, Vec<u8>)> = Vec::new();

    let post = b"POST /files/name HTTP/1.1\r\nContent-Length: 4\r\n\r\nbody";
    let (req, used) = parse(post);
    assert_eq!(used, post.len());
    let accepted = match plan_request(&req) {
        FileAction::WriteFile { name, contents } => {
            store.push((name, contents));
            true
        },
        _ => panic!("expected a write plan"),
    };
    let bytes = respond(&req, FileOutcome::WriteResult { accepted });
    assert_eq!(bytes, b"HTTP/1.1 201 Created\r\n\r\n".to_vec());

    let (req2, _) = parse(b"GET /files/name HTTP/1.1\r\n\r\n");
    let contents = match plan_request(&req2) {
        FileAction::ReadFile { name } => store
            .iter()
            .find(|e| e.0 == name)
            .map(|e| e.1.clone()),
        _ => panic!("expected a read plan"),
    };
    let bytes = respond(&req2, FileOutcome::ReadResult { contents });
    assert_eq!(
        bytes,
        b"HTTP/1.1 200 OK\r\nContent-Type: application/octet-stream\r\nContent-Length: 4\r\n\r\nbody"
            .to_vec()
    );
}

#[test]
fn write_rejected_is_not_found() {
    let (req, _) = parse(b"POST /files/name HTTP/1.1\r\nContent-Length: 1\r\n\r\nx");
    let bytes = respond(&req, FileOutcome::WriteResult { accepted: false });
    assert_eq!(bytes, b"HTTP/1.1 404 Not Found\r\n\r\n".to_vec());
}

#[test]
fn post_body_is_read_exactly() {
    let input = b"POST /files/f HTTP/1.1\r\nContent-Length: 5\r\n\r\nhelloEXTRA";
    let (req, used) = Request::new(input, false).expect("request should parse");
    assert_eq!(req.body(), &b"hello".to_vec());
    assert_eq!(used, input.len() - 5);
}

#[test]
fn header_values_are_trimmed() {
    let (req, _) = parse(b"GET /user-agent HTTP/1.1\r\nUser-Agent:   spaced value  \r\n\r\n");
    let ua = req.headers().get(b"User-Agent").expect("header should be present");
    assert_eq!(ua, &b"spaced value".to_vec());
}

#[test]
fn later_header_replaces_earlier() {
    let (req, _) = parse(b"GET /user-agent HTTP/1.1\r\nUser-Agent: one\r\nUser-Agent: two\r\n\r\n");
    let ua = req.headers().get(b"User-Agent").expect("header should be present");
    assert_eq!(ua, &b"two".to_vec());
}

#[test]
fn unknown_method_fails() {
    assert_eq!(
        Request::new(b"PATCH /x HTTP/1.1\r\n\r\n", true).err(),
        Some(ParseError::MalformedRequestLine)
    );
}

#[test]
fn request_line_without_space_fails() {
    assert_eq!(
        Request::new(b"GETX\r\n\r\n", true).err(),
        Some(ParseError::MalformedRequestLine)
    );
}

#[test]
fn header_without_separator_fails() {
    assert_eq!(
        Request::new(b"GET / HTTP/1.1\r\nBadHeader\r\n\r\n", true).err(),
        Some(ParseError::MalformedHeader)
    );
}

#[test]
fn content_length_not_a_number_fails() {
    assert_eq!(
        Request::new(b"POST /files/f HTTP/1.1\r\nContent-Length: abc\r\n\r\nxyz", true).err(),
        Some(ParseError::InvalidContentLength)
    );
}

#[test]
fn content_length_too_large_fails() {
    assert_eq!(
        Request::new(
            b"POST /files/f HTTP/1.1\r\nContent-Length: 99999999999999999999999999\r\n\r\n",
            true,
        )
        .err(),
        Some(ParseError::InvalidContentLength)
    );
}

#[test]
fn short_body_at_end_of_stream_fails() {
    assert_eq!(
        Request::new(b"POST /files/f HTTP/1.1\r\nContent-Length: 10\r\n\r\nabc", true).err(),
        Some(ParseError::TruncatedBody)
    );
}

#[test]
fn short_body_on_open_stream_is_incomplete() {
    assert_eq!(
        Request::new(b"POST /files/f HTTP/1.1\r\nContent-Length: 10\r\n\r\nabc", false).err(),
        Some(ParseError::Incomplete)
    );
}

#[test]
fn partial_request_line_is_incomplete() {
    assert_eq!(
        Request::new(b"GET /echo/ab", false).err(),
        Some(ParseError::Incomplete)
    );
}

#[test]
fn keep_alive_three_requests_then_close() {
    let mut buf: Vec<u8> = Vec::new();
    buf.extend_from_slice(b"GET /echo/one HTTP/1.1\r\n\r\n");
    buf.extend_from_slice(b"GET /echo/two HTTP/1.1\r\n\r\n");
    buf.extend_from_slice(b"GET / HTTP/1.1\r\n\r\n");
    buf.extend_from_slice(b"GET /echo/bye HTTP/1.1\r\nConnection: keep-alive\r\n\r\n");

    let mut responses: Vec<Vec<u8>> = Vec::new();
    let mut closed = false;
    while !closed && !buf.is_empty() {
        let (req, used) = Request::new(&buf, true).expect("request should parse");
        buf.drain(..used);
        responses.push(respond(&req, FileOutcome::NoIo));
        closed = should_close(&req);
    }
    // The first three requests carry no Connection header, so all of them
    // are answered before any close; the fourth closes whatever its value.
    assert_eq!(responses.len(), 4);
    assert!(closed);
    assert_eq!(
        responses[0],
        b"HTTP/1.1 200 OK\r\nContent-Type: text/plain\r\nContent-Length: 3\r\n\r\none".to_vec()
    );
    assert_eq!(responses[2], b"HTTP/1.1 200 OK\r\n\r\n".to_vec());
    assert_eq!(
        responses[3],
        b"HTTP/1.1 200 OK\r\nContent-Type: text/plain\r\nContent-Length: 3\r\nConnection: keep-alive\r\n\r\nbye"
            .to_vec()
    );
}

#[test]
fn getters_expose_parsed_parts() {
    let (req, _) = parse(b"GET /files/foo HTTP/1.1\r\nHost: h\r\n\r\n");
    assert!(matches!(req.method(), minihttp::request::HttpMethod::Get));
    assert_eq!(req.route(), &vec![b"files".to_vec(), b"foo".to_vec()]);
    assert_eq!(req.headers().get(b"Host"), Some(&b"h".to_vec()));
    assert_eq!(req.body(), &Vec::new());
}

#[test]
fn root_route_is_single_empty_segment() {
    let (req, _) = parse(b"GET / HTTP/1.1\r\n\r\n");
    assert_eq!(req.route(), &vec![Vec::<u8>::new()]);
}
