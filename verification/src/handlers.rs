//! Route dispatch, the handlers, and the per-connection close decision.
//!
//! The file storage is an outside collaborator: the caller learns from
//! `plan_request` which read or write the request asks for, performs it,
//! and hands the outcome to `respond`, which produces the exact wire bytes
//! of the answer.
use vstd::prelude::*;

use crate::headers::{
    accept_encoding_key, assoc_get, assoc_has, assoc_set, connection_key, content_encoding_key,
    content_length_key, content_type_key, user_agent_key,
};
use crate::request::{HttpMethod, Request, RequestModel};
use crate::response::{
    built_bytes, CompressionKind, Response, ResponseModel, StatusCode,
};
use crate::util::{ascii, bytes_eq_lit, dec_repr, find_pair, lemma_find_pair, lit_bytes, scan_pair, usize_to_dec};

verus! {

pub const COMMA: u8 = 44;

/// The one compression scheme this server supports.
pub open spec fn gzip_name() -> Seq<u8> {
    ascii("gzip"@)
}

/// The `", "`-separated pieces of an `Accept-Encoding` value.
pub open spec fn split_list(s: Seq<u8>) -> Seq<Seq<u8>>
    decreases s.len(),
    via split_list_dec
{
    let i = find_pair(s, 0, COMMA, crate::request::SP);
    if i == s.len() {
        seq![s]
    } else {
        seq![s.subrange(0, i)] + split_list(s.subrange(i + 2, s.len() as int))
    }
}

#[via_fn]
proof fn split_list_dec(s: Seq<u8>) {
    lemma_find_pair(s, 0, COMMA, crate::request::SP);
}

/// The requested schemes this server supports, in the client's order.
pub open spec fn supported_of(parts: Seq<Seq<u8>>) -> Seq<Seq<u8>>
    decreases parts.len(),
{
    if parts.len() == 0 {
        Seq::empty()
    } else if parts[0] == gzip_name() {
        seq![parts[0]] + supported_of(parts.drop_first())
    } else {
        supported_of(parts.drop_first())
    }
}

/// The pieces joined back with `", "`.
pub open spec fn join_list(parts: Seq<Seq<u8>>) -> Seq<u8>
    decreases parts.len(),
{
    if parts.len() == 0 {
        Seq::empty()
    } else if parts.len() == 1 {
        parts[0]
    } else {
        parts[0] + ascii(", "@) + join_list(parts.drop_first())
    }
}

/// The supported subset of an `Accept-Encoding` value, order kept.
pub open spec fn negotiated(v: Seq<u8>) -> Seq<Seq<u8>> {
    supported_of(split_list(v))
}

/// Gzip exactly when the client's list names it.
pub open spec fn negotiated_kind(v: Seq<u8>) -> CompressionKind {
    if negotiated(v).contains(gzip_name()) {
        CompressionKind::Gzip
    } else {
        CompressionKind::NoCompression
    }
}

/// The `", "`-separated pieces of `s`.
fn split_list_exec(s: &[u8]) -> (r: Vec<Vec<u8>>)
    ensures
        r.deep_view() == split_list(s@),
    decreases s@.len(),
{
    proof {
        lemma_find_pair(s@, 0, COMMA, crate::request::SP);
    }
    let i = scan_pair(s, 0, COMMA, crate::request::SP);
    if i == s.len() {
        let mut r: Vec<Vec<u8>> = Vec::new();
        r.push(vstd::slice::slice_to_vec(s));
        proof {
            assert(r.deep_view() =~~= split_list(s@));
        }
        r
    } else {
        let head = vstd::slice::slice_to_vec(vstd::slice::slice_subrange(s, 0, i));
        let rest = split_list_exec(vstd::slice::slice_subrange(s, i + 2, s.len()));
        let mut r = rest;
        r.insert(0, head);
        proof {
            assert(r.deep_view() =~~= split_list(s@));
        }
        r
    }
}

/// The supported schemes among `parts`, in order.
fn supported_of_exec(parts: &[Vec<u8>]) -> (r: Vec<Vec<u8>>)
    ensures
        r.deep_view() == supported_of(parts.deep_view()),
    decreases parts@.len(),
{
    if parts.len() == 0 {
        let r: Vec<Vec<u8>> = Vec::new();
        proof {
            assert(r.deep_view() =~~= supported_of(parts.deep_view()));
        }
        r
    } else {
        let tail = vstd::slice::slice_subrange(parts, 1, parts.len());
        proof {
            assert(parts.deep_view().drop_first() =~~= tail.deep_view());
        }
        let rest = supported_of_exec(tail);
        proof {
            reveal_strlit("gzip");
            assert("gzip".is_ascii());
        }
        proof {
            assert(parts.deep_view()[0] =~~= parts@[0]@);
        }
        if bytes_eq_lit(vstd::slice::slice_index_get(parts, 0).as_slice(), "gzip") {
            let head = vstd::slice::slice_to_vec(vstd::slice::slice_index_get(parts, 0).as_slice());
            let mut r = rest;
            r.insert(0, head);
            proof {
                assert(parts.deep_view()[0] == gzip_name());
                assert(r.deep_view() =~~= supported_of(parts.deep_view()));
            }
            r
        } else {
            proof {
                assert(parts.deep_view()[0] != gzip_name());
                assert(rest.deep_view() =~~= supported_of(parts.deep_view()));
            }
            rest
        }
    }
}

/// The pieces joined back with `", "`.
fn join_list_exec(parts: &[Vec<u8>]) -> (r: Vec<u8>)
    ensures
        r@ == join_list(parts.deep_view()),
    decreases parts@.len(),
{
    if parts.len() == 0 {
        let r: Vec<u8> = Vec::new();
        proof {
            assert(r@ =~= join_list(parts.deep_view()));
        }
        r
    } else if parts.len() == 1 {
        let r = vstd::slice::slice_to_vec(vstd::slice::slice_index_get(parts, 0).as_slice());
        proof {
            assert(r@ =~= join_list(parts.deep_view()));
        }
        r
    } else {
        proof {
            reveal_strlit(", ");
            assert(", ".is_ascii());
        }
        let tail = vstd::slice::slice_subrange(parts, 1, parts.len());
        proof {
            assert(parts.deep_view().drop_first() =~~= tail.deep_view());
        }
        let mut r = vstd::slice::slice_to_vec(vstd::slice::slice_index_get(parts, 0).as_slice());
        let sep = lit_bytes(", ");
        r.extend_from_slice(sep.as_slice());
        let rest = join_list_exec(tail);
        r.extend_from_slice(rest.as_slice());
        proof {
            assert(r@ =~= join_list(parts.deep_view()));
        }
        r
    }
}

/// Select from an `Accept-Encoding` value the supported schemes: the
/// joined subset (the `Content-Encoding` value to answer with) and the
/// compression to apply.
pub fn negotiate(value: &[u8]) -> (r: (Vec<u8>, CompressionKind))
    ensures
        r.0@ == join_list(negotiated(value@)),
        r.1 == negotiated_kind(value@),
{
    let parts = split_list_exec(value);
    let supported = supported_of_exec(parts.as_slice());
    let joined = join_list_exec(supported.as_slice());
    let mut has_gzip = false;
    let mut i: usize = 0;
    while i < supported.len()
        invariant
            i <= supported@.len(),
            supported.deep_view() == negotiated(value@),
            has_gzip == exists|j: int| 0 <= j < i && supported.deep_view()[j] == gzip_name(),
        decreases supported.len() - i,
    {
        proof {
            reveal_strlit("gzip");
            assert("gzip".is_ascii());
            assert(supported.deep_view()[i as int] =~~= supported@[i as int]@);
        }
        if bytes_eq_lit(supported[i].as_slice(), "gzip") {
            has_gzip = true;
        }
        i = i + 1;
    }
    let kind = if has_gzip {
        CompressionKind::Gzip
    } else {
        CompressionKind::NoCompression
    };
    proof {
        if has_gzip {
            assert(negotiated(value@).contains(gzip_name()));
        } else {
            assert(!negotiated(value@).contains(gzip_name()));
        }
    }
    (joined, kind)
}

/// `m` with the request's `Connection` header copied onto it, when present.
pub open spec fn with_connection(m: ResponseModel, req: RequestModel) -> ResponseModel {
    match assoc_get(req.headers, connection_key()) {
        Option::Some(v) => ResponseModel {
            headers: assoc_set(m.headers, connection_key(), v),
            ..m
        },
        Option::None => m,
    }
}

/// The echo response: 200, `text/plain`, `Content-Length` of the content,
/// the negotiated encoding when the client sent `Accept-Encoding`, the
/// request's `Connection` header when present, and the content as body.
pub open spec fn echo_model(content: Seq<u8>, req: RequestModel) -> ResponseModel {
    let h0 = assoc_set(
        assoc_set(Seq::empty(), content_type_key(), ascii("text/plain"@)),
        content_length_key(),
        dec_repr(content.len()),
    );
    let base = ResponseModel {
        status: StatusCode::Okay,
        headers: h0,
        body: content,
        compression: CompressionKind::NoCompression,
    };
    let negotiated_m = match assoc_get(req.headers, accept_encoding_key()) {
        Option::Some(v) => ResponseModel {
            headers: assoc_set(h0, content_encoding_key(), join_list(negotiated(v))),
            compression: negotiated_kind(v),
            ..base
        },
        Option::None => base,
    };
    with_connection(negotiated_m, req)
}

/// Build the echo response for `content`.
pub fn handle_echo(content: Vec<u8>, request: &Request) -> (r: Vec<u8>)
    ensures
        r@ == built_bytes(echo_model(content@, request@)),
{
    proof {
        reveal_strlit("text/plain");
        assert("text/plain".is_ascii());
    }
    let cl_value = usize_to_dec(content.len());
    let mut response = Response::new(StatusCode::Okay)
        .with_header(crate::headers::content_type_key_bytes(), lit_bytes("text/plain"))
        .with_header(crate::headers::content_length_key_bytes(), cl_value);
    let ae = request.headers().get(crate::headers::accept_encoding_key_bytes().as_slice());
    response = match ae {
        Option::Some(encodings) => {
            let (joined, kind) = negotiate(encodings.as_slice());
            response
                .with_header(crate::headers::content_encoding_key_bytes(), joined)
                .with_compression(kind)
        },
        Option::None => response,
    };
    response = match request.headers().get(crate::headers::connection_key_bytes().as_slice()) {
        Option::Some(close) => {
            let v = vstd::slice::slice_to_vec(close.as_slice());
            response.with_header(crate::headers::connection_key_bytes(), v)
        },
        Option::None => response,
    };
    let response = response.with_body(content);
    proof {
        assert(response@ == echo_model(response@.body, request@));
    }
    response.build()
}

/// The user-agent response: 200, `text/plain`, the `User-Agent` value as
/// body, the request's `Connection` header when present.
pub open spec fn user_agent_model(req: RequestModel) -> ResponseModel {
    let ua = assoc_get(req.headers, user_agent_key()).unwrap();
    let h0 = assoc_set(
        assoc_set(Seq::empty(), content_type_key(), ascii("text/plain"@)),
        content_length_key(),
        dec_repr(ua.len()),
    );
    with_connection(
        ResponseModel {
            status: StatusCode::Okay,
            headers: h0,
            body: ua,
            compression: CompressionKind::NoCompression,
        },
        req,
    )
}

/// Build the user-agent response. The dispatcher only calls this when the
/// request carries a `User-Agent` header; a request without one is
/// answered with the not-found response instead (see `respond`).
pub fn handle_user_agent(request: &Request) -> (r: Vec<u8>)
    requires
        assoc_has(request@.headers, user_agent_key()),
    ensures
        r@ == built_bytes(user_agent_model(request@)),
{
    proof {
        reveal_strlit("text/plain");
        assert("text/plain".is_ascii());
    }
    let ua = match request.headers().get(crate::headers::user_agent_key_bytes().as_slice()) {
        Option::Some(v) => vstd::slice::slice_to_vec(v.as_slice()),
        Option::None => {
            proof {
                assert(false);
            }
            Vec::new()
        },
    };
    let cl_value = usize_to_dec(ua.len());
    let mut response = Response::new(StatusCode::Okay)
        .with_header(crate::headers::content_type_key_bytes(), lit_bytes("text/plain"))
        .with_header(crate::headers::content_length_key_bytes(), cl_value)
        .with_body(ua);
    response = match request.headers().get(crate::headers::connection_key_bytes().as_slice()) {
        Option::Some(close) => {
            let v = vstd::slice::slice_to_vec(close.as_slice());
            response.with_header(crate::headers::connection_key_bytes(), v)
        },
        Option::None => response,
    };
    response.build()
}

/// The plain not-found response: 404, no headers, no body.
pub open spec fn not_found_model() -> ResponseModel {
    ResponseModel {
        status: StatusCode::NotFound,
        headers: Seq::empty(),
        body: Seq::empty(),
        compression: CompressionKind::NoCompression,
    }
}

/// The root response: 200, no headers, no body.
pub open spec fn root_model() -> ResponseModel {
    ResponseModel {
        status: StatusCode::Okay,
        headers: Seq::empty(),
        body: Seq::empty(),
        compression: CompressionKind::NoCompression,
    }
}

/// The read-file response: when the storage yields the file's bytes, 200
/// with `application/octet-stream`, their count as `Content-Length` and
/// the bytes as body; when it yields nothing (no storage directory,
/// missing file, or a read failure alike), 404. Either way the request's
/// `Connection` header is copied over when present.
pub open spec fn read_file_model(contents: Option<Seq<u8>>, req: RequestModel) -> ResponseModel {
    match contents {
        Option::Some(bytes) => with_connection(
            ResponseModel {
                status: StatusCode::Okay,
                headers: assoc_set(
                    assoc_set(Seq::empty(), content_type_key(), ascii("application/octet-stream"@)),
                    content_length_key(),
                    dec_repr(bytes.len()),
                ),
                body: bytes,
                compression: CompressionKind::NoCompression,
            },
            req,
        ),
        Option::None => with_connection(not_found_model(), req),
    }
}

/// Build the read-file response from what the storage collaborator
/// yielded: the file's bytes, or nothing on any failure.
pub fn handle_read_file(contents: Option<Vec<u8>>, request: &Request) -> (r: Vec<u8>)
    ensures
        r@ == built_bytes(read_file_model(contents.deep_view(), request@)),
{
    let mut response = match contents {
        Option::Some(bytes) => {
            proof {
                reveal_strlit("application/octet-stream");
                assert("application/octet-stream".is_ascii());
            }
            let cl_value = usize_to_dec(bytes.len());
            Response::new(StatusCode::Okay)
                .with_header(
                    crate::headers::content_type_key_bytes(),
                    lit_bytes("application/octet-stream"),
                )
                .with_header(crate::headers::content_length_key_bytes(), cl_value)
                .with_body(bytes)
        },
        Option::None => Response::new(StatusCode::NotFound),
    };
    response = match request.headers().get(crate::headers::connection_key_bytes().as_slice()) {
        Option::Some(close) => {
            let v = vstd::slice::slice_to_vec(close.as_slice());
            response.with_header(crate::headers::connection_key_bytes(), v)
        },
        Option::None => response,
    };
    response.build()
}

/// The write-file response: 201 when the storage accepted the write, 404
/// on any failure; the request's `Connection` header copied over when
/// present.
pub open spec fn create_file_model(accepted: bool, req: RequestModel) -> ResponseModel {
    if accepted {
        with_connection(
            ResponseModel {
                status: StatusCode::Created,
                headers: Seq::empty(),
                body: Seq::empty(),
                compression: CompressionKind::NoCompression,
            },
            req,
        )
    } else {
        with_connection(not_found_model(), req)
    }
}

/// Build the write-file response from whether the storage collaborator
/// accepted the write.
pub fn handle_create_file(accepted: bool, request: &Request) -> (r: Vec<u8>)
    ensures
        r@ == built_bytes(create_file_model(accepted, request@)),
{
    let mut response = if accepted {
        Response::new(StatusCode::Created)
    } else {
        Response::new(StatusCode::NotFound)
    };
    response = match request.headers().get(crate::headers::connection_key_bytes().as_slice()) {
        Option::Some(close) => {
            let v = vstd::slice::slice_to_vec(close.as_slice());
            response.with_header(crate::headers::connection_key_bytes(), v)
        },
        Option::None => response,
    };
    response.build()
}

/// Which handler a request's method and first route segment select.
pub enum HandlerChoice {
    Root,
    Echo,
    UserAgent,
    ReadFile,
    WriteFile,
    NotFound,
}

/// The router table: method and first segment pick the handler; every
/// unmatched combination falls through to the not-found handler, and a
/// matched handler that lacks the segment it needs does too.
pub open spec fn dispatch(req: RequestModel) -> HandlerChoice {
    if req.route.len() == 0 {
        HandlerChoice::NotFound
    } else if req.method == HttpMethod::Get && req.route[0] == ascii("echo"@) {
        if req.route.len() >= 2 {
            HandlerChoice::Echo
        } else {
            HandlerChoice::NotFound
        }
    } else if req.method == HttpMethod::Get && req.route[0] == ascii("user-agent"@) {
        HandlerChoice::UserAgent
    } else if req.method == HttpMethod::Get && req.route[0] == ascii("files"@) {
        if req.route.len() >= 2 {
            HandlerChoice::ReadFile
        } else {
            HandlerChoice::NotFound
        }
    } else if req.method == HttpMethod::Post && req.route[0] == ascii("files"@) {
        if req.route.len() >= 2 {
            HandlerChoice::WriteFile
        } else {
            HandlerChoice::NotFound
        }
    } else if req.method == HttpMethod::Get && req.route[0] == Seq::<u8>::empty() {
        HandlerChoice::Root
    } else {
        HandlerChoice::NotFound
    }
}

/// What the caller must do against the file storage before responding.
pub enum FileAction {
    NoIo,
    ReadFile { name: Vec<u8> },
    WriteFile { name: Vec<u8>, contents: Vec<u8> },
}

/// The abstract form of a `FileAction`.
pub enum FileActionModel {
    NoIo,
    ReadFile { name: Seq<u8> },
    WriteFile { name: Seq<u8>, contents: Seq<u8> },
}

impl View for FileAction {
    type V = FileActionModel;

    open spec fn view(&self) -> FileActionModel {
        match self {
            FileAction::NoIo => FileActionModel::NoIo,
            FileAction::ReadFile { name } => FileActionModel::ReadFile { name: name@ },
            FileAction::WriteFile { name, contents } => FileActionModel::WriteFile {
                name: name@,
                contents: contents@,
            },
        }
    }
}

/// The storage work a request asks for: a read of the named file, a write
/// of the request body to the named file, or none.
pub open spec fn spec_plan(req: RequestModel) -> FileActionModel {
    match dispatch(req) {
        HandlerChoice::ReadFile => FileActionModel::ReadFile { name: req.route[1] },
        HandlerChoice::WriteFile => FileActionModel::WriteFile {
            name: req.route[1],
            contents: req.body,
        },
        _ => FileActionModel::NoIo,
    }
}

/// What the file storage yielded for the planned action.
pub enum FileOutcome {
    NoIo,
    ReadResult { contents: Option<Vec<u8>> },
    WriteResult { accepted: bool },
}

/// The abstract form of a `FileOutcome`.
pub enum FileOutcomeModel {
    NoIo,
    ReadResult { contents: Option<Seq<u8>> },
    WriteResult { accepted: bool },
}

impl View for FileOutcome {
    type V = FileOutcomeModel;

    open spec fn view(&self) -> FileOutcomeModel {
        match self {
            FileOutcome::NoIo => FileOutcomeModel::NoIo,
            FileOutcome::ReadResult { contents } => FileOutcomeModel::ReadResult {
                contents: contents.deep_view(),
            },
            FileOutcome::WriteResult { accepted } => FileOutcomeModel::WriteResult {
                accepted: *accepted,
            },
        }
    }
}

/// The outcome answers the action the request plans.
pub open spec fn outcome_matches(req: RequestModel, o: FileOutcomeModel) -> bool {
    match spec_plan(req) {
        FileActionModel::NoIo => o is NoIo,
        FileActionModel::ReadFile { .. } => o is ReadResult,
        FileActionModel::WriteFile { .. } => o is WriteResult,
    }
}

/// The exact wire bytes answering `req`, given what the storage yielded.
pub open spec fn spec_respond(req: RequestModel, o: FileOutcomeModel) -> Seq<u8> {
    match dispatch(req) {
        HandlerChoice::Echo => built_bytes(echo_model(req.route[1], req)),
        HandlerChoice::UserAgent => if assoc_has(req.headers, user_agent_key()) {
            built_bytes(user_agent_model(req))
        } else {
            built_bytes(not_found_model())
        },
        HandlerChoice::ReadFile => match o {
            FileOutcomeModel::ReadResult { contents } => built_bytes(
                read_file_model(contents, req),
            ),
            _ => built_bytes(not_found_model()),
        },
        HandlerChoice::WriteFile => match o {
            FileOutcomeModel::WriteResult { accepted } => built_bytes(
                create_file_model(accepted, req),
            ),
            _ => built_bytes(not_found_model()),
        },
        HandlerChoice::Root => built_bytes(root_model()),
        HandlerChoice::NotFound => built_bytes(not_found_model()),
    }
}

/// Which storage action `req` asks for, with the name and bytes to use.
pub fn plan_request(request: &Request) -> (a: FileAction)
    ensures
        a@ == spec_plan(request@),
{
    proof {
        reveal_strlit("echo");
        reveal_strlit("user-agent");
        reveal_strlit("files");
        assert("echo".is_ascii());
        assert("user-agent".is_ascii());
        assert("files".is_ascii());
    }
    let route = request.route();
    if route.len() >= 2 {
        proof {
            assert(request@.route[0] =~~= route@[0]@);
            assert(request@.route[1] =~~= route@[1]@);
        }
        let is_files = bytes_eq_lit(route[0].as_slice(), "files");
        match request.method() {
            HttpMethod::Get => {
                if is_files {
                    let name = vstd::slice::slice_to_vec(route[1].as_slice());
                    return FileAction::ReadFile { name };
                }
            },
            HttpMethod::Post => {
                if is_files {
                    let name = vstd::slice::slice_to_vec(route[1].as_slice());
                    let contents = vstd::slice::slice_to_vec(request.body().as_slice());
                    return FileAction::WriteFile { name, contents };
                }
            },
        }
    }
    proof {
        if request@.route.len() > 0 {
            assert(request@.route[0] =~~= route@[0]@);
        }
    }
    FileAction::NoIo
}

/// Answer `req` with the exact wire bytes, given the storage outcome for
/// the action `plan_request` chose.
pub fn respond(request: &Request, outcome: FileOutcome) -> (r: Vec<u8>)
    requires
        outcome_matches(request@, outcome@),
    ensures
        r@ == spec_respond(request@, outcome@),
{
    proof {
        reveal_strlit("echo");
        reveal_strlit("user-agent");
        reveal_strlit("files");
        assert("echo".is_ascii());
        assert("user-agent".is_ascii());
        assert("files".is_ascii());
    }
    let route = request.route();
    if route.len() == 0 {
        return Response::new(StatusCode::NotFound).build();
    }
    proof {
        assert(request@.route[0] =~~= route@[0]@);
        if request@.route.len() >= 2 {
            assert(request@.route[1] =~~= route@[1]@);
        }
    }
    let first = route[0].as_slice();
    match request.method() {
        HttpMethod::Get => {
            if bytes_eq_lit(first, "echo") {
                if route.len() >= 2 {
                    let content = vstd::slice::slice_to_vec(route[1].as_slice());
                    handle_echo(content, request)
                } else {
                    Response::new(StatusCode::NotFound).build()
                }
            } else if bytes_eq_lit(first, "user-agent") {
                if request.headers().contains_key(
                    crate::headers::user_agent_key_bytes().as_slice(),
                ) {
                    handle_user_agent(request)
                } else {
                    Response::new(StatusCode::NotFound).build()
                }
            } else if bytes_eq_lit(first, "files") {
                if route.len() >= 2 {
                    match outcome {
                        FileOutcome::ReadResult { contents } => handle_read_file(
                            contents,
                            request,
                        ),
                        _ => Response::new(StatusCode::NotFound).build(),
                    }
                } else {
                    Response::new(StatusCode::NotFound).build()
                }
            } else if first.len() == 0 {
                proof {
                    assert(request@.route[0] =~= Seq::<u8>::empty());
                }
                Response::new(StatusCode::Okay).build()
            } else {
                Response::new(StatusCode::NotFound).build()
            }
        },
        HttpMethod::Post => {
            if bytes_eq_lit(first, "files") && route.len() >= 2 {
                match outcome {
                    FileOutcome::WriteResult { accepted } => handle_create_file(accepted, request),
                    _ => Response::new(StatusCode::NotFound).build(),
                }
            } else {
                Response::new(StatusCode::NotFound).build()
            }
        },
    }
}

/// A request carrying a `Connection` header, whatever its value, closes
/// the connection once its response is flushed.
pub open spec fn closes_connection(req: RequestModel) -> bool {
    assoc_has(req.headers, connection_key())
}

/// Whether the connection closes after this request's response.
pub fn should_close(request: &Request) -> (r: bool)
    ensures
        r == closes_connection(request@),
{
    request.headers().contains_key(crate::headers::connection_key_bytes().as_slice())
}

} // verus!
