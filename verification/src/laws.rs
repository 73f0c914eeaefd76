//! What the routes promise, proved from the handler models.
use vstd::prelude::*;

use crate::handlers::{
    create_file_model, dispatch, echo_model, gzip_name, join_list, negotiated, not_found_model,
    read_file_model, spec_respond, user_agent_model, FileOutcomeModel, HandlerChoice,
};
use crate::headers::{
    accept_encoding_key, assoc_get, assoc_has, connection_key, content_encoding_key,
    content_length_key, lemma_assoc_set_get_other, lemma_assoc_set_get_same,
    lemma_header_keys_distinct, serialize_headers, user_agent_key,
};
use crate::request::RequestModel;
use crate::response::{
    built_bytes, final_body, final_headers, gzip_of, status_line, CompressionKind, StatusCode,
};
use crate::util::{ascii, dec_repr};

verus! {

/// Law: without content negotiation, the echo response is a 200 whose
/// body is exactly the content and whose `Content-Length` header holds
/// the content's byte count.
pub proof fn lemma_echo_plain(content: Seq<u8>, req: RequestModel)
    requires
        !assoc_has(req.headers, accept_encoding_key()),
    ensures
        echo_model(content, req).status == StatusCode::Okay,
        echo_model(content, req).compression == CompressionKind::NoCompression,
        final_body(echo_model(content, req)) == content,
        assoc_get(final_headers(echo_model(content, req)), content_length_key()) == Some(
            dec_repr(content.len()),
        ),
        assoc_get(final_headers(echo_model(content, req)), content_encoding_key()) is None,
        built_bytes(echo_model(content, req)) == status_line(StatusCode::Okay)
            + serialize_headers(echo_model(content, req).headers) + ascii("\r\n"@) + content,
{
    lemma_header_keys_distinct();
    let h0 = echo_base_headers(content);
    match assoc_get(req.headers, connection_key()) {
        Option::Some(cv) => {
            lemma_assoc_set_get_other(h0, connection_key(), cv, content_length_key());
            lemma_assoc_set_get_other(h0, connection_key(), cv, content_encoding_key());
        },
        Option::None => {},
    }
    let inner = crate::headers::assoc_set(
        Seq::empty(),
        crate::headers::content_type_key(),
        ascii("text/plain"@),
    );
    lemma_assoc_set_get_same(inner, content_length_key(), dec_repr(content.len()));
    lemma_assoc_set_get_other(inner, content_length_key(), dec_repr(content.len()),
        content_encoding_key());
    lemma_assoc_set_get_other(
        Seq::empty(),
        crate::headers::content_type_key(),
        ascii("text/plain"@),
        content_encoding_key(),
    );
}

/// The headers the echo handler sets before negotiation.
spec fn echo_base_headers(content: Seq<u8>) -> Seq<(Seq<u8>, Seq<u8>)> {
    crate::headers::assoc_set(
        crate::headers::assoc_set(
            Seq::empty(),
            crate::headers::content_type_key(),
            ascii("text/plain"@),
        ),
        content_length_key(),
        dec_repr(content.len()),
    )
}

/// Law: when the client's `Accept-Encoding` list includes gzip, the echo
/// response is compressed: it carries a `Content-Encoding` header naming
/// the negotiated schemes, its body is the gzip stream of the content,
/// and its `Content-Length` header holds that stream's byte count.
pub proof fn lemma_echo_gzip(content: Seq<u8>, req: RequestModel, v: Seq<u8>)
    requires
        assoc_get(req.headers, accept_encoding_key()) == Some(v),
        negotiated(v).contains(gzip_name()),
    ensures
        echo_model(content, req).status == StatusCode::Okay,
        echo_model(content, req).compression == CompressionKind::Gzip,
        final_body(echo_model(content, req)) == gzip_of(content),
        assoc_get(final_headers(echo_model(content, req)), content_encoding_key()) == Some(
            join_list(negotiated(v)),
        ),
        assoc_get(final_headers(echo_model(content, req)), content_length_key()) == Some(
            dec_repr(gzip_of(content).len()),
        ),
{
    lemma_header_keys_distinct();
    let h0 = echo_base_headers(content);
    let h1 = crate::headers::assoc_set(h0, content_encoding_key(), join_list(negotiated(v)));
    let m = echo_model(content, req);

    // Content-Length is present before the builder replaces its value.
    lemma_assoc_set_get_same(
        crate::headers::assoc_set(
            Seq::empty(),
            crate::headers::content_type_key(),
            ascii("text/plain"@),
        ),
        content_length_key(),
        dec_repr(content.len()),
    );
    lemma_assoc_set_get_other(h0, content_encoding_key(), join_list(negotiated(v)),
        content_length_key());
    match assoc_get(req.headers, connection_key()) {
        Option::Some(cv) => {
            lemma_assoc_set_get_other(h1, connection_key(), cv, content_length_key());
            lemma_assoc_set_get_other(h1, connection_key(), cv, content_encoding_key());
        },
        Option::None => {},
    }
    lemma_assoc_set_get_same(h0, content_encoding_key(), join_list(negotiated(v)));

    // The finalized headers: Content-Length rewritten to the compressed
    // length, Content-Encoding untouched.
    assert(assoc_has(m.headers, content_length_key()));
    lemma_assoc_set_get_same(m.headers, content_length_key(), dec_repr(gzip_of(content).len()));
    lemma_assoc_set_get_other(
        m.headers,
        content_length_key(),
        dec_repr(gzip_of(content).len()),
        content_encoding_key(),
    );
}

/// Law: a write the storage accepted is answered 201 Created, and a read
/// that yields bytes `b` — as a read after that write does, on a storage
/// that returns what was last written — is answered 200 with exactly `b`
/// as body and `b`'s byte count as `Content-Length`.
pub proof fn lemma_files_round_trip(b: Seq<u8>, post_req: RequestModel, get_req: RequestModel)
    requires
        dispatch(post_req) == HandlerChoice::WriteFile,
        dispatch(get_req) == HandlerChoice::ReadFile,
    ensures
        create_file_model(true, post_req).status == StatusCode::Created,
        spec_respond(post_req, FileOutcomeModel::WriteResult { accepted: true }) == built_bytes(
            create_file_model(true, post_req),
        ),
        read_file_model(Some(b), get_req).status == StatusCode::Okay,
        final_body(read_file_model(Some(b), get_req)) == b,
        assoc_get(final_headers(read_file_model(Some(b), get_req)), content_length_key()) == Some(
            dec_repr(b.len()),
        ),
        spec_respond(get_req, FileOutcomeModel::ReadResult { contents: Some(b) }) == built_bytes(
            read_file_model(Some(b), get_req),
        ),
{
    lemma_header_keys_distinct();
    let inner = crate::headers::assoc_set(
        Seq::empty(),
        crate::headers::content_type_key(),
        ascii("application/octet-stream"@),
    );
    lemma_assoc_set_get_same(inner, content_length_key(), dec_repr(b.len()));
    match assoc_get(get_req.headers, connection_key()) {
        Option::Some(cv) => {
            lemma_assoc_set_get_other(
                crate::headers::assoc_set(inner, content_length_key(), dec_repr(b.len())),
                connection_key(),
                cv,
                content_length_key(),
            );
        },
        Option::None => {},
    }
}

/// Law: a read that yields nothing — no storage directory, a missing
/// file, or a failed read alike — is answered 404.
pub proof fn lemma_read_missing(req: RequestModel)
    requires
        dispatch(req) == HandlerChoice::ReadFile,
    ensures
        read_file_model(Option::None, req).status == StatusCode::NotFound,
        spec_respond(req, FileOutcomeModel::ReadResult { contents: Option::None }) == built_bytes(
            read_file_model(Option::None, req),
        ),
        !assoc_has(req.headers, connection_key()) ==> spec_respond(
            req,
            FileOutcomeModel::ReadResult { contents: Option::None },
        ) == built_bytes(not_found_model()),
{
}

/// Law: the user-agent route answers 200 with the request's `User-Agent`
/// value as body and its byte count as `Content-Length` when the header
/// is present; a request without it is answered with the not-found
/// response — the guard the dispatcher applies.
pub proof fn lemma_user_agent(req: RequestModel, o: FileOutcomeModel)
    requires
        dispatch(req) == HandlerChoice::UserAgent,
    ensures
        assoc_has(req.headers, user_agent_key()) ==> {
            &&& user_agent_model(req).status == StatusCode::Okay
            &&& final_body(user_agent_model(req)) == assoc_get(
                req.headers,
                user_agent_key(),
            ).unwrap()
            &&& assoc_get(final_headers(user_agent_model(req)), content_length_key()) == Some(
                dec_repr(assoc_get(req.headers, user_agent_key()).unwrap().len()),
            )
            &&& spec_respond(req, o) == built_bytes(user_agent_model(req))
        },
        !assoc_has(req.headers, user_agent_key()) ==> spec_respond(req, o) == built_bytes(
            not_found_model(),
        ),
{
    lemma_header_keys_distinct();
    if assoc_has(req.headers, user_agent_key()) {
        let ua = assoc_get(req.headers, user_agent_key()).unwrap();
        let h0 = crate::headers::assoc_set(
            crate::headers::assoc_set(
                Seq::empty(),
                crate::headers::content_type_key(),
                ascii("text/plain"@),
            ),
            content_length_key(),
            dec_repr(ua.len()),
        );
        lemma_assoc_set_get_same(
            crate::headers::assoc_set(
                Seq::empty(),
                crate::headers::content_type_key(),
                ascii("text/plain"@),
            ),
            content_length_key(),
            dec_repr(ua.len()),
        );
        match assoc_get(req.headers, connection_key()) {
            Option::Some(cv) => {
                lemma_assoc_set_get_other(h0, connection_key(), cv, content_length_key());
            },
            Option::None => {},
        }
    }
}

/// Law: route segments never contain the path separator itself.
pub proof fn lemma_route_segments_have_no_separator(path: Seq<u8>)
    ensures
        forall|i: int|
            0 <= i < crate::request::spec_route(path).len() ==> !(
            #[trigger] crate::request::spec_route(path)[i]).contains(crate::request::SLASH),
{
    crate::request::lemma_split_slash_no_separator(path);
    assert forall|i: int|
        0 <= i < crate::request::spec_route(path).len() implies !(
        #[trigger] crate::request::spec_route(path)[i]).contains(crate::request::SLASH) by {
        assert(crate::request::spec_route(path)[i] == crate::request::split_slash(path)[i + 1]);
    }
}

/// Law: the route of the bare root path `/` is a single empty segment.
pub proof fn lemma_root_route()
    ensures
        crate::request::spec_route(ascii("/"@)) == seq![Seq::<u8>::empty()],
{
    reveal_strlit("/");
    let s = ascii("/"@);
    assert(s.len() == 1);
    assert(s[0] == crate::request::SLASH);
    assert(crate::util::find_byte(s, 0, crate::request::SLASH) == 0);
    let tail = s.subrange(1, 1);
    assert(tail =~= Seq::<u8>::empty());
    assert(crate::request::split_slash(tail) =~= seq![tail]);
    assert(crate::request::split_slash(s) =~= seq![s.subrange(0, 0)] + crate::request::split_slash(
        tail,
    ));
    assert(crate::request::spec_route(s) =~~= seq![Seq::<u8>::empty()]);
}

/// Law: a request no route matches is answered with exactly
/// `HTTP/1.1 404 Not Found\r\n\r\n`, whatever else it carries.
pub proof fn lemma_unknown_route(req: RequestModel, o: FileOutcomeModel)
    requires
        dispatch(req) == HandlerChoice::NotFound,
    ensures
        spec_respond(req, o) == ascii("HTTP/1.1 404 Not Found\r\n\r\n"@),
{
    reveal_strlit("HTTP/1.1 404 Not Found\r\n");
    reveal_strlit("\r\n");
    reveal_strlit("HTTP/1.1 404 Not Found\r\n\r\n");
    let m = not_found_model();
    assert(serialize_headers(m.headers) =~= Seq::<u8>::empty());
    assert(built_bytes(m) =~= ascii("HTTP/1.1 404 Not Found\r\n"@) + ascii("\r\n"@));
    assert(ascii("HTTP/1.1 404 Not Found\r\n"@) + ascii("\r\n"@) =~= ascii(
        "HTTP/1.1 404 Not Found\r\n\r\n"@,
    ));
}

} // verus!
