//! Responses: status, headers, body and negotiated compression, assembled
//! into the exact wire bytes by `build`.
use vstd::prelude::*;

use crate::headers::{
    assoc_has, assoc_set, serialize_headers, HeaderMap,
};
use crate::util::{ascii, dec_repr, lit_bytes, usize_to_dec};

verus! {

#[derive(Clone, Copy, Debug, PartialEq, Eq, Structural)]
pub enum StatusCode {
    NotFound,
    Okay,
    Created,
}

#[derive(Clone, Copy, Debug, PartialEq, Eq, Structural)]
pub enum CompressionKind {
    Gzip,
    NoCompression,
}

/// The fixed status line for each status, as wire bytes.
pub open spec fn status_line(s: StatusCode) -> Seq<u8> {
    match s {
        StatusCode::Okay => ascii("HTTP/1.1 200 OK\r\n"@),
        StatusCode::Created => ascii("HTTP/1.1 201 Created\r\n"@),
        StatusCode::NotFound => ascii("HTTP/1.1 404 Not Found\r\n"@),
    }
}

/// The status line of `s`, as a byte vector.
pub fn status_line_bytes(s: StatusCode) -> (r: Vec<u8>)
    ensures
        r@ == status_line(s),
{
    match s {
        StatusCode::Okay => {
            proof {
                reveal_strlit("HTTP/1.1 200 OK\r\n");
                assert("HTTP/1.1 200 OK\r\n".is_ascii());
            }
            lit_bytes("HTTP/1.1 200 OK\r\n")
        },
        StatusCode::Created => {
            proof {
                reveal_strlit("HTTP/1.1 201 Created\r\n");
                assert("HTTP/1.1 201 Created\r\n".is_ascii());
            }
            lit_bytes("HTTP/1.1 201 Created\r\n")
        },
        StatusCode::NotFound => {
            proof {
                reveal_strlit("HTTP/1.1 404 Not Found\r\n");
                assert("HTTP/1.1 404 Not Found\r\n".is_ascii());
            }
            lit_bytes("HTTP/1.1 404 Not Found\r\n")
        },
    }
}

/// The bytes that compressing `data` as a gzip stream yields.
///
/// This names the output of `flate2`'s gzip encoder at the default
/// compression level: its header is fixed (zero timestamp, operating-system
/// byte 255) and its deflate stream depends on the input alone, so the
/// result is a function of `data`.
pub uninterp spec fn gzip_of(data: Seq<u8>) -> Seq<u8>;

/// Relies on `flate2::write::GzEncoder` (default level) to produce the
/// gzip encoding of `data`; writing into a `Vec` cannot fail.
#[verifier::external_body]
fn gzip_compress(data: &[u8]) -> (r: Vec<u8>)
    ensures
        r@ == gzip_of(data@),
{
    let mut enc = flate2::write::GzEncoder::new(Vec::new(), flate2::Compression::default());
    std::io::Write::write_all(&mut enc, data).unwrap();
    enc.finish().unwrap()
}

/// The abstract state of a response under construction.
pub struct ResponseModel {
    pub status: StatusCode,
    pub headers: Seq<(Seq<u8>, Seq<u8>)>,
    pub body: Seq<u8>,
    pub compression: CompressionKind,
}

/// The body a finalized response carries: compressed when gzip was chosen.
pub open spec fn final_body(m: ResponseModel) -> Seq<u8> {
    match m.compression {
        CompressionKind::Gzip => gzip_of(m.body),
        CompressionKind::NoCompression => m.body,
    }
}

/// The headers a finalized response carries: when gzip was chosen and a
/// `Content-Length` header is present, its value is the compressed length.
pub open spec fn final_headers(m: ResponseModel) -> Seq<(Seq<u8>, Seq<u8>)> {
    match m.compression {
        CompressionKind::Gzip => if assoc_has(m.headers, crate::headers::content_length_key()) {
            assoc_set(
                m.headers,
                crate::headers::content_length_key(),
                dec_repr(gzip_of(m.body).len()),
            )
        } else {
            m.headers
        },
        CompressionKind::NoCompression => m.headers,
    }
}

/// The exact wire bytes of a finalized response: status line, header
/// lines, a blank line, then the body.
pub open spec fn built_bytes(m: ResponseModel) -> Seq<u8> {
    status_line(m.status) + serialize_headers(final_headers(m)) + ascii("\r\n"@) + final_body(m)
}

/// A response under construction. `build` finalizes it into wire bytes.
pub struct Response {
    pub status: StatusCode,
    pub headers: HeaderMap,
    pub body: Vec<u8>,
    pub compression_kind: CompressionKind,
}

impl View for Response {
    type V = ResponseModel;

    open spec fn view(&self) -> ResponseModel {
        ResponseModel {
            status: self.status,
            headers: self.headers@,
            body: self.body@,
            compression: self.compression_kind,
        }
    }
}

impl Response {
    pub fn new(status: StatusCode) -> (r: Response)
        ensures
            r@.status == status,
            r@.headers == Seq::<(Seq<u8>, Seq<u8>)>::empty(),
            r@.body == Seq::<u8>::empty(),
            r@.compression == CompressionKind::NoCompression,
            r.headers.wf(),
    {
        let r = Response {
            status,
            headers: HeaderMap::new(),
            body: Vec::new(),
            compression_kind: CompressionKind::NoCompression,
        };
        proof {
            assert(r@.body =~= Seq::<u8>::empty());
        }
        r
    }

    /// Add or replace one header.
    pub fn with_header(self, key: Vec<u8>, value: Vec<u8>) -> (r: Response)
        ensures
            r@.status == self@.status,
            r@.headers == assoc_set(self@.headers, key@, value@),
            r@.body == self@.body,
            r@.compression == self@.compression,
            self.headers.wf() ==> r.headers.wf(),
    {
        let mut headers = self.headers;
        headers.insert(key, value);
        Response {
            status: self.status,
            headers,
            body: self.body,
            compression_kind: self.compression_kind,
        }
    }

    /// Set the body.
    pub fn with_body(self, body: Vec<u8>) -> (r: Response)
        ensures
            r@.status == self@.status,
            r@.headers == self@.headers,
            r@.body == body@,
            r@.compression == self@.compression,
            self.headers.wf() ==> r.headers.wf(),
    {
        Response {
            status: self.status,
            headers: self.headers,
            body,
            compression_kind: self.compression_kind,
        }
    }

    /// Choose the compression the builder applies.
    pub fn with_compression(self, compression_kind: CompressionKind) -> (r: Response)
        ensures
            r@.status == self@.status,
            r@.headers == self@.headers,
            r@.body == self@.body,
            r@.compression == compression_kind,
            self.headers.wf() ==> r.headers.wf(),
    {
        Response {
            status: self.status,
            headers: self.headers,
            body: self.body,
            compression_kind,
        }
    }

    /// Finalize: compress the body when gzip was chosen (fixing up any
    /// `Content-Length` header), and emit the exact wire bytes.
    pub fn build(self) -> (r: Vec<u8>)
        ensures
            r@ == built_bytes(self@),
    {
        let ghost m = self@;
        let mut out = status_line_bytes(self.status);
        let mut headers = self.headers;
        let body: Vec<u8> = match self.compression_kind {
            CompressionKind::Gzip => {
                let compressed = gzip_compress(self.body.as_slice());
                let cl = crate::headers::content_length_key_bytes();
                if headers.contains_key(cl.as_slice()) {
                    let len_bytes = usize_to_dec(compressed.len());
                    headers.insert(cl, len_bytes);
                }
                compressed
            },
            CompressionKind::NoCompression => self.body,
        };
        proof {
            assert(headers@ == final_headers(m));
            assert(body@ == final_body(m));
        }
        headers.serialize_into(&mut out);
        proof {
            reveal_strlit("\r\n");
            assert("\r\n".is_ascii());
        }
        let crlf = lit_bytes("\r\n");
        out.extend_from_slice(crlf.as_slice());
        out.extend_from_slice(body.as_slice());
        proof {
            assert(out@ =~= built_bytes(m));
        }
        out
    }
}

} // verus!
