//! Requests: the wire grammar of one HTTP/1.1 message, a functional
//! specification of parsing it, and the verified parser.
//!
//! The parser works on a byte buffer holding what has been read from the
//! connection so far. `eof` says whether the stream has ended; while it has
//! not, a buffer that stops short yields `Incomplete` so the caller can read
//! more bytes and try again.
use vstd::prelude::*;

use crate::headers::{assoc_get, assoc_set, content_length_key, HeaderMap};
use crate::util::{
    all_digits, ascii, bytes_eq_lit, dec_value, find_byte, find_pair, lemma_find_byte,
    lemma_find_pair, parse_usize, scan_byte, scan_pair, trim, trim_bytes,
};

verus! {

pub const LF: u8 = 10;

pub const CR: u8 = 13;

pub const SP: u8 = 32;

pub const SLASH: u8 = 47;

pub const COLON: u8 = 58;

#[derive(Clone, Copy, Debug, PartialEq, Eq, Structural)]
pub enum HttpMethod {
    Get,
    Post,
}

/// Why parsing failed.
///
/// `Incomplete` means the buffer ends before the message does while the
/// stream is still open: reading more bytes may let the same parse succeed.
/// The others are final, per the wire rules: an unknown method or a request
/// line of fewer than two tokens, a header line without a `": "` separator,
/// a `Content-Length` value that is not an unsigned integer, and a stream
/// that ends inside a declared body.
#[derive(Clone, Copy, Debug, PartialEq, Eq, Structural)]
pub enum ParseError {
    Incomplete,
    MalformedRequestLine,
    MalformedHeader,
    InvalidContentLength,
    TruncatedBody,
}

/// The abstract content of a parsed request.
pub struct RequestModel {
    pub method: HttpMethod,
    pub route: Seq<Seq<u8>>,
    pub headers: Seq<(Seq<u8>, Seq<u8>)>,
    pub body: Seq<u8>,
}

/// The method a request-line token names, if any.
pub open spec fn spec_method(tok: Seq<u8>) -> Option<HttpMethod> {
    if tok == ascii("GET"@) {
        Some(HttpMethod::Get)
    } else if tok == ascii("POST"@) {
        Some(HttpMethod::Post)
    } else {
        None
    }
}

/// The `/`-separated pieces of `s`, separators removed.
pub open spec fn split_slash(s: Seq<u8>) -> Seq<Seq<u8>>
    decreases s.len(),
    via split_slash_dec
{
    let i = find_byte(s, 0, SLASH);
    if i == s.len() {
        seq![s]
    } else {
        seq![s.subrange(0, i)] + split_slash(s.subrange(i + 1, s.len() as int))
    }
}

#[via_fn]
proof fn split_slash_dec(s: Seq<u8>) {
    lemma_find_byte(s, 0, SLASH);
}

/// The route a target path denotes: its `/`-separated segments, with the
/// leading empty segment of the root slash dropped.
pub open spec fn spec_route(path: Seq<u8>) -> Seq<Seq<u8>> {
    split_slash(path).drop_first()
}

/// No piece of a split contains the separator itself.
pub proof fn lemma_split_slash_no_separator(s: Seq<u8>)
    ensures
        forall|i: int|
            0 <= i < split_slash(s).len() ==> !(#[trigger] split_slash(s)[i]).contains(SLASH),
    decreases s.len(),
{
    lemma_find_byte(s, 0, SLASH);
    let k = find_byte(s, 0, SLASH);
    if k == s.len() {
        assert(split_slash(s) =~= seq![s]);
        assert forall|i: int|
            0 <= i < split_slash(s).len() implies !(#[trigger] split_slash(s)[i]).contains(
            SLASH,
        ) by {
            assert(split_slash(s)[i] == s);
            if s.contains(SLASH) {
                let j = choose|j: int| 0 <= j < s.len() && s[j] == SLASH;
                assert(s[j] != SLASH);
            }
        }
    } else {
        let head = s.subrange(0, k);
        let tail = s.subrange(k + 1, s.len() as int);
        lemma_split_slash_no_separator(tail);
        assert forall|i: int|
            0 <= i < split_slash(s).len() implies !(#[trigger] split_slash(s)[i]).contains(
            SLASH,
        ) by {
            if i == 0 {
                assert(split_slash(s)[0] == head);
                if head.contains(SLASH) {
                    let j = choose|j: int| 0 <= j < head.len() && head[j] == SLASH;
                    assert(s[j] == SLASH);
                    assert(s[j] != SLASH);
                }
            } else {
                assert(split_slash(s)[i] == split_slash(tail)[i - 1]);
            }
        }
    }
}

/// Outcome of the request line at the front of `input`: the method, the
/// route, and the position just past the line's `\n`.
pub open spec fn spec_request_line(input: Seq<u8>, eof: bool) -> Result<
    (HttpMethod, Seq<Seq<u8>>, int),
    ParseError,
> {
    let nl = find_byte(input, 0, LF);
    if nl == input.len() && !eof {
        Err(ParseError::Incomplete)
    } else {
        let le = if nl < input.len() {
            nl
        } else {
            input.len() as int
        };
        let rl_end = if le > 0 && input[le - 1] == CR {
            le - 1
        } else {
            le
        };
        let hdr_start = if nl < input.len() {
            nl + 1
        } else {
            input.len() as int
        };
        let sp1 = find_byte(input, 0, SP);
        if sp1 >= rl_end {
            Err(ParseError::MalformedRequestLine)
        } else {
            match spec_method(input.subrange(0, sp1)) {
                Option::None => Err(ParseError::MalformedRequestLine),
                Option::Some(method) => {
                    let sp2 = find_byte(input, sp1 + 1, SP);
                    let path_end = if sp2 < rl_end {
                        sp2
                    } else {
                        rl_end
                    };
                    let path = input.subrange(sp1 + 1, path_end);
                    Ok((method, spec_route(path), hdr_start))
                },
            }
        }
    }
}

/// Outcome of the header block starting at `pos`: the headers gathered so
/// far in `acc` extended line by line (later lines replacing earlier equal
/// names), and the position just past the blank line that ends the block.
pub open spec fn spec_header_block(
    input: Seq<u8>,
    pos: int,
    eof: bool,
    acc: Seq<(Seq<u8>, Seq<u8>)>,
) -> Result<(Seq<(Seq<u8>, Seq<u8>)>, int), ParseError>
    decreases input.len() - pos,
    when 0 <= pos <= input.len()
    via spec_header_block_dec
{
    let nl = find_byte(input, pos, LF);
    if nl == input.len() && !eof {
        Err(ParseError::Incomplete)
    } else {
        let le = if nl < input.len() {
            nl
        } else {
            input.len() as int
        };
        let next = if nl < input.len() {
            nl + 1
        } else {
            input.len() as int
        };
        let line = input.subrange(pos, le);
        if trim(line).len() == 0 {
            Ok((acc, next))
        } else {
            let c = find_pair(line, 0, COLON, SP);
            if c == line.len() {
                Err(ParseError::MalformedHeader)
            } else {
                let key = trim(line.subrange(0, c));
                let val = trim(line.subrange(c + 2, line.len() as int));
                spec_header_block(input, next, eof, assoc_set(acc, key, val))
            }
        }
    }
}

#[via_fn]
proof fn spec_header_block_dec(input: Seq<u8>, pos: int, eof: bool, acc: Seq<(Seq<u8>, Seq<u8>)>) {
    lemma_find_byte(input, pos, LF);
}

/// Whether a `Content-Length` value is a parseable unsigned integer that
/// fits the machine.
pub open spec fn valid_content_length(v: Seq<u8>) -> bool {
    v.len() > 0 && all_digits(v) && dec_value(v) <= usize::MAX
}

/// Outcome of parsing one request from the front of `input`: the request
/// and the number of bytes it occupies, or why parsing fails.
pub open spec fn spec_parse(input: Seq<u8>, eof: bool) -> Result<(RequestModel, int), ParseError> {
    match spec_request_line(input, eof) {
        Err(e) => Err(e),
        Ok((method, route, hdr_start)) => match spec_header_block(
            input,
            hdr_start,
            eof,
            Seq::empty(),
        ) {
            Err(e) => Err(e),
            Ok((hs, bstart)) => match assoc_get(hs, content_length_key()) {
                Option::None => Ok(
                    (RequestModel { method, route, headers: hs, body: Seq::empty() }, bstart),
                ),
                Option::Some(v) => if !valid_content_length(v) {
                    Err(ParseError::InvalidContentLength)
                } else if bstart + dec_value(v) <= input.len() {
                    Ok(
                        (
                            RequestModel {
                                method,
                                route,
                                headers: hs,
                                body: input.subrange(bstart, bstart + dec_value(v)),
                            },
                            bstart + dec_value(v),
                        ),
                    )
                } else if eof {
                    Err(ParseError::TruncatedBody)
                } else {
                    Err(ParseError::Incomplete)
                },
            },
        },
    }
}

/// One parsed request: method, route segments, headers, and body bytes.
pub struct Request {
    pub method: HttpMethod,
    pub route: Vec<Vec<u8>>,
    pub headers: HeaderMap,
    pub body: Vec<u8>,
}

impl View for Request {
    type V = RequestModel;

    open spec fn view(&self) -> RequestModel {
        RequestModel {
            method: self.method,
            route: self.route.deep_view(),
            headers: self.headers@,
            body: self.body@,
        }
    }
}

/// The `/`-separated pieces of `s`, separators removed.
fn split_slash_exec(s: &[u8]) -> (r: Vec<Vec<u8>>)
    ensures
        r.deep_view() == split_slash(s@),
    decreases s@.len(),
{
    proof {
        lemma_find_byte(s@, 0, SLASH);
    }
    let i = scan_byte(s, 0, SLASH);
    if i == s.len() {
        let mut r: Vec<Vec<u8>> = Vec::new();
        r.push(vstd::slice::slice_to_vec(s));
        proof {
            assert(r.deep_view() =~~= split_slash(s@));
        }
        r
    } else {
        let head = vstd::slice::slice_to_vec(vstd::slice::slice_subrange(s, 0, i));
        let rest = split_slash_exec(vstd::slice::slice_subrange(s, i + 1, s.len()));
        let mut r = rest;
        r.insert(0, head);
        proof {
            assert(r.deep_view() =~~= split_slash(s@));
        }
        r
    }
}

/// Consume header lines from `pos` on, inserting each into `headers`,
/// until the blank line that ends the block; returns the position just
/// past it.
fn parse_header_block(input: &[u8], pos: usize, eof: bool, headers: &mut HeaderMap) -> (r: Result<
    usize,
    ParseError,
>)
    requires
        pos <= input@.len(),
    ensures
        match r {
            Ok(bstart) => {
                &&& spec_header_block(input@, pos as int, eof, old(headers)@) == Ok::<
                    (Seq<(Seq<u8>, Seq<u8>)>, int),
                    ParseError,
                >((final(headers)@, bstart as int))
                &&& bstart <= input@.len()
                &&& old(headers).wf() ==> final(headers).wf()
            },
            Err(e) => spec_header_block(input@, pos as int, eof, old(headers)@) == Err::<
                (Seq<(Seq<u8>, Seq<u8>)>, int),
                ParseError,
            >(e),
        },
    decreases input@.len() - pos,
{
    let n = input.len();
    proof {
        lemma_find_byte(input@, pos as int, LF);
    }
    let nl = scan_byte(input, pos, LF);
    if nl == n && !eof {
        return Err(ParseError::Incomplete);
    }
    let le = if nl < n {
        nl
    } else {
        n
    };
    let next = if nl < n {
        nl + 1
    } else {
        n
    };
    let line = vstd::slice::slice_subrange(input, pos, le);
    let trimmed = trim_bytes(line);
    if trimmed.len() == 0 {
        return Ok(next);
    }
    proof {
        lemma_find_pair(line@, 0, COLON, SP);
    }
    let c = scan_pair(line, 0, COLON, SP);
    if c == line.len() {
        return Err(ParseError::MalformedHeader);
    }
    let key = trim_bytes(vstd::slice::slice_subrange(line, 0, c));
    let val = trim_bytes(vstd::slice::slice_subrange(line, c + 2, line.len()));
    headers.insert(key, val);
    parse_header_block(input, next, eof, headers)
}

impl Request {
    /// Parse one request from the front of `input`. Returns the request and
    /// how many bytes of `input` it used, or the exact failure that
    /// `spec_parse` assigns to this buffer.
    pub fn new(input: &[u8], eof: bool) -> (r: Result<(Request, usize), ParseError>)
        ensures
            match r {
                Ok((req, used)) => {
                    &&& spec_parse(input@, eof) == Ok::<(RequestModel, int), ParseError>(
                        (req@, used as int),
                    )
                    &&& req.headers.wf()
                },
                Err(e) => spec_parse(input@, eof) == Err::<(RequestModel, int), ParseError>(e),
            },
    {
        let n = input.len();
        proof {
            lemma_find_byte(input@, 0, LF);
            lemma_find_byte(input@, 0, SP);
        }
        let nl = scan_byte(input, 0, LF);
        if nl == n && !eof {
            return Err(ParseError::Incomplete);
        }
        let le = if nl < n {
            nl
        } else {
            n
        };
        let rl_end = if le > 0 && input[le - 1] == CR {
            le - 1
        } else {
            le
        };
        let hdr_start = if nl < n {
            nl + 1
        } else {
            n
        };
        let sp1 = scan_byte(input, 0, SP);
        if sp1 >= rl_end {
            return Err(ParseError::MalformedRequestLine);
        }
        proof {
            reveal_strlit("GET");
            reveal_strlit("POST");
            assert("GET".is_ascii());
            assert("POST".is_ascii());
        }
        let method_tok = vstd::slice::slice_subrange(input, 0, sp1);
        let method = if bytes_eq_lit(method_tok, "GET") {
            HttpMethod::Get
        } else if bytes_eq_lit(method_tok, "POST") {
            HttpMethod::Post
        } else {
            return Err(ParseError::MalformedRequestLine);
        };
        proof {
            lemma_find_byte(input@, sp1 + 1, SP);
        }
        let sp2 = scan_byte(input, sp1 + 1, SP);
        let path_end = if sp2 < rl_end {
            sp2
        } else {
            rl_end
        };
        let path = vstd::slice::slice_subrange(input, sp1 + 1, path_end);
        let route = split_slash_exec(path);
        proof {
            assert(route.deep_view().drop_first() =~~= spec_route(path@));
            assert(spec_request_line(input@, eof) == Ok::<(HttpMethod, Seq<Seq<u8>>, int),
                ParseError,
            >((method, spec_route(path@), hdr_start as int)));
        }
        let mut route = route;
        if route.len() > 0 {
            route.remove(0);
        } else {
            // `split_slash` yields at least one piece, so this cannot happen;
            // keep the check so the remove above is visibly in bounds.
            proof {
                assert(split_slash(path@).len() >= 1);
                assert(false);
            }
        }
        proof {
            assert(route.deep_view() =~~= spec_route(path@));
        }

        let mut headers = HeaderMap::new();
        proof {
            assert(headers@ =~= Seq::<(Seq<u8>, Seq<u8>)>::empty());
        }
        let bstart = match parse_header_block(input, hdr_start, eof, &mut headers) {
            Ok(b) => b,
            Err(e) => {
                return Err(e);
            },
        };

        let cl_key = crate::headers::content_length_key_bytes();
        let body_cl = headers.get(cl_key.as_slice());
        match body_cl {
            Option::None => {
                let req = Request { method, route, headers, body: Vec::new() };
                proof {
                    assert(req@.body =~= Seq::<u8>::empty());
                }
                Ok((req, bstart))
            },
            Option::Some(v) => {
                match parse_usize(v.as_slice()) {
                    Option::None => Err(ParseError::InvalidContentLength),
                    Option::Some(cl) => {
                        if cl <= n - bstart {
                            let body = vstd::slice::slice_to_vec(
                                vstd::slice::slice_subrange(input, bstart, bstart + cl),
                            );
                            let req = Request { method, route, headers, body };
                            Ok((req, bstart + cl))
                        } else if eof {
                            Err(ParseError::TruncatedBody)
                        } else {
                            Err(ParseError::Incomplete)
                        }
                    },
                }
            },
        }
    }

    pub fn method(&self) -> (r: HttpMethod)
        ensures
            r == self@.method,
    {
        self.method
    }

    pub fn route(&self) -> (r: &Vec<Vec<u8>>)
        ensures
            r.deep_view() == self@.route,
    {
        &self.route
    }

    pub fn headers(&self) -> (r: &HeaderMap)
        ensures
            r@ == self@.headers,
    {
        &self.headers
    }

    pub fn body(&self) -> (r: &Vec<u8>)
        ensures
            r@ == self@.body,
    {
        &self.body
    }
}

} // verus!
