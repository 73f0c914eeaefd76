//! The connection lifecycle: one request after another is parsed,
//! answered and flushed on the same connection until a request carries a
//! `Connection` header, which closes it after its response.
use vstd::prelude::*;

use crate::handlers::closes_connection;
use crate::request::RequestModel;

verus! {

/// How many of these consecutive requests receive a response on one
/// connection: each is answered, and the first that carries a
/// `Connection` header is the last one answered.
pub open spec fn responses_before_close(reqs: Seq<RequestModel>) -> int
    decreases reqs.len(),
{
    if reqs.len() == 0 {
        0
    } else if closes_connection(reqs[0]) {
        1
    } else {
        1 + responses_before_close(reqs.drop_first())
    }
}

/// Law: a connection whose requests never carry a `Connection` header
/// answers every one of them before any close.
pub proof fn lemma_keep_alive(reqs: Seq<RequestModel>)
    requires
        forall|i: int| 0 <= i < reqs.len() ==> !closes_connection(#[trigger] reqs[i]),
    ensures
        responses_before_close(reqs) == reqs.len(),
    decreases reqs.len(),
{
    if reqs.len() > 0 {
        assert(!closes_connection(reqs[0]));
        lemma_keep_alive(reqs.drop_first());
    }
}

/// Law: the first request that carries a `Connection` header, whatever
/// its value, is the last one answered on its connection.
pub proof fn lemma_connection_header_closes(reqs: Seq<RequestModel>, i: int)
    requires
        0 <= i < reqs.len(),
        closes_connection(reqs[i]),
        forall|j: int| 0 <= j < i ==> !closes_connection(#[trigger] reqs[j]),
    ensures
        responses_before_close(reqs) == i + 1,
    decreases i,
{
    if i == 0 {
    } else {
        assert(!closes_connection(reqs[0]));
        lemma_connection_header_closes(reqs.drop_first(), i - 1);
    }
}

} // verus!
