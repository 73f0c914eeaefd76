//! The header map: name-to-value pairs in insertion order, looked up by
//! exact bytes, and serialized as `Name: Value\r\n` lines.
use vstd::prelude::*;

use crate::util::{ascii, lit_bytes};

verus! {

/// Value of the first entry with key `k`, if any.
pub open spec fn assoc_get(hs: Seq<(Seq<u8>, Seq<u8>)>, k: Seq<u8>) -> Option<Seq<u8>>
    decreases hs.len(),
{
    if hs.len() == 0 {
        None
    } else if hs[0].0 == k {
        Some(hs[0].1)
    } else {
        assoc_get(hs.drop_first(), k)
    }
}

pub open spec fn assoc_has(hs: Seq<(Seq<u8>, Seq<u8>)>, k: Seq<u8>) -> bool {
    assoc_get(hs, k) is Some
}

/// `hs` with the first entry keyed `k` replaced by `(k, v)`, or with
/// `(k, v)` appended when no entry has that key.
pub open spec fn assoc_set(hs: Seq<(Seq<u8>, Seq<u8>)>, k: Seq<u8>, v: Seq<u8>) -> Seq<
    (Seq<u8>, Seq<u8>),
>
    decreases hs.len(),
{
    if hs.len() == 0 {
        seq![(k, v)]
    } else if hs[0].0 == k {
        seq![(k, v)] + hs.drop_first()
    } else {
        seq![hs[0]] + assoc_set(hs.drop_first(), k, v)
    }
}

/// No two entries share a key.
pub open spec fn distinct_keys(hs: Seq<(Seq<u8>, Seq<u8>)>) -> bool {
    forall|i: int, j: int| 0 <= i < j < hs.len() ==> (#[trigger] hs[i]).0 != (#[trigger] hs[j]).0
}

proof fn lemma_assoc_get_skip(hs: Seq<(Seq<u8>, Seq<u8>)>, k: Seq<u8>, i: int)
    requires
        0 <= i <= hs.len(),
        forall|j: int| 0 <= j < i ==> (#[trigger] hs[j]).0 != k,
    ensures
        assoc_get(hs, k) == assoc_get(hs.skip(i), k),
    decreases i,
{
    if i > 0 {
        assert(hs[0].0 != k);
        assert(hs.drop_first().skip(i - 1) =~= hs.skip(i));
        lemma_assoc_get_skip(hs.drop_first(), k, i - 1);
    } else {
        assert(hs.skip(0) =~= hs);
    }
}

proof fn lemma_assoc_set_update(hs: Seq<(Seq<u8>, Seq<u8>)>, k: Seq<u8>, v: Seq<u8>, i: int)
    requires
        0 <= i < hs.len(),
        hs[i].0 == k,
        forall|j: int| 0 <= j < i ==> (#[trigger] hs[j]).0 != k,
    ensures
        assoc_set(hs, k, v) == hs.update(i, (k, v)),
    decreases i,
{
    if i == 0 {
        assert(assoc_set(hs, k, v) == seq![(k, v)] + hs.drop_first());
        assert(seq![(k, v)] + hs.drop_first() =~= hs.update(0, (k, v)));
    } else {
        assert(hs[0].0 != k);
        lemma_assoc_set_update(hs.drop_first(), k, v, i - 1);
        assert(seq![hs[0]] + hs.drop_first().update(i - 1, (k, v)) =~= hs.update(i, (k, v)));
    }
}

proof fn lemma_assoc_set_push(hs: Seq<(Seq<u8>, Seq<u8>)>, k: Seq<u8>, v: Seq<u8>)
    requires
        forall|j: int| 0 <= j < hs.len() ==> (#[trigger] hs[j]).0 != k,
    ensures
        assoc_set(hs, k, v) == hs.push((k, v)),
    decreases hs.len(),
{
    if hs.len() == 0 {
        assert(seq![(k, v)] =~= hs.push((k, v)));
    } else {
        assert(hs[0].0 != k);
        lemma_assoc_set_push(hs.drop_first(), k, v);
        assert(seq![hs[0]] + hs.drop_first().push((k, v)) =~= hs.push((k, v)));
    }
}

/// Setting a name makes lookup of that name yield the new value.
pub proof fn lemma_assoc_set_get_same(hs: Seq<(Seq<u8>, Seq<u8>)>, k: Seq<u8>, v: Seq<u8>)
    ensures
        assoc_get(assoc_set(hs, k, v), k) == Some(v),
    decreases hs.len(),
{
    if hs.len() == 0 {
        assert(assoc_set(hs, k, v)[0] == (k, v));
    } else if hs[0].0 == k {
        assert(assoc_set(hs, k, v)[0] == (k, v));
    } else {
        lemma_assoc_set_get_same(hs.drop_first(), k, v);
        assert(assoc_set(hs, k, v)[0] == hs[0]);
        assert(assoc_set(hs, k, v).drop_first() =~= assoc_set(hs.drop_first(), k, v));
    }
}

/// Setting one name leaves lookup of any other name unchanged.
pub proof fn lemma_assoc_set_get_other(
    hs: Seq<(Seq<u8>, Seq<u8>)>,
    k: Seq<u8>,
    v: Seq<u8>,
    k2: Seq<u8>,
)
    requires
        k2 != k,
    ensures
        assoc_get(assoc_set(hs, k, v), k2) == assoc_get(hs, k2),
    decreases hs.len(),
{
    let s = assoc_set(hs, k, v);
    if hs.len() == 0 {
        assert(s[0] == (k, v));
        assert(s.drop_first() =~= Seq::<(Seq<u8>, Seq<u8>)>::empty());
        assert(assoc_get(s, k2) == assoc_get(s.drop_first(), k2));
        assert(assoc_get(s.drop_first(), k2) is None);
    } else if hs[0].0 == k {
        assert(s[0] == (k, v));
        assert(s.drop_first() =~= hs.drop_first());
        assert(assoc_get(s, k2) == assoc_get(hs.drop_first(), k2));
        assert(assoc_get(hs, k2) == assoc_get(hs.drop_first(), k2));
    } else {
        lemma_assoc_set_get_other(hs.drop_first(), k, v, k2);
        assert(s[0] == hs[0]);
        assert(s.drop_first() =~= assoc_set(hs.drop_first(), k, v));
        if hs[0].0 == k2 {
            assert(assoc_get(s, k2) == Some(hs[0].1));
            assert(assoc_get(hs, k2) == Some(hs[0].1));
        } else {
            assert(assoc_get(s, k2) == assoc_get(assoc_set(hs.drop_first(), k, v), k2));
            assert(assoc_get(hs, k2) == assoc_get(hs.drop_first(), k2));
        }
    }
}

/// The header name `Content-Length`.
pub open spec fn content_length_key() -> Seq<u8> {
    ascii("Content-Length"@)
}

pub fn content_length_key_bytes() -> (r: Vec<u8>)
    ensures
        r@ == content_length_key(),
{
    proof {
        reveal_strlit("Content-Length");
        assert("Content-Length".is_ascii());
    }
    lit_bytes("Content-Length")
}

/// The header name `Content-Type`.
pub open spec fn content_type_key() -> Seq<u8> {
    ascii("Content-Type"@)
}

pub fn content_type_key_bytes() -> (r: Vec<u8>)
    ensures
        r@ == content_type_key(),
{
    proof {
        reveal_strlit("Content-Type");
        assert("Content-Type".is_ascii());
    }
    lit_bytes("Content-Type")
}

/// The header name `Content-Encoding`.
pub open spec fn content_encoding_key() -> Seq<u8> {
    ascii("Content-Encoding"@)
}

pub fn content_encoding_key_bytes() -> (r: Vec<u8>)
    ensures
        r@ == content_encoding_key(),
{
    proof {
        reveal_strlit("Content-Encoding");
        assert("Content-Encoding".is_ascii());
    }
    lit_bytes("Content-Encoding")
}

/// The header name `Connection`.
pub open spec fn connection_key() -> Seq<u8> {
    ascii("Connection"@)
}

pub fn connection_key_bytes() -> (r: Vec<u8>)
    ensures
        r@ == connection_key(),
{
    proof {
        reveal_strlit("Connection");
        assert("Connection".is_ascii());
    }
    lit_bytes("Connection")
}

/// The header name `Accept-Encoding`.
pub open spec fn accept_encoding_key() -> Seq<u8> {
    ascii("Accept-Encoding"@)
}

pub fn accept_encoding_key_bytes() -> (r: Vec<u8>)
    ensures
        r@ == accept_encoding_key(),
{
    proof {
        reveal_strlit("Accept-Encoding");
        assert("Accept-Encoding".is_ascii());
    }
    lit_bytes("Accept-Encoding")
}

/// The header name `User-Agent`.
pub open spec fn user_agent_key() -> Seq<u8> {
    ascii("User-Agent"@)
}

pub fn user_agent_key_bytes() -> (r: Vec<u8>)
    ensures
        r@ == user_agent_key(),
{
    proof {
        reveal_strlit("User-Agent");
        assert("User-Agent".is_ascii());
    }
    lit_bytes("User-Agent")
}

/// The response header names this server writes are pairwise distinct,
/// so setting one never disturbs another.
pub proof fn lemma_header_keys_distinct()
    ensures
        content_type_key() != content_length_key(),
        content_type_key() != content_encoding_key(),
        content_type_key() != connection_key(),
        content_length_key() != content_encoding_key(),
        content_length_key() != connection_key(),
        content_encoding_key() != connection_key(),
{
    reveal_strlit("Content-Type");
    reveal_strlit("Content-Length");
    reveal_strlit("Content-Encoding");
    reveal_strlit("Connection");
    assert(content_type_key().len() == 12);
    assert(content_length_key().len() == 14);
    assert(content_encoding_key().len() == 16);
    assert(connection_key().len() == 10);
}

/// A header's wire line: `Name: Value\r\n`.
pub open spec fn header_line(h: (Seq<u8>, Seq<u8>)) -> Seq<u8> {
    h.0 + ascii(": "@) + h.1 + ascii("\r\n"@)
}

/// The header block: each entry's line, in order.
pub open spec fn serialize_headers(hs: Seq<(Seq<u8>, Seq<u8>)>) -> Seq<u8>
    decreases hs.len(),
{
    if hs.len() == 0 {
        Seq::empty()
    } else {
        header_line(hs[0]) + serialize_headers(hs.drop_first())
    }
}

proof fn lemma_serialize_headers_take(hs: Seq<(Seq<u8>, Seq<u8>)>, i: int)
    requires
        0 <= i < hs.len(),
    ensures
        serialize_headers(hs.take(i + 1)) == serialize_headers(hs.take(i)) + header_line(hs[i]),
    decreases i,
{
    if i == 0 {
        assert(hs.take(1) =~= seq![hs[0]]);
        assert(hs.take(1).drop_first() =~= Seq::<(Seq<u8>, Seq<u8>)>::empty());
        assert(hs.take(0) =~= Seq::<(Seq<u8>, Seq<u8>)>::empty());
        assert(serialize_headers(hs.take(1)) =~= serialize_headers(hs.take(0)) + header_line(
            hs[0],
        ));
    } else {
        let t = hs.drop_first();
        lemma_serialize_headers_take(t, i - 1);
        assert(hs.take(i + 1).drop_first() =~= t.take(i));
        assert(hs.take(i).drop_first() =~= t.take(i - 1));
        assert(hs.take(i + 1)[0] == hs[0]);
        assert(hs.take(i)[0] == hs[0]);
        assert(serialize_headers(hs.take(i + 1)) == header_line(hs[0]) + serialize_headers(
            t.take(i),
        ));
        assert(serialize_headers(hs.take(i)) == header_line(hs[0]) + serialize_headers(
            t.take(i - 1),
        ));
        assert(header_line(hs[0]) + (serialize_headers(t.take(i - 1)) + header_line(t[i - 1]))
            =~= (header_line(hs[0]) + serialize_headers(t.take(i - 1))) + header_line(hs[i]));
    }
}

/// A mapping from header names to values. Entries keep the order of first
/// insertion; inserting an existing name replaces its value in place.
pub struct HeaderMap {
    pub entries: Vec<(Vec<u8>, Vec<u8>)>,
}

impl View for HeaderMap {
    type V = Seq<(Seq<u8>, Seq<u8>)>;

    open spec fn view(&self) -> Seq<(Seq<u8>, Seq<u8>)> {
        Seq::new(self.entries@.len(), |i: int| (self.entries@[i].0@, self.entries@[i].1@))
    }
}

impl HeaderMap {
    /// Every name appears at most once.
    pub open spec fn wf(&self) -> bool {
        distinct_keys(self@)
    }

    pub fn new() -> (r: HeaderMap)
        ensures
            r@ == Seq::<(Seq<u8>, Seq<u8>)>::empty(),
            r.wf(),
    {
        let r = HeaderMap { entries: Vec::new() };
        proof {
            assert(r@ =~= Seq::<(Seq<u8>, Seq<u8>)>::empty());
        }
        r
    }

    /// Index of the first entry named `k`, if any.
    fn index_of(&self, k: &[u8]) -> (r: Option<usize>)
        ensures
            match r {
                Some(i) => {
                    &&& i < self@.len()
                    &&& self@[i as int].0 == k@
                    &&& forall|j: int| 0 <= j < i ==> (#[trigger] self@[j]).0 != k@
                },
                None => forall|j: int| 0 <= j < self@.len() ==> (#[trigger] self@[j]).0 != k@,
            },
    {
        let mut i: usize = 0;
        while i < self.entries.len()
            invariant
                i <= self@.len(),
                self@.len() == self.entries@.len(),
                forall|j: int| 0 <= j < i ==> (#[trigger] self@[j]).0 != k@,
            decreases self.entries.len() - i,
        {
            if crate::util::bytes_eq(self.entries[i].0.as_slice(), k) {
                return Some(i);
            }
            i = i + 1;
        }
        None
    }

    /// Value of the header named `k`, if present.
    pub fn get(&self, k: &[u8]) -> (r: Option<&Vec<u8>>)
        ensures
            match r {
                Some(v) => assoc_get(self@, k@) == Some(v@),
                None => assoc_get(self@, k@) is None,
            },
    {
        match self.index_of(k) {
            Some(i) => {
                proof {
                    lemma_assoc_get_skip(self@, k@, i as int);
                    assert(self@.skip(i as int)[0] == self@[i as int]);
                }
                Some(&self.entries[i].1)
            },
            None => {
                proof {
                    lemma_assoc_get_skip(self@, k@, self@.len() as int);
                    assert(self@.skip(self@.len() as int) =~= Seq::<(Seq<u8>, Seq<u8>)>::empty());
                }
                None
            },
        }
    }

    pub fn contains_key(&self, k: &[u8]) -> (r: bool)
        ensures
            r == assoc_has(self@, k@),
    {
        self.get(k).is_some()
    }

    /// Insert or replace the header named `k`.
    pub fn insert(&mut self, k: Vec<u8>, v: Vec<u8>)
        ensures
            final(self)@ == assoc_set(old(self)@, k@, v@),
            old(self).wf() ==> final(self).wf(),
    {
        let ghost hs = self@;
        match self.index_of(k.as_slice()) {
            Some(i) => {
                proof {
                    lemma_assoc_set_update(hs, k@, v@, i as int);
                }
                self.entries[i] = (k, v);
                proof {
                    assert(self@ =~= hs.update(i as int, (k@, v@)));
                }
            },
            None => {
                proof {
                    lemma_assoc_set_push(hs, k@, v@);
                }
                self.entries.push((k, v));
                proof {
                    assert(self@ =~= hs.push((k@, v@)));
                }
            },
        }
    }

    /// The header block of this map's entries, appended to `out`.
    pub fn serialize_into(&self, out: &mut Vec<u8>)
        ensures
            final(out)@ == old(out)@ + serialize_headers(self@),
    {
        proof {
            reveal_strlit(": ");
            reveal_strlit("\r\n");
            assert(": ".is_ascii());
            assert("\r\n".is_ascii());
        }
        let sep = crate::util::lit_bytes(": ");
        let crlf = crate::util::lit_bytes("\r\n");
        let ghost base = out@;
        let mut i: usize = 0;
        while i < self.entries.len()
            invariant
                i <= self.entries@.len(),
                self@.len() == self.entries@.len(),
                sep@ == ascii(": "@),
                crlf@ == ascii("\r\n"@),
                out@ == base + serialize_headers(self@.take(i as int)),
            decreases self.entries.len() - i,
        {
            let ghost before = out@;
            out.extend_from_slice(self.entries[i].0.as_slice());
            out.extend_from_slice(sep.as_slice());
            out.extend_from_slice(self.entries[i].1.as_slice());
            out.extend_from_slice(crlf.as_slice());
            proof {
                assert(out@ =~= before + header_line(self@[i as int]));
                lemma_serialize_headers_take(self@, i as int);
                assert(out@ =~= base + serialize_headers(self@.take(i + 1)));
            }
            i = i + 1;
        }
        proof {
            assert(self@.take(i as int) =~= self@);
        }
    }
}

} // verus!
