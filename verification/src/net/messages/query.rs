//! Query (F) message.

use super::{FromBytes, Protocol, ToBytes};
use crate::net::buf;
use crate::net::error::Error;
use crate::net::wire::{
    c_string_bytes, frame, framed, lemma_c_string_round_trip, lemma_unframe_frame, put_string,
    spec_c_string, spec_unframe, unframe, Reader,
};
use bytes::Bytes;
use vstd::prelude::*;
use vstd::utf8::encode_utf8;

verus! {

/// The tag of a Query message.
pub const QUERY: u8 = 0x51;

/// Query (F) message: one statement of the simple protocol.
#[derive(Debug, PartialEq, Eq)]
pub struct Query {
    /// Query string.
    pub query: String,
}

impl View for Query {
    type V = Seq<char>;

    open spec fn view(&self) -> Seq<char> {
        self.query@
    }
}

/// A Query message on the wire.
pub open spec fn query_bytes(text: Seq<char>) -> Seq<u8> {
    frame(QUERY, c_string_bytes(text))
}

/// What a Query message decodes to: the text of the statement.
pub open spec fn parse_query(s: Seq<u8>) -> Result<Seq<char>, Error> {
    match spec_unframe(QUERY, s) {
        Err(e) => Err(e),
        Ok(body) => match spec_c_string(body) {
            Err(e) => Err(e),
            Ok((text, _)) => Ok(text),
        },
    }
}

/// Decoding an encoded Query gives the text back.
pub proof fn lemma_query_round_trip(text: Seq<char>)
    requires
        !encode_utf8(text).contains(0u8),
    ensures
        parse_query(query_bytes(text)) == Ok::<Seq<char>, Error>(text),
{
    lemma_unframe_frame(QUERY, c_string_bytes(text));
    lemma_c_string_round_trip(text, Seq::empty());
    assert(c_string_bytes(text) + Seq::<u8>::empty() =~= c_string_bytes(text));
}

impl Query {
    /// Create new query.
    pub fn new(query: &str) -> (q: Self)
        ensures
            q@ == query@,
    {
        Query { query: query.to_owned() }
    }
}

impl ToBytes for Query {
    open spec fn wire(&self) -> Option<Seq<u8>> {
        if c_string_bytes(self@).len() + 4 <= i32::MAX {
            Some(query_bytes(self@))
        } else {
            None
        }
    }

    fn to_bytes(&self) -> (r: Result<Bytes, Error>)
        ensures
            c_string_bytes(self@).len() + 4 <= i32::MAX ==> (r matches Ok(b) && buf::contents(b)
                == query_bytes(self@)),
            c_string_bytes(self@).len() + 4 > i32::MAX ==> r is Err && r->Err_0
                == Error::TooLarge,
    {
        let text = self.query.as_str();
        if text.as_bytes().len() > 0x7fff_fffb - 1 {
            return Err(Error::TooLarge);
        }
        let mut body: Vec<u8> = Vec::new();
        put_string(&mut body, text);
        assert(body@ =~= c_string_bytes(self@));
        match framed(QUERY, &body) {
            Ok(v) => Ok(buf::from_vec(v)),
            Err(e) => Err(e),
        }
    }
}

impl FromBytes for Query {
    open spec fn decodes(s: Seq<u8>) -> bool {
        parse_query(s) is Ok
    }

    fn from_bytes(bytes: Bytes) -> (r: Result<Self, Error>)
        ensures
            match parse_query(buf::contents(bytes)) {
                Ok(text) => r matches Ok(q) && q@ == text,
                Err(e) => r is Err && r->Err_0 == e,
            },
    {
        let mut reader = Reader::new(buf::as_slice(&bytes));
        unframe(&mut reader, QUERY)?;
        let query = reader.c_string()?;
        Ok(Query { query })
    }
}

impl Protocol for Query {
    fn code(&self) -> (c: char)
        ensures
            c == 'Q',
    {
        'Q'
    }
}

} // verus!
