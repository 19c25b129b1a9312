//! Execute (F) message.

use super::{FromBytes, Protocol, ToBytes};
use crate::net::buf;
use crate::net::error::Error;
use crate::net::wire::{
    c_string_bytes, frame, framed, i32_bytes, lemma_c_string_round_trip, lemma_take_i32,
    lemma_unframe_frame, put_i32, put_string, spec_c_string, spec_unframe, take_i32, unframe,
    Reader,
};
use bytes::Bytes;
use vstd::prelude::*;
use vstd::utf8::encode_utf8;

verus! {

/// The tag of an Execute message.
pub const EXECUTE: u8 = 0x45;

/// Execute (F) message: the client asks for the rows of a portal, at most
/// `max_rows` of them, or all where that is 0.
#[derive(Debug, PartialEq, Eq)]
pub struct Execute {
    /// The name of the portal.
    pub portal: String,
    /// The most rows to return.
    pub max_rows: i32,
}

impl View for Execute {
    type V = (Seq<char>, i32);

    open spec fn view(&self) -> (Seq<char>, i32) {
        (self.portal@, self.max_rows)
    }
}

/// An Execute message on the wire.
pub open spec fn execute_bytes(e: (Seq<char>, i32)) -> Seq<u8> {
    frame(EXECUTE, c_string_bytes(e.0) + i32_bytes(e.1 as int))
}

/// What an Execute message decodes to.
pub open spec fn parse_execute(s: Seq<u8>) -> Result<(Seq<char>, i32), Error> {
    match spec_unframe(EXECUTE, s) {
        Err(e) => Err(e),
        Ok(body) => match spec_c_string(body) {
            Err(e) => Err(e),
            Ok((portal, rest)) => match take_i32(rest) {
                Err(e) => Err(e),
                Ok((max_rows, _)) => Ok((portal, max_rows)),
            },
        },
    }
}

/// Decoding an encoded Execute gives it back.
pub proof fn lemma_execute_round_trip(e: (Seq<char>, i32))
    requires
        !encode_utf8(e.0).contains(0u8),
    ensures
        parse_execute(execute_bytes(e)) == Ok::<(Seq<char>, i32), Error>(e),
{
    lemma_unframe_frame(EXECUTE, c_string_bytes(e.0) + i32_bytes(e.1 as int));
    lemma_c_string_round_trip(e.0, i32_bytes(e.1 as int));
    lemma_take_i32(e.1, Seq::empty());
    assert(i32_bytes(e.1 as int) + Seq::<u8>::empty() =~= i32_bytes(e.1 as int));
}

impl ToBytes for Execute {
    open spec fn wire(&self) -> Option<Seq<u8>> {
        if c_string_bytes(self.portal@).len() + 8 <= i32::MAX {
            Some(execute_bytes(self@))
        } else {
            None
        }
    }

    fn to_bytes(&self) -> (r: Result<Bytes, Error>)
        ensures
            c_string_bytes(self.portal@).len() + 8 <= i32::MAX ==> (r matches Ok(b)
                && buf::contents(b) == execute_bytes(self@)),
            c_string_bytes(self.portal@).len() + 8 > i32::MAX ==> r is Err && r->Err_0
                == Error::TooLarge,
    {
        let portal = self.portal.as_str();
        if portal.as_bytes().len() > 0x7fff_fffb - 5 {
            return Err(Error::TooLarge);
        }
        let mut body: Vec<u8> = Vec::new();
        put_string(&mut body, portal);
        put_i32(&mut body, self.max_rows);
        assert(body@ =~= c_string_bytes(self.portal@) + i32_bytes(self.max_rows as int));
        match framed(EXECUTE, &body) {
            Ok(v) => Ok(buf::from_vec(v)),
            Err(e) => Err(e),
        }
    }
}

impl FromBytes for Execute {
    open spec fn decodes(s: Seq<u8>) -> bool {
        parse_execute(s) is Ok
    }

    fn from_bytes(bytes: Bytes) -> (r: Result<Self, Error>)
        ensures
            match parse_execute(buf::contents(bytes)) {
                Ok(e) => r matches Ok(x) && x@ == e,
                Err(e) => r is Err && r->Err_0 == e,
            },
    {
        let mut reader = Reader::new(buf::as_slice(&bytes));
        unframe(&mut reader, EXECUTE)?;
        let portal = reader.c_string()?;
        let max_rows = reader.get_i32()?;
        Ok(Execute { portal, max_rows })
    }
}

impl Protocol for Execute {
    fn code(&self) -> (c: char)
        ensures
            c == 'E',
    {
        'E'
    }
}

} // verus!
