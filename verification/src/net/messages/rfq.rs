//! ReadyForQuery (B) message.

use super::{FromBytes, Protocol, ToBytes};
use crate::net::buf;
use crate::net::error::Error;
use crate::net::wire::{frame, framed, lemma_unframe_frame, spec_unframe, take_u8, unframe, Reader};
use bytes::Bytes;
use vstd::prelude::*;

verus! {

/// The tag of a ReadyForQuery message.
pub const READY_FOR_QUERY: u8 = 0x5a;

/// ReadyForQuery (B) message: the server has finished a request. The
/// status says where the session stands: `I` outside a transaction, `T`
/// inside one, `E` inside one that failed.
#[derive(Debug, Clone, Copy, PartialEq, Eq, Structural)]
pub struct ReadyForQuery {
    /// Transaction status.
    pub status: char,
}

/// A ReadyForQuery message on the wire, for a status that is one byte.
pub open spec fn ready_for_query_bytes(status: char) -> Seq<u8> {
    frame(READY_FOR_QUERY, seq![status as u8])
}

/// What a ReadyForQuery message decodes to: the status.
pub open spec fn parse_ready_for_query(s: Seq<u8>) -> Result<char, Error> {
    match spec_unframe(READY_FOR_QUERY, s) {
        Err(e) => Err(e),
        Ok(body) => match take_u8(body) {
            Err(e) => Err(e),
            Ok((status, _)) => Ok(status as char),
        },
    }
}

/// Decoding an encoded ReadyForQuery gives the status back.
pub proof fn lemma_ready_for_query_round_trip(status: char)
    requires
        status as u32 <= 0xff,
    ensures
        parse_ready_for_query(ready_for_query_bytes(status)) == Ok::<char, Error>(status),
{
    lemma_unframe_frame(READY_FOR_QUERY, seq![status as u8]);
}

impl ReadyForQuery {
    /// Not in a transaction.
    pub fn idle() -> (r: Self)
        ensures
            r.status == 'I',
    {
        ReadyForQuery { status: 'I' }
    }

    /// In a transaction.
    pub fn in_transaction() -> (r: Self)
        ensures
            r.status == 'T',
    {
        ReadyForQuery { status: 'T' }
    }

    /// In a transaction that has failed.
    pub fn error() -> (r: Self)
        ensures
            r.status == 'E',
    {
        ReadyForQuery { status: 'E' }
    }
}

impl ToBytes for ReadyForQuery {
    open spec fn wire(&self) -> Option<Seq<u8>> {
        if self.status as u32 <= 0xff {
            Some(ready_for_query_bytes(self.status))
        } else {
            None
        }
    }

    fn to_bytes(&self) -> (r: Result<Bytes, Error>)
        ensures
            self.status as u32 <= 0xff ==> (r matches Ok(b) && buf::contents(b)
                == ready_for_query_bytes(self.status)),
            self.status as u32 > 0xff ==> r is Err && r->Err_0 == Error::TooLarge,
    {
        if self.status as u32 > 0xff {
            return Err(Error::TooLarge);
        }
        let mut body: Vec<u8> = Vec::new();
        body.push(self.status as u8);
        assert(body@ =~= seq![self.status as u8]);
        match framed(READY_FOR_QUERY, &body) {
            Ok(v) => Ok(buf::from_vec(v)),
            Err(e) => Err(e),
        }
    }
}

impl FromBytes for ReadyForQuery {
    open spec fn decodes(s: Seq<u8>) -> bool {
        parse_ready_for_query(s) is Ok
    }

    fn from_bytes(bytes: Bytes) -> (r: Result<Self, Error>)
        ensures
            match parse_ready_for_query(buf::contents(bytes)) {
                Ok(status) => r == Ok::<Self, Error>(ReadyForQuery { status }),
                Err(e) => r == Err::<Self, Error>(e),
            },
    {
        let mut reader = Reader::new(buf::as_slice(&bytes));
        unframe(&mut reader, READY_FOR_QUERY)?;
        let status = reader.get_u8()?;
        Ok(ReadyForQuery { status: status as char })
    }
}

impl Protocol for ReadyForQuery {
    fn code(&self) -> (c: char)
        ensures
            c == 'Z',
    {
        'Z'
    }
}

} // verus!
