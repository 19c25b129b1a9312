//! Flush (F) message.

use super::{FromBytes, Protocol, ToBytes};
use crate::net::buf;
use crate::net::error::Error;
use crate::net::wire::{frame, framed, lemma_unframe_frame, spec_unframe, unframe, Reader};
use bytes::Bytes;
use vstd::prelude::*;

verus! {

/// The tag of a Flush message.
pub const FLUSH: u8 = 0x48;

/// Flush (F) message: the server is to send what it has so far.
#[derive(Debug, Clone, Copy, PartialEq, Eq, Structural)]
pub struct Flush;

/// A Flush message on the wire.
pub open spec fn flush_bytes() -> Seq<u8> {
    frame(FLUSH, Seq::empty())
}

/// Decoding an encoded Flush succeeds.
pub proof fn lemma_flush_round_trip()
    ensures
        spec_unframe(FLUSH, flush_bytes()) is Ok,
{
    lemma_unframe_frame(FLUSH, Seq::empty());
}

impl ToBytes for Flush {
    open spec fn wire(&self) -> Option<Seq<u8>> {
        Some(flush_bytes())
    }

    fn to_bytes(&self) -> (r: Result<Bytes, Error>)
        ensures
            r matches Ok(b) && buf::contents(b) == flush_bytes(),
    {
        let body: Vec<u8> = Vec::new();
        match framed(FLUSH, &body) {
            Ok(v) => Ok(buf::from_vec(v)),
            Err(e) => Err(e),
        }
    }
}

impl FromBytes for Flush {
    open spec fn decodes(s: Seq<u8>) -> bool {
        spec_unframe(FLUSH, s) is Ok
    }

    fn from_bytes(bytes: Bytes) -> (r: Result<Self, Error>)
        ensures
            match spec_unframe(FLUSH, buf::contents(bytes)) {
                Ok(_) => r is Ok,
                Err(e) => r == Err::<Self, Error>(e),
            },
    {
        let mut reader = Reader::new(buf::as_slice(&bytes));
        unframe(&mut reader, FLUSH)?;
        Ok(Flush)
    }
}

impl Protocol for Flush {
    fn code(&self) -> (c: char)
        ensures
            c == 'H',
    {
        'H'
    }
}

} // verus!
