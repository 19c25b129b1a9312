//! Terminate (F) message.

use super::{FromBytes, Protocol, ToBytes};
use crate::net::buf;
use crate::net::error::Error;
use crate::net::wire::{frame, framed, lemma_unframe_frame, spec_unframe, unframe, Reader};
use bytes::Bytes;
use vstd::prelude::*;

verus! {

/// The tag of a Terminate message.
pub const TERMINATE: u8 = 0x58;

/// Terminate (F) message: the sender is about to close the connection.
#[derive(Debug, Clone, Copy, PartialEq, Eq, Structural)]
pub struct Terminate;

/// A Terminate message on the wire.
pub open spec fn terminate_bytes() -> Seq<u8> {
    frame(TERMINATE, Seq::empty())
}

/// Decoding an encoded Terminate succeeds.
pub proof fn lemma_terminate_round_trip()
    ensures
        spec_unframe(TERMINATE, terminate_bytes()) is Ok,
{
    lemma_unframe_frame(TERMINATE, Seq::empty());
}

impl ToBytes for Terminate {
    open spec fn wire(&self) -> Option<Seq<u8>> {
        Some(terminate_bytes())
    }

    fn to_bytes(&self) -> (r: Result<Bytes, Error>)
        ensures
            r matches Ok(b) && buf::contents(b) == terminate_bytes(),
    {
        let body: Vec<u8> = Vec::new();
        match framed(TERMINATE, &body) {
            Ok(v) => Ok(buf::from_vec(v)),
            Err(e) => Err(e),
        }
    }
}

impl FromBytes for Terminate {
    open spec fn decodes(s: Seq<u8>) -> bool {
        spec_unframe(TERMINATE, s) is Ok
    }

    fn from_bytes(bytes: Bytes) -> (r: Result<Self, Error>)
        ensures
            match spec_unframe(TERMINATE, buf::contents(bytes)) {
                Ok(_) => r is Ok,
                Err(e) => r == Err::<Self, Error>(e),
            },
    {
        let mut reader = Reader::new(buf::as_slice(&bytes));
        unframe(&mut reader, TERMINATE)?;
        Ok(Terminate)
    }
}

impl Protocol for Terminate {
    fn code(&self) -> (c: char)
        ensures
            c == 'X',
    {
        'X'
    }
}

} // verus!
