//! Sync (F) message.

use super::{FromBytes, Protocol, ToBytes};
use crate::net::buf;
use crate::net::error::Error;
use crate::net::wire::{frame, framed, lemma_unframe_frame, spec_unframe, unframe, Reader};
use bytes::Bytes;
use vstd::prelude::*;

verus! {

/// The tag of a Sync message.
pub const SYNC: u8 = 0x53;

/// Sync (F) message: the end of a request of the extended
/// protocol, which the server answers with a ReadyForQuery.
#[derive(Debug, Clone, Copy, PartialEq, Eq, Structural)]
pub struct Sync;

/// A Sync message on the wire.
pub open spec fn sync_bytes() -> Seq<u8> {
    frame(SYNC, Seq::empty())
}

/// Decoding an encoded Sync succeeds.
pub proof fn lemma_sync_round_trip()
    ensures
        spec_unframe(SYNC, sync_bytes()) is Ok,
{
    lemma_unframe_frame(SYNC, Seq::empty());
}

impl ToBytes for Sync {
    open spec fn wire(&self) -> Option<Seq<u8>> {
        Some(sync_bytes())
    }

    fn to_bytes(&self) -> (r: Result<Bytes, Error>)
        ensures
            r matches Ok(b) && buf::contents(b) == sync_bytes(),
    {
        let body: Vec<u8> = Vec::new();
        match framed(SYNC, &body) {
            Ok(v) => Ok(buf::from_vec(v)),
            Err(e) => Err(e),
        }
    }
}

impl FromBytes for Sync {
    open spec fn decodes(s: Seq<u8>) -> bool {
        spec_unframe(SYNC, s) is Ok
    }

    fn from_bytes(bytes: Bytes) -> (r: Result<Self, Error>)
        ensures
            match spec_unframe(SYNC, buf::contents(bytes)) {
                Ok(_) => r is Ok,
                Err(e) => r == Err::<Self, Error>(e),
            },
    {
        let mut reader = Reader::new(buf::as_slice(&bytes));
        unframe(&mut reader, SYNC)?;
        Ok(Sync)
    }
}

impl Protocol for Sync {
    fn code(&self) -> (c: char)
        ensures
            c == 'S',
    {
        'S'
    }
}

} // verus!
