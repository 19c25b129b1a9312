//! BackendKeyData (B) message.

use super::{FromBytes, Protocol, ToBytes};
use crate::net::buf;
use crate::net::error::Error;
use crate::net::wire::{
    frame, framed, i32_bytes, lemma_take_i32, lemma_unframe_frame, put_i32, spec_unframe,
    take_i32, unframe, Reader,
};
use bytes::Bytes;
use vstd::prelude::*;

verus! {

/// The tag of a BackendKeyData message.
pub const BACKEND_KEY_DATA: u8 = 0x4b;

/// BackendKeyData (B) message: what identifies a server process to a
/// client that may later ask to cancel a query.
#[derive(Debug, Clone, Copy, PartialEq, Eq, Hash, Structural)]
pub struct BackendKeyData {
    /// Process ID.
    pub pid: i32,
    /// Process secret.
    pub secret: i32,
}

/// A BackendKeyData message on the wire.
pub open spec fn backend_key_bytes(k: BackendKeyData) -> Seq<u8> {
    frame(BACKEND_KEY_DATA, i32_bytes(k.pid as int) + i32_bytes(k.secret as int))
}

/// What a BackendKeyData message decodes to.
pub open spec fn parse_backend_key(s: Seq<u8>) -> Result<BackendKeyData, Error> {
    match spec_unframe(BACKEND_KEY_DATA, s) {
        Err(e) => Err(e),
        Ok(body) => match take_i32(body) {
            Err(e) => Err(e),
            Ok((pid, rest)) => match take_i32(rest) {
                Err(e) => Err(e),
                Ok((secret, _)) => Ok(BackendKeyData { pid, secret }),
            },
        },
    }
}

/// Decoding an encoded BackendKeyData gives it back.
pub proof fn lemma_backend_key_round_trip(k: BackendKeyData)
    ensures
        parse_backend_key(backend_key_bytes(k)) == Ok::<BackendKeyData, Error>(k),
{
    lemma_unframe_frame(BACKEND_KEY_DATA, i32_bytes(k.pid as int) + i32_bytes(k.secret as int));
    lemma_take_i32(k.pid, i32_bytes(k.secret as int));
    lemma_take_i32(k.secret, Seq::empty());
    assert(i32_bytes(k.secret as int) + Seq::<u8>::empty() =~= i32_bytes(k.secret as int));
}

impl ToBytes for BackendKeyData {
    open spec fn wire(&self) -> Option<Seq<u8>> {
        Some(backend_key_bytes(*self))
    }

    fn to_bytes(&self) -> (r: Result<Bytes, Error>)
        ensures
            r matches Ok(b) && buf::contents(b) == backend_key_bytes(*self),
    {
        let mut body: Vec<u8> = Vec::new();
        put_i32(&mut body, self.pid);
        put_i32(&mut body, self.secret);
        assert(body@ =~= i32_bytes(self.pid as int) + i32_bytes(self.secret as int));
        match framed(BACKEND_KEY_DATA, &body) {
            Ok(v) => Ok(buf::from_vec(v)),
            Err(e) => Err(e),
        }
    }
}

impl FromBytes for BackendKeyData {
    open spec fn decodes(s: Seq<u8>) -> bool {
        parse_backend_key(s) is Ok
    }

    fn from_bytes(bytes: Bytes) -> (r: Result<Self, Error>)
        ensures
            r == parse_backend_key(buf::contents(bytes)),
    {
        let mut reader = Reader::new(buf::as_slice(&bytes));
        unframe(&mut reader, BACKEND_KEY_DATA)?;
        let pid = reader.get_i32()?;
        let secret = reader.get_i32()?;
        Ok(BackendKeyData { pid, secret })
    }
}

impl Protocol for BackendKeyData {
    fn code(&self) -> (c: char)
        ensures
            c == 'K',
    {
        'K'
    }
}

} // verus!
