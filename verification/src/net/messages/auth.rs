//! Authentication (B) messages.

use super::{FromBytes, Protocol, ToBytes};
use crate::net::buf;
use crate::net::error::Error;
use crate::net::wire::{
    frame, framed, i32_bytes, lemma_take_i32, lemma_unframe_frame, put_i32, spec_unframe,
    take_i32, unframe, Reader,
};
use bytes::Bytes;
use vstd::prelude::*;

verus! {

/// The tag of an Authentication message.
pub const AUTHENTICATION: u8 = 0x52;

/// Authentication messages. The server either asks for credentials in one
/// of several ways or says that the client is in; only the latter is
/// taken here.
#[derive(Debug, Clone, Copy, PartialEq, Eq, Structural)]
pub enum Authentication {
    /// AuthenticationOk (B)
    AuthenticationOk,
}

/// An AuthenticationOk message on the wire.
pub open spec fn authentication_ok_bytes() -> Seq<u8> {
    frame(AUTHENTICATION, i32_bytes(0))
}

/// What an Authentication message decodes to. A request for credentials is
/// refused.
pub open spec fn parse_authentication(s: Seq<u8>) -> Result<Authentication, Error> {
    match spec_unframe(AUTHENTICATION, s) {
        Err(e) => Err(e),
        Ok(body) => match take_i32(body) {
            Err(e) => Err(e),
            Ok((status, _)) => if status == 0 {
                Ok(Authentication::AuthenticationOk)
            } else {
                Err(Error::UnexpectedPayload)
            },
        },
    }
}

/// Decoding an encoded AuthenticationOk gives it back.
pub proof fn lemma_authentication_round_trip()
    ensures
        parse_authentication(authentication_ok_bytes()) == Ok::<Authentication, Error>(
            Authentication::AuthenticationOk,
        ),
{
    lemma_unframe_frame(AUTHENTICATION, i32_bytes(0));
    lemma_take_i32(0, Seq::empty());
    assert(i32_bytes(0) + Seq::<u8>::empty() =~= i32_bytes(0));
}

impl ToBytes for Authentication {
    open spec fn wire(&self) -> Option<Seq<u8>> {
        Some(authentication_ok_bytes())
    }

    fn to_bytes(&self) -> (r: Result<Bytes, Error>)
        ensures
            r matches Ok(b) && buf::contents(b) == authentication_ok_bytes(),
    {
        let mut body: Vec<u8> = Vec::new();
        put_i32(&mut body, 0);
        assert(body@ =~= i32_bytes(0));
        match framed(AUTHENTICATION, &body) {
            Ok(v) => Ok(buf::from_vec(v)),
            Err(e) => Err(e),
        }
    }
}

impl FromBytes for Authentication {
    open spec fn decodes(s: Seq<u8>) -> bool {
        parse_authentication(s) is Ok
    }

    fn from_bytes(bytes: Bytes) -> (r: Result<Self, Error>)
        ensures
            r == parse_authentication(buf::contents(bytes)),
    {
        let mut reader = Reader::new(buf::as_slice(&bytes));
        unframe(&mut reader, AUTHENTICATION)?;
        let status = reader.get_i32()?;
        if status == 0 {
            Ok(Authentication::AuthenticationOk)
        } else {
            Err(Error::UnexpectedPayload)
        }
    }
}

impl Protocol for Authentication {
    fn code(&self) -> (c: char)
        ensures
            c == 'R',
    {
        'R'
    }
}

} // verus!
