//! Describe (F) message.

use super::{FromBytes, Protocol, ToBytes};
use crate::net::buf;
use crate::net::error::Error;
use crate::net::wire::{
    c_string_bytes, frame, framed, lemma_c_string_round_trip, lemma_unframe_frame, put_string,
    spec_c_string, spec_unframe, take_u8, unframe, Reader,
};
use bytes::Bytes;
use vstd::prelude::*;
use vstd::utf8::encode_utf8;

verus! {

/// The tag of a Describe message.
pub const DESCRIBE: u8 = 0x44;

/// Describe (F) message: the client asks what a prepared statement (`S`)
/// or a portal (`P`) takes and gives.
#[derive(Debug, PartialEq, Eq)]
pub struct Describe {
    /// `S` for a prepared statement, `P` for a portal.
    pub kind: u8,
    /// The name of the statement or portal.
    pub name: String,
}

impl View for Describe {
    type V = (u8, Seq<char>);

    open spec fn view(&self) -> (u8, Seq<char>) {
        (self.kind, self.name@)
    }
}

/// A Describe message on the wire.
pub open spec fn describe_bytes(d: (u8, Seq<char>)) -> Seq<u8> {
    frame(DESCRIBE, seq![d.0] + c_string_bytes(d.1))
}

/// What a Describe message decodes to.
pub open spec fn parse_describe(s: Seq<u8>) -> Result<(u8, Seq<char>), Error> {
    match spec_unframe(DESCRIBE, s) {
        Err(e) => Err(e),
        Ok(body) => match take_u8(body) {
            Err(e) => Err(e),
            Ok((kind, rest)) => match spec_c_string(rest) {
                Err(e) => Err(e),
                Ok((name, _)) => Ok((kind, name)),
            },
        },
    }
}

/// Decoding an encoded Describe gives it back.
pub proof fn lemma_describe_round_trip(d: (u8, Seq<char>))
    requires
        !encode_utf8(d.1).contains(0u8),
    ensures
        parse_describe(describe_bytes(d)) == Ok::<(u8, Seq<char>), Error>(d),
{
    let body = seq![d.0] + c_string_bytes(d.1);
    lemma_unframe_frame(DESCRIBE, body);
    assert(body[0] == d.0);
    assert(body.skip(1) =~= c_string_bytes(d.1) + Seq::<u8>::empty());
    lemma_c_string_round_trip(d.1, Seq::empty());
}

impl ToBytes for Describe {
    open spec fn wire(&self) -> Option<Seq<u8>> {
        if c_string_bytes(self.name@).len() + 5 <= i32::MAX {
            Some(describe_bytes(self@))
        } else {
            None
        }
    }

    fn to_bytes(&self) -> (r: Result<Bytes, Error>)
        ensures
            c_string_bytes(self.name@).len() + 5 <= i32::MAX ==> (r matches Ok(b) && buf::contents(
                b,
            ) == describe_bytes(self@)),
            c_string_bytes(self.name@).len() + 5 > i32::MAX ==> r is Err && r->Err_0
                == Error::TooLarge,
    {
        let name = self.name.as_str();
        if name.as_bytes().len() > 0x7fff_fffb - 2 {
            return Err(Error::TooLarge);
        }
        let mut body: Vec<u8> = Vec::new();
        body.push(self.kind);
        put_string(&mut body, name);
        assert(body@ =~= seq![self.kind] + c_string_bytes(self.name@));
        match framed(DESCRIBE, &body) {
            Ok(v) => Ok(buf::from_vec(v)),
            Err(e) => Err(e),
        }
    }
}

impl FromBytes for Describe {
    open spec fn decodes(s: Seq<u8>) -> bool {
        parse_describe(s) is Ok
    }

    fn from_bytes(bytes: Bytes) -> (r: Result<Self, Error>)
        ensures
            match parse_describe(buf::contents(bytes)) {
                Ok(d) => r matches Ok(x) && x@ == d,
                Err(e) => r is Err && r->Err_0 == e,
            },
    {
        let mut reader = Reader::new(buf::as_slice(&bytes));
        unframe(&mut reader, DESCRIBE)?;
        let kind = reader.get_u8()?;
        let name = reader.c_string()?;
        Ok(Describe { kind, name })
    }
}

impl Protocol for Describe {
    fn code(&self) -> (c: char)
        ensures
            c == 'D',
    {
        'D'
    }
}

} // verus!
