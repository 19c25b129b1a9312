//! ParameterStatus (B) message.

use super::{FromBytes, Protocol, ToBytes};
use crate::net::buf;
use crate::net::error::Error;
use crate::net::parameter::Parameter;
use crate::net::wire::{
    c_string_bytes, frame, framed, lemma_c_string_round_trip, lemma_unframe_frame, put_string,
    spec_c_string, spec_unframe, unframe, Reader,
};
use bytes::Bytes;
use vstd::prelude::*;
use vstd::std_specs::convert::FromSpecImpl;
use vstd::utf8::encode_utf8;

verus! {

/// The tag of a ParameterStatus message.
pub const PARAMETER_STATUS: u8 = 0x53;

/// ParameterStatus (B) message.
#[derive(Debug, PartialEq, Eq)]
pub struct ParameterStatus {
    /// Parameter name, e.g. `client_encoding`.
    pub name: String,
    /// Parameter value, e.g. `UTF8`.
    pub value: String,
}

impl View for ParameterStatus {
    type V = (Seq<char>, Seq<char>);

    open spec fn view(&self) -> (Seq<char>, Seq<char>) {
        (self.name@, self.value@)
    }
}

impl From<Parameter> for ParameterStatus {
    fn from(value: Parameter) -> (r: Self) {
        ParameterStatus { name: value.name, value: value.value }
    }
}

impl FromSpecImpl<Parameter> for ParameterStatus {
    open spec fn obeys_from_spec() -> bool {
        true
    }

    open spec fn from_spec(value: Parameter) -> Self {
        ParameterStatus { name: value.name, value: value.value }
    }
}

/// The body of a ParameterStatus message: the name and the value, each
/// with its terminator.
pub open spec fn parameter_status_body(name: Seq<char>, value: Seq<char>) -> Seq<u8> {
    c_string_bytes(name) + c_string_bytes(value)
}

/// A ParameterStatus message on the wire.
pub open spec fn parameter_status_bytes(p: (Seq<char>, Seq<char>)) -> Seq<u8> {
    frame(PARAMETER_STATUS, parameter_status_body(p.0, p.1))
}

/// What a ParameterStatus message decodes to.
pub open spec fn parse_parameter_status(s: Seq<u8>) -> Result<(Seq<char>, Seq<char>), Error> {
    match spec_unframe(PARAMETER_STATUS, s) {
        Err(e) => Err(e),
        Ok(body) => match spec_c_string(body) {
            Err(e) => Err(e),
            Ok((name, rest)) => match spec_c_string(rest) {
                Err(e) => Err(e),
                Ok((value, _)) => Ok((name, value)),
            },
        },
    }
}

/// Decoding an encoded parameter gives the parameter back.
pub proof fn lemma_parameter_status_round_trip(p: (Seq<char>, Seq<char>))
    requires
        !encode_utf8(p.0).contains(0u8),
        !encode_utf8(p.1).contains(0u8),
    ensures
        parse_parameter_status(parameter_status_bytes(p)) == Ok::<(Seq<char>, Seq<char>), Error>(
            p,
        ),
{
    lemma_unframe_frame(PARAMETER_STATUS, parameter_status_body(p.0, p.1));
    lemma_c_string_round_trip(p.0, c_string_bytes(p.1));
    lemma_c_string_round_trip(p.1, Seq::empty());
    assert(c_string_bytes(p.1) + Seq::<u8>::empty() =~= c_string_bytes(p.1));
}

impl ParameterStatus {
    /// Fake parameter status messages we can return to a client to make
    /// this seem like a legitimate PostgreSQL connection.
    pub fn fake() -> (r: Vec<ParameterStatus>)
        ensures
            r@.len() == 3,
            r@[0]@ == ("server_name"@, "pgDog"@),
            r@[1]@ == ("server_encoding"@, "UTF8"@),
            r@[2]@ == ("client_encoding"@, "UTF8"@),
    {
        let mut r: Vec<ParameterStatus> = Vec::new();
        r.push(ParameterStatus { name: "server_name".to_owned(), value: "pgDog".to_owned() });
        r.push(ParameterStatus { name: "server_encoding".to_owned(), value: "UTF8".to_owned() });
        r.push(ParameterStatus { name: "client_encoding".to_owned(), value: "UTF8".to_owned() });
        r
    }
}

impl ToBytes for ParameterStatus {
    open spec fn wire(&self) -> Option<Seq<u8>> {
        if parameter_status_body(self.name@, self.value@).len() + 4 <= i32::MAX {
            Some(parameter_status_bytes(self@))
        } else {
            None
        }
    }

    fn to_bytes(&self) -> (r: Result<Bytes, Error>)
        ensures
            parameter_status_body(self.name@, self.value@).len() + 4 <= i32::MAX ==> (r matches Ok(
                b,
            ) && buf::contents(b) == parameter_status_bytes(self@)),
            parameter_status_body(self.name@, self.value@).len() + 4 > i32::MAX ==> r is Err
                && r->Err_0 == Error::TooLarge,
    {
        let name = self.name.as_str();
        let value = self.value.as_str();
        let n = name.as_bytes().len();
        let v = value.as_bytes().len();
        if n > 0x7fff_fffb - 2 || v > 0x7fff_fffb - 2 - n {
            return Err(Error::TooLarge);
        }
        let mut body: Vec<u8> = Vec::new();
        put_string(&mut body, name);
        put_string(&mut body, value);
        assert(body@ =~= parameter_status_body(self.name@, self.value@));
        match framed(PARAMETER_STATUS, &body) {
            Ok(v) => Ok(buf::from_vec(v)),
            Err(e) => Err(e),
        }
    }
}

impl FromBytes for ParameterStatus {
    open spec fn decodes(s: Seq<u8>) -> bool {
        parse_parameter_status(s) is Ok
    }

    fn from_bytes(bytes: Bytes) -> (r: Result<Self, Error>)
        ensures
            match parse_parameter_status(buf::contents(bytes)) {
                Ok(p) => r matches Ok(ps) && ps@ == p,
                Err(e) => r is Err && r->Err_0 == e,
            },
    {
        let mut reader = Reader::new(buf::as_slice(&bytes));
        unframe(&mut reader, PARAMETER_STATUS)?;
        let name = reader.c_string()?;
        let value = reader.c_string()?;
        Ok(Self { name, value })
    }
}

impl Protocol for ParameterStatus {
    fn code(&self) -> (c: char)
        ensures
            c == 'S',
    {
        'S'
    }
}

} // verus!
