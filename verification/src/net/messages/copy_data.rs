//! CopyData (F & B) message.

use super::{FromBytes, Protocol, ToBytes};
use crate::net::buf;
use crate::net::error::Error;
use crate::net::wire::{
    frame, framed, lemma_unframe_frame, put_slice, spec_unframe, unframe, Reader,
};
use bytes::Bytes;
use vstd::prelude::*;

verus! {

/// The tag of a CopyData message.
pub const COPY_DATA: u8 = 0x64;

/// CopyData (F & B) message: a piece of the data of a COPY.
#[derive(Debug)]
pub struct CopyData {
    data: Bytes,
}

impl View for CopyData {
    type V = Seq<u8>;

    closed spec fn view(&self) -> Seq<u8> {
        buf::contents(self.data)
    }
}

/// A CopyData message on the wire.
pub open spec fn copy_data_bytes(data: Seq<u8>) -> Seq<u8> {
    frame(COPY_DATA, data)
}

/// What a CopyData message decodes to: everything after tag and length.
pub open spec fn parse_copy_data(s: Seq<u8>) -> Result<Seq<u8>, Error> {
    spec_unframe(COPY_DATA, s)
}

/// Decoding an encoded CopyData gives the data back.
pub proof fn lemma_copy_data_round_trip(data: Seq<u8>)
    ensures
        parse_copy_data(copy_data_bytes(data)) == Ok::<Seq<u8>, Error>(data),
{
    lemma_unframe_frame(COPY_DATA, data);
}

impl CopyData {
    /// New copy data row.
    pub fn new(data: &[u8]) -> (c: Self)
        ensures
            c@ == data@,
    {
        CopyData { data: buf::copy_from_slice(data) }
    }

    /// The data.
    pub fn data(&self) -> (d: &[u8])
        ensures
            d@ == self@,
    {
        buf::as_slice(&self.data)
    }
}

impl ToBytes for CopyData {
    open spec fn wire(&self) -> Option<Seq<u8>> {
        if self@.len() + 4 <= i32::MAX {
            Some(copy_data_bytes(self@))
        } else {
            None
        }
    }

    fn to_bytes(&self) -> (r: Result<Bytes, Error>)
        ensures
            self@.len() + 4 <= i32::MAX ==> (r matches Ok(b) && buf::contents(b) == copy_data_bytes(
                self@,
            )),
            self@.len() + 4 > i32::MAX ==> r is Err && r->Err_0 == Error::TooLarge,
    {
        let mut body: Vec<u8> = Vec::new();
        put_slice(&mut body, buf::as_slice(&self.data));
        assert(body@ =~= self@);
        match framed(COPY_DATA, &body) {
            Ok(v) => Ok(buf::from_vec(v)),
            Err(e) => Err(e),
        }
    }
}

impl FromBytes for CopyData {
    open spec fn decodes(s: Seq<u8>) -> bool {
        parse_copy_data(s) is Ok
    }

    fn from_bytes(bytes: Bytes) -> (r: Result<Self, Error>)
        ensures
            match parse_copy_data(buf::contents(bytes)) {
                Ok(data) => r matches Ok(c) && c@ == data,
                Err(e) => r is Err && r->Err_0 == e,
            },
    {
        let mut reader = Reader::new(buf::as_slice(&bytes));
        unframe(&mut reader, COPY_DATA)?;
        let n = reader.len();
        let data = reader.take(n)?;
        assert(data@ =~= buf::contents(bytes).skip(5));
        Ok(CopyData { data: buf::copy_from_slice(data) })
    }
}

impl Protocol for CopyData {
    fn code(&self) -> (c: char)
        ensures
            c == 'd',
    {
        'd'
    }
}

} // verus!
