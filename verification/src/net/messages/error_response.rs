//! ErrorResponse (B) message.

use super::{FromBytes, Protocol, ToBytes};
use crate::net::buf;
use crate::net::error::Error;
use crate::net::wire::{
    c_string_bytes, frame, framed, lemma_c_string_round_trip, lemma_concat_assoc,
    lemma_unframe_frame, put_string, spec_c_string, spec_unframe, unframe, Reader,
};
use bytes::Bytes;
use vstd::prelude::*;
use vstd::utf8::encode_utf8;

verus! {

/// The tag of an ErrorResponse message.
pub const ERROR_RESPONSE: u8 = 0x45;

/// ErrorResponse (B) message: how serious the error is, its SQLSTATE code,
/// and what it says.
#[derive(Debug, PartialEq, Eq)]
pub struct ErrorResponse {
    /// Severity: `ERROR`, `FATAL`, `PANIC`.
    pub severity: String,
    /// SQLSTATE code.
    pub code: String,
    /// What went wrong, in words.
    pub message: String,
}

/// An ErrorResponse as a plain value.
pub struct ErrorResponseView {
    pub severity: Seq<char>,
    pub code: Seq<char>,
    pub message: Seq<char>,
}

impl View for ErrorResponse {
    type V = ErrorResponseView;

    open spec fn view(&self) -> ErrorResponseView {
        ErrorResponseView { severity: self.severity@, code: self.code@, message: self.message@ }
    }
}

/// One field on the wire: the byte that says which, and its text.
pub open spec fn error_field(kind: u8, text: Seq<char>) -> Seq<u8> {
    seq![kind] + c_string_bytes(text)
}

/// The body of an ErrorResponse: severity (`S`), code (`C`), message
/// (`M`), and a zero byte that closes the list.
pub open spec fn error_response_body(e: ErrorResponseView) -> Seq<u8> {
    error_field(0x53, e.severity) + error_field(0x43, e.code) + error_field(0x4d, e.message)
        + seq![0u8]
}

/// An ErrorResponse on the wire.
pub open spec fn error_response_bytes(e: ErrorResponseView) -> Seq<u8> {
    frame(ERROR_RESPONSE, error_response_body(e))
}

/// What is known of an error after one more field: severity, code and
/// message are kept, the last of each counts, and other fields are passed
/// over.
pub open spec fn with_field(e: ErrorResponseView, kind: u8, text: Seq<char>) -> ErrorResponseView {
    if kind == 0x53 {
        ErrorResponseView { severity: text, ..e }
    } else if kind == 0x43 {
        ErrorResponseView { code: text, ..e }
    } else if kind == 0x4d {
        ErrorResponseView { message: text, ..e }
    } else {
        e
    }
}

/// Reads fields off the front of `s` up to the zero byte that closes them.
pub open spec fn parse_error_fields(s: Seq<u8>, e: ErrorResponseView) -> Result<
    ErrorResponseView,
    Error,
>
    decreases s.len(),
{
    if s.len() == 0 {
        Err(Error::UnexpectedEof)
    } else if s[0] == 0 {
        Ok(e)
    } else {
        match spec_c_string(s.skip(1)) {
            Err(err) => Err(err),
            Ok((text, rest)) => if rest.len() < s.len() {
                parse_error_fields(rest, with_field(e, s[0], text))
            } else {
                Err(Error::UnexpectedEof)
            },
        }
    }
}

/// An error of which nothing is known.
pub open spec fn blank() -> ErrorResponseView {
    ErrorResponseView { severity: Seq::empty(), code: Seq::empty(), message: Seq::empty() }
}

/// What an ErrorResponse decodes to.
pub open spec fn parse_error_response(s: Seq<u8>) -> Result<ErrorResponseView, Error> {
    match spec_unframe(ERROR_RESPONSE, s) {
        Err(e) => Err(e),
        Ok(body) => parse_error_fields(body, blank()),
    }
}

/// A field that was written is read, and the fields behind it after it.
proof fn lemma_error_field(kind: u8, text: Seq<char>, rest: Seq<u8>, e: ErrorResponseView)
    requires
        kind != 0,
        !encode_utf8(text).contains(0u8),
    ensures
        parse_error_fields(error_field(kind, text) + rest, e) == parse_error_fields(
            rest,
            with_field(e, kind, text),
        ),
{
    let s = error_field(kind, text) + rest;
    assert(s[0] == kind);
    assert(s.skip(1) =~= c_string_bytes(text) + rest);
    lemma_c_string_round_trip(text, rest);
}

/// No text of the error holds a zero byte, which would end it early on
/// the wire.
pub open spec fn error_terminates(e: ErrorResponseView) -> bool {
    !encode_utf8(e.severity).contains(0u8) && !encode_utf8(e.code).contains(0u8) && !encode_utf8(
        e.message,
    ).contains(0u8)
}

/// Decoding an encoded ErrorResponse gives it back.
pub proof fn lemma_error_response_round_trip(e: ErrorResponseView)
    requires
        error_terminates(e),
    ensures
        parse_error_response(error_response_bytes(e)) == Ok::<ErrorResponseView, Error>(e),
{
    let end = seq![0u8];
    let s3 = error_field(0x4d, e.message) + end;
    let s2 = error_field(0x43, e.code) + s3;
    let a1 = error_field(0x53, e.severity) + error_field(0x43, e.code);
    lemma_unframe_frame(ERROR_RESPONSE, error_response_body(e));
    lemma_concat_assoc(a1, error_field(0x4d, e.message), end);
    lemma_concat_assoc(error_field(0x53, e.severity), error_field(0x43, e.code), s3);
    assert(error_response_body(e) == error_field(0x53, e.severity) + s2);
    let e1 = with_field(blank(), 0x53, e.severity);
    let e2 = with_field(e1, 0x43, e.code);
    let e3 = with_field(e2, 0x4d, e.message);
    lemma_error_field(0x53, e.severity, s2, blank());
    lemma_error_field(0x43, e.code, s3, e1);
    lemma_error_field(0x4d, e.message, end, e2);
    assert(end[0] == 0);
    assert(e3 == e);
}

impl ErrorResponse {
    /// What a client is told when no server can take its request now.
    pub fn cannot_connect() -> (e: Self)
        ensures
            e@ == (ErrorResponseView {
                severity: "FATAL"@,
                code: "57P03"@,
                message: "connection pool is down"@,
            }),
    {
        ErrorResponse {
            severity: "FATAL".to_owned(),
            code: "57P03".to_owned(),
            message: "connection pool is down".to_owned(),
        }
    }
}

impl ToBytes for ErrorResponse {
    open spec fn wire(&self) -> Option<Seq<u8>> {
        if error_response_body(self@).len() + 4 <= i32::MAX {
            Some(error_response_bytes(self@))
        } else {
            None
        }
    }

    fn to_bytes(&self) -> (r: Result<Bytes, Error>)
        ensures
            error_response_body(self@).len() + 4 <= i32::MAX ==> (r matches Ok(b) && buf::contents(
                b,
            ) == error_response_bytes(self@)),
            error_response_body(self@).len() + 4 > i32::MAX ==> r is Err && r->Err_0
                == Error::TooLarge,
    {
        let s = self.severity.as_str().as_bytes().len();
        let c = self.code.as_str().as_bytes().len();
        let m = self.message.as_str().as_bytes().len();
        // Three kinds, three terminators and the closing zero take seven bytes.
        if s > 0x7fff_fffb - 7 || c > 0x7fff_fffb - 7 - s || m > 0x7fff_fffb - 7 - s - c {
            return Err(Error::TooLarge);
        }
        let mut body: Vec<u8> = Vec::new();
        body.push(0x53);
        put_string(&mut body, self.severity.as_str());
        body.push(0x43);
        put_string(&mut body, self.code.as_str());
        body.push(0x4d);
        put_string(&mut body, self.message.as_str());
        body.push(0);
        assert(body@ =~= error_response_body(self@));
        match framed(ERROR_RESPONSE, &body) {
            Ok(v) => Ok(buf::from_vec(v)),
            Err(e) => Err(e),
        }
    }
}

impl FromBytes for ErrorResponse {
    open spec fn decodes(s: Seq<u8>) -> bool {
        parse_error_response(s) is Ok
    }

    fn from_bytes(bytes: Bytes) -> (r: Result<Self, Error>)
        ensures
            match parse_error_response(buf::contents(bytes)) {
                Ok(e) => r matches Ok(x) && x@ == e,
                Err(e) => r is Err && r->Err_0 == e,
            },
    {
        let mut reader = Reader::new(buf::as_slice(&bytes));
        unframe(&mut reader, ERROR_RESPONSE)?;
        let ghost start = reader.remaining();
        let mut e = ErrorResponse {
            severity: String::new(),
            code: String::new(),
            message: String::new(),
        };
        loop
            invariant
                parse_error_response(buf::contents(bytes)) == parse_error_fields(
                    reader.remaining(),
                    e@,
                ),
            decreases reader.remaining().len(),
        {
            let ghost before = reader.remaining();
            let kind = reader.get_u8()?;
            if kind == 0 {
                return Ok(e);
            }
            assert(reader.remaining() == before.skip(1));
            let text = reader.c_string()?;
            proof {
                if before.skip(1).len() > 0 {
                    crate::net::messages::hello::lemma_c_string_consumes(before.skip(1));
                }
            }
            if kind == 0x53 {
                e.severity = text;
            } else if kind == 0x43 {
                e.code = text;
            } else if kind == 0x4d {
                e.message = text;
            }
        }
    }
}

impl Protocol for ErrorResponse {
    fn code(&self) -> (c: char)
        ensures
            c == 'E',
    {
        'E'
    }
}

} // verus!
