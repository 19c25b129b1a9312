//! Password messages.

use super::{FromBytes, Protocol, ToBytes};
use crate::net::buf;
use crate::net::error::Error;
use crate::net::wire::{
    c_string_bytes, frame, framed, i32_bytes, lemma_c_string_round_trip,
    lemma_c_string_unterminated, lemma_concat_assoc, lemma_take_i32, lemma_unframe_frame,
    put_i32, put_slice, put_string, spec_c_string, spec_unframe, take_i32, unframe, Reader,
};
use bytes::Bytes;
use vstd::prelude::*;
use vstd::utf8::encode_utf8;

verus! {

/// The tag of a password message.
pub const PASSWORD: u8 = 0x70;

/// Password message.
#[derive(Debug, PartialEq, Eq)]
pub enum Password {
    /// SASLInitialResponse (F)
    SASLInitialResponse { name: String, response: String },
    /// SASLResponse (F)
    SASLResponse { response: String },
}

/// A password message as a plain value.
pub enum PasswordView {
    SASLInitialResponse { name: Seq<char>, response: Seq<char> },
    SASLResponse { response: Seq<char> },
}

impl View for Password {
    type V = PasswordView;

    open spec fn view(&self) -> PasswordView {
        match self {
            Password::SASLInitialResponse { name, response } => PasswordView::SASLInitialResponse {
                name: name@,
                response: response@,
            },
            Password::SASLResponse { response } => PasswordView::SASLResponse {
                response: response@,
            },
        }
    }
}

/// The body of a password message. An initial response names the
/// mechanism, then gives the length of the response as an `i32` and the
/// response itself; a later response is the response alone.
pub open spec fn password_body(p: PasswordView) -> Seq<u8> {
    match p {
        PasswordView::SASLInitialResponse { name, response } => c_string_bytes(name) + i32_bytes(
            encode_utf8(response).len() as int,
        ) + encode_utf8(response),
        PasswordView::SASLResponse { response } => encode_utf8(response),
    }
}

/// A password message on the wire.
pub open spec fn password_bytes(p: PasswordView) -> Seq<u8> {
    frame(PASSWORD, password_body(p))
}

/// Whether a password message fits the `i32` length field.
pub open spec fn password_fits(p: PasswordView) -> bool {
    password_body(p).len() + 4 <= i32::MAX
}

/// What a password message decodes to. A message that ends with its first
/// string is a later response; one that goes on is an initial response,
/// whose response is empty where its length is negative.
pub open spec fn parse_password(s: Seq<u8>) -> Result<PasswordView, Error> {
    match spec_unframe(PASSWORD, s) {
        Err(e) => Err(e),
        Ok(body) => match spec_c_string(body) {
            Err(e) => Err(e),
            Ok((content, rest)) => if rest.len() > 0 {
                match take_i32(rest) {
                    Err(e) => Err(e),
                    Ok((len, tail)) => if len >= 0 {
                        match spec_c_string(tail) {
                            Err(e) => Err(e),
                            Ok((response, _)) => Ok(
                                PasswordView::SASLInitialResponse { name: content, response },
                            ),
                        }
                    } else {
                        Ok(
                            PasswordView::SASLInitialResponse {
                                name: content,
                                response: Seq::empty(),
                            },
                        )
                    },
                }
            } else {
                Ok(PasswordView::SASLResponse { response: content })
            },
        },
    }
}

/// No string of the message holds a zero byte, which would end it early on
/// the wire.
pub open spec fn password_terminates(p: PasswordView) -> bool {
    match p {
        PasswordView::SASLInitialResponse { name, response } => !encode_utf8(name).contains(0u8)
            && !encode_utf8(response).contains(0u8),
        PasswordView::SASLResponse { response } => !encode_utf8(response).contains(0u8),
    }
}

/// Decoding an encoded password message gives the message back.
pub proof fn lemma_password_round_trip(p: PasswordView)
    requires
        password_fits(p),
        password_terminates(p),
    ensures
        parse_password(password_bytes(p)) == Ok::<PasswordView, Error>(p),
{
    lemma_unframe_frame(PASSWORD, password_body(p));
    match p {
        PasswordView::SASLInitialResponse { name, response } => {
            let enc = encode_utf8(response);
            let rest = i32_bytes(enc.len() as int) + enc;
            lemma_concat_assoc(c_string_bytes(name), i32_bytes(enc.len() as int), enc);
            lemma_c_string_round_trip(name, rest);
            lemma_take_i32(enc.len() as i32, enc);
            lemma_c_string_unterminated(response);
        },
        PasswordView::SASLResponse { response } => {
            lemma_c_string_unterminated(response);
        },
    }
}

impl Password {
    /// Create new SASL initial response.
    pub fn sasl_initial(response: &str) -> (p: Self)
        ensures
            p@ == (PasswordView::SASLInitialResponse {
                name: "SCRAM-SHA-256"@,
                response: response@,
            }),
    {
        Self::SASLInitialResponse {
            name: "SCRAM-SHA-256".to_owned(),
            response: response.to_owned(),
        }
    }
}

impl FromBytes for Password {
    open spec fn decodes(s: Seq<u8>) -> bool {
        parse_password(s) is Ok
    }

    fn from_bytes(bytes: Bytes) -> (r: Result<Self, Error>)
        ensures
            match parse_password(buf::contents(bytes)) {
                Ok(p) => r matches Ok(password) && password@ == p,
                Err(e) => r is Err && r->Err_0 == e,
            },
    {
        let mut reader = Reader::new(buf::as_slice(&bytes));
        unframe(&mut reader, PASSWORD)?;
        let content = reader.c_string()?;
        if reader.has_remaining() {
            let len = reader.get_i32()?;
            let response = if len >= 0 {
                reader.c_string()?
            } else {
                String::new()
            };
            Ok(Self::SASLInitialResponse { name: content, response })
        } else {
            Ok(Password::SASLResponse { response: content })
        }
    }
}

impl ToBytes for Password {
    open spec fn wire(&self) -> Option<Seq<u8>> {
        if password_fits(self@) {
            Some(password_bytes(self@))
        } else {
            None
        }
    }

    fn to_bytes(&self) -> (r: Result<Bytes, Error>)
        ensures
            password_fits(self@) ==> (r matches Ok(b) && buf::contents(b) == password_bytes(self@)),
            !password_fits(self@) ==> r is Err && r->Err_0 == Error::TooLarge,
    {
        let mut body: Vec<u8> = Vec::new();
        match self {
            Password::SASLInitialResponse { name, response } => {
                let name_bytes = name.as_str().as_bytes();
                let response_bytes = response.as_str().as_bytes();
                if name_bytes.len() > 0x7fff_fffb - 5 || response_bytes.len() > 0x7fff_fffb - 5
                    - name_bytes.len() {
                    return Err(Error::TooLarge);
                }
                put_string(&mut body, name.as_str());
                put_i32(&mut body, response_bytes.len() as i32);
                put_slice(&mut body, response_bytes);
            },
            Password::SASLResponse { response } => {
                put_slice(&mut body, response.as_str().as_bytes());
            },
        }
        assert(body@ =~= password_body(self@));
        match framed(PASSWORD, &body) {
            Ok(v) => Ok(buf::from_vec(v)),
            Err(e) => Err(e),
        }
    }
}

impl Protocol for Password {
    fn code(&self) -> (c: char)
        ensures
            c == 'p',
    {
        'p'
    }
}

} // verus!
