//! PostgreSQL wire protocol messages.

pub mod auth;
pub mod backend_key;
pub mod bind;
pub mod command_complete;
pub mod copy_data;
pub mod data_row;
pub mod describe;
pub mod error_response;
pub mod execute;
pub mod flush;
pub mod hello;
pub mod parameter_status;
pub mod parse;
pub mod password;
pub mod query;
pub mod rfq;
pub mod row_description;
pub mod sync;
pub mod terminate;

pub use auth::Authentication;
pub use backend_key::BackendKeyData;
pub use bind::{Bind, ParameterWithFormat};
pub use command_complete::CommandComplete;
pub use copy_data::CopyData;
pub use data_row::{DataRow, ToDataRowColumn};
pub use describe::Describe;
pub use error_response::ErrorResponse;
pub use execute::Execute;
pub use flush::Flush;
pub use hello::Startup;
pub use parameter_status::ParameterStatus;
pub use parse::Parse;
pub use password::Password;
pub use query::Query;
pub use rfq::ReadyForQuery;
pub use row_description::{DataType, Field, RowDescription};
pub use sync::Sync;
pub use terminate::Terminate;

use super::buf;
use super::error::Error;
use bytes::Bytes;
use vstd::prelude::*;

verus! {

/// Convert a value to a PostgreSQL wire protocol message.
pub trait ToBytes {
    /// The message as bytes on the wire, tag and length included; nothing
    /// for a value that does not fit the format.
    spec fn wire(&self) -> Option<Seq<u8>>;

    /// Create the protocol message as an array of bytes.
    fn to_bytes(&self) -> (r: Result<Bytes, Error>)
        ensures
            match self.wire() {
                Some(bytes) => r matches Ok(b) && buf::contents(b) == bytes,
                None => r is Err,
            },
    ;
}

/// Convert a PostgreSQL wire protocol message to a value.
pub trait FromBytes: Sized {
    /// Whether the bytes are a message of this kind.
    spec fn decodes(s: Seq<u8>) -> bool;

    /// Perform the conversion.
    fn from_bytes(bytes: Bytes) -> (r: Result<Self, Error>)
        ensures
            r is Ok <==> Self::decodes(buf::contents(bytes)),
    ;
}

/// PostgreSQL wire protocol message.
pub trait Protocol: ToBytes + FromBytes {
    /// The tag of the message, which is the first byte it has on the wire.
    fn code(&self) -> (c: char)
        ensures
            self.wire() matches Some(bytes) ==> bytes.len() > 0 && c == bytes[0] as char,
    ;

    /// Convert to a framed message.
    fn message(&self) -> (r: Result<Message, Error>)
        ensures
            match self.wire() {
                Some(bytes) => r matches Ok(m) && m@ == bytes,
                None => r is Err,
            },
    {
        let _ = self.code();
        let bytes = self.to_bytes()?;
        Message::from_bytes(bytes)
    }

    /// Message is part of a stream and should not be buffered or inspected
    /// for meaningful values. A message is not part of a stream unless its
    /// kind says otherwise: of the kinds in this module only a framed
    /// [`Message`] can be.
    fn streaming(&self) -> (b: bool)
        default_ensures
            !b,
    {
        false
    }
}

/// A framed message: the bytes as they travel, the tag first.
#[derive(Debug)]
pub struct Message {
    payload: Bytes,
    stream: bool,
}

impl View for Message {
    type V = Seq<u8>;

    closed spec fn view(&self) -> Seq<u8> {
        buf::contents(self.payload)
    }
}

impl Message {
    #[verifier::type_invariant]
    spec fn inv(self) -> bool {
        buf::contents(self.payload).len() > 0
    }

    /// Whether the message is marked as part of a stream.
    pub closed spec fn is_stream(self) -> bool {
        self.stream
    }

    /// Create new message from network payload.
    pub fn new(payload: Bytes) -> (m: Self)
        requires
            buf::contents(payload).len() > 0,
        ensures
            m@ == buf::contents(payload),
            !m.is_stream(),
    {
        Message { payload, stream: false }
    }

    /// This message is part of a stream and should be flushed asap.
    pub fn stream(self, stream: bool) -> (m: Self)
        ensures
            m@ == self@,
            m.is_stream() == stream,
    {
        proof {
            use_type_invariant(&self);
        }
        Message { payload: self.payload, stream }
    }

    /// Take the message payload.
    pub fn payload(&self) -> (b: Bytes)
        ensures
            buf::contents(b) == self@,
    {
        buf::duplicate(&self.payload)
    }

    /// Number of bytes in the message.
    pub fn len(&self) -> (n: usize)
        ensures
            n == self@.len(),
            n > 0,
    {
        proof {
            use_type_invariant(self);
        }
        buf::len(&self.payload)
    }

    /// Is the message empty? A message always holds its tag, so it never is.
    pub fn is_empty(&self) -> (b: bool)
        ensures
            !b,
            self@.len() > 0,
    {
        self.len() == 0
    }

    /// A second handle on the same message.
    pub fn duplicate(&self) -> (m: Self)
        ensures
            m@ == self@,
            m.is_stream() == self.is_stream(),
    {
        proof {
            use_type_invariant(self);
        }
        Message { payload: buf::duplicate(&self.payload), stream: self.stream }
    }
}

impl ToBytes for Message {
    closed spec fn wire(&self) -> Option<Seq<u8>> {
        Some(self@)
    }

    fn to_bytes(&self) -> (r: Result<Bytes, Error>)
        ensures
            r matches Ok(b) && buf::contents(b) == self@,
    {
        Ok(self.payload())
    }
}

impl FromBytes for Message {
    open spec fn decodes(s: Seq<u8>) -> bool {
        s.len() > 0
    }

    fn from_bytes(bytes: Bytes) -> (r: Result<Self, Error>)
        ensures
            buf::contents(bytes).len() == 0 ==> r is Err && r->Err_0 == Error::UnexpectedEof,
            buf::contents(bytes).len() > 0 ==> (r matches Ok(m) && m@ == buf::contents(bytes)
                && !m.is_stream()),
    {
        if buf::len(&bytes) == 0 {
            assert(!Self::decodes(buf::contents(bytes)));
            Err(Error::UnexpectedEof)
        } else {
            assert(Self::decodes(buf::contents(bytes)));
            Ok(Message::new(bytes))
        }
    }
}

impl Protocol for Message {
    fn code(&self) -> (c: char)
        ensures
            self@.len() > 0,
            c == self@[0] as char,
    {
        proof {
            use_type_invariant(self);
        }
        buf::as_slice(&self.payload)[0] as char
    }

    fn message(&self) -> (r: Result<Message, Error>)
        ensures
            r matches Ok(m) && m@ == self@ && m.is_stream() == self.is_stream(),
    {
        proof {
            use_type_invariant(self);
        }
        Ok(self.duplicate())
    }

    fn streaming(&self) -> (b: bool)
        ensures
            b == self.is_stream(),
    {
        self.stream
    }
}

} // verus!
