//! Message buffer.
//!
//! Messages from a client are kept until they make up a complete request.
//! Only then is a server connection asked for.

use crate::net::error::Error;
use crate::net::messages::bind::{parse_bind, BindView};
use crate::net::messages::copy_data::{parse_copy_data, CopyData};
use crate::net::messages::parse::parse_parse;
use crate::net::messages::query::parse_query;
use crate::net::messages::{Bind, FromBytes, Message, Parse, Protocol, Query};
use vstd::prelude::*;

verus! {

/// Message buffer.
#[derive(Debug)]
pub struct Buffer {
    buffer: Vec<Message>,
}

impl View for Buffer {
    type V = Seq<Seq<u8>>;

    closed spec fn view(&self) -> Seq<Seq<u8>> {
        self.buffer@.map_values(|m: Message| m@)
    }
}

/// The tags of the messages that belong to the extended protocol: Parse,
/// Bind, Describe, Execute.
pub open spec fn is_extended(tag: u8) -> bool {
    tag == 0x50 || tag == 0x42 || tag == 0x44 || tag == 0x45
}

/// The messages make up a complete request: the last of them is a Query, a
/// Sync or a CopyDone, or a Flush that follows messages of the extended
/// protocol.
pub open spec fn spec_full(messages: Seq<Seq<u8>>) -> bool {
    messages.len() > 0 && ({
        let last = messages.last()[0];
        last == 0x51 || last == 0x53 || last == 0x63 || (last == 0x48 && exists|i: int|
            0 <= i < messages.len() - 1 && is_extended(#[trigger] messages[i][0]))
    })
}

/// The statement that the messages carry: the text of the first Query or
/// Parse among them.
pub open spec fn spec_query(messages: Seq<Seq<u8>>) -> Result<Option<Seq<char>>, Error>
    decreases messages.len(),
{
    if messages.len() == 0 {
        Ok(None)
    } else if messages[0][0] == 0x51 {
        match parse_query(messages[0]) {
            Ok(text) => Ok(Some(text)),
            Err(e) => Err(e),
        }
    } else if messages[0][0] == 0x50 {
        match parse_parse(messages[0]) {
            Ok(p) => Ok(Some(p.query)),
            Err(e) => Err(e),
        }
    } else {
        spec_query(messages.skip(1))
    }
}

/// The parameters that the messages carry: the first Bind among them.
pub open spec fn spec_parameters(messages: Seq<Seq<u8>>) -> Result<Option<BindView>, Error>
    decreases messages.len(),
{
    if messages.len() == 0 {
        Ok(None)
    } else if messages[0][0] == 0x42 {
        match parse_bind(messages[0]) {
            Ok(b) => Ok(Some(b)),
            Err(e) => Err(e),
        }
    } else {
        spec_parameters(messages.skip(1))
    }
}

/// The data of the CopyData messages among the messages, in their order.
/// The first of them that cannot be decoded fails them all.
pub open spec fn spec_copy_data(messages: Seq<Seq<u8>>) -> Result<Seq<Seq<u8>>, Error>
    decreases messages.len(),
{
    if messages.len() == 0 {
        Ok(Seq::empty())
    } else {
        match spec_copy_data(messages.drop_last()) {
            Err(e) => Err(e),
            Ok(data) => if messages.last()[0] == 0x64 {
                match parse_copy_data(messages.last()) {
                    Ok(d) => Ok(data.push(d)),
                    Err(e) => Err(e),
                }
            } else {
                Ok(data)
            },
        }
    }
}

/// A failure among the first messages is the failure of all.
proof fn lemma_copy_data_fails(messages: Seq<Seq<u8>>, k: int)
    requires
        0 <= k <= messages.len(),
        spec_copy_data(messages.take(k)) is Err,
    ensures
        spec_copy_data(messages) == spec_copy_data(messages.take(k)),
    decreases messages.len() - k,
{
    if k == messages.len() {
        assert(messages.take(k) =~= messages);
    } else {
        assert(messages.take(k + 1).drop_last() =~= messages.take(k));
        lemma_copy_data_fails(messages, k + 1);
    }
}

impl Default for Buffer {
    fn default() -> (b: Self)
        ensures
            b@ == Seq::<Seq<u8>>::empty(),
    {
        Buffer::new()
    }
}

impl Buffer {
    /// Create new buffer.
    pub fn new() -> (b: Self)
        ensures
            b@ == Seq::<Seq<u8>>::empty(),
    {
        let b = Buffer { buffer: Vec::new() };
        assert(b@ =~= Seq::<Seq<u8>>::empty());
        b
    }

    /// A buffer that holds the given messages.
    pub fn from_messages(messages: Vec<Message>) -> (b: Self)
        ensures
            b@ == messages@.map_values(|m: Message| m@),
    {
        Buffer { buffer: messages }
    }

    /// The messages, to be sent.
    pub fn into_messages(self) -> (messages: Vec<Message>)
        ensures
            messages@.map_values(|m: Message| m@) == self@,
    {
        self.buffer
    }

    /// Add a message to the buffer.
    pub fn push(&mut self, message: Message)
        ensures
            final(self)@ == old(self)@.push(message@),
    {
        self.buffer.push(message);
        assert(self@ =~= old(self)@.push(message@));
    }

    /// How many messages the buffer holds.
    pub fn len(&self) -> (n: usize)
        ensures
            n == self@.len(),
    {
        self.buffer.len()
    }

    /// Whether the buffer holds no message.
    pub fn is_empty(&self) -> (b: bool)
        ensures
            b == (self@.len() == 0),
    {
        self.buffer.len() == 0
    }

    /// The buffer is full and the client won't send any more messages
    /// until it gets a reply.
    pub fn full(&self) -> (b: bool)
        ensures
            b == spec_full(self@),
    {
        let n = self.buffer.len();
        if n == 0 {
            return false;
        }
        assert(self@.last() == self.buffer@[n - 1]@);
        let last = self.buffer[n - 1].code();
        if last == 'Q' || last == 'S' || last == 'c' {
            return true;
        }
        if last != 'H' {
            return false;
        }
        let mut i: usize = 0;
        while i < n - 1
            invariant
                i <= n - 1,
                n == self.buffer@.len(),
                n == self@.len(),
                self@.last()[0] == 0x48,
                forall|j: int| 0 <= j < i ==> !is_extended(#[trigger] self@[j][0]),
            decreases n - 1 - i,
        {
            assert(self@[i as int] == self.buffer@[i as int]@);
            let code = self.buffer[i].code();
            if code == 'P' || code == 'B' || code == 'D' || code == 'E' {
                assert(is_extended(self@[i as int][0]));
                return true;
            }
            i = i + 1;
        }
        false
    }

    /// The client asked for replies to be sent at once: the buffer ends
    /// with a Flush.
    pub fn flush(&self) -> (b: bool)
        ensures
            b == (self@.len() > 0 && self@.last()[0] == 0x48),
    {
        let n = self.buffer.len();
        if n == 0 {
            return false;
        }
        assert(self@.last() == self.buffer@[n - 1]@);
        self.buffer[n - 1].code() == 'H'
    }

    /// If this buffer contains a query, retrieve it.
    pub fn query(&self) -> (r: Result<Option<String>, Error>)
        ensures
            match spec_query(self@) {
                Ok(Some(text)) => r matches Ok(Some(s)) && s@ == text,
                Ok(None) => r matches Ok(None),
                Err(e) => r is Err && r->Err_0 == e,
            },
    {
        let mut i: usize = 0;
        assert(self@.skip(0) =~= self@);
        while i < self.buffer.len()
            invariant
                i <= self.buffer@.len(),
                spec_query(self@) == spec_query(self@.skip(i as int)),
            decreases self.buffer@.len() - i,
        {
            let message = &self.buffer[i];
            assert(self@.skip(i as int)[0] == message@);
            let code = message.code();
            if code == 'Q' {
                return match Query::from_bytes(message.payload()) {
                    Ok(q) => Ok(Some(q.query)),
                    Err(e) => Err(e),
                };
            }
            if code == 'P' {
                return match Parse::from_bytes(message.payload()) {
                    Ok(p) => Ok(Some(p.query)),
                    Err(e) => Err(e),
                };
            }
            assert(self@.skip(i as int).skip(1) =~= self@.skip(i + 1));
            i = i + 1;
        }
        Ok(None)
    }

    /// If this buffer contains bound parameters, retrieve them.
    pub fn parameters(&self) -> (r: Result<Option<Bind>, Error>)
        ensures
            match spec_parameters(self@) {
                Ok(Some(b)) => r matches Ok(Some(bind)) && bind@ == b,
                Ok(None) => r matches Ok(None),
                Err(e) => r is Err && r->Err_0 == e,
            },
    {
        let mut i: usize = 0;
        assert(self@.skip(0) =~= self@);
        while i < self.buffer.len()
            invariant
                i <= self.buffer@.len(),
                spec_parameters(self@) == spec_parameters(self@.skip(i as int)),
            decreases self.buffer@.len() - i,
        {
            let message = &self.buffer[i];
            assert(self@.skip(i as int)[0] == message@);
            if message.code() == 'B' {
                return match Bind::from_bytes(message.payload()) {
                    Ok(b) => Ok(Some(b)),
                    Err(e) => Err(e),
                };
            }
            assert(self@.skip(i as int).skip(1) =~= self@.skip(i + 1));
            i = i + 1;
        }
        Ok(None)
    }

    /// The data of a COPY that the buffer holds: its CopyData messages, in
    /// their order.
    pub fn copy_data(&self) -> (r: Result<Vec<CopyData>, Error>)
        ensures
            match spec_copy_data(self@) {
                Ok(data) => r matches Ok(v) && v@.map_values(|c: CopyData| c@) == data,
                Err(e) => r is Err && r->Err_0 == e,
            },
    {
        let mut out: Vec<CopyData> = Vec::new();
        let mut i: usize = 0;
        assert(self@.take(0) =~= Seq::<Seq<u8>>::empty());
        assert(out@.map_values(|c: CopyData| c@) =~= Seq::<Seq<u8>>::empty());
        while i < self.buffer.len()
            invariant
                i <= self.buffer@.len(),
                spec_copy_data(self@.take(i as int)) == Ok::<Seq<Seq<u8>>, Error>(
                    out@.map_values(|c: CopyData| c@),
                ),
            decreases self.buffer@.len() - i,
        {
            let message = &self.buffer[i];
            let ghost done = out@.map_values(|c: CopyData| c@);
            proof {
                assert(self@.take(i + 1).drop_last() =~= self@.take(i as int));
                assert(self@.take(i + 1).last() == message@);
            }
            if message.code() == 'd' {
                match CopyData::from_bytes(message.payload()) {
                    Ok(c) => {
                        let ghost cv = c@;
                        out.push(c);
                        assert(out@.map_values(|c: CopyData| c@) =~= done.push(cv));
                    },
                    Err(e) => {
                        proof {
                            lemma_copy_data_fails(self@, i + 1);
                        }
                        return Err(e);
                    },
                }
            }
            i = i + 1;
        }
        assert(self@.take(self@.len() as int) =~= self@);
        Ok(out)
    }

    /// The messages that the buffer holds.
    pub fn messages(&self) -> (m: &[Message])
        ensures
            m@.map_values(|m: Message| m@) == self@,
    {
        self.buffer.as_slice()
    }
}

} // verus!
