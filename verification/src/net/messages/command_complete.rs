//! CommandComplete (B) message.

use super::{FromBytes, Protocol, ToBytes};
use crate::net::buf;
use crate::net::decimal::{parse_i64, spec_parse_i64};
use crate::net::error::Error;
use crate::net::wire::{
    c_string_bytes, frame, framed, lemma_c_string_round_trip, lemma_unframe_frame, put_string,
    spec_c_string, spec_unframe, unframe, Reader,
};
use bytes::Bytes;
use vstd::prelude::*;
use vstd::slice::slice_subrange;
use vstd::utf8::encode_utf8;

verus! {

/// The tag of a CommandComplete message.
pub const COMMAND_COMPLETE: u8 = 0x43;

/// CommandComplete (B) message: a statement has run. The command says
/// which, and ends with the number of rows where the statement has one:
/// `SELECT 3`, `INSERT 0 5`.
#[derive(Debug, PartialEq, Eq)]
pub struct CommandComplete {
    /// Name of the command that was executed.
    pub command: String,
}

impl View for CommandComplete {
    type V = Seq<char>;

    open spec fn view(&self) -> Seq<char> {
        self.command@
    }
}

/// A CommandComplete message on the wire.
pub open spec fn command_complete_bytes(command: Seq<char>) -> Seq<u8> {
    frame(COMMAND_COMPLETE, c_string_bytes(command))
}

/// What a CommandComplete message decodes to: the command.
pub open spec fn parse_command_complete(s: Seq<u8>) -> Result<Seq<char>, Error> {
    match spec_unframe(COMMAND_COMPLETE, s) {
        Err(e) => Err(e),
        Ok(body) => match spec_c_string(body) {
            Err(e) => Err(e),
            Ok((command, _)) => Ok(command),
        },
    }
}

/// Decoding an encoded CommandComplete gives the command back.
pub proof fn lemma_command_complete_round_trip(command: Seq<char>)
    requires
        !encode_utf8(command).contains(0u8),
    ensures
        parse_command_complete(command_complete_bytes(command)) == Ok::<Seq<char>, Error>(
            command,
        ),
{
    lemma_unframe_frame(COMMAND_COMPLETE, c_string_bytes(command));
    lemma_c_string_round_trip(command, Seq::empty());
    assert(c_string_bytes(command) + Seq::<u8>::empty() =~= c_string_bytes(command));
}

/// The position after the last space of `s`, or 0 where it holds none.
pub open spec fn after_last_space(s: Seq<u8>) -> int
    decreases s.len(),
{
    if s.len() == 0 {
        0
    } else if s.last() == 0x20 {
        s.len() as int
    } else {
        after_last_space(s.drop_last())
    }
}

/// What a command says before its number of rows, the space included.
pub open spec fn command_name(s: Seq<u8>) -> Seq<u8> {
    s.take(after_last_space(s))
}

/// The number of rows that a command ends with, where it ends with one.
pub open spec fn command_rows(s: Seq<u8>) -> Option<u64> {
    match spec_parse_i64(s.skip(after_last_space(s))) {
        Some(n) => if n >= 0 {
            Some(n as u64)
        } else {
            None
        },
        None => None,
    }
}

/// The position after the last space.
pub fn name_len(s: &[u8]) -> (r: usize)
    ensures
        r == after_last_space(s@),
        r <= s@.len(),
{
    let mut r = s.len();
    assert(s@.take(r as int) =~= s@);
    while r > 0 && s[r - 1] != 0x20
        invariant
            r <= s@.len(),
            after_last_space(s@) == after_last_space(s@.take(r as int)),
        decreases r,
    {
        assert(s@.take(r as int).last() == s@[r - 1]);
        assert(s@.take(r as int).drop_last() =~= s@.take(r - 1));
        r = r - 1;
    }
    if r > 0 {
        assert(s@.take(r as int).last() == s@[r - 1]);
    }
    r
}

/// The number of rows that a command ends with.
pub fn rows_in(s: &[u8]) -> (r: Option<u64>)
    ensures
        r == command_rows(s@),
{
    let start = name_len(s);
    let number = slice_subrange(s, start, s.len());
    assert(number@ =~= s@.skip(start as int));
    match parse_i64(number) {
        Some(n) => if n >= 0 {
            Some(n as u64)
        } else {
            None
        },
        None => None,
    }
}

impl CommandComplete {
    /// A CommandComplete with the given command.
    pub fn new(command: &str) -> (c: Self)
        ensures
            c@ == command@,
    {
        CommandComplete { command: command.to_owned() }
    }

    /// Number of rows that the command reports, if any.
    pub fn rows(&self) -> (r: Option<u64>)
        ensures
            r == command_rows(encode_utf8(self@)),
    {
        rows_in(self.command.as_str().as_bytes())
    }
}

impl ToBytes for CommandComplete {
    open spec fn wire(&self) -> Option<Seq<u8>> {
        if c_string_bytes(self@).len() + 4 <= i32::MAX {
            Some(command_complete_bytes(self@))
        } else {
            None
        }
    }

    fn to_bytes(&self) -> (r: Result<Bytes, Error>)
        ensures
            c_string_bytes(self@).len() + 4 <= i32::MAX ==> (r matches Ok(b) && buf::contents(b)
                == command_complete_bytes(self@)),
            c_string_bytes(self@).len() + 4 > i32::MAX ==> r is Err && r->Err_0
                == Error::TooLarge,
    {
        let text = self.command.as_str();
        if text.as_bytes().len() > 0x7fff_fffb - 1 {
            return Err(Error::TooLarge);
        }
        let mut body: Vec<u8> = Vec::new();
        put_string(&mut body, text);
        assert(body@ =~= c_string_bytes(self@));
        match framed(COMMAND_COMPLETE, &body) {
            Ok(v) => Ok(buf::from_vec(v)),
            Err(e) => Err(e),
        }
    }
}

impl FromBytes for CommandComplete {
    open spec fn decodes(s: Seq<u8>) -> bool {
        parse_command_complete(s) is Ok
    }

    fn from_bytes(bytes: Bytes) -> (r: Result<Self, Error>)
        ensures
            match parse_command_complete(buf::contents(bytes)) {
                Ok(command) => r matches Ok(c) && c@ == command,
                Err(e) => r is Err && r->Err_0 == e,
            },
    {
        let mut reader = Reader::new(buf::as_slice(&bytes));
        unframe(&mut reader, COMMAND_COMPLETE)?;
        let command = reader.c_string()?;
        Ok(CommandComplete { command })
    }
}

impl Protocol for CommandComplete {
    fn code(&self) -> (c: char)
        ensures
            c == 'C',
    {
        'C'
    }
}

} // verus!
