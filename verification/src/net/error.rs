//! Wire protocol errors.

use vstd::prelude::*;

verus! {

/// What can go wrong while decoding or encoding a protocol message.
#[derive(Debug, Clone, Copy, PartialEq, Eq, Structural)]
pub enum Error {
    /// The message carries another tag than the decoder was asked for:
    /// the tag that was expected, then the tag that was found.
    UnexpectedMessage(char, char),
    /// The message ends before a field that its layout calls for.
    UnexpectedEof,
    /// A string field is not valid UTF-8.
    InvalidUtf8,
    /// A length or count on the wire is negative where it must not be.
    InvalidLength,
    /// A length or count does not fit the width the wire gives it.
    TooLarge,
    /// The message is well-formed, but says something this proxy does not
    /// take: another protocol version, another way to authenticate.
    UnexpectedPayload,
}

} // verus!
