//! Byte buffers shared with the network layer.
//!
//! Messages are carried around as [`bytes::Bytes`], which is cheap to clone
//! and to hand to a socket. The verifier cannot look inside one, so the few
//! operations the codec needs are declared here together with what each of
//! them is taken to do. All parsing and formatting happens on plain slices
//! and vectors elsewhere.

use bytes::Bytes;
use vstd::prelude::*;

verus! {

#[verifier::external_type_specification]
#[verifier::external_body]
pub struct ExBytes(bytes::Bytes);

/// The bytes that a buffer holds, first to last.
pub uninterp spec fn contents(b: Bytes) -> Seq<u8>;

/// `Bytes::len`: the number of bytes held.
#[verifier::external_body]
pub(crate) fn len(b: &Bytes) -> (n: usize)
    ensures
        n == contents(*b).len(),
{
    b.len()
}

/// `<Bytes as AsRef<[u8]>>::as_ref`: the held bytes as a slice, without
/// copying.
#[verifier::external_body]
pub(crate) fn as_slice(b: &Bytes) -> (s: &[u8])
    ensures
        s@ == contents(*b),
{
    b.as_ref()
}

/// `<Bytes as From<Vec<u8>>>::from`: a buffer that holds exactly the bytes
/// of the vector.
#[verifier::external_body]
pub(crate) fn from_vec(v: Vec<u8>) -> (b: Bytes)
    ensures
        contents(b) == v@,
{
    Bytes::from(v)
}

/// `Bytes::copy_from_slice`: a new buffer that holds a copy of the slice.
#[verifier::external_body]
pub(crate) fn copy_from_slice(s: &[u8]) -> (b: Bytes)
    ensures
        contents(b) == s@,
{
    Bytes::copy_from_slice(s)
}

/// `<Bytes as Clone>::clone`: a second handle on the same bytes.
#[verifier::external_body]
pub(crate) fn duplicate(b: &Bytes) -> (c: Bytes)
    ensures
        contents(c) == contents(*b),
{
    b.clone()
}

} // verus!
