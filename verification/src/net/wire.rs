//! Primitives of the wire format: big-endian integers, NUL-terminated
//! strings and the tag-and-length frame around every message.
//!
//! Each primitive comes as a pair of specification functions, one that
//! writes a value as bytes and one that reads it off the front of a byte
//! sequence, with a lemma that reading undoes writing. The executable
//! [`Reader`] and the `put_*` functions are proved against them.

use super::error::Error;
use vstd::prelude::*;
use vstd::slice::slice_subrange;
use vstd::utf8::{decode_utf8, encode_utf8, valid_utf8};

verus! {

// ---------------------------------------------------------------------------
// Integers
// ---------------------------------------------------------------------------

/// The unsigned number that the first two bytes spell, most significant first.
pub open spec fn be16(s: Seq<u8>) -> int {
    s[0] as int * 0x100 + s[1] as int
}

/// The unsigned number that the first four bytes spell, most significant first.
pub open spec fn be32(s: Seq<u8>) -> int {
    s[0] as int * 0x100_0000 + s[1] as int * 0x1_0000 + s[2] as int * 0x100 + s[3] as int
}

/// The unsigned number that the first eight bytes spell, most significant first.
pub open spec fn be64(s: Seq<u8>) -> int {
    be32(s) * 0x1_0000_0000 + be32(s.skip(4))
}

/// The first two bytes read as a two's-complement `i16`.
pub open spec fn i16_of(s: Seq<u8>) -> int {
    if be16(s) >= 0x8000 {
        be16(s) - 0x1_0000
    } else {
        be16(s)
    }
}

/// The first four bytes read as a two's-complement `i32`.
pub open spec fn i32_of(s: Seq<u8>) -> int {
    if be32(s) >= 0x8000_0000 {
        be32(s) - 0x1_0000_0000
    } else {
        be32(s)
    }
}

/// The first eight bytes read as a two's-complement `i64`.
pub open spec fn i64_of(s: Seq<u8>) -> int {
    if be64(s) >= 0x8000_0000_0000_0000 {
        be64(s) - 0x1_0000_0000_0000_0000
    } else {
        be64(s)
    }
}

/// The two bytes of an `i16`, most significant first.
pub open spec fn i16_bytes(v: int) -> Seq<u8> {
    let u = if v < 0 {
        v + 0x1_0000
    } else {
        v
    };
    seq![(u / 0x100) as u8, (u % 0x100) as u8]
}

/// The four bytes of an `i32`, most significant first.
pub open spec fn i32_bytes(v: int) -> Seq<u8> {
    let u = if v < 0 {
        v + 0x1_0000_0000
    } else {
        v
    };
    seq![
        (u / 0x100_0000) as u8,
        ((u / 0x1_0000) % 0x100) as u8,
        ((u / 0x100) % 0x100) as u8,
        (u % 0x100) as u8,
    ]
}

/// A number of sixteen bits is made up of its two bytes.
proof fn lemma_split16(w: u16)
    by (bit_vector)
    ensures
        w / 0x100 < 0x100,
        w % 0x100 < 0x100,
        (w / 0x100) * 0x100 + w % 0x100 == w,
{
}

/// A number of thirty-two bits is made up of its four bytes.
proof fn lemma_split32(w: u32)
    by (bit_vector)
    ensures
        w / 0x100_0000 < 0x100,
        (w / 0x1_0000) % 0x100 < 0x100,
        (w / 0x100) % 0x100 < 0x100,
        w % 0x100 < 0x100,
        (w / 0x100_0000) * 0x100_0000 + ((w / 0x1_0000) % 0x100) * 0x1_0000 + ((w / 0x100)
            % 0x100) * 0x100 + w % 0x100 == w,
{
}

/// Reading an `i16` back from its two bytes gives the number that was
/// written, whatever follows them.
pub proof fn lemma_i16_round_trip(v: int, rest: Seq<u8>)
    requires
        i16::MIN <= v <= i16::MAX,
    ensures
        i16_bytes(v).len() == 2,
        i16_of(i16_bytes(v) + rest) == v,
        (i16_bytes(v) + rest).skip(2) == rest,
{
    let u = if v < 0 {
        v + 0x1_0000
    } else {
        v
    };
    let w = u as u16;
    lemma_split16(w);
    let s = i16_bytes(v) + rest;
    assert(s[0] == (w / 0x100) as u8);
    assert(s[1] == (w % 0x100) as u8);
    assert(be16(s) == w);
    assert(s.skip(2) =~= rest);
}

/// Reading an `i32` back from its four bytes gives the number that was
/// written, whatever follows them.
pub proof fn lemma_i32_round_trip(v: int, rest: Seq<u8>)
    requires
        i32::MIN <= v <= i32::MAX,
    ensures
        i32_bytes(v).len() == 4,
        i32_of(i32_bytes(v) + rest) == v,
        (i32_bytes(v) + rest).skip(4) == rest,
{
    let u = if v < 0 {
        v + 0x1_0000_0000
    } else {
        v
    };
    let w = u as u32;
    lemma_split32(w);
    let s = i32_bytes(v) + rest;
    assert(s[0] == (w / 0x100_0000) as u8);
    assert(s[1] == ((w / 0x1_0000) % 0x100) as u8);
    assert(s[2] == ((w / 0x100) % 0x100) as u8);
    assert(s[3] == (w % 0x100) as u8);
    assert(be32(s) == w);
    assert(s.skip(4) =~= rest);
}

/// Joining byte sequences does not depend on where the brackets stand.
pub proof fn lemma_concat_assoc(a: Seq<u8>, b: Seq<u8>, c: Seq<u8>)
    ensures
        (a + b) + c == a + (b + c),
{
    assert((a + b) + c =~= a + (b + c));
}

// ---------------------------------------------------------------------------
// Strings
// ---------------------------------------------------------------------------

/// A position that holds the first zero byte of the sequence.
pub open spec fn is_first_nul(s: Seq<u8>, n: int) -> bool {
    &&& 0 <= n < s.len()
    &&& s[n] == 0u8
    &&& forall|j: int| 0 <= j < n ==> s[j] != 0u8
}

/// Where the first zero byte stands, if the sequence has one.
pub open spec fn nul_index(s: Seq<u8>) -> int {
    choose|n: int| is_first_nul(s, n)
}

/// The bytes of a string on the wire: its UTF-8 encoding and a closing
/// zero byte.
pub open spec fn c_string_bytes(chars: Seq<char>) -> Seq<u8> {
    encode_utf8(chars) + seq![0u8]
}

/// Reads a string off the front of `s`: the text up to the first zero byte,
/// and what follows that byte. Where `s` holds no zero byte the text runs to
/// its end.
pub open spec fn spec_c_string(s: Seq<u8>) -> Result<(Seq<char>, Seq<u8>), Error> {
    let raw = if s.contains(0u8) {
        s.take(nul_index(s))
    } else {
        s
    };
    let rest = if s.contains(0u8) {
        s.skip(nul_index(s) + 1)
    } else {
        Seq::empty()
    };
    if !valid_utf8(raw) {
        Err(Error::InvalidUtf8)
    } else {
        Ok((decode_utf8(raw), rest))
    }
}

/// Reads one byte off the front of `s`.
pub open spec fn take_u8(s: Seq<u8>) -> Result<(u8, Seq<u8>), Error> {
    if s.len() < 1 {
        Err(Error::UnexpectedEof)
    } else {
        Ok((s[0], s.skip(1)))
    }
}

/// Reads a big-endian `i16` off the front of `s`.
pub open spec fn take_i16(s: Seq<u8>) -> Result<(i16, Seq<u8>), Error> {
    if s.len() < 2 {
        Err(Error::UnexpectedEof)
    } else {
        Ok((i16_of(s) as i16, s.skip(2)))
    }
}

/// Reads a big-endian `i32` off the front of `s`.
pub open spec fn take_i32(s: Seq<u8>) -> Result<(i32, Seq<u8>), Error> {
    if s.len() < 4 {
        Err(Error::UnexpectedEof)
    } else {
        Ok((i32_of(s) as i32, s.skip(4)))
    }
}

/// Reads the next `n` bytes off the front of `s`.
pub open spec fn take_bytes(s: Seq<u8>, n: int) -> Result<(Seq<u8>, Seq<u8>), Error> {
    if s.len() < n {
        Err(Error::UnexpectedEof)
    } else {
        Ok((s.take(n), s.skip(n)))
    }
}

/// An `i16` that was written reads back, whatever follows it.
pub proof fn lemma_take_i16(v: i16, rest: Seq<u8>)
    ensures
        take_i16(i16_bytes(v as int) + rest) == Ok::<(i16, Seq<u8>), Error>((v, rest)),
{
    lemma_i16_round_trip(v as int, rest);
}

/// An `i32` that was written reads back, whatever follows it.
pub proof fn lemma_take_i32(v: i32, rest: Seq<u8>)
    ensures
        take_i32(i32_bytes(v as int) + rest) == Ok::<(i32, Seq<u8>), Error>((v, rest)),
{
    lemma_i32_round_trip(v as int, rest);
}

/// There is at most one first zero byte.
pub proof fn lemma_first_nul_unique(s: Seq<u8>, n: int)
    requires
        is_first_nul(s, n),
    ensures
        s.contains(0u8),
        nul_index(s) == n,
{
    let m = nul_index(s);
    assert(is_first_nul(s, m));
    if m < n {
        assert(s[m] != 0u8);
    }
    if n < m {
        assert(s[n] != 0u8);
    }
}

/// A string without a zero byte in its encoding reads back as itself,
/// whatever follows its terminator.
pub proof fn lemma_c_string_round_trip(chars: Seq<char>, rest: Seq<u8>)
    requires
        !encode_utf8(chars).contains(0u8),
    ensures
        spec_c_string(c_string_bytes(chars) + rest) == Ok::<(Seq<char>, Seq<u8>), Error>(
            (chars, rest),
        ),
{
    let enc = encode_utf8(chars);
    let s = c_string_bytes(chars) + rest;
    let n = enc.len() as int;
    assert(s[n] == 0u8);
    assert forall|j: int| 0 <= j < n implies s[j] != 0u8 by {
        assert(s[j] == enc[j]);
        assert(enc.contains(enc[j]));
    }
    lemma_first_nul_unique(s, n);
    assert(s.take(n) =~= enc);
    assert(s.skip(n + 1) =~= rest);
    vstd::utf8::encode_utf8_valid_utf8(chars);
    vstd::utf8::encode_utf8_decode_utf8(chars);
}

/// A string without a zero byte in its encoding, written without a
/// terminator at the very end of a message, reads back as itself.
pub proof fn lemma_c_string_unterminated(chars: Seq<char>)
    requires
        !encode_utf8(chars).contains(0u8),
    ensures
        spec_c_string(encode_utf8(chars)) == Ok::<(Seq<char>, Seq<u8>), Error>(
            (chars, Seq::empty()),
        ),
{
    vstd::utf8::encode_utf8_valid_utf8(chars);
    vstd::utf8::encode_utf8_decode_utf8(chars);
}

/// `core::str::from_utf8`: the bytes as text, where they are well-formed
/// UTF-8, and nothing where they are not.
#[verifier::external_body]
pub(crate) fn utf8_str(bytes: &[u8]) -> (r: Option<&str>)
    ensures
        r is Some <==> valid_utf8(bytes@),
        r matches Some(s) ==> s@ == decode_utf8(bytes@),
{
    core::str::from_utf8(bytes).ok()
}

/// The text that the bytes encode, as a string of its own.
pub fn utf8_to_string(bytes: &[u8]) -> (r: Option<String>)
    ensures
        r is Some <==> valid_utf8(bytes@),
        r matches Some(s) ==> s@ == decode_utf8(bytes@),
{
    match utf8_str(bytes) {
        Some(s) => Some(s.to_owned()),
        None => None,
    }
}

// ---------------------------------------------------------------------------
// Reading
// ---------------------------------------------------------------------------

/// A cursor over the bytes of one message.
pub struct Reader<'a> {
    buf: &'a [u8],
    pos: usize,
}

impl<'a> Reader<'a> {
    #[verifier::type_invariant]
    spec fn inv(self) -> bool {
        self.pos <= self.buf@.len()
    }

    /// The bytes that have not been read yet.
    pub closed spec fn remaining(self) -> Seq<u8> {
        self.buf@.skip(self.pos as int)
    }

    /// A cursor at the start of `buf`.
    pub fn new(buf: &'a [u8]) -> (r: Self)
        ensures
            r.remaining() == buf@,
    {
        assert(buf@.skip(0) =~= buf@);
        Reader { buf, pos: 0 }
    }

    /// How many bytes are left.
    pub fn len(&self) -> (n: usize)
        ensures
            n == self.remaining().len(),
    {
        proof {
            use_type_invariant(self);
        }
        self.buf.len() - self.pos
    }

    /// Whether any byte is left.
    pub fn has_remaining(&self) -> (b: bool)
        ensures
            b == (self.remaining().len() > 0),
    {
        self.len() > 0
    }

    /// Takes one byte.
    pub fn get_u8(&mut self) -> (r: Result<u8, Error>)
        ensures
            match take_u8(old(self).remaining()) {
                Ok((v, rest)) => r == Ok::<u8, Error>(v) && final(self).remaining() == rest,
                Err(e) => r == Err::<u8, Error>(e) && *final(self) == *old(self),
            },
    {
        proof {
            use_type_invariant(&*self);
        }
        if self.buf.len() - self.pos < 1 {
            return Err(Error::UnexpectedEof);
        }
        let v = self.buf[self.pos];
        self.pos = self.pos + 1;
        assert(self.remaining() =~= old(self).remaining().skip(1));
        Ok(v)
    }

    /// Takes a big-endian `i16`.
    pub fn get_i16(&mut self) -> (r: Result<i16, Error>)
        ensures
            match take_i16(old(self).remaining()) {
                Ok((v, rest)) => r == Ok::<i16, Error>(v) && final(self).remaining() == rest,
                Err(e) => r == Err::<i16, Error>(e) && *final(self) == *old(self),
            },
    {
        proof {
            use_type_invariant(&*self);
        }
        if self.buf.len() - self.pos < 2 {
            return Err(Error::UnexpectedEof);
        }
        let a = self.buf[self.pos] as u16;
        let b = self.buf[self.pos + 1] as u16;
        let u: u16 = a * 0x100 + b;
        let v: i16 = if u >= 0x8000 {
            ((u - 0x8000) as i16) + i16::MIN
        } else {
            u as i16
        };
        self.pos = self.pos + 2;
        assert(self.remaining() =~= old(self).remaining().skip(2));
        Ok(v)
    }

    /// Takes a big-endian `i32`.
    pub fn get_i32(&mut self) -> (r: Result<i32, Error>)
        ensures
            match take_i32(old(self).remaining()) {
                Ok((v, rest)) => r == Ok::<i32, Error>(v) && final(self).remaining() == rest,
                Err(e) => r == Err::<i32, Error>(e) && *final(self) == *old(self),
            },
    {
        proof {
            use_type_invariant(&*self);
        }
        if self.buf.len() - self.pos < 4 {
            return Err(Error::UnexpectedEof);
        }
        let u: u32 = read_be32(self.buf, self.pos);
        let v: i32 = if u >= 0x8000_0000 {
            ((u - 0x8000_0000) as i32) + i32::MIN
        } else {
            u as i32
        };
        assert(be32(self.buf@.skip(self.pos as int)) == u);
        self.pos = self.pos + 4;
        assert(self.remaining() =~= old(self).remaining().skip(4));
        Ok(v)
    }

    /// Takes the next `n` bytes.
    pub fn take(&mut self, n: usize) -> (r: Result<&'a [u8], Error>)
        ensures
            match take_bytes(old(self).remaining(), n as int) {
                Ok((data, rest)) => r matches Ok(s) && s@ == data && final(self).remaining()
                    == rest,
                Err(e) => r is Err && r->Err_0 == e && *final(self) == *old(self),
            },
    {
        proof {
            use_type_invariant(&*self);
        }
        if self.buf.len() - self.pos < n {
            return Err(Error::UnexpectedEof);
        }
        let s = slice_subrange(self.buf, self.pos, self.pos + n);
        assert(s@ =~= old(self).remaining().take(n as int));
        self.pos = self.pos + n;
        assert(self.remaining() =~= old(self).remaining().skip(n as int));
        Ok(s)
    }

    /// Takes a string and the zero byte that closes it; a string that no
    /// zero byte closes runs to the end of the message.
    pub fn c_string(&mut self) -> (r: Result<String, Error>)
        ensures
            match spec_c_string(old(self).remaining()) {
                Ok((chars, rest)) => r matches Ok(s) && s@ == chars && final(self).remaining()
                    == rest,
                Err(e) => r is Err && r->Err_0 == e,
            },
    {
        proof {
            use_type_invariant(&*self);
        }
        let ghost rem = self.remaining();
        let mut end: usize = self.pos;
        while end < self.buf.len() && self.buf[end] != 0
            invariant
                self.pos <= end <= self.buf.len(),
                forall|j: int| self.pos <= j < end ==> self.buf@[j] != 0u8,
            decreases self.buf.len() - end,
        {
            end = end + 1;
        }
        if end == self.buf.len() {
            assert(!rem.contains(0u8)) by {
                if rem.contains(0u8) {
                    let i = choose|i: int| 0 <= i < rem.len() && rem[i] == 0u8;
                    assert(self.buf@[self.pos + i] == 0u8);
                }
            }
            let raw = slice_subrange(self.buf, self.pos, end);
            assert(raw@ =~= rem);
            return match utf8_to_string(raw) {
                None => Err(Error::InvalidUtf8),
                Some(s) => {
                    self.pos = end;
                    assert(self.remaining() =~= Seq::<u8>::empty());
                    Ok(s)
                },
            };
        }
        proof {
            let n = end - self.pos;
            assert(rem[n] == 0u8);
            assert forall|j: int| 0 <= j < n implies rem[j] != 0u8 by {
                assert(rem[j] == self.buf@[self.pos + j]);
            }
            lemma_first_nul_unique(rem, n);
        }
        let raw = slice_subrange(self.buf, self.pos, end);
        assert(raw@ =~= rem.take(end - self.pos));
        match utf8_to_string(raw) {
            None => Err(Error::InvalidUtf8),
            Some(s) => {
                self.pos = end + 1;
                assert(self.remaining() =~= rem.skip(end - old(self).pos + 1));
                Ok(s)
            },
        }
    }
}

/// The four bytes at `pos` as an unsigned number.
fn read_be32(buf: &[u8], pos: usize) -> (u: u32)
    requires
        pos + 4 <= buf@.len(),
    ensures
        u == be32(buf@.skip(pos as int)),
{
    let a = buf[pos] as u32;
    let b = buf[pos + 1] as u32;
    let c = buf[pos + 2] as u32;
    let d = buf[pos + 3] as u32;
    a * 0x100_0000 + b * 0x1_0000 + c * 0x100 + d
}

/// Reads a big-endian `i16` that fills the whole slice.
pub fn i16_from_slice(s: &[u8]) -> (v: i16)
    requires
        s@.len() == 2,
    ensures
        v == i16_of(s@),
{
    let u: u16 = (s[0] as u16) * 0x100 + (s[1] as u16);
    if u >= 0x8000 {
        ((u - 0x8000) as i16) + i16::MIN
    } else {
        u as i16
    }
}

/// Reads a big-endian `i32` that fills the whole slice.
pub fn i32_from_slice(s: &[u8]) -> (v: i32)
    requires
        s@.len() == 4,
    ensures
        v == i32_of(s@),
{
    assert(s@.skip(0) =~= s@);
    let u = read_be32(s, 0);
    if u >= 0x8000_0000 {
        ((u - 0x8000_0000) as i32) + i32::MIN
    } else {
        u as i32
    }
}

/// Reads a big-endian `i64` that fills the whole slice.
pub fn i64_from_slice(s: &[u8]) -> (v: i64)
    requires
        s@.len() == 8,
    ensures
        v == i64_of(s@),
{
    assert(s@.skip(0) =~= s@);
    let hi = read_be32(s, 0) as u64;
    let lo = read_be32(s, 4) as u64;
    let u: u64 = hi * 0x1_0000_0000 + lo;
    if u >= 0x8000_0000_0000_0000 {
        ((u - 0x8000_0000_0000_0000) as i64) + i64::MIN
    } else {
        u as i64
    }
}

// ---------------------------------------------------------------------------
// Writing
// ---------------------------------------------------------------------------

/// Appends a big-endian `i16`.
pub fn put_i16(out: &mut Vec<u8>, v: i16)
    ensures
        final(out)@ == old(out)@ + i16_bytes(v as int),
{
    let u: u16 = if v < 0 {
        (v as i32 + 0x1_0000) as u16
    } else {
        v as u16
    };
    out.push((u / 0x100) as u8);
    out.push((u % 0x100) as u8);
    assert(out@ =~= old(out)@ + i16_bytes(v as int));
}

/// Appends a big-endian `i32`.
pub fn put_i32(out: &mut Vec<u8>, v: i32)
    ensures
        final(out)@ == old(out)@ + i32_bytes(v as int),
{
    let u: u32 = if v < 0 {
        (v as i64 + 0x1_0000_0000) as u32
    } else {
        v as u32
    };
    out.push((u / 0x100_0000) as u8);
    out.push(((u / 0x1_0000) % 0x100) as u8);
    out.push(((u / 0x100) % 0x100) as u8);
    out.push((u % 0x100) as u8);
    assert(out@ =~= old(out)@ + i32_bytes(v as int));
}

/// Appends the bytes of a slice.
pub fn put_slice(out: &mut Vec<u8>, s: &[u8])
    ensures
        final(out)@ == old(out)@ + s@,
{
    let mut i: usize = 0;
    while i < s.len()
        invariant
            i <= s@.len(),
            out@ == old(out)@ + s@.take(i as int),
        decreases s@.len() - i,
    {
        out.push(s[i]);
        i = i + 1;
        assert(out@ =~= old(out)@ + s@.take(i as int));
    }
    assert(s@.take(s@.len() as int) =~= s@);
}

/// Appends a string and its terminator.
pub fn put_string(out: &mut Vec<u8>, s: &str)
    ensures
        final(out)@ == old(out)@ + c_string_bytes(s@),
{
    put_slice(out, s.as_bytes());
    out.push(0);
    assert(out@ =~= old(out)@ + c_string_bytes(s@));
}

// ---------------------------------------------------------------------------
// Framing
// ---------------------------------------------------------------------------

/// A whole message: the tag, the length of everything after the tag as an
/// `i32`, and the body.
pub open spec fn frame(tag: u8, body: Seq<u8>) -> Seq<u8> {
    seq![tag] + i32_bytes(body.len() as int + 4) + body
}

/// What the start of a tagged message must look like for a decoder that
/// expects `tag`: the body that follows tag and length, or the error.
pub open spec fn spec_unframe(tag: u8, s: Seq<u8>) -> Result<Seq<u8>, Error> {
    if s.len() < 1 {
        Err(Error::UnexpectedEof)
    } else if s[0] != tag {
        Err(Error::UnexpectedMessage(tag as char, s[0] as char))
    } else if s.len() < 5 {
        Err(Error::UnexpectedEof)
    } else {
        Ok(s.skip(5))
    }
}

/// Taking the frame off a framed body gives the body back.
pub proof fn lemma_unframe_frame(tag: u8, body: Seq<u8>)
    ensures
        spec_unframe(tag, frame(tag, body)) == Ok::<Seq<u8>, Error>(body),
{
    let s = frame(tag, body);
    assert(s[0] == tag);
    assert(s.skip(5) =~= body);
}

/// Checks the tag and skips the length field.
pub fn unframe(reader: &mut Reader, tag: u8) -> (r: Result<(), Error>)
    ensures
        match spec_unframe(tag, old(reader).remaining()) {
            Ok(body) => r is Ok && final(reader).remaining() == body,
            Err(e) => r is Err && r->Err_0 == e,
        },
{
    let code = reader.get_u8()?;
    if code != tag {
        return Err(Error::UnexpectedMessage(tag as char, code as char));
    }
    let ghost mid = reader.remaining();
    let _len = reader.get_i32()?;
    assert(reader.remaining() =~= old(reader).remaining().skip(5));
    Ok(())
}

/// How many bytes the first message of a stream takes, tag and length
/// included, as far as the bytes that have arrived tell: nothing while
/// tag and length are not complete. A length of less than four, which does
/// not even cover itself, is refused.
pub open spec fn spec_message_len(s: Seq<u8>) -> Result<Option<usize>, Error> {
    if s.len() < 5 {
        Ok(None)
    } else if i32_of(s.skip(1)) < 4 {
        Err(Error::InvalidLength)
    } else {
        Ok(Some((i32_of(s.skip(1)) + 1) as usize))
    }
}

/// How many bytes the first message of a stream takes.
pub fn message_len(buf: &[u8]) -> (r: Result<Option<usize>, Error>)
    ensures
        r == spec_message_len(buf@),
{
    if buf.len() < 5 {
        return Ok(None);
    }
    let len = i32_from_slice(slice_subrange(buf, 1, 5));
    assert(buf@.subrange(1, 5) =~= buf@.skip(1).take(4));
    assert(i32_of(buf@.skip(1).take(4)) == i32_of(buf@.skip(1)));
    if len < 4 {
        Err(Error::InvalidLength)
    } else {
        Ok(Some(len as usize + 1))
    }
}

/// How many bytes the message that opens a connection takes, which has no
/// tag. A length of less than eight, which does not cover length and code,
/// is refused.
pub open spec fn spec_startup_len(s: Seq<u8>) -> Result<Option<usize>, Error> {
    if s.len() < 4 {
        Ok(None)
    } else if i32_of(s) < 8 {
        Err(Error::InvalidLength)
    } else {
        Ok(Some(i32_of(s) as usize))
    }
}

/// How many bytes the message that opens a connection takes.
pub fn startup_len(buf: &[u8]) -> (r: Result<Option<usize>, Error>)
    ensures
        r == spec_startup_len(buf@),
{
    if buf.len() < 4 {
        return Ok(None);
    }
    let len = i32_from_slice(slice_subrange(buf, 0, 4));
    assert(i32_of(buf@.subrange(0, 4)) == i32_of(buf@));
    if len < 8 {
        Err(Error::InvalidLength)
    } else {
        Ok(Some(len as usize))
    }
}

/// Puts tag and length in front of a body.
pub fn framed(tag: u8, body: &Vec<u8>) -> (r: Result<Vec<u8>, Error>)
    ensures
        body@.len() + 4 > i32::MAX ==> r is Err && r->Err_0 == Error::TooLarge,
        body@.len() + 4 <= i32::MAX ==> (r matches Ok(v) && v@ == frame(tag, body@)),
{
    if body.len() > 0x7fff_fffb {
        return Err(Error::TooLarge);
    }
    let mut out: Vec<u8> = Vec::new();
    out.push(tag);
    put_i32(&mut out, (body.len() + 4) as i32);
    put_slice(&mut out, body.as_slice());
    assert(out@ =~= frame(tag, body@));
    Ok(out)
}

} // verus!
