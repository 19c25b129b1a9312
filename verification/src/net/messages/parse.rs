//! Parse (F) message.

use super::{FromBytes, Protocol, ToBytes};
use crate::net::buf;
use crate::net::error::Error;
use crate::net::wire::{
    c_string_bytes, frame, framed, i16_bytes, i32_bytes, lemma_c_string_round_trip,
    lemma_concat_assoc, lemma_take_i16, lemma_take_i32, lemma_unframe_frame, put_i16, put_i32,
    put_string, spec_c_string, spec_unframe, take_i16, take_i32, unframe, Reader,
};
use bytes::Bytes;
use vstd::prelude::*;
use vstd::utf8::encode_utf8;

verus! {

/// The tag of a Parse message.
pub const PARSE: u8 = 0x50;

/// Parse (F) message.
#[derive(Debug, Hash, Eq, PartialEq)]
pub struct Parse {
    /// Prepared statement name.
    pub name: String,
    /// Prepared statement query.
    pub query: String,
    /// List of data types if any are declared.
    pub data_types: Vec<i32>,
}

/// A Parse message as a plain value.
pub struct ParseView {
    pub name: Seq<char>,
    pub query: Seq<char>,
    pub data_types: Seq<i32>,
}

impl View for Parse {
    type V = ParseView;

    open spec fn view(&self) -> ParseView {
        ParseView { name: self.name@, query: self.query@, data_types: self.data_types@ }
    }
}

impl Clone for Parse {
    fn clone(&self) -> (r: Self)
        ensures
            r@ == self@,
    {
        let mut data_types: Vec<i32> = Vec::new();
        let mut i: usize = 0;
        while i < self.data_types.len()
            invariant
                i <= self.data_types@.len(),
                data_types@ == self.data_types@.take(i as int),
            decreases self.data_types@.len() - i,
        {
            data_types.push(self.data_types[i]);
            i = i + 1;
            assert(data_types@ =~= self.data_types@.take(i as int));
        }
        assert(self.data_types@.take(self.data_types@.len() as int) =~= self.data_types@);
        Parse { name: self.name.clone(), query: self.query.clone(), data_types }
    }
}

// ---------------------------------------------------------------------------
// Wire format
// ---------------------------------------------------------------------------

/// A list of type OIDs on the wire, each as an `i32`.
pub open spec fn oids_bytes(oids: Seq<i32>) -> Seq<u8>
    decreases oids.len(),
{
    if oids.len() == 0 {
        Seq::empty()
    } else {
        i32_bytes(oids[0] as int) + oids_bytes(oids.skip(1))
    }
}

/// Reads `n` type OIDs off the front of `s`.
pub open spec fn parse_oids(s: Seq<u8>, n: nat) -> Result<(Seq<i32>, Seq<u8>), Error>
    decreases n,
{
    if n == 0 {
        Ok((Seq::empty(), s))
    } else {
        match take_i32(s) {
            Err(e) => Err(e),
            Ok((v, rest)) => match parse_oids(rest, (n - 1) as nat) {
                Err(e) => Err(e),
                Ok((vs, end)) => Ok((seq![v] + vs, end)),
            },
        }
    }
}

/// The body of a Parse message: statement name, query text, the number of
/// declared parameter types as an `i16`, and the types.
pub open spec fn parse_body(p: ParseView) -> Seq<u8> {
    c_string_bytes(p.name) + c_string_bytes(p.query) + i16_bytes(p.data_types.len() as int)
        + oids_bytes(p.data_types)
}

/// A Parse message on the wire.
pub open spec fn parse_bytes(p: ParseView) -> Seq<u8> {
    frame(PARSE, parse_body(p))
}

/// Whether a Parse message fits the wire format.
pub open spec fn parse_fits(p: ParseView) -> bool {
    &&& p.data_types.len() <= i16::MAX
    &&& parse_body(p).len() + 4 <= i32::MAX
}

/// What a Parse message decodes to. A negative type count is refused.
pub open spec fn parse_parse(s: Seq<u8>) -> Result<ParseView, Error> {
    match spec_unframe(PARSE, s) {
        Err(e) => Err(e),
        Ok(body) => match spec_c_string(body) {
            Err(e) => Err(e),
            Ok((name, s1)) => match spec_c_string(s1) {
                Err(e) => Err(e),
                Ok((query, s2)) => match take_i16(s2) {
                    Err(e) => Err(e),
                    Ok((count, s3)) => if count < 0 {
                        Err(Error::InvalidLength)
                    } else {
                        match parse_oids(s3, count as nat) {
                            Err(e) => Err(e),
                            Ok((data_types, _)) => Ok(ParseView { name, query, data_types }),
                        }
                    },
                },
            },
        },
    }
}

/// The bytes of a list of type OIDs split after any of them.
pub proof fn lemma_oids_bytes_push(oids: Seq<i32>, v: i32)
    ensures
        oids_bytes(oids.push(v)) == oids_bytes(oids) + i32_bytes(v as int),
        oids_bytes(oids).len() == 4 * oids.len(),
    decreases oids.len(),
{
    if oids.len() == 0 {
        let one = oids.push(v);
        assert(one[0] == v);
        assert(one.skip(1) =~= Seq::<i32>::empty());
        assert(oids_bytes(one.skip(1)) =~= Seq::<u8>::empty());
        assert(oids_bytes(one) =~= i32_bytes(v as int));
        assert(oids_bytes(oids) + i32_bytes(v as int) =~= i32_bytes(v as int));
    } else {
        assert(oids.push(v).skip(1) =~= oids.skip(1).push(v));
        lemma_oids_bytes_push(oids.skip(1), v);
        assert(oids_bytes(oids.push(v)) =~= oids_bytes(oids) + i32_bytes(v as int));
    }
}

/// Type OIDs that were written are read back as they were, whatever
/// follows them.
pub proof fn lemma_parse_oids_round_trip(oids: Seq<i32>, rest: Seq<u8>)
    ensures
        parse_oids(oids_bytes(oids) + rest, oids.len()) == Ok::<(Seq<i32>, Seq<u8>), Error>(
            (oids, rest),
        ),
    decreases oids.len(),
{
    if oids.len() == 0 {
        assert(oids_bytes(oids) + rest =~= rest);
        assert(oids =~= Seq::<i32>::empty());
    } else {
        let tail = oids.skip(1);
        let after = oids_bytes(tail) + rest;
        lemma_concat_assoc(i32_bytes(oids[0] as int), oids_bytes(tail), rest);
        lemma_take_i32(oids[0], after);
        lemma_parse_oids_round_trip(tail, rest);
        assert(seq![oids[0]] + tail =~= oids);
    }
}

/// Decoding an encoded Parse message gives the message back.
pub proof fn lemma_parse_round_trip(p: ParseView)
    requires
        parse_fits(p),
        !encode_utf8(p.name).contains(0u8),
        !encode_utf8(p.query).contains(0u8),
    ensures
        parse_parse(parse_bytes(p)) == Ok::<ParseView, Error>(p),
{
    let n = p.data_types.len() as i16;
    let s3 = oids_bytes(p.data_types);
    let s2 = i16_bytes(n as int) + s3;
    let s1 = c_string_bytes(p.query) + s2;
    lemma_unframe_frame(PARSE, parse_body(p));
    lemma_concat_assoc(c_string_bytes(p.name) + c_string_bytes(p.query), i16_bytes(n as int), s3);
    lemma_concat_assoc(c_string_bytes(p.name), c_string_bytes(p.query), s2);
    assert(parse_body(p) == c_string_bytes(p.name) + s1);
    lemma_c_string_round_trip(p.name, s1);
    lemma_c_string_round_trip(p.query, s2);
    lemma_take_i16(n, s3);
    lemma_parse_oids_round_trip(p.data_types, Seq::empty());
    assert(s3 + Seq::<u8>::empty() =~= s3);
}

impl Parse {
    /// New anonymous prepared statement.
    pub fn new_anonymous(query: &str) -> (p: Self)
        ensures
            p.name@ == Seq::<char>::empty(),
            p.query@ == query@,
            p.data_types@ == Seq::<i32>::empty(),
    {
        Self { name: String::new(), query: query.to_owned(), data_types: Vec::new() }
    }

    /// New prepared statement.
    pub fn numbered(name: &str, query: &str) -> (p: Self)
        ensures
            p.name@ == name@,
            p.query@ == query@,
            p.data_types@ == Seq::<i32>::empty(),
    {
        Self { name: name.to_owned(), query: query.to_owned(), data_types: Vec::new() }
    }

    /// Anonymous prepared statement.
    pub fn anonymous(&self) -> (b: bool)
        ensures
            b == (self.name@.len() == 0),
    {
        self.name.as_str().is_empty()
    }
}

impl FromBytes for Parse {
    open spec fn decodes(s: Seq<u8>) -> bool {
        parse_parse(s) is Ok
    }

    fn from_bytes(bytes: Bytes) -> (r: Result<Self, Error>)
        ensures
            match parse_parse(buf::contents(bytes)) {
                Ok(p) => r matches Ok(parse) && parse@ == p,
                Err(e) => r is Err && r->Err_0 == e,
            },
    {
        let mut reader = Reader::new(buf::as_slice(&bytes));
        unframe(&mut reader, PARSE)?;
        let name = reader.c_string()?;
        let query = reader.c_string()?;
        let count = reader.get_i16()?;
        if count < 0 {
            return Err(Error::InvalidLength);
        }
        let ghost start = reader.remaining();
        let ghost whole = parse_parse(buf::contents(bytes));
        let mut data_types: Vec<i32> = Vec::new();
        let mut i: i16 = 0;
        while i < count
            invariant
                0 <= i <= count,
                data_types@.len() == i,
                whole == parse_parse(buf::contents(bytes)),
                whole == match parse_oids(start, count as nat) {
                    Err(e) => Err::<ParseView, Error>(e),
                    Ok((oids, _)) => Ok(ParseView { name: name@, query: query@, data_types: oids }),
                },
                match parse_oids(reader.remaining(), (count - i) as nat) {
                    Ok((vs, end)) => parse_oids(start, count as nat) == Ok::<
                        (Seq<i32>, Seq<u8>),
                        Error,
                    >((data_types@ + vs, end)),
                    Err(e) => parse_oids(start, count as nat) == Err::<(Seq<i32>, Seq<u8>), Error>(
                        e,
                    ),
                },
            decreases count - i,
        {
            let ghost done = data_types@;
            let v = reader.get_i32()?;
            data_types.push(v);
            i = i + 1;
            proof {
                match parse_oids(reader.remaining(), (count - i) as nat) {
                    Ok((vs, end)) => {
                        assert(done + (seq![v] + vs) =~= data_types@ + vs);
                    },
                    Err(e) => {},
                }
            }
        }
        assert(data_types@ + Seq::<i32>::empty() =~= data_types@);
        Ok(Self { name, query, data_types })
    }
}

impl ToBytes for Parse {
    open spec fn wire(&self) -> Option<Seq<u8>> {
        if parse_fits(self@) {
            Some(parse_bytes(self@))
        } else {
            None
        }
    }

    fn to_bytes(&self) -> (r: Result<Bytes, Error>)
        ensures
            parse_fits(self@) ==> (r matches Ok(b) && buf::contents(b) == parse_bytes(self@)),
            !parse_fits(self@) ==> r is Err && r->Err_0 == Error::TooLarge,
    {
        let n = self.data_types.len();
        if n > 0x7fff {
            return Err(Error::TooLarge);
        }
        let name = self.name.as_str();
        let query = self.query.as_str();
        let name_len = name.as_bytes().len();
        let query_len = query.as_bytes().len();
        proof {
            lemma_oids_bytes_push(self.data_types@, 0);
        }
        // Two terminators, the count and the types take `4 + 4 * n` bytes.
        if name_len > 0x7fff_fffb - 4 - 4 * n || query_len > 0x7fff_fffb - 4 - 4 * n - name_len {
            return Err(Error::TooLarge);
        }
        let mut body: Vec<u8> = Vec::new();
        put_string(&mut body, name);
        put_string(&mut body, query);
        put_i16(&mut body, n as i16);
        let ghost head = body@;
        let mut i: usize = 0;
        while i < n
            invariant
                i <= n,
                n == self.data_types@.len(),
                body@ == head + oids_bytes(self.data_types@.take(i as int)),
            decreases n - i,
        {
            proof {
                lemma_oids_bytes_push(self.data_types@.take(i as int), self.data_types@[i as int]);
                assert(self.data_types@.take(i as int).push(self.data_types@[i as int])
                    =~= self.data_types@.take(i + 1));
            }
            put_i32(&mut body, self.data_types[i]);
            i = i + 1;
            assert(body@ =~= head + oids_bytes(self.data_types@.take(i as int)));
        }
        assert(self.data_types@.take(n as int) =~= self.data_types@);
        assert(body@ =~= parse_body(self@));
        match framed(PARSE, &body) {
            Ok(v) => Ok(buf::from_vec(v)),
            Err(e) => Err(e),
        }
    }
}

impl Protocol for Parse {
    fn code(&self) -> (c: char)
        ensures
            c == 'P',
    {
        'P'
    }
}

} // verus!
