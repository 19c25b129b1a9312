//! Bind (F) message.

use super::data_row::{
    column_bytes, columns_bytes, lemma_columns_bytes_grows, lemma_columns_bytes_push,
    lemma_parse_columns_round_trip, parse_column, parse_columns, ColumnView,
};
use super::{FromBytes, Protocol, ToBytes};
use crate::net::buf;
use crate::net::error::Error;
use crate::net::wire::{
    c_string_bytes, frame, framed, i16_bytes, i32_bytes, lemma_c_string_round_trip,
    lemma_concat_assoc, lemma_take_i16, lemma_unframe_frame, put_i16, put_i32, put_slice,
    put_string, spec_c_string, spec_unframe, take_i16, unframe, utf8_str, Reader,
};
use bytes::Bytes;
use vstd::prelude::*;
use vstd::utf8::{decode_utf8, encode_utf8, valid_utf8};

verus! {

/// The tag of a Bind message.
pub const BIND: u8 = 0x42;

/// How a parameter is encoded.
#[derive(Debug, Clone, Copy, PartialEq, Eq, Structural)]
pub enum Format {
    Text,
    Binary,
}

/// Bind (F) message: the parameters of one execution of a prepared
/// statement.
#[derive(Debug, PartialEq, Eq)]
pub struct Bind {
    /// Portal name.
    pub portal: String,
    /// Prepared statement name.
    pub statement: String,
    /// Format codes of the parameters: none where all are text, one where
    /// all are alike, else one for each.
    pub codes: Vec<i16>,
    /// Parameters; one without a value is NULL.
    pub params: Vec<Option<Vec<u8>>>,
    /// Format codes of the result columns.
    pub results: Vec<i16>,
}

/// A Bind message as a plain value.
pub struct BindView {
    pub portal: Seq<char>,
    pub statement: Seq<char>,
    pub codes: Seq<i16>,
    pub params: Seq<ColumnView>,
    pub results: Seq<i16>,
}

/// A parameter as a plain value.
pub open spec fn param_view(p: Option<Vec<u8>>) -> ColumnView {
    match p {
        Some(data) => Some(data@),
        None => None,
    }
}

/// Parameters as plain values.
pub open spec fn params_view(params: Seq<Option<Vec<u8>>>) -> Seq<ColumnView> {
    params.map_values(|p: Option<Vec<u8>>| param_view(p))
}

impl View for Bind {
    type V = BindView;

    open spec fn view(&self) -> BindView {
        BindView {
            portal: self.portal@,
            statement: self.statement@,
            codes: self.codes@,
            params: params_view(self.params@),
            results: self.results@,
        }
    }
}

/// The plain value of a Bind message that may not be there.
pub open spec fn bind_view(bind: Option<Bind>) -> Option<BindView> {
    match bind {
        Some(b) => Some(b@),
        None => None,
    }
}

/// A parameter together with its encoding.
#[derive(Debug)]
pub struct ParameterWithFormat<'a> {
    data: &'a Vec<u8>,
    format: Format,
}

// ---------------------------------------------------------------------------
// Wire format
// ---------------------------------------------------------------------------

/// A list of format codes on the wire, each as an `i16`.
pub open spec fn codes_bytes(codes: Seq<i16>) -> Seq<u8>
    decreases codes.len(),
{
    if codes.len() == 0 {
        Seq::empty()
    } else {
        i16_bytes(codes[0] as int) + codes_bytes(codes.skip(1))
    }
}

/// Reads `n` format codes off the front of `s`.
pub open spec fn parse_codes(s: Seq<u8>, n: nat) -> Result<(Seq<i16>, Seq<u8>), Error>
    decreases n,
{
    if n == 0 {
        Ok((Seq::empty(), s))
    } else {
        match take_i16(s) {
            Err(e) => Err(e),
            Ok((v, rest)) => match parse_codes(rest, (n - 1) as nat) {
                Err(e) => Err(e),
                Ok((vs, end)) => Ok((seq![v] + vs, end)),
            },
        }
    }
}

/// A count and the format codes it announces.
pub open spec fn counted_codes(codes: Seq<i16>) -> Seq<u8> {
    i16_bytes(codes.len() as int) + codes_bytes(codes)
}

/// The body of a Bind message: portal, statement, the counted format
/// codes of the parameters, the counted parameters, the counted format
/// codes of the results.
pub open spec fn bind_body(b: BindView) -> Seq<u8> {
    c_string_bytes(b.portal) + c_string_bytes(b.statement) + counted_codes(b.codes) + (i16_bytes(
        b.params.len() as int,
    ) + columns_bytes(b.params)) + counted_codes(b.results)
}

/// A Bind message on the wire.
pub open spec fn bind_bytes(b: BindView) -> Seq<u8> {
    frame(BIND, bind_body(b))
}

/// Whether a Bind message fits the wire format: each count fits an `i16`
/// and the whole message fits the `i32` length field.
pub open spec fn bind_fits(b: BindView) -> bool {
    &&& b.codes.len() <= i16::MAX
    &&& b.params.len() <= i16::MAX
    &&& b.results.len() <= i16::MAX
    &&& bind_body(b).len() + 4 <= i32::MAX
}

/// Reads a count and the format codes it announces. A negative count is
/// refused.
pub open spec fn parse_counted_codes(s: Seq<u8>) -> Result<(Seq<i16>, Seq<u8>), Error> {
    match take_i16(s) {
        Err(e) => Err(e),
        Ok((n, rest)) => if n < 0 {
            Err(Error::InvalidLength)
        } else {
            parse_codes(rest, n as nat)
        },
    }
}

/// Reads a count and the parameters it announces. A negative count is
/// refused.
pub open spec fn parse_counted_params(s: Seq<u8>) -> Result<(Seq<ColumnView>, Seq<u8>), Error> {
    match take_i16(s) {
        Err(e) => Err(e),
        Ok((n, rest)) => if n < 0 {
            Err(Error::InvalidLength)
        } else {
            parse_columns(rest, n as nat)
        },
    }
}

/// What a Bind message decodes to.
pub open spec fn parse_bind(s: Seq<u8>) -> Result<BindView, Error> {
    match spec_unframe(BIND, s) {
        Err(e) => Err(e),
        Ok(body) => match spec_c_string(body) {
            Err(e) => Err(e),
            Ok((portal, s1)) => match spec_c_string(s1) {
                Err(e) => Err(e),
                Ok((statement, s2)) => match parse_counted_codes(s2) {
                    Err(e) => Err(e),
                    Ok((codes, s3)) => match parse_counted_params(s3) {
                        Err(e) => Err(e),
                        Ok((params, s4)) => match parse_counted_codes(s4) {
                            Err(e) => Err(e),
                            Ok((results, _)) => Ok(
                                BindView { portal, statement, codes, params, results },
                            ),
                        },
                    },
                },
            },
        },
    }
}

/// The bytes of a list of format codes split after any of them.
pub proof fn lemma_codes_bytes_push(codes: Seq<i16>, v: i16)
    ensures
        codes_bytes(codes.push(v)) == codes_bytes(codes) + i16_bytes(v as int),
    decreases codes.len(),
{
    if codes.len() == 0 {
        let one = codes.push(v);
        assert(one[0] == v);
        assert(one.skip(1) =~= Seq::<i16>::empty());
        assert(codes_bytes(one.skip(1)) =~= Seq::<u8>::empty());
        assert(codes_bytes(one) =~= i16_bytes(v as int));
        assert(codes_bytes(codes) + i16_bytes(v as int) =~= i16_bytes(v as int));
    } else {
        assert(codes.push(v).skip(1) =~= codes.skip(1).push(v));
        lemma_codes_bytes_push(codes.skip(1), v);
        assert(codes_bytes(codes.push(v)) =~= codes_bytes(codes) + i16_bytes(v as int));
    }
}

/// Format codes that were written are read back as they were, whatever
/// follows them.
pub proof fn lemma_parse_codes_round_trip(codes: Seq<i16>, rest: Seq<u8>)
    ensures
        parse_codes(codes_bytes(codes) + rest, codes.len()) == Ok::<(Seq<i16>, Seq<u8>), Error>(
            (codes, rest),
        ),
    decreases codes.len(),
{
    if codes.len() == 0 {
        assert(codes_bytes(codes) + rest =~= rest);
        assert(codes =~= Seq::<i16>::empty());
    } else {
        let tail = codes.skip(1);
        let after = codes_bytes(tail) + rest;
        lemma_concat_assoc(i16_bytes(codes[0] as int), codes_bytes(tail), rest);
        lemma_take_i16(codes[0], after);
        lemma_parse_codes_round_trip(tail, rest);
        assert(seq![codes[0]] + tail =~= codes);
    }
}

/// Counted format codes that were written are read back as they were.
pub proof fn lemma_counted_codes_round_trip(codes: Seq<i16>, rest: Seq<u8>)
    requires
        codes.len() <= i16::MAX,
    ensures
        parse_counted_codes(counted_codes(codes) + rest) == Ok::<(Seq<i16>, Seq<u8>), Error>(
            (codes, rest),
        ),
{
    lemma_concat_assoc(i16_bytes(codes.len() as int), codes_bytes(codes), rest);
    lemma_take_i16(codes.len() as i16, codes_bytes(codes) + rest);
    lemma_parse_codes_round_trip(codes, rest);
}

/// No name of the message holds a zero byte, which would end it early on
/// the wire.
pub open spec fn bind_terminates(b: BindView) -> bool {
    !encode_utf8(b.portal).contains(0u8) && !encode_utf8(b.statement).contains(0u8)
}

/// Counted parameters that were written are read back as they were.
pub proof fn lemma_counted_params_round_trip(params: Seq<ColumnView>, rest: Seq<u8>)
    requires
        params.len() <= i16::MAX,
        columns_bytes(params).len() <= i32::MAX,
    ensures
        parse_counted_params((i16_bytes(params.len() as int) + columns_bytes(params)) + rest)
            == Ok::<(Seq<ColumnView>, Seq<u8>), Error>((params, rest)),
{
    lemma_concat_assoc(i16_bytes(params.len() as int), columns_bytes(params), rest);
    lemma_take_i16(params.len() as i16, columns_bytes(params) + rest);
    lemma_parse_columns_round_trip(params, rest);
}

/// Decoding an encoded Bind message gives the message back.
pub proof fn lemma_bind_round_trip(b: BindView)
    requires
        bind_fits(b),
        bind_terminates(b),
    ensures
        parse_bind(bind_bytes(b)) == Ok::<BindView, Error>(b),
{
    let s5 = counted_codes(b.results);
    let params = i16_bytes(b.params.len() as int) + columns_bytes(b.params);
    let s4 = params + s5;
    let s3 = counted_codes(b.codes) + s4;
    let s2 = c_string_bytes(b.statement) + s3;
    let s1 = c_string_bytes(b.portal) + s2;
    let a1 = c_string_bytes(b.portal) + c_string_bytes(b.statement);
    let a2 = a1 + counted_codes(b.codes);
    let body = bind_body(b);
    assert(body == (a2 + params) + s5);
    assert(body.len() >= columns_bytes(b.params).len());
    lemma_concat_assoc(a2, params, s5);
    lemma_concat_assoc(a1, counted_codes(b.codes), s4);
    lemma_concat_assoc(c_string_bytes(b.portal), c_string_bytes(b.statement), s3);
    assert(body == s1);
    lemma_unframe_frame(BIND, body);
    assert(spec_unframe(BIND, bind_bytes(b)) == Ok::<Seq<u8>, Error>(s1));
    lemma_c_string_round_trip(b.portal, s2);
    assert(spec_c_string(s1) == Ok::<(Seq<char>, Seq<u8>), Error>((b.portal, s2)));
    lemma_c_string_round_trip(b.statement, s3);
    assert(spec_c_string(s2) == Ok::<(Seq<char>, Seq<u8>), Error>((b.statement, s3)));
    lemma_counted_codes_round_trip(b.codes, s4);
    assert(parse_counted_codes(s3) == Ok::<(Seq<i16>, Seq<u8>), Error>((b.codes, s4)));
    lemma_counted_params_round_trip(b.params, s5);
    assert(parse_counted_params(s4) == Ok::<(Seq<ColumnView>, Seq<u8>), Error>((b.params, s5)));
    lemma_counted_codes_round_trip(b.results, Seq::empty());
    assert(s5 + Seq::<u8>::empty() =~= s5);
    assert(parse_counted_codes(s5) == Ok::<(Seq<i16>, Seq<u8>), Error>(
        (b.results, Seq::empty()),
    ));
}

/// The encoding of the parameter at `index` under the format codes of a
/// message. A code other than 0 and 1 is refused.
pub open spec fn spec_format(codes: Seq<i16>, index: int) -> Result<Format, Error> {
    let code = if codes.len() == 1 {
        codes[0]
    } else if 0 <= index < codes.len() {
        codes[index]
    } else {
        0i16
    };
    if code == 0 {
        Ok(Format::Text)
    } else if code == 1 {
        Ok(Format::Binary)
    } else {
        Err(Error::UnexpectedPayload)
    }
}

impl<'a> ParameterWithFormat<'a> {
    /// The bytes of the parameter.
    pub closed spec fn bytes(self) -> Seq<u8> {
        self.data@
    }

    /// The encoding of the parameter.
    pub closed spec fn encoding(self) -> Format {
        self.format
    }

    /// The parameter as text, where it is encoded as text and is
    /// well-formed.
    pub fn text(&self) -> (r: Option<&'a str>)
        ensures
            r is Some <==> self.encoding() == Format::Text && valid_utf8(self.bytes()),
            r matches Some(s) ==> s@ == decode_utf8(self.bytes()),
    {
        match self.format {
            Format::Text => utf8_str(self.data.as_slice()),
            Format::Binary => None,
        }
    }

    /// The bytes of the parameter.
    pub fn data(&self) -> (d: &'a [u8])
        ensures
            d@ == self.bytes(),
    {
        self.data.as_slice()
    }

    /// The encoding of the parameter.
    pub fn format(&self) -> (f: Format)
        ensures
            f == self.encoding(),
    {
        self.format
    }
}

impl Bind {
    /// The parameter at `index`, counted from 0, with its encoding.
    /// Nothing where the message has no such parameter or the parameter is
    /// NULL.
    pub fn parameter(&self, index: usize) -> (r: Result<Option<ParameterWithFormat<'_>>, Error>)
        ensures
            index >= self@.params.len() || self@.params[index as int] is None ==> r matches Ok(
                None,
            ),
            index < self@.params.len() && self@.params[index as int] is Some ==> match spec_format(
                self@.codes,
                index as int,
            ) {
                Ok(format) => r matches Ok(Some(p)) && p.bytes() == self@.params[index as int]->Some_0
                    && p.encoding() == format,
                Err(e) => r is Err && r->Err_0 == e,
            },
    {
        if index >= self.params.len() {
            return Ok(None);
        }
        assert(self@.params[index as int] == param_view(self.params@[index as int]));
        match &self.params[index] {
            None => Ok(None),
            Some(data) => {
                let code = if self.codes.len() == 1 {
                    self.codes[0]
                } else if index < self.codes.len() {
                    self.codes[index]
                } else {
                    0
                };
                if code == 0 {
                    Ok(Some(ParameterWithFormat { data, format: Format::Text }))
                } else if code == 1 {
                    Ok(Some(ParameterWithFormat { data, format: Format::Binary }))
                } else {
                    Err(Error::UnexpectedPayload)
                }
            },
        }
    }
}

/// Reads `n` format codes.
fn read_codes(reader: &mut Reader, n: i16) -> (r: Result<Vec<i16>, Error>)
    requires
        n >= 0,
    ensures
        match parse_codes(old(reader).remaining(), n as nat) {
            Ok((codes, rest)) => r matches Ok(v) && v@ == codes && final(reader).remaining()
                == rest,
            Err(e) => r is Err && r->Err_0 == e,
        },
{
    let ghost start = reader.remaining();
    let mut codes: Vec<i16> = Vec::new();
    let mut i: i16 = 0;
    while i < n
        invariant
            0 <= i <= n,
            codes@.len() == i,
            start == old(reader).remaining(),
            match parse_codes(reader.remaining(), (n - i) as nat) {
                Ok((vs, end)) => parse_codes(start, n as nat) == Ok::<(Seq<i16>, Seq<u8>), Error>(
                    (codes@ + vs, end),
                ),
                Err(e) => parse_codes(start, n as nat) == Err::<(Seq<i16>, Seq<u8>), Error>(e),
            },
        decreases n - i,
    {
        let ghost done = codes@;
        let v = reader.get_i16()?;
        codes.push(v);
        i = i + 1;
        proof {
            match parse_codes(reader.remaining(), (n - i) as nat) {
                Ok((vs, end)) => {
                    assert(done + (seq![v] + vs) =~= codes@ + vs);
                },
                Err(e) => {},
            }
        }
    }
    assert(codes@ + Seq::<i16>::empty() =~= codes@);
    Ok(codes)
}

/// Reads a count and the format codes it announces.
fn read_counted_codes(reader: &mut Reader) -> (r: Result<Vec<i16>, Error>)
    ensures
        match parse_counted_codes(old(reader).remaining()) {
            Ok((codes, rest)) => r matches Ok(v) && v@ == codes && final(reader).remaining()
                == rest,
            Err(e) => r is Err && r->Err_0 == e,
        },
{
    let n = reader.get_i16()?;
    if n < 0 {
        return Err(Error::InvalidLength);
    }
    read_codes(reader, n)
}

/// Reads a count and the parameters it announces.
fn read_counted_params(reader: &mut Reader) -> (r: Result<Vec<Option<Vec<u8>>>, Error>)
    ensures
        match parse_counted_params(old(reader).remaining()) {
            Ok((params, rest)) => r matches Ok(v) && params_view(v@) == params
                && final(reader).remaining() == rest,
            Err(e) => r is Err && r->Err_0 == e,
        },
{
    let n = reader.get_i16()?;
    if n < 0 {
        return Err(Error::InvalidLength);
    }
    let ghost start = reader.remaining();
    let mut params: Vec<Option<Vec<u8>>> = Vec::new();
    let mut i: i16 = 0;
    assert(params_view(params@) =~= Seq::<ColumnView>::empty());
    while i < n
        invariant
            0 <= i <= n,
            params@.len() == i,
            parse_counted_params(old(reader).remaining()) == parse_columns(start, n as nat),
            match parse_columns(reader.remaining(), (n - i) as nat) {
                Ok((cs, end)) => parse_columns(start, n as nat) == Ok::<
                    (Seq<ColumnView>, Seq<u8>),
                    Error,
                >((params_view(params@) + cs, end)),
                Err(e) => parse_columns(start, n as nat) == Err::<
                    (Seq<ColumnView>, Seq<u8>),
                    Error,
                >(e),
            },
        decreases n - i,
    {
        let ghost before = reader.remaining();
        let ghost done = params_view(params@);
        let len = reader.get_i32()?;
        let param = if len == -1 {
            None
        } else if len < 0 {
            return Err(Error::InvalidLength);
        } else {
            let data = reader.take(len as usize)?;
            assert(data@ =~= before.subrange(4, 4 + len));
            assert(reader.remaining() =~= before.skip(4 + len));
            let mut copy: Vec<u8> = Vec::new();
            put_slice(&mut copy, data);
            assert(copy@ =~= data@);
            Some(copy)
        };
        let ghost c = param_view(param);
        params.push(param);
        i = i + 1;
        proof {
            let now = params_view(params@);
            assert(parse_column(before) == Ok::<(ColumnView, Seq<u8>), Error>(
                (c, reader.remaining()),
            ));
            assert(now =~= done.push(c));
            match parse_columns(reader.remaining(), (n - i) as nat) {
                Ok((cs, end)) => {
                    assert(done + (seq![c] + cs) =~= now + cs);
                },
                Err(e) => {},
            }
        }
    }
    assert(params_view(params@) + Seq::<ColumnView>::empty() =~= params_view(params@));
    Ok(params)
}

/// Appends a count and the format codes it announces.
fn put_counted_codes(out: &mut Vec<u8>, codes: &Vec<i16>)
    requires
        codes@.len() <= i16::MAX,
    ensures
        final(out)@ == old(out)@ + counted_codes(codes@),
{
    put_i16(out, codes.len() as i16);
    let ghost head = out@;
    let mut i: usize = 0;
    while i < codes.len()
        invariant
            i <= codes@.len(),
            out@ == head + codes_bytes(codes@.take(i as int)),
        decreases codes@.len() - i,
    {
        proof {
            lemma_codes_bytes_push(codes@.take(i as int), codes@[i as int]);
            assert(codes@.take(i as int).push(codes@[i as int]) =~= codes@.take(i + 1));
        }
        put_i16(out, codes[i]);
        i = i + 1;
        assert(out@ =~= head + codes_bytes(codes@.take(i as int)));
    }
    assert(codes@.take(codes@.len() as int) =~= codes@);
    assert(out@ =~= old(out)@ + counted_codes(codes@));
}

/// Appends the parameters, unless one of them is too long for its length
/// field.
fn put_params(out: &mut Vec<u8>, params: &Vec<Option<Vec<u8>>>) -> (ok: bool)
    ensures
        ok ==> final(out)@ == old(out)@ + columns_bytes(params_view(params@)),
        !ok ==> columns_bytes(params_view(params@)).len() > i32::MAX,
{
    let ghost all = params_view(params@);
    let ghost head = out@;
    let mut i: usize = 0;
    assert(head + columns_bytes(all.take(0)) =~= head);
    while i < params.len()
        invariant
            i <= params@.len(),
            all == params_view(params@),
            out@ == head + columns_bytes(all.take(i as int)),
        decreases params@.len() - i,
    {
        assert(all[i as int] == param_view(params@[i as int]));
        proof {
            lemma_columns_bytes_push(all.take(i as int), all[i as int]);
            assert(all.take(i as int).push(all[i as int]) =~= all.take(i + 1));
            lemma_columns_bytes_grows(all, i + 1);
        }
        match &params[i] {
            None => {
                put_i32(out, -1);
            },
            Some(data) => {
                if data.len() > 0x7fff_ffff {
                    return false;
                }
                put_i32(out, data.len() as i32);
                put_slice(out, data.as_slice());
            },
        }
        i = i + 1;
        assert(out@ =~= head + columns_bytes(all.take(i as int)));
    }
    assert(all.take(params@.len() as int) =~= all);
    true
}

impl FromBytes for Bind {
    open spec fn decodes(s: Seq<u8>) -> bool {
        parse_bind(s) is Ok
    }

    fn from_bytes(bytes: Bytes) -> (r: Result<Self, Error>)
        ensures
            match parse_bind(buf::contents(bytes)) {
                Ok(b) => r matches Ok(bind) && bind@ == b,
                Err(e) => r is Err && r->Err_0 == e,
            },
    {
        let mut reader = Reader::new(buf::as_slice(&bytes));
        unframe(&mut reader, BIND)?;
        let portal = reader.c_string()?;
        let statement = reader.c_string()?;
        let codes = read_counted_codes(&mut reader)?;
        let params = read_counted_params(&mut reader)?;
        let results = read_counted_codes(&mut reader)?;
        Ok(Bind { portal, statement, codes, params, results })
    }
}

impl ToBytes for Bind {
    open spec fn wire(&self) -> Option<Seq<u8>> {
        if bind_fits(self@) {
            Some(bind_bytes(self@))
        } else {
            None
        }
    }

    fn to_bytes(&self) -> (r: Result<Bytes, Error>)
        ensures
            bind_fits(self@) ==> (r matches Ok(b) && buf::contents(b) == bind_bytes(self@)),
            !bind_fits(self@) ==> r is Err && r->Err_0 == Error::TooLarge,
    {
        if self.codes.len() > 0x7fff || self.params.len() > 0x7fff || self.results.len() > 0x7fff {
            return Err(Error::TooLarge);
        }
        let mut body: Vec<u8> = Vec::new();
        put_string(&mut body, self.portal.as_str());
        put_string(&mut body, self.statement.as_str());
        put_counted_codes(&mut body, &self.codes);
        put_i16(&mut body, self.params.len() as i16);
        let ghost head = body@;
        if !put_params(&mut body, &self.params) {
            return Err(Error::TooLarge);
        }
        proof {
            lemma_concat_assoc(
                head.subrange(0, head.len() - 2),
                i16_bytes(self.params@.len() as int),
                columns_bytes(self@.params),
            );
            assert(head =~= head.subrange(0, head.len() - 2) + i16_bytes(self.params@.len() as int));
        }
        put_counted_codes(&mut body, &self.results);
        assert(body@ =~= bind_body(self@));
        match framed(BIND, &body) {
            Ok(v) => Ok(buf::from_vec(v)),
            Err(e) => Err(e),
        }
    }
}

impl Protocol for Bind {
    fn code(&self) -> (c: char)
        ensures
            c == 'B',
    {
        'B'
    }
}

} // verus!
