//! Startup, SSLRequest and CancelRequest (F): the messages that open a
//! connection. They carry no tag: a length, a code, and what the code
//! calls for.

use super::{FromBytes, ToBytes};
use crate::net::buf;
use crate::net::error::Error;
use crate::net::parameter::Parameter;
use crate::net::wire::{
    c_string_bytes, i32_bytes, lemma_c_string_round_trip, lemma_concat_assoc, lemma_take_i32,
    put_i32, put_slice, put_string, spec_c_string, take_i32, Reader,
};
use bytes::Bytes;
use vstd::prelude::*;
use vstd::utf8::encode_utf8;

verus! {

/// The code of an SSLRequest.
pub const SSL_REQUEST: i32 = 80877103;

/// The code of a CancelRequest.
pub const CANCEL_REQUEST: i32 = 80877102;

/// The code of a Startup message: protocol version 3.0.
pub const PROTOCOL_3: i32 = 196608;

/// First message a client sends to a server.
#[derive(Debug, PartialEq, Eq)]
pub enum Startup {
    /// SSLRequest (F)
    Ssl,
    /// StartupMessage (F)
    Startup { params: Vec<Parameter> },
    /// CancelRequest (F)
    Cancel { pid: i32, secret: i32 },
}

/// An opening message as a plain value.
pub enum StartupView {
    Ssl,
    Startup { params: Seq<(Seq<char>, Seq<char>)> },
    Cancel { pid: i32, secret: i32 },
}

impl View for Startup {
    type V = StartupView;

    open spec fn view(&self) -> StartupView {
        match self {
            Startup::Ssl => StartupView::Ssl,
            Startup::Startup { params } => StartupView::Startup {
                params: params@.map_values(|p: Parameter| p@),
            },
            Startup::Cancel { pid, secret } => StartupView::Cancel { pid: *pid, secret: *secret },
        }
    }
}

/// Parameters on the wire: name and value, each with its terminator.
pub open spec fn params_bytes(params: Seq<(Seq<char>, Seq<char>)>) -> Seq<u8>
    decreases params.len(),
{
    if params.len() == 0 {
        Seq::empty()
    } else {
        c_string_bytes(params[0].0) + c_string_bytes(params[0].1) + params_bytes(params.skip(1))
    }
}

/// What follows the length: the code, and what the code calls for. The
/// parameters of a Startup message are closed by an empty name.
pub open spec fn startup_body(m: StartupView) -> Seq<u8> {
    match m {
        StartupView::Ssl => i32_bytes(SSL_REQUEST as int),
        StartupView::Cancel { pid, secret } => i32_bytes(CANCEL_REQUEST as int) + i32_bytes(
            pid as int,
        ) + i32_bytes(secret as int),
        StartupView::Startup { params } => i32_bytes(PROTOCOL_3 as int) + params_bytes(params)
            + seq![0u8],
    }
}

/// An opening message on the wire: its length as an `i32`, counting the
/// length itself, and the body.
pub open spec fn startup_bytes(m: StartupView) -> Seq<u8> {
    i32_bytes(startup_body(m).len() as int + 4) + startup_body(m)
}

/// Whether an opening message fits its `i32` length field.
pub open spec fn startup_fits(m: StartupView) -> bool {
    startup_body(m).len() + 4 <= i32::MAX
}

/// Reads parameters off the front of `s`, up to an empty name or the end.
pub open spec fn parse_params(s: Seq<u8>) -> Result<Seq<(Seq<char>, Seq<char>)>, Error>
    decreases s.len(),
{
    if s.len() == 0 {
        Ok(Seq::empty())
    } else {
        match spec_c_string(s) {
            Err(e) => Err(e),
            Ok((name, s1)) => if name.len() == 0 {
                Ok(Seq::empty())
            } else {
                match spec_c_string(s1) {
                    Err(e) => Err(e),
                    Ok((value, s2)) => if s2.len() < s.len() {
                        match parse_params(s2) {
                            Err(e) => Err(e),
                            Ok(rest) => Ok(seq![(name, value)] + rest),
                        }
                    } else {
                        Err(Error::UnexpectedEof)
                    },
                }
            },
        }
    }
}

/// What an opening message decodes to. Another code than the three is
/// refused.
pub open spec fn parse_startup(s: Seq<u8>) -> Result<StartupView, Error> {
    match take_i32(s) {
        Err(e) => Err(e),
        Ok((_, s1)) => match take_i32(s1) {
            Err(e) => Err(e),
            Ok((code, s2)) => if code == SSL_REQUEST {
                Ok(StartupView::Ssl)
            } else if code == CANCEL_REQUEST {
                match take_i32(s2) {
                    Err(e) => Err(e),
                    Ok((pid, s3)) => match take_i32(s3) {
                        Err(e) => Err(e),
                        Ok((secret, _)) => Ok(StartupView::Cancel { pid, secret }),
                    },
                }
            } else if code == PROTOCOL_3 {
                match parse_params(s2) {
                    Err(e) => Err(e),
                    Ok(params) => Ok(StartupView::Startup { params }),
                }
            } else {
                Err(Error::UnexpectedPayload)
            },
        },
    }
}

/// A string that was read leaves less behind than there was, unless
/// nothing was there.
pub proof fn lemma_c_string_consumes(s: Seq<u8>)
    requires
        s.len() > 0,
    ensures
        spec_c_string(s) matches Ok((_, rest)) ==> rest.len() < s.len(),
{
    if s.contains(0u8) {
        let n = choose|n: int| 0 <= n < s.len() && s[n] == 0u8;
        lemma_has_first_nul(s, n);
    }
}

/// A sequence with a zero byte has a first one.
proof fn lemma_has_first_nul(s: Seq<u8>, n: int)
    requires
        0 <= n < s.len(),
        s[n] == 0u8,
    ensures
        crate::net::wire::is_first_nul(s, crate::net::wire::nul_index(s)),
    decreases n,
{
    if exists|j: int| 0 <= j < n && s[j] == 0u8 {
        let j = choose|j: int| 0 <= j < n && s[j] == 0u8;
        lemma_has_first_nul(s, j);
    } else {
        assert(crate::net::wire::is_first_nul(s, n));
    }
}

/// Whether the parameters can be told apart on the wire: no name is empty,
/// which would close the list, and no string holds a zero byte.
pub open spec fn params_terminate(params: Seq<(Seq<char>, Seq<char>)>) -> bool {
    forall|i: int|
        0 <= i < params.len() ==> (#[trigger] params[i]).0.len() > 0 && !encode_utf8(
            params[i].0,
        ).contains(0u8) && !encode_utf8(params[i].1).contains(0u8)
}

/// Parameters that were written, and closed by an empty name, read back
/// as they were.
pub proof fn lemma_parse_params_round_trip(params: Seq<(Seq<char>, Seq<char>)>)
    requires
        params_terminate(params),
    ensures
        parse_params(params_bytes(params) + seq![0u8]) == Ok::<
            Seq<(Seq<char>, Seq<char>)>,
            Error,
        >(params),
    decreases params.len(),
{
    let s = params_bytes(params) + seq![0u8];
    if params.len() == 0 {
        assert(s =~= c_string_bytes(Seq::<char>::empty()) + Seq::<u8>::empty()) by {
            vstd::utf8::encode_utf8_decode_utf8(Seq::<char>::empty());
            assert(encode_utf8(Seq::<char>::empty()) =~= Seq::<u8>::empty());
        }
        assert(!encode_utf8(Seq::<char>::empty()).contains(0u8));
        lemma_c_string_round_trip(Seq::<char>::empty(), Seq::<u8>::empty());
        assert(params =~= Seq::empty());
    } else {
        let (name, value) = params[0];
        let tail = params.skip(1);
        let s2 = params_bytes(tail) + seq![0u8];
        let s1 = c_string_bytes(value) + s2;
        lemma_concat_assoc(
            c_string_bytes(name) + c_string_bytes(value),
            params_bytes(tail),
            seq![0u8],
        );
        lemma_concat_assoc(c_string_bytes(name), c_string_bytes(value), s2);
        assert(s == c_string_bytes(name) + s1);
        lemma_c_string_round_trip(name, s1);
        lemma_c_string_round_trip(value, s2);
        assert forall|i: int| 0 <= i < tail.len() implies (#[trigger] tail[i]).0.len() > 0
            && !encode_utf8(tail[i].0).contains(0u8) && !encode_utf8(tail[i].1).contains(0u8) by {
            assert(tail[i] == params[i + 1]);
        }
        lemma_parse_params_round_trip(tail);
        assert(seq![(name, value)] + tail =~= params);
    }
}

/// Decoding an encoded opening message gives the message back.
pub proof fn lemma_startup_round_trip(m: StartupView)
    requires
        startup_fits(m),
        m matches StartupView::Startup { params } ==> params_terminate(params),
    ensures
        parse_startup(startup_bytes(m)) == Ok::<StartupView, Error>(m),
{
    let body = startup_body(m);
    lemma_take_i32((body.len() + 4) as i32, body);
    match m {
        StartupView::Ssl => {
            lemma_take_i32(SSL_REQUEST, Seq::empty());
            assert(body =~= i32_bytes(SSL_REQUEST as int) + Seq::<u8>::empty());
        },
        StartupView::Cancel { pid, secret } => {
            let s3 = i32_bytes(secret as int);
            let s2 = i32_bytes(pid as int) + s3;
            lemma_concat_assoc(i32_bytes(CANCEL_REQUEST as int), i32_bytes(pid as int), s3);
            lemma_take_i32(CANCEL_REQUEST, s2);
            lemma_take_i32(pid, s3);
            lemma_take_i32(secret, Seq::empty());
            assert(s3 =~= s3 + Seq::<u8>::empty());
        },
        StartupView::Startup { params } => {
            let s2 = params_bytes(params) + seq![0u8];
            lemma_concat_assoc(i32_bytes(PROTOCOL_3 as int), params_bytes(params), seq![0u8]);
            lemma_take_i32(PROTOCOL_3, s2);
            lemma_parse_params_round_trip(params);
        },
    }
}

/// The bytes of a list of parameters split after any of them.
proof fn lemma_params_bytes_push(params: Seq<(Seq<char>, Seq<char>)>, p: (Seq<char>, Seq<char>))
    ensures
        params_bytes(params.push(p)) == params_bytes(params) + (c_string_bytes(p.0)
            + c_string_bytes(p.1)),
    decreases params.len(),
{
    if params.len() == 0 {
        let one = params.push(p);
        assert(one[0] == p);
        assert(one.skip(1) =~= Seq::<(Seq<char>, Seq<char>)>::empty());
        assert(params_bytes(one.skip(1)) =~= Seq::<u8>::empty());
        assert(params_bytes(one) =~= c_string_bytes(p.0) + c_string_bytes(p.1));
        assert(params_bytes(params) + (c_string_bytes(p.0) + c_string_bytes(p.1))
            =~= c_string_bytes(p.0) + c_string_bytes(p.1));
    } else {
        assert(params.push(p).skip(1) =~= params.skip(1).push(p));
        lemma_params_bytes_push(params.skip(1), p);
        assert(params_bytes(params.push(p)) =~= params_bytes(params) + (c_string_bytes(p.0)
            + c_string_bytes(p.1)));
    }
}

/// The parameters take no less room on the wire than any first few of them.
proof fn lemma_params_bytes_grows(params: Seq<(Seq<char>, Seq<char>)>, k: int)
    requires
        0 <= k <= params.len(),
    ensures
        params_bytes(params.take(k)).len() <= params_bytes(params).len(),
    decreases params.len() - k,
{
    if k == params.len() {
        assert(params.take(k) =~= params);
    } else {
        lemma_params_bytes_grows(params, k + 1);
        lemma_params_bytes_push(params.take(k), params[k]);
        assert(params.take(k).push(params[k]) =~= params.take(k + 1));
    }
}

impl Startup {
    /// Request to switch to TLS.
    pub fn tls() -> (s: Self)
        ensures
            s@ == StartupView::Ssl,
    {
        Startup::Ssl
    }

    /// A Startup message that names the user and the database.
    pub fn new(user: &str, database: &str) -> (s: Self)
        ensures
            s@ == (StartupView::Startup {
                params: seq![("user"@, user@), ("database"@, database@)],
            }),
    {
        let mut params: Vec<Parameter> = Vec::new();
        params.push(Parameter { name: "user".to_owned(), value: user.to_owned() });
        params.push(Parameter { name: "database".to_owned(), value: database.to_owned() });
        let s = Startup::Startup { params };
        assert(s@->Startup_params =~= seq![("user"@, user@), ("database"@, database@)]);
        s
    }
}

impl ToBytes for Startup {
    open spec fn wire(&self) -> Option<Seq<u8>> {
        if startup_fits(self@) {
            Some(startup_bytes(self@))
        } else {
            None
        }
    }

    fn to_bytes(&self) -> (r: Result<Bytes, Error>)
        ensures
            startup_fits(self@) ==> (r matches Ok(b) && buf::contents(b) == startup_bytes(self@)),
            !startup_fits(self@) ==> r is Err && r->Err_0 == Error::TooLarge,
    {
        let mut body: Vec<u8> = Vec::new();
        match self {
            Startup::Ssl => {
                put_i32(&mut body, SSL_REQUEST);
            },
            Startup::Cancel { pid, secret } => {
                put_i32(&mut body, CANCEL_REQUEST);
                put_i32(&mut body, *pid);
                put_i32(&mut body, *secret);
            },
            Startup::Startup { params } => {
                put_i32(&mut body, PROTOCOL_3);
                let ghost all = params@.map_values(|p: Parameter| p@);
                let mut i: usize = 0;
                while i < params.len()
                    invariant
                        i <= params@.len(),
                        all == params@.map_values(|p: Parameter| p@),
                        self@ == (StartupView::Startup { params: all }),
                        body@ == i32_bytes(PROTOCOL_3 as int) + params_bytes(all.take(i as int)),
                        body@.len() <= 0x7fff_fffa,
                    decreases params@.len() - i,
                {
                    let p = &params[i];
                    assert(all[i as int] == p@);
                    proof {
                        lemma_params_bytes_push(all.take(i as int), all[i as int]);
                        assert(all.take(i as int).push(all[i as int]) =~= all.take(i + 1));
                        lemma_params_bytes_grows(all, i + 1);
                    }
                    let n = p.name.as_str().as_bytes().len();
                    let v = p.value.as_str().as_bytes().len();
                    if body.len() > 0x7fff_fffa - 2 || n > 0x7fff_fffa - 2 - body.len() || v
                        > 0x7fff_fffa - 2 - body.len() - n {
                        return Err(Error::TooLarge);
                    }
                    put_string(&mut body, p.name.as_str());
                    put_string(&mut body, p.value.as_str());
                    i = i + 1;
                    assert(body@ =~= i32_bytes(PROTOCOL_3 as int) + params_bytes(
                        all.take(i as int),
                    ));
                }
                assert(all.take(params@.len() as int) =~= all);
                body.push(0);
            },
        }
        assert(body@ =~= startup_body(self@));
        if body.len() > 0x7fff_fffb {
            return Err(Error::TooLarge);
        }
        let mut out: Vec<u8> = Vec::new();
        put_i32(&mut out, (body.len() + 4) as i32);
        put_slice(&mut out, body.as_slice());
        assert(out@ =~= startup_bytes(self@));
        Ok(buf::from_vec(out))
    }
}

impl FromBytes for Startup {
    open spec fn decodes(s: Seq<u8>) -> bool {
        parse_startup(s) is Ok
    }

    fn from_bytes(bytes: Bytes) -> (r: Result<Self, Error>)
        ensures
            match parse_startup(buf::contents(bytes)) {
                Ok(m) => r matches Ok(s) && s@ == m,
                Err(e) => r is Err && r->Err_0 == e,
            },
    {
        let mut reader = Reader::new(buf::as_slice(&bytes));
        let _len = reader.get_i32()?;
        let code = reader.get_i32()?;
        if code == SSL_REQUEST {
            Ok(Startup::Ssl)
        } else if code == CANCEL_REQUEST {
            let pid = reader.get_i32()?;
            let secret = reader.get_i32()?;
            Ok(Startup::Cancel { pid, secret })
        } else if code == PROTOCOL_3 {
            let ghost start = reader.remaining();
            let ghost whole = parse_startup(buf::contents(bytes));
            let mut params: Vec<Parameter> = Vec::new();
            assert(params@.map_values(|p: Parameter| p@) =~= Seq::<
                (Seq<char>, Seq<char>),
            >::empty());
            while reader.has_remaining()
                invariant
                    whole == parse_startup(buf::contents(bytes)),
                    whole == match parse_params(start) {
                        Err(e) => Err::<StartupView, Error>(e),
                        Ok(params) => Ok(StartupView::Startup { params }),
                    },
                    match parse_params(reader.remaining()) {
                        Ok(rest) => parse_params(start) == Ok::<
                            Seq<(Seq<char>, Seq<char>)>,
                            Error,
                        >(params@.map_values(|p: Parameter| p@) + rest),
                        Err(e) => parse_params(start) == Err::<
                            Seq<(Seq<char>, Seq<char>)>,
                            Error,
                        >(e),
                    },
                decreases reader.remaining().len(),
            {
                let ghost before = reader.remaining();
                let ghost done = params@.map_values(|p: Parameter| p@);
                proof {
                    lemma_c_string_consumes(before);
                }
                let name = reader.c_string()?;
                if name.as_str().is_empty() {
                    assert(done + Seq::<(Seq<char>, Seq<char>)>::empty() =~= done);
                    return Ok(Startup::Startup { params });
                }
                let ghost mid = reader.remaining();
                proof {
                    if mid.len() > 0 {
                        lemma_c_string_consumes(mid);
                    }
                }
                let value = reader.c_string()?;
                let ghost pv = (name@, value@);
                params.push(Parameter { name, value });
                proof {
                    let now = params@.map_values(|p: Parameter| p@);
                    assert(now =~= done.push(pv));
                    match parse_params(reader.remaining()) {
                        Ok(rest) => {
                            assert(done + (seq![pv] + rest) =~= now + rest);
                        },
                        Err(e) => {},
                    }
                }
            }
            assert(params@.map_values(|p: Parameter| p@) + Seq::<(Seq<char>, Seq<char>)>::empty()
                =~= params@.map_values(|p: Parameter| p@));
            Ok(Startup::Startup { params })
        } else {
            Err(Error::UnexpectedPayload)
        }
    }
}

} // verus!
