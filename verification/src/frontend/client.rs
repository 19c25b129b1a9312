//! Frontend client.
//!
//! A [`Client`] is the proxy's record of one client session. It holds no
//! socket and no server connection. The caller reads from the client and
//! from the server it holds for the client, hands over what it has read,
//! and does what the record says: read on, get a server and send, pass a
//! message on, give the server back.
//!
//! The record is what keeps a server with its client for as long as it
//! must stay: while a request is unanswered, and from `BEGIN` until the
//! server has acknowledged the end of the transaction.

use super::buffer::{spec_full, Buffer};
use crate::frontend::router::parser::query::{Command, CommandView};
use crate::frontend::router::route::{Route, RouteView};
use crate::net::buf;
use crate::net::error::Error;
use crate::net::messages::auth::authentication_ok_bytes;
use crate::net::messages::backend_key::backend_key_bytes;
use crate::net::messages::command_complete::command_complete_bytes;
use crate::net::messages::parameter_status::parameter_status_bytes;
use crate::net::messages::rfq::ready_for_query_bytes;
use crate::net::messages::{
    Authentication, BackendKeyData, CommandComplete, FromBytes, Message, ParameterStatus,
    Protocol, ReadyForQuery, ToBytes,
};
use crate::state::State;
use crate::stats::{count, spec_count, ConnStats};
use bytes::Bytes;
use vstd::prelude::*;

verus! {

/// Frontend client.
#[derive(Debug)]
pub struct Client {
    id: BackendKeyData,
    state: State,
    params: Vec<(String, String)>,
    stats: ConnStats,
    /// The messages of the request that the client is putting together.
    buffer: Buffer,
    /// The session holds a server.
    connected: bool,
    /// The client has begun a transaction that has not ended.
    in_transaction: bool,
    /// The client has asked to end its transaction.
    ending: bool,
    /// Requests that were sent to the server and not answered in full.
    pending: usize,
    /// The client has asked for replies to be sent at once.
    flush: bool,
}

/// A client session as a plain value.
pub struct ClientView {
    pub id: BackendKeyData,
    pub state: State,
    pub stats: ConnStats,
    pub buffer: Seq<Seq<u8>>,
    pub connected: bool,
    pub in_transaction: bool,
    pub ending: bool,
    pub pending: usize,
    pub flush: bool,
}

impl View for Client {
    type V = ClientView;

    closed spec fn view(&self) -> ClientView {
        ClientView {
            id: self.id,
            state: self.state,
            stats: self.stats,
            buffer: self.buffer@,
            connected: self.connected,
            in_transaction: self.in_transaction,
            ending: self.ending,
            pending: self.pending,
            flush: self.flush,
        }
    }
}

/// What to do after a message from the client.
#[derive(Debug, Clone, Copy, PartialEq, Eq, Structural)]
pub enum Received {
    /// The request is not complete: read on.
    More,
    /// The request is complete: have it routed, and dispatch it.
    Full,
    /// The client is leaving: give the server back, if one is held, and
    /// end the session.
    Terminate,
}

/// What to do with a complete request.
#[derive(Debug)]
pub enum Dispatch {
    /// Nothing: the request is not complete.
    Nothing,
    /// The client has begun a transaction. No server hears of it yet; the
    /// client is told so with these messages.
    Begin(Vec<Message>),
    /// Send the messages to the server, after getting one by the route
    /// where none is held.
    Send { acquire: Option<Route>, messages: Vec<Message> },
}

/// What to do with a message from the server.
#[derive(Debug, Clone, Copy, PartialEq, Eq, Structural)]
pub struct Forward {
    /// Send it to the client at once rather than with what follows.
    pub flush: bool,
    /// Give the server back after that.
    pub release: bool,
}

/// The tags that end a request to which the server answers with a
/// ReadyForQuery: Query, Sync, CopyDone.
pub open spec fn is_sync(tag: u8) -> bool {
    tag == 0x51 || tag == 0x53 || tag == 0x63
}

/// The session after a message from the client, and what to do.
pub open spec fn spec_receive(s: ClientView, bytes: Seq<u8>) -> (ClientView, Received) {
    let counted = ClientView {
        stats: ConnStats {
            bytes_received: spec_count(s.stats.bytes_received, bytes.len() as usize),
            ..s.stats
        },
        ..s
    };
    if bytes[0] == 0x58 {
        (ClientView { state: State::Disconnected, ..counted }, Received::Terminate)
    } else {
        let buffer = s.buffer.push(bytes);
        (
            ClientView { buffer, ..counted },
            if spec_full(buffer) {
                Received::Full
            } else {
                Received::More
            },
        )
    }
}

/// The session after a complete request has been dispatched with the
/// command that the router made of it.
pub open spec fn after_dispatch(s: ClientView, command: CommandView) -> ClientView {
    if !spec_full(s.buffer) {
        s
    } else if command is StartTransaction {
        ClientView { buffer: Seq::empty(), in_transaction: true, ending: false, ..s }
    } else {
        ClientView {
            buffer: Seq::empty(),
            state: State::Active,
            connected: true,
            ending: s.ending || command is CommitTransaction || command is RollbackTransaction,
            pending: if is_sync(s.buffer.last()[0]) && s.pending < usize::MAX {
                (s.pending + 1) as usize
            } else {
                s.pending
            },
            flush: s.buffer.last()[0] == 0x48,
            ..s
        }
    }
}

/// The session after a message from the server, and what to do with the
/// message. `done` says whether the server is idle outside a transaction
/// after the message.
///
/// A ReadyForQuery answers one request. The server is given back with a
/// ReadyForQuery after which it is idle and no request is unanswered,
/// unless the client is inside a transaction that it has not asked to end.
pub open spec fn spec_forward(s: ClientView, bytes: Seq<u8>, done: bool) -> (ClientView, Forward) {
    let ready = bytes[0] == 0x5a;
    let flush = ready || bytes[0] == 0x47 || s.flush;
    let pending = if ready && s.pending > 0 {
        (s.pending - 1) as usize
    } else {
        s.pending
    };
    let release = s.connected && ready && done && pending == 0 && (!s.in_transaction || s.ending);
    (
        ClientView {
            state: if release {
                State::Idle
            } else {
                s.state
            },
            stats: ConnStats {
                bytes_sent: spec_count(s.stats.bytes_sent, bytes.len() as usize),
                queries: if flush {
                    spec_count(s.stats.queries, 1)
                } else {
                    s.stats.queries
                },
                transactions: if release {
                    spec_count(s.stats.transactions, 1)
                } else {
                    s.stats.transactions
                },
                ..s.stats
            },
            connected: s.connected && !release,
            in_transaction: s.in_transaction && !release,
            ending: s.ending && !release,
            pending,
            flush: s.flush && !flush,
            ..s
        },
        Forward { flush, release },
    )
}

/// From `BEGIN` until the client asks to end its transaction, no message
/// from the server makes the session give its server back.
pub proof fn lemma_transaction_keeps_server(s: ClientView, bytes: Seq<u8>, done: bool)
    requires
        s.in_transaction,
        !s.ending,
    ensures
        !spec_forward(s, bytes, done).1.release,
        spec_forward(s, bytes, done).0.in_transaction,
        spec_forward(s, bytes, done).0.connected == s.connected,
{
}

/// Once the client has asked to end its transaction, the session gives its
/// server back only with a ReadyForQuery after which the server is idle.
pub proof fn lemma_transaction_ends_with_ready_for_query(s: ClientView, bytes: Seq<u8>, done: bool)
    requires
        s.in_transaction,
        spec_forward(s, bytes, done).1.release,
    ensures
        s.ending,
        bytes[0] == 0x5a,
        done,
{
}

/// The session gives its server back only with a ReadyForQuery, and only
/// when every request that was sent has been answered by one.
pub proof fn lemma_release_answers_every_request(s: ClientView, bytes: Seq<u8>, done: bool)
    requires
        spec_forward(s, bytes, done).1.release,
    ensures
        bytes[0] == 0x5a,
        s.pending <= 1,
        spec_forward(s, bytes, done).0.pending == 0,
        !spec_forward(s, bytes, done).0.connected,
{
}

/// A request that ends with a message the server answers with a
/// ReadyForQuery is counted as unanswered when it is sent, and only a
/// ReadyForQuery takes it off the count.
pub proof fn lemma_requests_are_counted(s: ClientView, command: CommandView, bytes: Seq<u8>, done: bool)
    requires
        spec_full(s.buffer),
        !(command is StartTransaction),
        is_sync(s.buffer.last()[0]),
        s.pending < usize::MAX,
    ensures
        after_dispatch(s, command).pending == s.pending + 1,
        bytes[0] != 0x5a ==> spec_forward(s, bytes, done).0.pending == s.pending,
        bytes[0] == 0x5a && s.pending > 0 ==> spec_forward(s, bytes, done).0.pending == s.pending
            - 1,
{
}

impl Client {
    /// The record of a client that has just connected, with the identifier
    /// that the proxy gives it.
    pub fn new(id: BackendKeyData, params: Vec<(String, String)>) -> (c: Self)
        ensures
            c.startup_params() == params@,
            c@ == (ClientView {
                id,
                state: State::Idle,
                stats: ConnStats { bytes_sent: 0, bytes_received: 0, queries: 0, transactions: 0 },
                buffer: Seq::empty(),
                connected: false,
                in_transaction: false,
                ending: false,
                pending: 0,
                flush: false,
            }),
    {
        Client {
            id,
            state: State::Idle,
            params,
            stats: ConnStats::default(),
            buffer: Buffer::new(),
            connected: false,
            in_transaction: false,
            ending: false,
            pending: 0,
            flush: false,
        }
    }

    /// What the client is sent when it has connected: that it is in, the
    /// parameters of the server it is to believe it talks to, its
    /// identifier, and that the proxy is ready.
    pub fn greeting(&self) -> (r: Result<Vec<Bytes>, Error>)
        ensures
            r matches Ok(out) && out@.len() == 6 && buf::contents(out@[0])
                == authentication_ok_bytes() && buf::contents(out@[1]) == parameter_status_bytes(
                ("server_name"@, "pgDog"@),
            ) && buf::contents(out@[2]) == parameter_status_bytes(("server_encoding"@, "UTF8"@))
                && buf::contents(out@[3]) == parameter_status_bytes(("client_encoding"@, "UTF8"@))
                && buf::contents(out@[4]) == backend_key_bytes(self@.id) && buf::contents(out@[5])
                == ready_for_query_bytes('I'),
    {
        let mut out: Vec<Bytes> = Vec::new();
        out.push(Authentication::AuthenticationOk.to_bytes()?);
        let backend_params = ParameterStatus::fake();
        proof {
            reveal_strlit("server_name");
            reveal_strlit("pgDog");
            reveal_strlit("server_encoding");
            reveal_strlit("client_encoding");
            reveal_strlit("UTF8");
            crate::backend::server::lemma_encode_len("server_name"@);
            crate::backend::server::lemma_encode_len("pgDog"@);
            crate::backend::server::lemma_encode_len("server_encoding"@);
            crate::backend::server::lemma_encode_len("client_encoding"@);
            crate::backend::server::lemma_encode_len("UTF8"@);
        }
        out.push(backend_params[0].to_bytes()?);
        out.push(backend_params[1].to_bytes()?);
        out.push(backend_params[2].to_bytes()?);
        out.push(self.id.to_bytes()?);
        out.push(ReadyForQuery::idle().to_bytes()?);
        Ok(out)
    }

    /// Get client's identifier.
    pub fn id(&self) -> (id: BackendKeyData)
        ensures
            id == self@.id,
    {
        self.id
    }

    /// Where the session stands.
    pub fn state(&self) -> (s: State)
        ensures
            s == self@.state,
    {
        self.state
    }

    /// What the session has carried.
    pub fn stats(&self) -> (s: ConnStats)
        ensures
            s == self@.stats,
    {
        self.stats
    }

    /// The parameters that the client sent at startup.
    pub closed spec fn startup_params(self) -> Seq<(String, String)> {
        self.params@
    }

    /// The parameters that the client sent at startup.
    pub fn params(&self) -> (p: &Vec<(String, String)>)
        ensures
            p@ == self.startup_params(),
    {
        &self.params
    }

    /// The session holds a server.
    pub fn connected(&self) -> (b: bool)
        ensures
            b == self@.connected,
    {
        self.connected
    }

    /// The client is inside a transaction.
    pub fn in_transaction(&self) -> (b: bool)
        ensures
            b == self@.in_transaction,
    {
        self.in_transaction
    }

    /// The request that the client is putting together.
    pub fn buffer(&self) -> (b: &Buffer)
        ensures
            b@ == self@.buffer,
    {
        &self.buffer
    }

    /// Takes a message from the client. Terminate ends the session; any
    /// other message joins the request, which is complete with a Query, a
    /// Sync, a CopyDone, or a Flush after messages of the extended
    /// protocol.
    pub fn receive(&mut self, message: Message) -> (r: Received)
        ensures
            (final(self)@, r) == spec_receive(old(self)@, message@),
    {
        self.stats.bytes_received = count(self.stats.bytes_received, message.len());
        if message.code() == 'X' {
            self.state = State::Disconnected;
            return Received::Terminate;
        }
        self.buffer.push(message);
        if self.buffer.full() {
            Received::Full
        } else {
            Received::More
        }
    }

    /// Dispatches the request, once it is complete, with the command that
    /// the router has made of it. `BEGIN` marks the session as inside a
    /// transaction and goes to no server. Anything else is sent to the
    /// server that the session holds, or to one that it gets by the route
    /// of the command; `COMMIT` and `ROLLBACK` mark the transaction as
    /// ending.
    pub fn dispatch(&mut self, command: &Command) -> (r: Dispatch)
        ensures
            final(self)@ == after_dispatch(old(self)@, command@),
            !spec_full(old(self)@.buffer) ==> r is Nothing,
            spec_full(old(self)@.buffer) && command@ is StartTransaction ==> (r matches Dispatch::Begin(
                reply,
            ) && reply@.len() == 2 && reply@[0]@ == command_complete_bytes("BEGIN"@) && reply@[1]@
                == ready_for_query_bytes('T')),
            spec_full(old(self)@.buffer) && !(command@ is StartTransaction) ==> (
            r matches Dispatch::Send { acquire, messages } && messages@.map_values(|m: Message| m@)
                == old(self)@.buffer && match acquire {
                Some(route) => !old(self)@.connected && route@ == match command@ {
                    CommandView::Query(route) => route,
                    _ => crate::frontend::router::parser::query::write_any(),
                },
                None => old(self)@.connected,
            }),
    {
        if !self.buffer.full() {
            return Dispatch::Nothing;
        }
        let ends_with_sync = {
            let messages = self.buffer.messages();
            assert(self.buffer@.last() == messages@[messages@.len() - 1]@);
            let code = messages[messages.len() - 1].code();
            code == 'Q' || code == 'S' || code == 'c'
        };
        let flush = self.buffer.flush();
        let mut buffer = Buffer::new();
        core::mem::swap(&mut buffer, &mut self.buffer);
        if command.begin() {
            self.in_transaction = true;
            self.ending = false;
            let mut reply: Vec<Message> = Vec::new();
            proof {
                reveal_strlit("BEGIN");
                crate::backend::server::lemma_encode_len("BEGIN"@);
            }
            match CommandComplete::new("BEGIN").to_bytes() {
                Ok(b) => match Message::from_bytes(b) {
                    Ok(m) => reply.push(m),
                    Err(_) => {},
                },
                Err(_) => {},
            }
            match ReadyForQuery::in_transaction().to_bytes() {
                Ok(b) => match Message::from_bytes(b) {
                    Ok(m) => reply.push(m),
                    Err(_) => {},
                },
                Err(_) => {},
            }
            return Dispatch::Begin(reply);
        }
        if command.commit() || command.rollback() {
            self.ending = true;
        }
        let acquire = if self.connected {
            None
        } else {
            Some(
                match command {
                    Command::Query(route) => route.clone(),
                    _ => Route::writing(crate::frontend::router::route::ShardSelector::Any),
                },
            )
        };
        self.connected = true;
        self.state = State::Active;
        self.flush = flush;
        if ends_with_sync && self.pending < usize::MAX {
            self.pending = self.pending + 1;
        }
        Dispatch::Send { acquire, messages: buffer.into_messages() }
    }

    /// Takes a message from the server on its way to the client. `done`
    /// says whether the server is idle outside a transaction after the
    /// message.
    pub fn forward(&mut self, message: &Message, done: bool) -> (r: Forward)
        ensures
            (final(self)@, r) == spec_forward(old(self)@, message@, done),
    {
        let code = message.code();
        let ready = code == 'Z';
        let flush = ready || code == 'G' || self.flush;
        self.stats.bytes_sent = count(self.stats.bytes_sent, message.len());
        if flush {
            self.flush = false;
            self.stats.queries = count(self.stats.queries, 1);
        }
        if ready && self.pending > 0 {
            self.pending = self.pending - 1;
        }
        let release = self.connected && ready && done && self.pending == 0 && (!self.in_transaction
            || self.ending);
        if release {
            self.stats.transactions = count(self.stats.transactions, 1);
            self.connected = false;
            self.in_transaction = false;
            self.ending = false;
            self.state = State::Idle;
        }
        Forward { flush, release }
    }

    /// The session is over, for whatever reason. Says whether a server is
    /// held, which is to be given back; a server that is inside a
    /// transaction or in the middle of a request is rolled back or closed
    /// by whoever takes it.
    pub fn disconnect(&mut self) -> (release: bool)
        ensures
            release == old(self)@.connected,
            final(self)@ == (ClientView {
                state: State::Disconnected,
                connected: false,
                in_transaction: false,
                ending: false,
                pending: 0,
                ..old(self)@
            }),
    {
        let release = self.connected;
        self.state = State::Disconnected;
        self.connected = false;
        self.in_transaction = false;
        self.ending = false;
        self.pending = 0;
        release
    }
}

} // verus!
