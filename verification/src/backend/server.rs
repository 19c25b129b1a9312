//! PostgreSQL server connection.
//!
//! A [`Server`] is the proxy's record of one connection to a backend: who
//! it is, what the backend said at startup, and where the conversation
//! stands. It holds no socket. The caller writes and reads, and tells the
//! record what happened; the record decides what that means. The clock is
//! the caller's too: every time is a count of milliseconds on a clock that
//! does not go back.

use super::error::Error;
use super::pool::address::{Address, AddressView};
use crate::net::buf;
use crate::net::messages::auth::parse_authentication;
use crate::net::messages::backend_key::parse_backend_key;
use crate::net::messages::hello::{startup_bytes, startup_fits, StartupView};
use crate::net::messages::parameter_status::parse_parameter_status;
use crate::net::messages::query::query_bytes;
use crate::net::messages::rfq::parse_ready_for_query;
use crate::net::messages::{
    Authentication, BackendKeyData, FromBytes, Message, ParameterStatus, Protocol, Query,
    ReadyForQuery, Startup, ToBytes,
};
use crate::net::parameter::{Parameter, Parameters};
use crate::net::wire::c_string_bytes;
use crate::state::State;
use crate::stats::{count, spec_count, ConnStats};
use bytes::Bytes;
use vstd::prelude::*;

verus! {

/// PostgreSQL server connection.
#[derive(Debug)]
pub struct Server {
    addr: Address,
    id: BackendKeyData,
    params: Parameters,
    state: State,
    created_at: u64,
    last_used_at: u64,
    last_healthcheck: Option<u64>,
    stats: ConnStats,
}

/// A server connection as a plain value.
pub struct ServerView {
    pub addr: AddressView,
    pub id: BackendKeyData,
    pub params: Seq<(Seq<char>, Seq<char>)>,
    pub state: State,
    pub created_at: u64,
    pub last_used_at: u64,
    pub last_healthcheck: Option<u64>,
    pub stats: ConnStats,
}

impl View for Server {
    type V = ServerView;

    closed spec fn view(&self) -> ServerView {
        ServerView {
            addr: self.addr@,
            id: self.id,
            params: self.params@,
            state: self.state,
            created_at: self.created_at,
            last_used_at: self.last_used_at,
            last_healthcheck: self.last_healthcheck,
            stats: self.stats,
        }
    }
}

/// The connection can take new work: the server has answered everything
/// that was sent.
pub open spec fn spec_in_sync(state: State) -> bool {
    state == State::Idle || state == State::IdleInTransaction || state == State::TransactionError
}

/// The server is inside a transaction.
pub open spec fn spec_in_transaction(state: State) -> bool {
    state == State::IdleInTransaction || state == State::TransactionError
}

/// The time that has passed since `then`, or none where `then` is ahead.
pub open spec fn elapsed(now: u64, then: u64) -> u64 {
    if now >= then {
        (now - then) as u64
    } else {
        0
    }
}

/// The state that a transaction status of ReadyForQuery puts the
/// connection in.
pub open spec fn status_state(status: char) -> State {
    if status == 'I' {
        State::Idle
    } else if status == 'T' {
        State::IdleInTransaction
    } else if status == 'E' {
        State::TransactionError
    } else {
        State::Error
    }
}

/// The record after a message has come in at time `now`. Every message is
/// counted by its size. A ReadyForQuery completes a request and sets the
/// state by its status; one that says the transaction is over completes a
/// transaction too and marks the connection as used. A ReadyForQuery that
/// cannot be read changes nothing else.
pub open spec fn after_message(s: ServerView, bytes: Seq<u8>, now: u64) -> ServerView {
    let received = spec_count(s.stats.bytes_received, bytes.len() as usize);
    if bytes.len() > 0 && bytes[0] == 0x5a {
        let counted = ConnStats {
            bytes_received: received,
            queries: spec_count(s.stats.queries, 1),
            ..s.stats
        };
        match parse_ready_for_query(bytes) {
            Err(_) => ServerView { stats: counted, ..s },
            Ok(status) => if status == 'I' {
                ServerView {
                    state: State::Idle,
                    last_used_at: now,
                    stats: ConnStats {
                        transactions: spec_count(s.stats.transactions, 1),
                        ..counted
                    },
                    ..s
                }
            } else {
                ServerView { state: status_state(status), stats: counted, ..s }
            },
        }
    } else {
        ServerView { stats: ConnStats { bytes_received: received, ..s.stats }, ..s }
    }
}

impl Server {
    /// The record of a connection that has just finished its startup.
    pub fn new(addr: Address, id: BackendKeyData, params: Parameters, now: u64) -> (s: Self)
        ensures
            s@ == (ServerView {
                addr: addr@,
                id,
                params: params@,
                state: State::Idle,
                created_at: now,
                last_used_at: now,
                last_healthcheck: None,
                stats: ConnStats { bytes_sent: 0, bytes_received: 0, queries: 0, transactions: 0 },
            }),
    {
        Server {
            addr,
            id,
            params,
            state: State::Idle,
            created_at: now,
            last_used_at: now,
            last_healthcheck: None,
            stats: ConnStats::default(),
        }
    }

    /// Create new PostgreSQL server connection: the exchange that has to
    /// succeed before there is one.
    pub fn connect(addr: &Address) -> (h: Handshake)
        ensures
            h.phase() == Phase::Tls,
            h.address() == addr@,
            h.parameters() == Seq::<(Seq<char>, Seq<char>)>::empty(),
            h.key() is None,
    {
        Handshake {
            addr: addr.clone(),
            phase: Phase::Tls,
            params: Parameters::default(),
            key_data: None,
        }
    }

    /// Request query cancellation for the given backend server identifier:
    /// the message to send on a connection of its own, which is closed
    /// right after.
    pub fn cancel(id: &BackendKeyData) -> (r: Result<Bytes, Error>)
        ensures
            r matches Ok(b) && buf::contents(b) == startup_bytes(
                StartupView::Cancel { pid: id.pid, secret: id.secret },
            ),
    {
        let message = Startup::Cancel { pid: id.pid, secret: id.secret };
        match message.to_bytes() {
            Ok(b) => Ok(b),
            Err(e) => Err(Error::Net(e)),
        }
    }

    /// Send messages to the server: what the attempt to write them came
    /// to. The connection is busy from then on, or broken where the write
    /// failed.
    pub fn send(&mut self, sent: Result<usize, Error>) -> (r: Result<(), Error>)
        ensures
            match sent {
                Ok(n) => r is Ok && final(self)@ == (ServerView {
                    state: State::Active,
                    stats: ConnStats {
                        bytes_sent: spec_count(old(self)@.stats.bytes_sent, n),
                        ..old(self)@.stats
                    },
                    ..old(self)@
                }),
                Err(e) => r == Err::<(), Error>(e) && final(self)@ == (ServerView {
                    state: State::Error,
                    ..old(self)@
                }),
            },
    {
        match sent {
            Ok(n) => {
                self.state = State::Active;
                self.stats.bytes_sent = count(self.stats.bytes_sent, n);
                Ok(())
            },
            Err(err) => {
                self.state = State::Error;
                Err(err)
            },
        }
    }

    /// Flush all pending messages: what the attempt came to. A failure
    /// breaks the connection.
    pub fn flush(&mut self, flushed: Result<(), Error>) -> (r: Result<(), Error>)
        ensures
            r == flushed,
            flushed is Ok ==> final(self)@ == old(self)@,
            flushed is Err ==> final(self)@ == (ServerView { state: State::Error, ..old(self)@ }),
    {
        if flushed.is_err() {
            self.state = State::Error;
        }
        flushed
    }

    /// Read a single message from the server: what the attempt came to, at
    /// time `now`. A failure to read breaks the connection, and so does a
    /// transaction status that is none of `I`, `T`, `E`.
    pub fn read(&mut self, incoming: Result<Message, Error>, now: u64) -> (r: Result<
        Message,
        Error,
    >)
        ensures
            match incoming {
                Err(e) => r == Err::<Message, Error>(e) && final(self)@ == (ServerView {
                    state: State::Error,
                    ..old(self)@
                }),
                Ok(message) => {
                    &&& final(self)@ == after_message(old(self)@, message@, now)
                    &&& if message@[0] != 0x5a {
                        r == Ok::<Message, Error>(message)
                    } else {
                        match parse_ready_for_query(message@) {
                            Err(e) => r == Err::<Message, Error>(Error::Net(e)),
                            Ok(status) => if status == 'I' || status == 'T' || status == 'E' {
                                r == Ok::<Message, Error>(message)
                            } else {
                                r == Err::<Message, Error>(
                                    Error::UnexpectedTransactionStatus(status),
                                )
                            },
                        }
                    }
                },
            },
    {
        let message = match incoming {
            Ok(message) => message,
            Err(err) => {
                self.state = State::Error;
                return Err(err);
            },
        };
        self.stats.bytes_received = count(self.stats.bytes_received, message.len());
        if message.code() == 'Z' {
            self.stats.queries = count(self.stats.queries, 1);
            let rfq = match ReadyForQuery::from_bytes(message.payload()) {
                Ok(rfq) => rfq,
                Err(e) => {
                    return Err(Error::Net(e));
                },
            };
            if rfq.status == 'I' {
                self.state = State::Idle;
                self.stats.transactions = count(self.stats.transactions, 1);
                self.last_used_at = now;
            } else if rfq.status == 'T' {
                self.state = State::IdleInTransaction;
            } else if rfq.status == 'E' {
                self.state = State::TransactionError;
            } else {
                self.state = State::Error;
                return Err(Error::UnexpectedTransactionStatus(rfq.status));
            }
        }
        Ok(message)
    }

    /// Server sent everything.
    #[inline]
    pub fn done(&self) -> (b: bool)
        ensures
            b == (self@.state == State::Idle),
    {
        self.state == State::Idle
    }

    /// Server connection is synchronized and can receive more messages.
    #[inline]
    pub fn in_sync(&self) -> (b: bool)
        ensures
            b == spec_in_sync(self@.state),
    {
        match self.state {
            State::IdleInTransaction | State::TransactionError | State::Idle => true,
            _ => false,
        }
    }

    /// Server is still inside a transaction.
    #[inline]
    pub fn in_transaction(&self) -> (b: bool)
        ensures
            b == spec_in_transaction(self@.state),
    {
        match self.state {
            State::IdleInTransaction | State::TransactionError => true,
            _ => false,
        }
    }

    /// The server connection permanently failed.
    #[inline]
    pub fn error(&self) -> (b: bool)
        ensures
            b == (self@.state == State::Error),
    {
        self.state == State::Error
    }

    /// Where the connection stands.
    #[inline]
    pub fn state(&self) -> (s: State)
        ensures
            s == self@.state,
    {
        self.state
    }

    /// What the connection has carried.
    #[inline]
    pub fn stats(&self) -> (s: ConnStats)
        ensures
            s == self@.stats,
    {
        self.stats
    }

    /// Server parameters.
    #[inline]
    pub fn params(&self) -> (p: &Parameters)
        ensures
            p@ == self@.params,
    {
        &self.params
    }

    /// Execute a query on the server and return the result: the message
    /// that asks for it, for a connection that can take new work. The
    /// caller sends it and reads until the connection is in sync again.
    pub fn execute(&self, query: &str) -> (r: Result<Bytes, Error>)
        ensures
            !spec_in_sync(self@.state) ==> r is Err && r->Err_0 == Error::NotInSync,
            spec_in_sync(self@.state) ==> if c_string_bytes(query@).len() + 4 <= i32::MAX {
                r matches Ok(b) && buf::contents(b) == query_bytes(query@)
            } else {
                r is Err && r->Err_0 == Error::Net(crate::net::Error::TooLarge)
            },
    {
        if !self.in_sync() {
            return Err(Error::NotInSync);
        }
        match Query::new(query).to_bytes() {
            Ok(b) => Ok(b),
            Err(e) => Err(Error::Net(e)),
        }
    }

    /// Perform a healthcheck on this connection: what running the check
    /// query came to, at time `now`. A check that passed is remembered.
    pub fn healthcheck(&mut self, outcome: Result<(), Error>, now: u64) -> (r: Result<(), Error>)
        ensures
            r == outcome,
            outcome is Ok ==> final(self)@ == (ServerView {
                last_healthcheck: Some(now),
                ..old(self)@
            }),
            outcome is Err ==> final(self)@ == old(self)@,
    {
        if outcome.is_ok() {
            self.last_healthcheck = Some(now);
        }
        outcome
    }

    /// Attempt to rollback the transaction on this server, if any has been
    /// started: the message that asks for it. Where the server is in no
    /// transaction there is nothing to send, and a connection that is in
    /// the middle of a request is broken.
    pub fn rollback(&mut self) -> (r: Option<Bytes>)
        ensures
            spec_in_transaction(old(self)@.state) ==> final(self)@ == old(self)@ && (r matches Some(
                b,
            ) && buf::contents(b) == query_bytes("ROLLBACK"@)),
            !spec_in_transaction(old(self)@.state) ==> r is None && final(self)@ == (ServerView {
                state: if spec_in_sync(old(self)@.state) {
                    old(self)@.state
                } else {
                    State::Error
                },
                ..old(self)@
            }),
    {
        if self.in_transaction() {
            proof {
                reveal_strlit("ROLLBACK");
                lemma_rollback_fits();
            }
            match Query::new("ROLLBACK").to_bytes() {
                Ok(b) => {
                    return Some(b);
                },
                Err(_) => {},
            }
        }
        if !self.in_sync() {
            self.state = State::Error;
        }
        None
    }

    /// What the rollback came to. The connection is broken where the
    /// rollback failed or left the request unfinished.
    pub fn rolled_back(&mut self, outcome: Result<(), Error>)
        ensures
            final(self)@ == (ServerView {
                state: if outcome is Ok && spec_in_sync(old(self)@.state) {
                    old(self)@.state
                } else {
                    State::Error
                },
                ..old(self)@
            }),
    {
        if outcome.is_err() || !self.in_sync() {
            self.state = State::Error;
        }
    }

    /// Server connection unique identifier.
    #[inline]
    pub fn id(&self) -> (id: &BackendKeyData)
        ensures
            *id == self@.id,
    {
        &self.id
    }

    /// How old this connection is.
    #[inline]
    pub fn age(&self, instant: u64) -> (d: u64)
        ensures
            d == elapsed(instant, self@.created_at),
    {
        if instant >= self.created_at {
            instant - self.created_at
        } else {
            0
        }
    }

    /// How long this connection has been idle.
    #[inline]
    pub fn idle_for(&self, instant: u64) -> (d: u64)
        ensures
            d == elapsed(instant, self@.last_used_at),
    {
        if instant >= self.last_used_at {
            instant - self.last_used_at
        } else {
            0
        }
    }

    /// How long has it been since the last connection healthcheck: longer
    /// than any time where there was none.
    #[inline]
    pub fn healthcheck_age(&self, instant: u64) -> (d: u64)
        ensures
            d == match self@.last_healthcheck {
                Some(then) => elapsed(instant, then),
                None => u64::MAX,
            },
    {
        match self.last_healthcheck {
            Some(last_healthcheck) => if instant >= last_healthcheck {
                instant - last_healthcheck
            } else {
                0
            },
            None => u64::MAX,
        }
    }

    /// Get server address.
    #[inline]
    pub fn addr(&self) -> (a: &Address)
        ensures
            a@ == self@.addr,
    {
        &self.addr
    }

    /// Marks the connection as used at time `now`.
    pub fn touch(&mut self, now: u64)
        ensures
            final(self)@ == (ServerView { last_used_at: now, ..old(self)@ }),
    {
        self.last_used_at = now;
    }

    /// What to send before the connection is closed.
    pub fn terminate(&self) -> (r: Result<Bytes, Error>)
        ensures
            r matches Ok(b) && buf::contents(b) == crate::net::messages::terminate::terminate_bytes(),
    {
        match crate::net::messages::Terminate.to_bytes() {
            Ok(b) => Ok(b),
            Err(e) => Err(Error::Net(e)),
        }
    }
}

/// The ROLLBACK statement is short enough to send.
proof fn lemma_rollback_fits()
    ensures
        c_string_bytes("ROLLBACK"@).len() + 4 <= i32::MAX,
{
    reveal_strlit("ROLLBACK");
    let s = "ROLLBACK"@;
    assert(s.len() == 8);
    lemma_encode_len(s);
}

/// Text takes at most four bytes for each character.
pub proof fn lemma_encode_len(chars: Seq<char>)
    ensures
        vstd::utf8::encode_utf8(chars).len() <= 4 * chars.len(),
    decreases chars.len(),
{
    if chars.len() > 0 {
        lemma_encode_len(chars.drop_first());
    }
}

// ---------------------------------------------------------------------------
// Startup
// ---------------------------------------------------------------------------

/// How far the startup of a connection has come.
#[derive(Debug, Clone, Copy, PartialEq, Eq, Structural)]
pub enum Phase {
    /// The request for TLS is out; the server's one-byte answer is due.
    Tls,
    /// The Startup message is out; the server has to let the client in.
    Authentication,
    /// The client is in; the server reports its parameters and its key.
    Parameters,
}

/// The startup of a server connection. It goes through three phases; the
/// caller sends what each phase calls for and hands over what the server
/// says.
#[derive(Debug)]
pub struct Handshake {
    addr: Address,
    phase: Phase,
    params: Parameters,
    key_data: Option<BackendKeyData>,
}

/// What a message from the server means for the startup.
#[derive(Debug)]
pub enum Progress {
    /// The startup goes on.
    More(Handshake),
    /// The startup is complete.
    Ready(Server),
}

/// What the startup does with a message from the server.
pub enum Outcome {
    /// On to the next phase.
    Authenticated,
    /// One more parameter.
    Parameter(Seq<char>, Seq<char>),
    /// The key of the server process.
    Key(BackendKeyData),
    /// The server is ready.
    Ready,
    /// The startup has failed.
    Failed(Error),
}

/// What a message means in a phase. While the client is not in, the only
/// messages that have a place are an ErrorResponse and an Authentication
/// message; after that, ParameterStatus, BackendKeyData and the
/// ReadyForQuery that closes the startup, which must have been preceded by
/// a key.
pub open spec fn spec_receive(phase: Phase, key: Option<BackendKeyData>, message: Message) -> Outcome {
    let bytes = message@;
    let code = bytes[0];
    match phase {
        Phase::Tls => Outcome::Failed(Error::NotInSync),
        Phase::Authentication => if code == 0x45 {
            Outcome::Failed(Error::ConnectionError(message))
        } else if code == 0x52 {
            match parse_authentication(bytes) {
                Ok(_) => Outcome::Authenticated,
                Err(e) => Outcome::Failed(Error::Net(e)),
            }
        } else {
            Outcome::Failed(Error::UnexpectedMessage(code as char))
        },
        Phase::Parameters => if code == 0x5a {
            if key is Some {
                Outcome::Ready
            } else {
                Outcome::Failed(Error::NoBackendKeyData)
            }
        } else if code == 0x53 {
            match parse_parameter_status(bytes) {
                Ok((name, value)) => Outcome::Parameter(name, value),
                Err(e) => Outcome::Failed(Error::Net(e)),
            }
        } else if code == 0x4b {
            match parse_backend_key(bytes) {
                Ok(k) => Outcome::Key(k),
                Err(e) => Outcome::Failed(Error::Net(e)),
            }
        } else {
            Outcome::Failed(Error::UnexpectedMessage(code as char))
        },
    }
}

impl Handshake {
    /// The phase the startup is in.
    pub closed spec fn phase(self) -> Phase {
        self.phase
    }

    /// The server that is being connected to.
    pub closed spec fn address(self) -> AddressView {
        self.addr@
    }

    /// The parameters that the server has reported so far.
    pub closed spec fn parameters(self) -> Seq<(Seq<char>, Seq<char>)> {
        self.params@
    }

    /// The key that the server has reported, if it has.
    pub closed spec fn key(self) -> Option<BackendKeyData> {
        self.key_data
    }

    /// The first message to send: the request for TLS.
    pub fn request(&self) -> (r: Result<Bytes, Error>)
        ensures
            r matches Ok(b) && buf::contents(b) == startup_bytes(StartupView::Ssl),
    {
        match Startup::tls().to_bytes() {
            Ok(b) => Ok(b),
            Err(e) => Err(Error::Net(e)),
        }
    }

    /// The server's answer to the request for TLS: whether to switch to
    /// TLS before going on. `S` says yes and `N` says no; anything else
    /// ends the startup.
    pub fn tls(&mut self, reply: u8) -> (r: Result<bool, Error>)
        ensures
            final(self).address() == old(self).address(),
            final(self).parameters() == old(self).parameters(),
            final(self).key() == old(self).key(),
            old(self).phase() != Phase::Tls ==> r is Err && r->Err_0 == Error::NotInSync
                && final(self).phase() == old(self).phase(),
            old(self).phase() == Phase::Tls && (reply == 0x53 || reply == 0x4e) ==> r == Ok::<
                bool,
                Error,
            >(reply == 0x53) && final(self).phase() == Phase::Authentication,
            old(self).phase() == Phase::Tls && reply != 0x53 && reply != 0x4e ==> r is Err
                && r->Err_0 == Error::UnexpectedMessage(reply as char) && final(self).phase()
                == Phase::Tls,
    {
        if self.phase != Phase::Tls {
            return Err(Error::NotInSync);
        }
        if reply == 0x53 {
            self.phase = Phase::Authentication;
            Ok(true)
        } else if reply == 0x4e {
            self.phase = Phase::Authentication;
            Ok(false)
        } else {
            Err(Error::UnexpectedMessage(reply as char))
        }
    }

    /// The Startup message, which names the user and the database.
    pub fn startup(&self) -> (r: Result<Bytes, Error>)
        ensures
            ({
                let m = StartupView::Startup {
                    params: seq![
                        ("user"@, self.address().user),
                        ("database"@, self.address().database_name),
                    ],
                };
                if startup_fits(m) {
                    r matches Ok(b) && buf::contents(b) == startup_bytes(m)
                } else {
                    r is Err && r->Err_0 == Error::Net(crate::net::Error::TooLarge)
                }
            }),
    {
        let message = Startup::new(self.addr.user.as_str(), self.addr.database_name.as_str());
        match message.to_bytes() {
            Ok(b) => Ok(b),
            Err(e) => Err(Error::Net(e)),
        }
    }

    /// Takes one message from the server, at time `now`.
    pub fn receive(self, message: Message, now: u64) -> (r: Result<Progress, Error>)
        ensures
            match spec_receive(self.phase(), self.key(), message) {
                Outcome::Failed(e) => r is Err && r->Err_0 == e,
                Outcome::Authenticated => r matches Ok(Progress::More(h)) && h.phase()
                    == Phase::Parameters && h.address() == self.address() && h.parameters()
                    == self.parameters() && h.key() == self.key(),
                Outcome::Parameter(name, value) => r matches Ok(Progress::More(h)) && h.phase()
                    == Phase::Parameters && h.address() == self.address() && h.parameters()
                    == self.parameters().push((name, value)) && h.key() == self.key(),
                Outcome::Key(k) => r matches Ok(Progress::More(h)) && h.phase()
                    == Phase::Parameters && h.address() == self.address() && h.parameters()
                    == self.parameters() && h.key() == Some(k),
                Outcome::Ready => r matches Ok(Progress::Ready(s)) && s@ == (ServerView {
                    addr: self.address(),
                    id: self.key()->Some_0,
                    params: self.parameters(),
                    state: State::Idle,
                    created_at: now,
                    last_used_at: now,
                    last_healthcheck: None,
                    stats: ConnStats {
                        bytes_sent: 0,
                        bytes_received: 0,
                        queries: 0,
                        transactions: 0,
                    },
                }),
            },
    {
        let code = message.code();
        let Handshake { addr, phase, mut params, key_data } = self;
        match phase {
            Phase::Tls => Err(Error::NotInSync),
            Phase::Authentication => {
                if code == 'E' {
                    Err(Error::ConnectionError(message))
                } else if code == 'R' {
                    match Authentication::from_bytes(message.payload()) {
                        Ok(_) => Ok(
                            Progress::More(
                                Handshake { addr, phase: Phase::Parameters, params, key_data },
                            ),
                        ),
                        Err(e) => Err(Error::Net(e)),
                    }
                } else {
                    Err(Error::UnexpectedMessage(code))
                }
            },
            Phase::Parameters => {
                if code == 'Z' {
                    match key_data {
                        Some(id) => Ok(Progress::Ready(Server::new(addr, id, params, now))),
                        None => Err(Error::NoBackendKeyData),
                    }
                } else if code == 'S' {
                    match ParameterStatus::from_bytes(message.payload()) {
                        Ok(parameter) => {
                            params.push(
                                Parameter { name: parameter.name, value: parameter.value },
                            );
                            Ok(Progress::More(Handshake { addr, phase, params, key_data }))
                        },
                        Err(e) => Err(Error::Net(e)),
                    }
                } else if code == 'K' {
                    match BackendKeyData::from_bytes(message.payload()) {
                        Ok(k) => Ok(
                            Progress::More(Handshake { addr, phase, params, key_data: Some(k) }),
                        ),
                        Err(e) => Err(Error::Net(e)),
                    }
                } else {
                    Err(Error::UnexpectedMessage(code))
                }
            },
        }
    }
}

} // verus!
