use bytes::Bytes;
use pgdog::backend::pool::Address;
use pgdog::backend::server::{Phase, Progress};
use pgdog::backend::{Error, Server};
use pgdog::net::messages::{
    Authentication, BackendKeyData, DataRow, ErrorResponse, Message, ParameterStatus, Query,
    ReadyForQuery, Startup, Terminate, ToBytes,
};
use pgdog::net::Parameters;
use pgdog::state::State;

fn addr() -> Address {
    Address {
        host: "db".to_string(),
        port: 5432,
        database_name: "shop".to_string(),
        user: "app".to_string(),
    }
}

fn message<T: ToBytes>(value: T) -> Message {
    Message::new(value.to_bytes().unwrap())
}

fn ready(status: char) -> Message {
    message(ReadyForQuery { status })
}

fn server() -> Server {
    Server::new(
        addr(),
        BackendKeyData { pid: 1, secret: 2 },
        Parameters::default(),
        100,
    )
}

fn more(progress: Result<Progress, Error>) -> pgdog::backend::server::Handshake {
    match progress {
        Ok(Progress::More(h)) => h,
        other => panic!("{:?}", other),
    }
}

#[test]
fn startup_runs_to_a_server() {
    let mut h = Server::connect(&addr());
    assert_eq!(h.request().unwrap(), Startup::tls().to_bytes().unwrap());
    assert_eq!(h.tls(b'S').unwrap(), true);
    assert_eq!(
        h.startup().unwrap(),
        Startup::new("app", "shop").to_bytes().unwrap()
    );
    let h = more(h.receive(message(Authentication::AuthenticationOk), 5));
    let h = more(h.receive(
        message(ParameterStatus {
            name: "client_encoding".to_string(),
            value: "UTF8".to_string(),
        }),
        5,
    ));
    let h = more(h.receive(message(BackendKeyData { pid: 7, secret: 9 }), 5));
    let h = more(h.receive(
        message(ParameterStatus {
            name: "client_encoding".to_string(),
            value: "LATIN1".to_string(),
        }),
        5,
    ));
    match h.receive(ready('I'), 50) {
        Ok(Progress::Ready(s)) => {
            assert_eq!(*s.id(), BackendKeyData { pid: 7, secret: 9 });
            assert_eq!(s.addr(), &addr());
            assert_eq!(s.params().len(), 2);
            assert_eq!(
                s.params().get("client_encoding"),
                Some(&"LATIN1".to_string())
            );
            assert_eq!(s.params().get("nope"), None);
            assert!(s.done());
            assert_eq!(s.state(), State::Idle);
            assert_eq!(s.age(60), 10);
            assert_eq!(s.healthcheck_age(60), u64::MAX);
        }
        other => panic!("{:?}", other),
    }
}

#[test]
fn startup_without_tls() {
    let mut h = Server::connect(&addr());
    assert_eq!(h.tls(b'N').unwrap(), false);
    assert!(matches!(h.tls(b'N'), Err(Error::NotInSync)));
}

#[test]
fn startup_refuses_another_answer_to_tls() {
    let mut h = Server::connect(&addr());
    assert!(matches!(h.tls(b'X'), Err(Error::UnexpectedMessage('X'))));
    assert!(matches!(
        h.receive(ready('I'), 0),
        Err(Error::NotInSync)
    ));
}

#[test]
fn startup_fails_on_an_error_from_the_server() {
    let mut h = Server::connect(&addr());
    h.tls(b'N').unwrap();
    let error = message(ErrorResponse::cannot_connect());
    match h.receive(error.duplicate(), 0) {
        Err(Error::ConnectionError(m)) => assert_eq!(m.payload(), error.payload()),
        other => panic!("{:?}", other),
    }
}

#[test]
fn startup_refuses_what_has_no_place() {
    let mut h = Server::connect(&addr());
    h.tls(b'N').unwrap();
    assert!(matches!(
        h.receive(ready('I'), 0),
        Err(Error::UnexpectedMessage('Z'))
    ));
    let mut h = Server::connect(&addr());
    h.tls(b'N').unwrap();
    let h = more(h.receive(message(Authentication::AuthenticationOk), 0));
    assert!(matches!(
        h.receive(message(DataRow::new()), 0),
        Err(Error::UnexpectedMessage('D'))
    ));
}

#[test]
fn startup_needs_the_key() {
    let mut h = Server::connect(&addr());
    h.tls(b'N').unwrap();
    let h = more(h.receive(message(Authentication::AuthenticationOk), 0));
    assert!(matches!(
        h.receive(ready('I'), 0),
        Err(Error::NoBackendKeyData)
    ));
}

#[test]
fn startup_refuses_a_request_for_credentials() {
    let mut h = Server::connect(&addr());
    h.tls(b'N').unwrap();
    let md5 = Message::new(Bytes::from_static(&[b'R', 0, 0, 0, 8, 0, 0, 0, 5]));
    assert!(matches!(
        h.receive(md5, 0),
        Err(Error::Net(pgdog::net::Error::UnexpectedPayload))
    ));
}

#[test]
fn phases_are_told_apart() {
    assert_ne!(Phase::Tls, Phase::Authentication);
    assert_ne!(Phase::Authentication, Phase::Parameters);
}

#[test]
fn request_and_answer_move_the_state() {
    let mut s = server();
    assert!(s.in_sync());
    s.send(Ok(10)).unwrap();
    assert_eq!(s.state(), State::Active);
    assert!(!s.in_sync());
    assert!(!s.done());
    assert_eq!(s.stats().bytes_sent, 10);
    let row = message(DataRow::new());
    let got = s.read(Ok(row.duplicate()), 110).unwrap();
    assert_eq!(got.payload(), row.payload());
    assert_eq!(s.state(), State::Active);
    assert_eq!(s.stats().bytes_received, 7);
    assert_eq!(s.stats().queries, 0);
    s.read(Ok(ready('T')), 120).unwrap();
    assert_eq!(s.state(), State::IdleInTransaction);
    assert!(s.in_sync());
    assert!(s.in_transaction());
    assert!(!s.done());
    assert_eq!(s.stats().queries, 1);
    assert_eq!(s.stats().transactions, 0);
    assert_eq!(s.idle_for(130), 30);
    s.send(Ok(1)).unwrap();
    s.read(Ok(ready('E')), 125).unwrap();
    assert_eq!(s.state(), State::TransactionError);
    assert!(s.in_sync());
    assert!(s.in_transaction());
    s.send(Ok(1)).unwrap();
    s.read(Ok(ready('I')), 130).unwrap();
    assert!(s.done());
    assert!(!s.in_transaction());
    assert_eq!(s.stats().queries, 3);
    assert_eq!(s.stats().transactions, 1);
    assert_eq!(s.stats().bytes_sent, 12);
    assert_eq!(s.idle_for(130), 0);
    assert_eq!(s.idle_for(100), 0);
}

#[test]
fn unknown_transaction_status_breaks_the_connection() {
    let mut s = server();
    s.send(Ok(1)).unwrap();
    assert!(matches!(
        s.read(Ok(ready('X')), 0),
        Err(Error::UnexpectedTransactionStatus('X'))
    ));
    assert!(s.error());
    assert!(!s.in_sync());
}

#[test]
fn failure_to_read_or_write_breaks_the_connection() {
    let mut s = server();
    assert!(matches!(s.read(Err(Error::Io), 0), Err(Error::Io)));
    assert!(s.error());
    let mut s = server();
    assert!(matches!(s.send(Err(Error::Io)), Err(Error::Io)));
    assert!(s.error());
    let mut s = server();
    assert!(s.flush(Ok(())).is_ok());
    assert!(s.done());
    assert!(matches!(s.flush(Err(Error::Io)), Err(Error::Io)));
    assert!(s.error());
}

#[test]
fn ready_for_query_that_is_cut_short_is_an_error() {
    let mut s = server();
    s.send(Ok(1)).unwrap();
    let short = Message::new(Bytes::from_static(&[b'Z', 0, 0, 0, 4]));
    assert!(matches!(
        s.read(Ok(short), 0),
        Err(Error::Net(pgdog::net::Error::UnexpectedEof))
    ));
    assert_eq!(s.state(), State::Active);
}

#[test]
fn execute_needs_a_connection_in_sync() {
    let mut s = server();
    assert_eq!(
        s.execute("SELECT 1").unwrap(),
        Query::new("SELECT 1").to_bytes().unwrap()
    );
    s.send(Ok(1)).unwrap();
    assert!(matches!(s.execute("SELECT 1"), Err(Error::NotInSync)));
}

#[test]
fn healthcheck_is_remembered() {
    let mut s = server();
    assert_eq!(s.healthcheck_age(500), u64::MAX);
    assert!(s.healthcheck(Err(Error::Io), 110).is_err());
    assert_eq!(s.healthcheck_age(500), u64::MAX);
    s.healthcheck(Ok(()), 120).unwrap();
    assert_eq!(s.healthcheck_age(150), 30);
    assert_eq!(s.healthcheck_age(100), 0);
}

#[test]
fn rollback_is_asked_for_inside_a_transaction() {
    let mut s = server();
    assert!(s.rollback().is_none());
    assert!(s.done());
    s.send(Ok(1)).unwrap();
    s.read(Ok(ready('T')), 0).unwrap();
    assert_eq!(
        s.rollback(),
        Some(Query::new("ROLLBACK").to_bytes().unwrap())
    );
    s.send(Ok(1)).unwrap();
    s.read(Ok(ready('I')), 0).unwrap();
    s.rolled_back(Ok(()));
    assert!(s.done());
}

#[test]
fn rollback_that_fails_breaks_the_connection() {
    let mut s = server();
    s.send(Ok(1)).unwrap();
    s.read(Ok(ready('T')), 0).unwrap();
    s.rolled_back(Err(Error::Io));
    assert!(s.error());
    let mut s = server();
    s.send(Ok(1)).unwrap();
    assert!(s.rollback().is_none());
    assert!(s.error());
    let mut s = server();
    s.send(Ok(1)).unwrap();
    s.rolled_back(Ok(()));
    assert!(s.error());
}

#[test]
fn age_counts_from_creation() {
    let mut s = server();
    assert_eq!(s.age(150), 50);
    assert_eq!(s.age(100), 0);
    assert_eq!(s.age(50), 0);
    s.touch(140);
    assert_eq!(s.idle_for(150), 10);
    assert_eq!(s.age(150), 50);
}

#[test]
fn cancel_and_terminate_messages() {
    let id = BackendKeyData { pid: 7, secret: 9 };
    assert_eq!(
        Server::cancel(&id).unwrap(),
        Startup::Cancel { pid: 7, secret: 9 }.to_bytes().unwrap()
    );
    assert_eq!(server().terminate().unwrap(), Terminate.to_bytes().unwrap());
}
