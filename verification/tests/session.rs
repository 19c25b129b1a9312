use bytes::Bytes;
use pgdog::backend::pool::connection::multi_shard::MultiShard;
use pgdog::backend::Error as BackendError;
use pgdog::frontend::client::{Dispatch, Forward, Received};
use pgdog::frontend::router::parser::{Command, OrderBy};
use pgdog::frontend::router::route::ShardSelector;
use pgdog::frontend::router::Route;
use pgdog::frontend::{Buffer, Client};
use pgdog::net::messages::{
    Authentication, BackendKeyData, Bind, CommandComplete, CopyData, DataRow, ErrorResponse,
    Field, Flush, FromBytes, Message, ParameterStatus, Parse, Protocol, Query, ReadyForQuery,
    RowDescription, Sync, Terminate, ToBytes,
};
use pgdog::net::Error;
use pgdog::state::State;

fn message<T: ToBytes>(value: T) -> Message {
    Message::new(value.to_bytes().unwrap())
}

fn query(sql: &str) -> Message {
    message(Query::new(sql))
}

fn ready(status: char) -> Message {
    message(ReadyForQuery { status })
}

fn client() -> Client {
    Client::new(BackendKeyData { pid: 4, secret: 2 }, vec![])
}

fn read(shard: usize) -> Command {
    Command::Query(Route::reading(ShardSelector::One(shard)))
}

fn keep() -> Forward {
    Forward {
        flush: false,
        release: false,
    }
}

#[test]
fn client_is_greeted() {
    let c = client();
    let greeting = c.greeting().unwrap();
    assert_eq!(greeting.len(), 6);
    assert_eq!(
        greeting[0],
        Authentication::AuthenticationOk.to_bytes().unwrap()
    );
    assert_eq!(
        ParameterStatus::from_bytes(greeting[1].clone()).unwrap().name,
        "server_name"
    );
    assert_eq!(
        ParameterStatus::from_bytes(greeting[3].clone()).unwrap().name,
        "client_encoding"
    );
    assert_eq!(
        BackendKeyData::from_bytes(greeting[4].clone()).unwrap(),
        c.id()
    );
    assert_eq!(greeting[5], ReadyForQuery::idle().to_bytes().unwrap());
    assert_eq!(c.state(), State::Idle);
    assert!(!c.connected());
    assert_eq!(c.params().len(), 0);
}

#[test]
fn single_statement_passes_through() {
    let mut c = client();
    assert_eq!(c.receive(query("SELECT 1;")), Received::Full);
    match c.dispatch(&read(0)) {
        Dispatch::Send { acquire, messages } => {
            assert_eq!(acquire.unwrap().shard(), Some(0));
            assert_eq!(messages.len(), 1);
            assert_eq!(messages[0].code(), 'Q');
        }
        other => panic!("{:?}", other),
    }
    assert!(c.connected());
    assert_eq!(c.state(), State::Active);
    assert!(c.buffer().is_empty());
    let rd = message(RowDescription::new(&[Field::text("?column?")]));
    assert_eq!(c.forward(&rd, false), keep());
    assert_eq!(c.forward(&message(DataRow::from_columns(vec!["1"])), false), keep());
    assert_eq!(c.forward(&message(CommandComplete::new("SELECT 1")), false), keep());
    assert_eq!(
        c.forward(&ready('I'), true),
        Forward {
            flush: true,
            release: true
        }
    );
    assert!(!c.connected());
    assert_eq!(c.state(), State::Idle);
    assert_eq!(c.stats().transactions, 1);
    assert_eq!(c.stats().queries, 1);
}

#[test]
fn transaction_keeps_its_server() {
    let mut c = client();
    assert_eq!(c.receive(query("BEGIN")), Received::Full);
    match c.dispatch(&Command::StartTransaction) {
        Dispatch::Begin(reply) => {
            assert_eq!(reply.len(), 2);
            assert_eq!(
                CommandComplete::from_bytes(reply[0].payload()).unwrap().command,
                "BEGIN"
            );
            assert_eq!(
                ReadyForQuery::from_bytes(reply[1].payload()).unwrap().status,
                'T'
            );
        }
        other => panic!("{:?}", other),
    }
    assert!(c.in_transaction());
    assert!(!c.connected());
    assert_eq!(c.receive(query("SELECT 1")), Received::Full);
    assert!(matches!(
        c.dispatch(&read(0)),
        Dispatch::Send {
            acquire: Some(_),
            ..
        }
    ));
    // The server is idle after the statement, and stays with the client.
    assert_eq!(
        c.forward(&ready('I'), true),
        Forward {
            flush: true,
            release: false
        }
    );
    assert!(c.connected());
    assert_eq!(c.receive(query("SELECT 2")), Received::Full);
    assert!(matches!(
        c.dispatch(&read(1)),
        Dispatch::Send { acquire: None, .. }
    ));
    assert!(!c.forward(&ready('T'), false).release);
    assert_eq!(c.receive(query("COMMIT")), Received::Full);
    assert!(matches!(
        c.dispatch(&Command::CommitTransaction),
        Dispatch::Send { acquire: None, .. }
    ));
    assert!(!c.forward(&message(CommandComplete::new("COMMIT")), false).release);
    assert!(c.connected());
    assert!(c.forward(&ready('I'), true).release);
    assert!(!c.connected());
    assert!(!c.in_transaction());
}

#[test]
fn rollback_ends_the_transaction_too() {
    let mut c = client();
    c.receive(query("BEGIN"));
    c.dispatch(&Command::StartTransaction);
    c.receive(query("ROLLBACK"));
    assert!(matches!(
        c.dispatch(&Command::RollbackTransaction),
        Dispatch::Send {
            acquire: Some(_),
            ..
        }
    ));
    // The server is still inside the transaction: not yet.
    assert!(!c.forward(&ready('T'), false).release);
    assert!(c.forward(&ready('I'), true).release);
    assert!(!c.in_transaction());
}

#[test]
fn server_is_given_back_after_every_request_is_answered() {
    let mut c = client();
    c.receive(query("SELECT 1"));
    c.dispatch(&read(0));
    c.receive(query("SELECT 2"));
    assert!(matches!(
        c.dispatch(&read(0)),
        Dispatch::Send { acquire: None, .. }
    ));
    assert!(!c.forward(&ready('I'), true).release);
    assert!(c.connected());
    assert!(c.forward(&ready('I'), true).release);
    assert!(!c.connected());
}

#[test]
fn server_is_given_back_with_a_ready_for_query_only() {
    let mut c = client();
    c.receive(query("SELECT 1"));
    c.dispatch(&read(0));
    assert!(!c.forward(&message(CommandComplete::new("SELECT 0")), true).release);
    assert!(!c.forward(&ready('T'), false).release);
    assert!(c.connected());
}

#[test]
fn request_is_complete_with_a_sync_point() {
    let mut c = client();
    assert_eq!(c.receive(message(Flush)), Received::More);
    assert_eq!(c.receive(message(Parse::new_anonymous("SELECT 1"))), Received::More);
    assert!(matches!(c.dispatch(&read(0)), Dispatch::Nothing));
    assert!(!c.connected());
    assert_eq!(c.receive(message(Sync)), Received::Full);
    match c.dispatch(&read(0)) {
        Dispatch::Send { messages, .. } => assert_eq!(messages.len(), 3),
        other => panic!("{:?}", other),
    }
    let mut c = client();
    assert_eq!(c.receive(message(CopyData::new(b"1\n"))), Received::More);
    assert_eq!(
        c.receive(Message::new(Bytes::from_static(&[b'c', 0, 0, 0, 4]))),
        Received::Full
    );
}

#[test]
fn flush_after_extended_messages_completes_a_request() {
    let mut c = client();
    assert_eq!(c.receive(message(Parse::new_anonymous("SELECT 1"))), Received::More);
    assert_eq!(c.receive(message(Flush)), Received::Full);
    assert!(matches!(c.dispatch(&read(0)), Dispatch::Send { .. }));
    let parse_complete = Message::new(Bytes::from_static(&[b'1', 0, 0, 0, 4]));
    // The client asked for replies at once, and no ReadyForQuery is due.
    assert_eq!(
        c.forward(&parse_complete, false),
        Forward {
            flush: true,
            release: false
        }
    );
    assert_eq!(c.forward(&parse_complete, false), keep());
    assert_eq!(c.receive(message(Sync)), Received::Full);
    c.dispatch(&read(0));
    assert!(c.forward(&ready('I'), true).release);
}

#[test]
fn copy_in_response_is_sent_at_once() {
    let mut c = client();
    c.receive(query("COPY users FROM STDIN"));
    c.dispatch(&read(0));
    let copy_in = Message::new(Bytes::from_static(&[b'G', 0, 0, 0, 7, 0, 0, 0]));
    assert_eq!(
        c.forward(&copy_in, false),
        Forward {
            flush: true,
            release: false
        }
    );
}

#[test]
fn terminate_ends_the_session() {
    let mut c = client();
    c.receive(query("SELECT 1"));
    c.dispatch(&read(0));
    assert_eq!(c.receive(message(Terminate)), Received::Terminate);
    assert_eq!(c.state(), State::Disconnected);
    assert!(c.disconnect());
    assert!(!c.connected());
    assert!(!c.disconnect());
    let mut idle = client();
    assert!(!idle.disconnect());
}

#[test]
fn session_counts_bytes() {
    let mut c = client();
    let q = query("SELECT 1");
    let n = q.len();
    c.receive(q);
    assert_eq!(c.stats().bytes_received, n);
    c.dispatch(&read(0));
    c.forward(&ready('I'), true);
    assert_eq!(c.stats().bytes_sent, 6);
}

#[test]
fn buffer_is_full_at_a_sync_point() {
    let mut b = Buffer::new();
    assert!(!b.full());
    assert!(b.is_empty());
    b.push(message(Parse::new_anonymous("SELECT $1")));
    assert!(!b.full());
    assert!(!b.flush());
    b.push(message(Flush));
    assert!(b.full());
    assert!(b.flush());
    b.push(message(Sync));
    assert!(b.full());
    assert!(!b.flush());
    assert_eq!(b.len(), 3);
    let mut only_flush = Buffer::default();
    only_flush.push(message(Flush));
    assert!(!only_flush.full());
    let simple = Buffer::from_messages(vec![query("SELECT 1")]);
    assert!(simple.full());
    assert_eq!(simple.messages().len(), 1);
    assert_eq!(simple.into_messages().len(), 1);
}

#[test]
fn buffer_finds_statement_and_parameters() {
    let mut b = Buffer::new();
    assert_eq!(b.query(), Ok(None));
    assert_eq!(b.parameters(), Ok(None));
    b.push(message(Sync));
    b.push(message(Parse::numbered("s", "SELECT $1")));
    b.push(query("SELECT 2"));
    assert_eq!(b.query(), Ok(Some("SELECT $1".to_string())));
    let bind = Bind {
        portal: String::new(),
        statement: "s".to_string(),
        codes: vec![],
        params: vec![Some(b"1".to_vec())],
        results: vec![0],
    };
    b.push(message(Bind {
        portal: String::new(),
        statement: "s".to_string(),
        codes: vec![],
        params: vec![Some(b"1".to_vec())],
        results: vec![0],
    }));
    assert_eq!(b.parameters(), Ok(Some(bind)));
    let mut broken = Buffer::new();
    broken.push(Message::new(Bytes::from_static(&[b'Q', 0, 0, 0, 5, 0xff])));
    assert_eq!(broken.query(), Err(Error::InvalidUtf8));
    let mut cut = Buffer::new();
    cut.push(Message::new(Bytes::from_static(&[b'B', 0, 0, 0, 4])));
    assert_eq!(cut.parameters(), Err(Error::UnexpectedEof));
    let mut data = Buffer::new();
    data.push(Message::new(Bytes::from_static(&[b'd', 0, 0])));
    assert!(matches!(data.copy_data(), Err(Error::UnexpectedEof)));
}

fn int_field(name: &str) -> Field {
    Field {
        name: name.to_string(),
        table_oid: 0,
        column: 0,
        type_oid: 23,
        type_size: 4,
        type_modifier: -1,
        format: 0,
    }
}

fn users() -> Message {
    message(RowDescription::new(&[int_field("id"), Field::text("name")]))
}

fn user(id: &str, name: &str) -> Message {
    message(DataRow::from_columns(vec![id, name]))
}

fn tags(messages: &[Message]) -> String {
    messages.iter().map(|m| m.code()).collect()
}

#[test]
fn replies_of_two_shards_become_one() {
    let route = Route::select(None, &[OrderBy::AscColumn("id".to_string())]);
    let mut merger = MultiShard::new(2, &route);
    let mut out = vec![];
    for m in [
        users(),
        users(),
        user("2", "b"),
        user("1", "a"),
        message(CommandComplete::new("SELECT 1")),
        user("3", "c"),
        ready('I'),
    ] {
        out.extend(merger.forward(m).unwrap());
    }
    assert_eq!(tags(&out), "T");
    assert!(!merger.done());
    out.extend(
        merger
            .forward(message(CommandComplete::new("SELECT 2")))
            .unwrap(),
    );
    assert_eq!(tags(&out), "TDDDC");
    out.extend(merger.forward(ready('I')).unwrap());
    assert_eq!(tags(&out), "TDDDCZ");
    assert!(merger.done());
    let ids: Vec<Option<i64>> = out[1..4]
        .iter()
        .map(|m| DataRow::from_bytes(m.payload()).unwrap().get_int(0, true))
        .collect();
    assert_eq!(ids, vec![Some(1), Some(2), Some(3)]);
    assert_eq!(
        CommandComplete::from_bytes(out[4].payload()).unwrap().command,
        "SELECT 3"
    );
    assert_eq!(
        ReadyForQuery::from_bytes(out[5].payload()).unwrap().status,
        'I'
    );
}

#[test]
fn merged_status_is_the_most_advanced() {
    for (statuses, expected) in [
        (['I', 'T', 'I'], 'T'),
        (['T', 'E', 'T'], 'E'),
        (['E', 'I', 'T'], 'E'),
        (['I', 'I', 'I'], 'I'),
    ] {
        let mut merger = MultiShard::new(3, &Route::select(None, &[]));
        let mut out = vec![];
        for s in statuses {
            out.extend(merger.forward(ready(s)).unwrap());
        }
        assert_eq!(out.len(), 1);
        assert_eq!(
            ReadyForQuery::from_bytes(out[0].payload()).unwrap().status,
            expected
        );
    }
}

#[test]
fn row_descriptions_have_to_agree() {
    let mut merger = MultiShard::new(2, &Route::select(None, &[]));
    assert_eq!(merger.forward(users()).unwrap().len(), 1);
    let other = message(RowDescription::new(&[int_field("id")]));
    assert!(matches!(
        merger.forward(other),
        Err(BackendError::RowDescriptionMismatch)
    ));
    let renamed = message(RowDescription::new(&[int_field("id"), Field::text("nom")]));
    assert!(matches!(
        merger.forward(renamed),
        Err(BackendError::RowDescriptionMismatch)
    ));
    assert_eq!(merger.forward(users()).unwrap().len(), 0);
}

#[test]
fn error_of_one_shard_fails_the_statement() {
    let mut merger = MultiShard::new(2, &Route::select(None, &[]));
    let error = message(ErrorResponse::cannot_connect());
    let mut out = vec![];
    for m in [
        user("1", "a"),
        error.duplicate(),
        ready('I'),
        users(),
        user("2", "b"),
        error.duplicate(),
        message(CommandComplete::new("SELECT 1")),
    ] {
        out.extend(merger.forward(m).unwrap());
    }
    assert_eq!(tags(&out), "E");
    assert_eq!(out[0].payload(), error.payload());
    assert!(merger.poisoned());
    out.extend(merger.forward(ready('E')).unwrap());
    assert_eq!(tags(&out), "EZ");
    assert_eq!(
        ReadyForQuery::from_bytes(out[1].payload()).unwrap().status,
        'E'
    );
}

#[test]
fn other_messages_pass_through_the_merger() {
    let mut merger = MultiShard::new(2, &Route::select(None, &[]));
    let notice = Message::new(Bytes::from_static(&[b'N', 0, 0, 0, 5, 0]));
    let out = merger.forward(notice.duplicate()).unwrap();
    assert_eq!(out.len(), 1);
    assert_eq!(out[0].payload(), notice.payload());
    let bad = Message::new(Bytes::from_static(&[b'D', 0, 0]));
    assert!(matches!(
        merger.forward(bad),
        Err(BackendError::Net(Error::UnexpectedEof))
    ));
}

#[test]
fn merged_rows_are_counted_without_a_sort() {
    let mut merger = MultiShard::new(2, &Route::select(None, &[]));
    let mut out = vec![];
    for m in [
        user("2", "b"),
        message(CommandComplete::new("INSERT 0 2")),
        user("1", "a"),
        message(CommandComplete::new("INSERT 0 5")),
    ] {
        out.extend(merger.forward(m).unwrap());
    }
    assert_eq!(tags(&out), "DDC");
    assert_eq!(
        DataRow::from_bytes(out[0].payload()).unwrap().get_int(0, true),
        Some(2)
    );
    assert_eq!(
        CommandComplete::from_bytes(out[2].payload()).unwrap().command,
        "INSERT 0 7"
    );
}
