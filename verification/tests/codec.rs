use bytes::Bytes;
use pgdog::net::decimal::{format_i64, format_u64, parse_i64};
use pgdog::net::messages::row_description::DataType;
use pgdog::net::messages::{
    Authentication, BackendKeyData, Bind, CommandComplete, CopyData, DataRow, Describe,
    ErrorResponse, Execute, Field, Flush, FromBytes, Message, ParameterStatus, Parse, Password,
    Protocol, Query, ReadyForQuery, RowDescription, Startup, Sync, Terminate, ToBytes,
};
use pgdog::net::{Error, Parameter};

fn bytes(v: &[u8]) -> Bytes {
    Bytes::copy_from_slice(v)
}

fn int_field(name: &str) -> Field {
    Field {
        name: name.to_string(),
        table_oid: 0,
        column: 0,
        type_oid: 23,
        type_size: 4,
        type_modifier: -1,
        format: 0,
    }
}

#[test]
fn row_description_bytes_are_exact() {
    let rd = RowDescription::new(&[Field::text("a")]);
    assert_eq!(
        &rd.to_bytes().unwrap()[..],
        &[
            b'T', 0, 0, 0, 26, 0, 1, b'a', 0, 0, 0, 0, 0, 0, 0, 0, 0, 0, 25, 0xff, 0xff, 0xff,
            0xff, 0xff, 0xff, 0, 0
        ][..]
    );
    assert_eq!(rd.code(), 'T');
}

#[test]
fn row_description_round_trip() {
    let rd = RowDescription::new(&[Field::text("id"), Field::numeric("n"), Field::bool("ok")]);
    let back = RowDescription::from_bytes(rd.to_bytes().unwrap()).unwrap();
    assert_eq!(back, rd);
    assert_eq!(back.fields.len(), 3);
    assert_eq!(back.field(1), Some(&Field::numeric("n")));
    assert_eq!(back.field(3), None);
}

#[test]
fn row_description_negative_count_is_empty() {
    let rd = RowDescription::from_bytes(bytes(&[b'T', 0, 0, 0, 6, 0xff, 0xff])).unwrap();
    assert_eq!(rd.fields.len(), 0);
}

#[test]
fn field_index_finds_the_first() {
    let rd = RowDescription::new(&[Field::text("a"), Field::text("b"), Field::bool("b")]);
    assert_eq!(rd.field_index("a"), Some(0));
    assert_eq!(rd.field_index("b"), Some(1));
    assert_eq!(rd.field_index("c"), None);
}

#[test]
fn equivalent_compares_count_names_and_types() {
    let a = RowDescription::new(&[Field::text("a"), Field::bool("b")]);
    let mut same = RowDescription::new(&[Field::text("a"), Field::bool("b")]);
    same.fields[0].table_oid = 7;
    assert!(a.equivalent(&same));
    assert!(!a.equivalent(&RowDescription::new(&[Field::text("a")])));
    assert!(!a.equivalent(&RowDescription::new(&[Field::text("a"), Field::text("b")])));
    assert!(!a.equivalent(&RowDescription::new(&[Field::text("x"), Field::bool("b")])));
}

#[test]
fn field_kinds() {
    let numeric = Field::numeric("n");
    assert_eq!(numeric.type_oid, 1700);
    assert_eq!(numeric.type_size, -1);
    assert_eq!(numeric.data_type(), DataType::Other(1700));
    assert!(numeric.is_text_encoding());
    assert!(!numeric.is_binary_encoding());
    let text = Field::text("t");
    assert_eq!(text.data_type(), DataType::Text);
    assert!(text.is_varchar());
    assert!(!text.is_int());
    let boolean = Field::bool("b");
    assert_eq!(boolean.data_type(), DataType::Bool);
    assert_eq!(boolean.type_size, 1);
    let int = int_field("i");
    assert_eq!(int.data_type(), DataType::Integer);
    assert!(int.is_int());
    assert!(!int.is_float());
    let mut other = int_field("f");
    other.type_oid = 701;
    other.format = 1;
    assert_eq!(other.data_type(), DataType::DoublePrecision);
    assert!(other.is_float());
    assert!(other.is_binary_encoding());
    other.type_oid = 1043;
    assert!(other.is_varchar());
    other.type_oid = 20;
    assert_eq!(other.data_type(), DataType::Bigint);
    other.type_oid = 21;
    assert_eq!(other.data_type(), DataType::SmallInt);
    other.type_oid = 1114;
    assert_eq!(other.data_type(), DataType::Timestamp);
    other.type_oid = 1184;
    assert_eq!(other.data_type(), DataType::TimestampTz);
    other.type_oid = 1186;
    assert_eq!(other.data_type(), DataType::Interval);
    other.type_oid = 700;
    assert_eq!(other.data_type(), DataType::Real);
}

#[test]
fn parse_round_trip() {
    let mut parse = Parse::numbered("s1", "SELECT $1");
    parse.data_types = vec![23, 25];
    let encoded = parse.to_bytes().unwrap();
    assert_eq!(
        &encoded[..],
        &[
            b'P', 0, 0, 0, 27, b's', b'1', 0, b'S', b'E', b'L', b'E', b'C', b'T', b' ', b'$',
            b'1', 0, 0, 2, 0, 0, 0, 23, 0, 0, 0, 25
        ][..]
    );
    assert_eq!(Parse::from_bytes(encoded).unwrap(), parse);
    assert!(!parse.anonymous());
    assert_eq!(parse.clone(), parse);
}

#[test]
fn parse_anonymous() {
    let parse = Parse::new_anonymous("SELECT 1");
    assert!(parse.anonymous());
    assert_eq!(parse.query, "SELECT 1");
    assert_eq!(parse.data_types, Vec::<i32>::new());
    assert_eq!(parse.code(), 'P');
}

#[test]
fn parse_refuses_negative_count() {
    let r = Parse::from_bytes(bytes(&[b'P', 0, 0, 0, 8, 0, 0, 0xff, 0xff]));
    assert_eq!(r.err(), Some(Error::InvalidLength));
}

#[test]
fn parameter_status_round_trip() {
    let p = ParameterStatus {
        name: "a".to_string(),
        value: "b".to_string(),
    };
    let encoded = p.to_bytes().unwrap();
    assert_eq!(&encoded[..], &[b'S', 0, 0, 0, 8, b'a', 0, b'b', 0][..]);
    assert_eq!(ParameterStatus::from_bytes(encoded).unwrap(), p);
}

#[test]
fn parameter_status_fake() {
    let fake = ParameterStatus::fake();
    assert_eq!(fake.len(), 3);
    assert_eq!(fake[0].name, "server_name");
    assert_eq!(fake[0].value, "pgDog");
    assert_eq!(fake[1].name, "server_encoding");
    assert_eq!(fake[1].value, "UTF8");
    assert_eq!(fake[2].name, "client_encoding");
    assert_eq!(fake[2].value, "UTF8");
}

#[test]
fn parameter_status_from_parameter() {
    let p = ParameterStatus::from(Parameter {
        name: "TimeZone".to_string(),
        value: "UTC".to_string(),
    });
    assert_eq!(p.name, "TimeZone");
    assert_eq!(p.value, "UTC");
}

#[test]
fn password_initial_round_trip() {
    let p = Password::sasl_initial("abc");
    let encoded = p.to_bytes().unwrap();
    assert_eq!(
        &encoded[..],
        &[
            b'p', 0, 0, 0, 25, b'S', b'C', b'R', b'A', b'M', b'-', b'S', b'H', b'A', b'-', b'2',
            b'5', b'6', 0, 0, 0, 0, 3, b'a', b'b', b'c'
        ][..]
    );
    assert_eq!(Password::from_bytes(encoded).unwrap(), p);
    assert_eq!(p.code(), 'p');
}

#[test]
fn password_response_round_trip() {
    let p = Password::SASLResponse {
        response: "xyz".to_string(),
    };
    let encoded = p.to_bytes().unwrap();
    assert_eq!(&encoded[..], &[b'p', 0, 0, 0, 7, b'x', b'y', b'z'][..]);
    assert_eq!(Password::from_bytes(encoded).unwrap(), p);
}

#[test]
fn password_negative_length_is_empty_response() {
    let p = Password::from_bytes(bytes(&[b'p', 0, 0, 0, 10, b'm', 0, 0xff, 0xff, 0xff, 0xff]));
    assert_eq!(
        p.unwrap(),
        Password::SASLInitialResponse {
            name: "m".to_string(),
            response: String::new()
        }
    );
}

#[test]
fn ready_for_query_round_trip() {
    let encoded = ReadyForQuery::idle().to_bytes().unwrap();
    assert_eq!(&encoded[..], &[b'Z', 0, 0, 0, 5, b'I'][..]);
    assert_eq!(ReadyForQuery::from_bytes(encoded).unwrap().status, 'I');
    assert_eq!(ReadyForQuery::in_transaction().status, 'T');
    assert_eq!(ReadyForQuery::error().status, 'E');
}

#[test]
fn ready_for_query_status_must_be_a_byte() {
    let r = ReadyForQuery { status: '\u{20ac}' }.to_bytes();
    assert_eq!(r.err(), Some(Error::TooLarge));
}

#[test]
fn backend_key_round_trip() {
    let k = BackendKeyData { pid: 1, secret: -2 };
    let encoded = k.to_bytes().unwrap();
    assert_eq!(
        &encoded[..],
        &[b'K', 0, 0, 0, 12, 0, 0, 0, 1, 0xff, 0xff, 0xff, 0xfe][..]
    );
    assert_eq!(BackendKeyData::from_bytes(encoded).unwrap(), k);
}

#[test]
fn integers_at_their_limits_round_trip() {
    let k = BackendKeyData {
        pid: i32::MIN,
        secret: i32::MAX,
    };
    let encoded = k.to_bytes().unwrap();
    assert_eq!(
        &encoded[5..],
        &[0x80, 0, 0, 0, 0x7f, 0xff, 0xff, 0xff][..]
    );
    assert_eq!(BackendKeyData::from_bytes(encoded).unwrap(), k);
    let mut field = Field::text("x");
    field.column = i16::MIN;
    field.type_size = i16::MAX;
    let rd = RowDescription::new(&[field]);
    assert_eq!(RowDescription::from_bytes(rd.to_bytes().unwrap()).unwrap(), rd);
}

#[test]
fn query_round_trip() {
    let q = Query::new("SELECT 1");
    let encoded = q.to_bytes().unwrap();
    assert_eq!(
        &encoded[..],
        &[b'Q', 0, 0, 0, 13, b'S', b'E', b'L', b'E', b'C', b'T', b' ', b'1', 0][..]
    );
    assert_eq!(Query::from_bytes(encoded).unwrap(), q);
}

#[test]
fn query_with_text_beyond_ascii_round_trips() {
    let q = Query::new("SELECT 'h\u{e9}llo \u{20ac}'");
    assert_eq!(Query::from_bytes(q.to_bytes().unwrap()).unwrap(), q);
}

#[test]
fn string_that_is_not_utf8_is_refused() {
    let r = Query::from_bytes(bytes(&[b'Q', 0, 0, 0, 6, 0xff, 0]));
    assert_eq!(r.err(), Some(Error::InvalidUtf8));
}

#[test]
fn string_without_terminator_runs_to_the_end() {
    let q = Query::from_bytes(bytes(&[b'Q', 0, 0, 0, 6, b'h', b'i'])).unwrap();
    assert_eq!(q.query, "hi");
}

#[test]
fn empty_bodies() {
    assert_eq!(&Terminate.to_bytes().unwrap()[..], &[b'X', 0, 0, 0, 4][..]);
    assert_eq!(&Sync.to_bytes().unwrap()[..], &[b'S', 0, 0, 0, 4][..]);
    assert_eq!(&Flush.to_bytes().unwrap()[..], &[b'H', 0, 0, 0, 4][..]);
    assert!(Terminate::from_bytes(bytes(&[b'X', 0, 0, 0, 4])).is_ok());
    assert!(Sync::from_bytes(bytes(&[b'S', 0, 0, 0, 4])).is_ok());
    assert!(Flush::from_bytes(bytes(&[b'H', 0, 0, 0, 4])).is_ok());
    assert_eq!(
        Flush::from_bytes(bytes(&[b'S', 0, 0, 0, 4])).err(),
        Some(Error::UnexpectedMessage('H', 'S'))
    );
    assert_eq!(
        Terminate::from_bytes(bytes(&[b'X', 0, 0])).err(),
        Some(Error::UnexpectedEof)
    );
}

#[test]
fn authentication_ok_round_trip() {
    let encoded = Authentication::AuthenticationOk.to_bytes().unwrap();
    assert_eq!(&encoded[..], &[b'R', 0, 0, 0, 8, 0, 0, 0, 0][..]);
    assert_eq!(
        Authentication::from_bytes(encoded).unwrap(),
        Authentication::AuthenticationOk
    );
}

#[test]
fn authentication_request_is_refused() {
    let r = Authentication::from_bytes(bytes(&[b'R', 0, 0, 0, 8, 0, 0, 0, 5]));
    assert_eq!(r.err(), Some(Error::UnexpectedPayload));
}

#[test]
fn startup_messages() {
    assert_eq!(
        &Startup::tls().to_bytes().unwrap()[..],
        &[0, 0, 0, 8, 4, 210, 22, 47][..]
    );
    let cancel = Startup::Cancel { pid: 7, secret: 9 };
    let encoded = cancel.to_bytes().unwrap();
    assert_eq!(
        &encoded[..],
        &[0, 0, 0, 16, 4, 210, 22, 46, 0, 0, 0, 7, 0, 0, 0, 9][..]
    );
    assert_eq!(Startup::from_bytes(encoded).unwrap(), cancel);
    assert_eq!(
        Startup::from_bytes(Startup::tls().to_bytes().unwrap()).unwrap(),
        Startup::Ssl
    );
}

#[test]
fn startup_with_parameters_round_trip() {
    let startup = Startup::new("u", "d");
    let encoded = startup.to_bytes().unwrap();
    assert_eq!(
        &encoded[..],
        &[
            0, 0, 0, 27, 0, 3, 0, 0, b'u', b's', b'e', b'r', 0, b'u', 0, b'd', b'a', b't', b'a',
            b'b', b'a', b's', b'e', 0, b'd', 0, 0
        ][..]
    );
    assert_eq!(Startup::from_bytes(encoded).unwrap(), startup);
}

#[test]
fn startup_of_another_protocol_is_refused() {
    let r = Startup::from_bytes(bytes(&[0, 0, 0, 8, 0, 2, 0, 0]));
    assert_eq!(r.err(), Some(Error::UnexpectedPayload));
}

#[test]
fn bind_round_trip() {
    let bind = Bind {
        portal: String::new(),
        statement: "s".to_string(),
        codes: vec![0],
        params: vec![Some(b"42".to_vec()), None],
        results: vec![],
    };
    let encoded = bind.to_bytes().unwrap();
    assert_eq!(
        &encoded[..],
        &[
            b'B', 0, 0, 0, 25, 0, b's', 0, 0, 1, 0, 0, 0, 2, 0, 0, 0, 2, b'4', b'2', 0xff, 0xff,
            0xff, 0xff, 0, 0
        ][..]
    );
    assert_eq!(Bind::from_bytes(encoded).unwrap(), bind);
    assert_eq!(bind.code(), 'B');
}

#[test]
fn bind_parameters() {
    let mut bind = Bind {
        portal: String::new(),
        statement: String::new(),
        codes: vec![],
        params: vec![Some(b"42".to_vec()), None, Some(vec![0xff])],
        results: vec![],
    };
    let first = bind.parameter(0).unwrap().unwrap();
    assert_eq!(first.text(), Some("42"));
    assert_eq!(first.data(), &b"42"[..]);
    assert!(bind.parameter(1).unwrap().is_none());
    assert!(bind.parameter(3).unwrap().is_none());
    assert_eq!(bind.parameter(2).unwrap().unwrap().text(), None);
    bind.codes = vec![1];
    assert_eq!(bind.parameter(0).unwrap().unwrap().text(), None);
    bind.codes = vec![0, 1, 0];
    assert_eq!(bind.parameter(0).unwrap().unwrap().text(), Some("42"));
    bind.codes = vec![7];
    assert_eq!(bind.parameter(0).err(), Some(Error::UnexpectedPayload));
}

#[test]
fn copy_data_round_trip() {
    let c = CopyData::new(b"1,a\n");
    let encoded = c.to_bytes().unwrap();
    assert_eq!(
        &encoded[..],
        &[b'd', 0, 0, 0, 8, b'1', b',', b'a', b'\n'][..]
    );
    assert_eq!(CopyData::from_bytes(encoded).unwrap().data(), &b"1,a\n"[..]);
}

#[test]
fn command_complete_round_trip_and_rows() {
    let c = CommandComplete::new("SELECT 3");
    let encoded = c.to_bytes().unwrap();
    assert_eq!(
        &encoded[..],
        &[b'C', 0, 0, 0, 13, b'S', b'E', b'L', b'E', b'C', b'T', b' ', b'3', 0][..]
    );
    assert_eq!(CommandComplete::from_bytes(encoded).unwrap(), c);
    assert_eq!(c.rows(), Some(3));
    assert_eq!(CommandComplete::new("INSERT 0 5").rows(), Some(5));
    assert_eq!(CommandComplete::new("BEGIN").rows(), None);
    assert_eq!(CommandComplete::new("").rows(), None);
}

#[test]
fn describe_and_execute_round_trip() {
    let d = Describe {
        kind: b'S',
        name: "s1".to_string(),
    };
    let encoded = d.to_bytes().unwrap();
    assert_eq!(&encoded[..], &[b'D', 0, 0, 0, 8, b'S', b's', b'1', 0][..]);
    assert_eq!(Describe::from_bytes(encoded).unwrap(), d);
    let e = Execute {
        portal: String::new(),
        max_rows: 0,
    };
    let encoded = e.to_bytes().unwrap();
    assert_eq!(&encoded[..], &[b'E', 0, 0, 0, 9, 0, 0, 0, 0, 0][..]);
    assert_eq!(Execute::from_bytes(encoded).unwrap(), e);
}

#[test]
fn error_response_round_trip() {
    let e = ErrorResponse::cannot_connect();
    assert_eq!(e.code, "57P03");
    assert_eq!(e.severity, "FATAL");
    assert_eq!(ErrorResponse::from_bytes(e.to_bytes().unwrap()).unwrap(), e);
}

#[test]
fn error_response_passes_over_other_fields() {
    let e = ErrorResponse::from_bytes(bytes(&[
        b'E', 0, 0, 0, 0, b'S', b'E', b'R', b'R', b'O', b'R', 0, b'V', b'x', 0, b'C', b'4', b'2',
        b'P', b'0', b'1', 0, b'M', b'n', b'o', 0, 0,
    ]))
    .unwrap();
    assert_eq!(e.severity, "ERROR");
    assert_eq!(e.code, "42P01");
    assert_eq!(e.message, "no");
}

#[test]
fn error_response_without_end_is_refused() {
    let r = ErrorResponse::from_bytes(bytes(&[b'E', 0, 0, 0, 0, b'M', b'n', b'o', 0]));
    assert_eq!(r.err(), Some(Error::UnexpectedEof));
}

#[test]
fn message_holds_the_bytes_as_they_are() {
    let raw = bytes(&[b'D', 0, 0, 0, 6, 0, 0]);
    let message = Message::new(raw.clone());
    assert_eq!(message.code(), 'D');
    assert_eq!(message.len(), 7);
    assert!(!message.is_empty());
    assert_eq!(message.payload(), raw);
    assert_eq!(message.to_bytes().unwrap(), raw);
    assert!(!message.streaming());
    let streamed = message.stream(true);
    assert!(streamed.streaming());
    assert_eq!(streamed.message().unwrap().payload(), raw);
}

#[test]
fn message_is_never_empty() {
    assert_eq!(
        Message::from_bytes(Bytes::new()).err(),
        Some(Error::UnexpectedEof)
    );
    assert_eq!(
        DataRow::from_bytes(Bytes::new()).err(),
        Some(Error::UnexpectedEof)
    );
}

fn framed<T: Protocol>(value: &T) -> Message {
    value.message().unwrap()
}

#[test]
fn message_of_a_typed_value() {
    let q = Query::new("x");
    let message = framed(&q);
    assert_eq!(message.code(), 'Q');
    assert_eq!(message.payload(), q.to_bytes().unwrap());
    assert!(!q.streaming());
    assert_eq!(framed(&ReadyForQuery::idle()).len(), 6);
    assert!(ReadyForQuery { status: '\u{20ac}' }.message().is_err());
}

#[test]
fn decimal_parse() {
    assert_eq!(parse_i64(b"0"), Some(0));
    assert_eq!(parse_i64(b"0019"), Some(19));
    assert_eq!(parse_i64(b"+7"), Some(7));
    assert_eq!(parse_i64(b"-42"), Some(-42));
    assert_eq!(parse_i64(b"9223372036854775807"), Some(i64::MAX));
    assert_eq!(parse_i64(b"-9223372036854775808"), Some(i64::MIN));
    assert_eq!(parse_i64(b"9223372036854775808"), None);
    assert_eq!(parse_i64(b"-9223372036854775809"), None);
    assert_eq!(parse_i64(b"99999999999999999999999"), None);
    assert_eq!(parse_i64(b""), None);
    assert_eq!(parse_i64(b"-"), None);
    assert_eq!(parse_i64(b"+"), None);
    assert_eq!(parse_i64(b"1a"), None);
    assert_eq!(parse_i64(b" 1"), None);
    assert_eq!(parse_i64(b"--1"), None);
}

#[test]
fn decimal_format() {
    assert_eq!(format_i64(0), b"0".to_vec());
    assert_eq!(format_i64(-42), b"-42".to_vec());
    assert_eq!(format_i64(1900), b"1900".to_vec());
    assert_eq!(format_i64(i64::MIN), b"-9223372036854775808".to_vec());
    assert_eq!(format_i64(i64::MAX), b"9223372036854775807".to_vec());
    assert_eq!(format_u64(u64::MAX), b"18446744073709551615".to_vec());
    assert_eq!(parse_i64(&format_i64(-123456789)), Some(-123456789));
}

#[test]
fn data_row_columns_of_every_kind() {
    let row = DataRow::from_columns(vec!["a", "bc"]);
    assert_eq!(row.len(), 2);
    assert_eq!(row.column(1), Some(Bytes::from_static(b"bc")));
    let mut row = DataRow::default();
    row.add(String::from("s"));
    row.add(-5i64);
    row.add(17usize);
    row.add(false);
    assert_eq!(row.column(0), Some(Bytes::from_static(b"s")));
    assert_eq!(row.column(1), Some(Bytes::from_static(b"-5")));
    assert_eq!(row.column(2), Some(Bytes::from_static(b"17")));
    assert_eq!(row.column(3), Some(Bytes::from_static(b"f")));
    assert_eq!(row.get_int(1, true), Some(-5));
}

#[test]
fn data_row_refuses_bad_length() {
    let r = DataRow::from_bytes(bytes(&[
        b'D', 0, 0, 0, 10, 0, 1, 0xff, 0xff, 0xff, 0xfe,
    ]));
    assert_eq!(r.err(), Some(Error::InvalidLength));
}

#[test]
fn data_row_get_int_eight_bytes() {
    let row = DataRow::from_bytes(bytes(&[
        b'D', 0, 0, 0, 18, 0, 1, 0, 0, 0, 8, 0xff, 0xff, 0xff, 0xff, 0xff, 0xff, 0xff, 0xfd,
    ]))
    .unwrap();
    assert_eq!(row.get_int(0, false), Some(-3));
}
