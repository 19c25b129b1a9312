use bytes::Bytes;
use pgdog::net::messages::{DataRow, FromBytes, Protocol, ToBytes};
use pgdog::net::Error;

#[test]
fn data_row_round_trip_with_null() {
    let mut row = DataRow::new();
    row.add("1");
    row.add_null();
    row.add(42i64);
    row.add(true);
    let bytes = row.to_bytes().unwrap();
    assert_eq!(
        &bytes[..],
        &[
            b'D', 0, 0, 0, 26, 0, 4, 0, 0, 0, 1, b'1', 0xff, 0xff, 0xff, 0xff, 0, 0, 0, 2, b'4',
            b'2', 0, 0, 0, 1, b't'
        ][..]
    );
    let back = DataRow::from_bytes(bytes).unwrap();
    assert_eq!(back.len(), 4);
    assert_eq!(back.column(0), Some(Bytes::from_static(b"1")));
    assert_eq!(back.column(1), None);
    assert_eq!(back.get_int(2, true), Some(42));
    assert_eq!(back.column(3), Some(Bytes::from_static(b"t")));
    assert_eq!(back.column(4), None);
    assert_eq!(back.code(), 'D');
}

#[test]
fn data_row_rejects_other_tag() {
    let bytes = Bytes::from_static(&[b'T', 0, 0, 0, 6, 0, 0]);
    assert_eq!(
        DataRow::from_bytes(bytes).err(),
        Some(Error::UnexpectedMessage('D', 'T'))
    );
}

#[test]
fn data_row_rejects_truncated_column() {
    let bytes = Bytes::from_static(&[b'D', 0, 0, 0, 12, 0, 1, 0, 0, 0, 5, b'a']);
    assert_eq!(DataRow::from_bytes(bytes).err(), Some(Error::UnexpectedEof));
}

#[test]
fn data_row_get_int_binary_and_text() {
    let bytes = Bytes::from_static(&[
        b'D', 0, 0, 0, 0, 0, 3, 0, 0, 0, 2, 0xff, 0xfe, 0, 0, 0, 4, 0, 0, 1, 0, 0, 0, 0, 3, b'-',
        b'0', b'7',
    ]);
    let row = DataRow::from_bytes(bytes).unwrap();
    assert_eq!(row.get_int(0, false), Some(-2));
    assert_eq!(row.get_int(1, false), Some(256));
    assert_eq!(row.get_int(2, true), Some(-7));
    assert_eq!(row.get_int(2, false), None);
    assert_eq!(row.get_int(0, true), None);
    assert_eq!(row.get_int(9, true), None);
}
