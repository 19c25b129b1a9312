use bytes::Bytes;
use pgdog::backend::pool::connection::sort_buffer::{order_bytes, Order, SortBuffer};
use pgdog::frontend::router::parser::OrderBy;
use pgdog::net::messages::{DataRow, Field, FromBytes, Message, RowDescription, ToBytes};
use pgdog::net::Error;

fn int_field(name: &str) -> Field {
    Field {
        name: name.to_string(),
        table_oid: 0,
        column: 0,
        type_oid: 23,
        type_size: 4,
        type_modifier: -1,
        format: 0,
    }
}

fn users() -> RowDescription {
    RowDescription::new(&[int_field("id"), Field::text("name")])
}

fn row(id: &str, name: &str) -> Message {
    let mut dr = DataRow::new();
    dr.add(id);
    dr.add(name);
    Message::new(dr.to_bytes().unwrap())
}

fn drain(buffer: &mut SortBuffer) -> Vec<(Option<Bytes>, Option<Bytes>)> {
    let mut out = vec![];
    while let Some(message) = buffer.take() {
        let dr = DataRow::from_bytes(message.payload()).unwrap();
        out.push((dr.column(0), dr.column(1)));
    }
    out
}

fn pairs(rows: &[(&'static str, &'static str)]) -> Vec<(Option<Bytes>, Option<Bytes>)> {
    rows.iter()
        .map(|(a, b)| {
            (
                Some(Bytes::from_static(a.as_bytes())),
                Some(Bytes::from_static(b.as_bytes())),
            )
        })
        .collect()
}

#[test]
fn rows_of_two_shards_come_out_in_order() {
    let mut buffer = SortBuffer::default();
    buffer.add(row("2", "b")).unwrap();
    buffer.add(row("1", "a")).unwrap();
    buffer.add(row("3", "c")).unwrap();
    buffer.sort(&[OrderBy::Asc(1)], &users());
    buffer.full();
    assert_eq!(
        drain(&mut buffer),
        pairs(&[("1", "a"), ("2", "b"), ("3", "c")])
    );
}

#[test]
fn sort_descending() {
    let mut buffer = SortBuffer::default();
    buffer.add(row("2", "b")).unwrap();
    buffer.add(row("1", "a")).unwrap();
    buffer.add(row("3", "c")).unwrap();
    buffer.sort(&[OrderBy::Desc(1)], &users());
    buffer.full();
    assert_eq!(
        drain(&mut buffer),
        pairs(&[("3", "c"), ("2", "b"), ("1", "a")])
    );
}

#[test]
fn sort_keeps_the_order_of_ties() {
    let mut buffer = SortBuffer::default();
    buffer.add(row("1", "x")).unwrap();
    buffer.add(row("1", "y")).unwrap();
    buffer.add(row("0", "z")).unwrap();
    buffer.add(row("1", "w")).unwrap();
    buffer.sort(&[OrderBy::Asc(1)], &users());
    buffer.full();
    assert_eq!(
        drain(&mut buffer),
        pairs(&[("0", "z"), ("1", "x"), ("1", "y"), ("1", "w")])
    );
}

#[test]
fn sort_by_name_and_then_by_position() {
    let mut buffer = SortBuffer::default();
    buffer.add(row("2", "b")).unwrap();
    buffer.add(row("1", "b")).unwrap();
    buffer.add(row("3", "a")).unwrap();
    buffer.sort(
        &[OrderBy::AscColumn("name".to_string()), OrderBy::Desc(1)],
        &users(),
    );
    buffer.full();
    assert_eq!(
        drain(&mut buffer),
        pairs(&[("3", "a"), ("2", "b"), ("1", "b")])
    );
}

#[test]
fn sort_compares_integers_as_numbers() {
    let mut buffer = SortBuffer::default();
    buffer.add(row("10", "a")).unwrap();
    buffer.add(row("9", "b")).unwrap();
    buffer.add(row("-1", "c")).unwrap();
    buffer.sort(&[OrderBy::Asc(1)], &users());
    buffer.full();
    assert_eq!(
        drain(&mut buffer),
        pairs(&[("-1", "c"), ("9", "b"), ("10", "a")])
    );
}

#[test]
fn sort_by_unknown_column_changes_nothing() {
    let mut buffer = SortBuffer::default();
    buffer.add(row("2", "b")).unwrap();
    buffer.add(row("1", "a")).unwrap();
    buffer.sort(
        &[
            OrderBy::AscColumn("nope".to_string()),
            OrderBy::Asc(0),
            OrderBy::Asc(9),
        ],
        &users(),
    );
    buffer.full();
    assert_eq!(drain(&mut buffer), pairs(&[("2", "b"), ("1", "a")]));
}

#[test]
fn row_without_a_value_ties_with_every_row() {
    let mut buffer = SortBuffer::default();
    buffer.add(row("2", "a")).unwrap();
    let mut null = DataRow::new();
    null.add_null();
    null.add("n");
    buffer.add(Message::new(null.to_bytes().unwrap())).unwrap();
    buffer.add(row("1", "b")).unwrap();
    buffer.sort(&[OrderBy::Asc(1)], &users());
    buffer.full();
    let out = drain(&mut buffer);
    assert_eq!(out.len(), 3);
    assert_eq!(out[0].1, Some(Bytes::from_static(b"a")));
    assert_eq!(out[1].0, None);
    assert_eq!(out[2].1, Some(Bytes::from_static(b"b")));
}

#[test]
fn buffer_gives_nothing_before_it_is_full() {
    let mut buffer = SortBuffer::default();
    buffer.add(row("1", "a")).unwrap();
    assert_eq!(buffer.len(), 1);
    assert!(buffer.take().is_none());
    assert_eq!(buffer.len(), 1);
    buffer.full();
    assert!(buffer.take().is_some());
    assert!(buffer.take().is_none());
}

#[test]
fn buffer_takes_data_rows_only() {
    let mut buffer = SortBuffer::default();
    let other = Message::new(Bytes::from_static(&[b'C', 0, 0, 0, 4]));
    assert_eq!(
        buffer.add(other).err(),
        Some(Error::UnexpectedMessage('D', 'C'))
    );
    assert_eq!(buffer.len(), 0);
}

#[test]
fn byte_strings_in_order() {
    assert_eq!(order_bytes(b"ab", b"abc"), Order::Less);
    assert_eq!(order_bytes(b"b", b"abc"), Order::Greater);
    assert_eq!(order_bytes(b"", b""), Order::Equal);
    assert_eq!(order_bytes(b"abc", b"abc"), Order::Equal);
    assert_eq!(order_bytes(b"abd", b"abc"), Order::Greater);
}
