//! Buffer rows that arrive from several shards, to sort them before they
//! go to the client.
//!
//! Rows are ordered by the columns of an ORDER BY, clause by clause. A
//! column takes part through its value: a number for the integer types, the
//! bytes of the text for the text types. A row that has no value in a
//! column (NULL, a value that does not decode, a column of another type)
//! ties with every other row in that column. The sort is an insertion sort:
//! it moves a row in front of another only where the other is strictly
//! greater, so rows that tie stay in the order in which they arrived.

use crate::frontend::router::parser::order_by::{OrderBy, OrderByView};
use crate::frontend::router::route::clause_views;
use crate::net::buf;
use crate::net::error::Error;
use crate::net::messages::data_row::{column_int, data_row_bytes, data_row_fits, ColumnView};
use crate::net::messages::row_description::{spec_field_index, FieldView};
use crate::net::messages::{DataRow, FromBytes, Message, Protocol, RowDescription, ToBytes};
use std::collections::VecDeque;
use vstd::prelude::*;

verus! {

/// One row as a plain value.
pub type Row = Seq<ColumnView>;

/// How one value stands to another.
#[derive(Debug, Clone, Copy, PartialEq, Eq, Structural)]
pub enum Order {
    Less,
    Equal,
    Greater,
}

impl Order {
    /// The same relation read from the other side.
    pub open spec fn reversed(self) -> Order {
        match self {
            Order::Less => Order::Greater,
            Order::Equal => Order::Equal,
            Order::Greater => Order::Less,
        }
    }
}

/// The order of two integers.
pub open spec fn int_order(a: int, b: int) -> Order {
    if a < b {
        Order::Less
    } else if a > b {
        Order::Greater
    } else {
        Order::Equal
    }
}

/// The order of two byte strings: by the first byte in which they differ,
/// a string before its extensions.
pub open spec fn lex_order(a: Seq<u8>, b: Seq<u8>) -> Order
    decreases a.len(),
{
    if a.len() == 0 {
        if b.len() == 0 {
            Order::Equal
        } else {
            Order::Less
        }
    } else if b.len() == 0 {
        Order::Greater
    } else if a[0] < b[0] {
        Order::Less
    } else if a[0] > b[0] {
        Order::Greater
    } else {
        lex_order(a.skip(1), b.skip(1))
    }
}

/// The value by which a column is ordered.
pub enum Datum {
    Int(int),
    Text(Seq<u8>),
}

/// The type OIDs whose values are ordered as integers.
pub open spec fn is_int_type(type_oid: i32) -> bool {
    type_oid == 20 || type_oid == 23 || type_oid == 21
}

/// The type OIDs whose values are ordered as text.
pub open spec fn is_text_type(type_oid: i32) -> bool {
    type_oid == 25 || type_oid == 1043
}

/// The value of a column for ordering, where it has one.
pub open spec fn datum(field: FieldView, c: ColumnView) -> Option<Datum> {
    if is_int_type(field.type_oid) {
        match column_int(c, field.format == 0) {
            Some(v) => Some(Datum::Int(v)),
            None => None,
        }
    } else if is_text_type(field.type_oid) {
        match c {
            Some(data) => Some(Datum::Text(data)),
            None => None,
        }
    } else {
        None
    }
}

/// The order of two values of one column.
pub open spec fn datum_order(a: Datum, b: Datum) -> Order {
    match (a, b) {
        (Datum::Int(x), Datum::Int(y)) => int_order(x, y),
        (Datum::Text(x), Datum::Text(y)) => lex_order(x, y),
        _ => Order::Equal,
    }
}

/// A column to sort by: its position in the row, counted from 0, and the
/// direction.
#[derive(Debug, Clone, Copy, PartialEq, Eq, Structural)]
pub struct SortKey {
    pub index: usize,
    pub asc: bool,
}

/// The value that a row has under a sort key.
pub open spec fn key_datum(key: SortKey, fields: Seq<FieldView>, row: Row) -> Option<Datum> {
    if key.index < fields.len() && key.index < row.len() {
        datum(fields[key.index as int], row[key.index as int])
    } else {
        None
    }
}

/// The order of two rows under one sort key. Rows tie where either has no
/// value under the key.
pub open spec fn key_order(key: SortKey, fields: Seq<FieldView>, a: Row, b: Row) -> Order {
    match (key_datum(key, fields, a), key_datum(key, fields, b)) {
        (Some(x), Some(y)) => if key.asc {
            datum_order(x, y)
        } else {
            datum_order(y, x)
        },
        _ => Order::Equal,
    }
}

/// The order of two rows under a list of sort keys: that of the first key
/// under which they do not tie.
pub open spec fn row_order(keys: Seq<SortKey>, fields: Seq<FieldView>, a: Row, b: Row) -> Order
    decreases keys.len(),
{
    if keys.len() == 0 {
        Order::Equal
    } else if key_order(keys[0], fields, a, b) != Order::Equal {
        key_order(keys[0], fields, a, b)
    } else {
        row_order(keys.skip(1), fields, a, b)
    }
}

/// The sort key that an ORDER BY clause stands for under a row
/// description. A position below 1 and a name that no field has stand for
/// none.
pub open spec fn resolve_clause(c: OrderByView, fields: Seq<FieldView>) -> Option<SortKey> {
    match c.index() {
        Some(index) => Some(SortKey { index, asc: c.asc() }),
        None => match c.name() {
            Some(name) => match spec_field_index(fields, name) {
                Some(index) => Some(SortKey { index, asc: c.asc() }),
                None => None,
            },
            None => None,
        },
    }
}

/// The sort keys that the clauses of an ORDER BY stand for, in their order.
pub open spec fn resolve_clauses(clauses: Seq<OrderByView>, fields: Seq<FieldView>) -> Seq<SortKey>
    decreases clauses.len(),
{
    if clauses.len() == 0 {
        Seq::empty()
    } else {
        match resolve_clause(clauses.last(), fields) {
            Some(key) => resolve_clauses(clauses.drop_last(), fields).push(key),
            None => resolve_clauses(clauses.drop_last(), fields),
        }
    }
}

/// The sort keys of an ORDER BY under a row description.
pub open spec fn sort_keys(columns: Seq<OrderBy>, fields: Seq<FieldView>) -> Seq<SortKey> {
    resolve_clauses(clause_views(columns), fields)
}

// ---------------------------------------------------------------------------
// Properties of the order
// ---------------------------------------------------------------------------

/// Reading two byte strings the other way round reverses their order.
pub proof fn lemma_lex_order_reversed(a: Seq<u8>, b: Seq<u8>)
    ensures
        lex_order(b, a) == lex_order(a, b).reversed(),
    decreases a.len(),
{
    if a.len() > 0 && b.len() > 0 && a[0] == b[0] {
        lemma_lex_order_reversed(a.skip(1), b.skip(1));
    }
}

/// Byte strings that tie are the same.
pub proof fn lemma_lex_order_equal(a: Seq<u8>, b: Seq<u8>)
    requires
        lex_order(a, b) == Order::Equal,
    ensures
        a == b,
    decreases a.len(),
{
    if a.len() > 0 && b.len() > 0 {
        lemma_lex_order_equal(a.skip(1), b.skip(1));
        assert(a =~= seq![a[0]] + a.skip(1));
        assert(b =~= seq![b[0]] + b.skip(1));
    } else {
        assert(a =~= b);
    }
}

/// What is less than something that is less than a third is less than the
/// third.
pub proof fn lemma_lex_order_less(a: Seq<u8>, b: Seq<u8>, c: Seq<u8>)
    requires
        lex_order(a, b) == Order::Less,
        lex_order(b, c) == Order::Less,
    ensures
        lex_order(a, c) == Order::Less,
    decreases a.len(),
{
    if a.len() > 0 && b.len() > 0 && c.len() > 0 && a[0] == b[0] && b[0] == c[0] {
        lemma_lex_order_less(a.skip(1), b.skip(1), c.skip(1));
    }
}

/// Reading two rows the other way round reverses their order under a key.
pub proof fn lemma_key_order_reversed(key: SortKey, fields: Seq<FieldView>, a: Row, b: Row)
    ensures
        key_order(key, fields, b, a) == key_order(key, fields, a, b).reversed(),
{
    match (key_datum(key, fields, a), key_datum(key, fields, b)) {
        (Some(Datum::Text(x)), Some(Datum::Text(y))) => {
            lemma_lex_order_reversed(x, y);
            lemma_lex_order_reversed(y, x);
        },
        _ => {},
    }
}

/// Reading two rows the other way round reverses their order.
pub proof fn lemma_row_order_reversed(keys: Seq<SortKey>, fields: Seq<FieldView>, a: Row, b: Row)
    ensures
        row_order(keys, fields, b, a) == row_order(keys, fields, a, b).reversed(),
    decreases keys.len(),
{
    if keys.len() > 0 {
        lemma_key_order_reversed(keys[0], fields, a, b);
        lemma_row_order_reversed(keys.skip(1), fields, a, b);
    }
}

/// Whether a row has a value under every one of the keys.
pub open spec fn has_all_values(keys: Seq<SortKey>, fields: Seq<FieldView>, row: Row) -> bool {
    forall|k: int| 0 <= k < keys.len() ==> key_datum(#[trigger] keys[k], fields, row) is Some
}

/// Under one key, rows that have values are ordered as their values are:
/// the order of the first to the third follows from the other two.
proof fn lemma_key_order_composes(key: SortKey, fields: Seq<FieldView>, a: Row, b: Row, c: Row)
    requires
        key_datum(key, fields, a) is Some,
        key_datum(key, fields, b) is Some,
        key_datum(key, fields, c) is Some,
        key_order(key, fields, a, b) != Order::Greater,
        key_order(key, fields, b, c) != Order::Greater,
    ensures
        key_order(key, fields, a, c) != Order::Greater,
        key_order(key, fields, a, c) == Order::Equal ==> key_order(key, fields, a, b)
            == Order::Equal && key_order(key, fields, b, c) == Order::Equal,
{
    let x = key_datum(key, fields, a)->Some_0;
    let y = key_datum(key, fields, b)->Some_0;
    let z = key_datum(key, fields, c)->Some_0;
    match (x, y, z) {
        (Datum::Text(p), Datum::Text(q), Datum::Text(r)) => {
            lemma_lex_order_reversed(p, q);
            lemma_lex_order_reversed(q, r);
            lemma_lex_order_reversed(p, r);
            if key.asc {
                if lex_order(p, q) == Order::Equal {
                    lemma_lex_order_equal(p, q);
                } else if lex_order(q, r) == Order::Equal {
                    lemma_lex_order_equal(q, r);
                } else {
                    lemma_lex_order_less(p, q, r);
                }
            } else {
                if lex_order(q, p) == Order::Equal {
                    lemma_lex_order_equal(q, p);
                } else if lex_order(r, q) == Order::Equal {
                    lemma_lex_order_equal(r, q);
                } else {
                    lemma_lex_order_less(r, q, p);
                }
            }
        },
        _ => {},
    }
}

/// Among rows that have a value under every key the order is transitive.
pub proof fn lemma_row_order_transitive(
    keys: Seq<SortKey>,
    fields: Seq<FieldView>,
    a: Row,
    b: Row,
    c: Row,
)
    requires
        has_all_values(keys, fields, a),
        has_all_values(keys, fields, b),
        has_all_values(keys, fields, c),
        row_order(keys, fields, a, b) != Order::Greater,
        row_order(keys, fields, b, c) != Order::Greater,
    ensures
        row_order(keys, fields, a, c) != Order::Greater,
    decreases keys.len(),
{
    if keys.len() > 0 {
        let tail = keys.skip(1);
        assert(key_datum(keys[0], fields, a) is Some);
        assert(key_datum(keys[0], fields, b) is Some);
        assert(key_datum(keys[0], fields, c) is Some);
        lemma_key_order_composes(keys[0], fields, a, b, c);
        if key_order(keys[0], fields, a, c) == Order::Equal {
            assert forall|k: int| 0 <= k < tail.len() implies key_datum(
                #[trigger] tail[k],
                fields,
                a,
            ) is Some && key_datum(tail[k], fields, b) is Some && key_datum(tail[k], fields, c)
                is Some by {
                assert(tail[k] == keys[k + 1]);
            }
            lemma_row_order_transitive(tail, fields, a, b, c);
        }
    }
}

// ---------------------------------------------------------------------------
// What a sort achieves
// ---------------------------------------------------------------------------

/// Row `i` of `after` was row `p[i]` of `before`.
pub open spec fn came_from(before: Seq<Row>, after: Seq<Row>, p: Seq<int>, i: int) -> bool {
    0 <= p[i] < before.len() && after[i] == before[p[i]]
}

/// Row `i` of `after` is not greater than the row behind it.
pub open spec fn neighbours_in_order(
    after: Seq<Row>,
    keys: Seq<SortKey>,
    fields: Seq<FieldView>,
    i: int,
) -> bool {
    row_order(keys, fields, after[i], after[i + 1]) != Order::Greater
}

/// Rows `i` and `j` of `after`, `i` in front, were two different rows; and
/// where `i` arrived after `j`, `j` is strictly greater.
pub open spec fn passed_only_greater(
    after: Seq<Row>,
    p: Seq<int>,
    keys: Seq<SortKey>,
    fields: Seq<FieldView>,
    i: int,
    j: int,
) -> bool {
    p[i] != p[j] && (p[i] > p[j] ==> row_order(keys, fields, after[j], after[i])
        == Order::Greater)
}

/// `after` holds the rows of `before` in another order, where row `i` of
/// `after` was row `p[i]` of `before`; neighbours are in order; and a row
/// stands in front of one that arrived before it only where that one is
/// strictly greater.
pub open spec fn is_stable_sort(
    before: Seq<Row>,
    after: Seq<Row>,
    p: Seq<int>,
    keys: Seq<SortKey>,
    fields: Seq<FieldView>,
) -> bool {
    &&& after.len() == before.len()
    &&& p.len() == before.len()
    &&& forall|i: int| 0 <= i < after.len() ==> #[trigger] came_from(before, after, p, i)
    &&& forall|i: int|
        0 <= i < after.len() - 1 ==> #[trigger] neighbours_in_order(after, keys, fields, i)
    &&& forall|i: int, j: int|
        0 <= i < j < after.len() ==> #[trigger] passed_only_greater(after, p, keys, fields, i, j)
}

/// Rows that tie keep the order in which they arrived.
pub proof fn lemma_sort_is_stable(
    before: Seq<Row>,
    after: Seq<Row>,
    p: Seq<int>,
    keys: Seq<SortKey>,
    fields: Seq<FieldView>,
    i: int,
    j: int,
)
    requires
        is_stable_sort(before, after, p, keys, fields),
        0 <= i < j < after.len(),
        row_order(keys, fields, after[i], after[j]) == Order::Equal,
    ensures
        p[i] < p[j],
{
    assert(passed_only_greater(after, p, keys, fields, i, j));
    lemma_row_order_reversed(keys, fields, after[j], after[i]);
}

/// Where every row has a value under every key, the rows come out in
/// order: no row is greater than one that stands after it.
pub proof fn lemma_sort_is_ordered(
    before: Seq<Row>,
    after: Seq<Row>,
    p: Seq<int>,
    keys: Seq<SortKey>,
    fields: Seq<FieldView>,
    i: int,
    j: int,
)
    requires
        is_stable_sort(before, after, p, keys, fields),
        forall|r: int| 0 <= r < before.len() ==> has_all_values(keys, fields, #[trigger] before[r]),
        0 <= i <= j < after.len(),
    ensures
        row_order(keys, fields, after[i], after[j]) != Order::Greater,
    decreases j - i,
{
    assert(came_from(before, after, p, i));
    assert(came_from(before, after, p, j));
    assert(has_all_values(keys, fields, before[p[i]]));
    assert(has_all_values(keys, fields, before[p[j]]));
    if i == j {
        lemma_row_order_reversed(keys, fields, after[i], after[i]);
    } else {
        lemma_sort_is_ordered(before, after, p, keys, fields, i, j - 1);
        assert(came_from(before, after, p, j - 1));
        assert(has_all_values(keys, fields, before[p[j - 1]]));
        assert(neighbours_in_order(after, keys, fields, j - 1));
        lemma_row_order_transitive(keys, fields, after[i], after[j - 1], after[j]);
    }
}

/// Putting one more row into sorted rows, behind every row that is not
/// strictly greater, leaves them sorted.
proof fn lemma_insert_keeps_sorted(
    before: Seq<Row>,
    out: Seq<Row>,
    p: Seq<int>,
    keys: Seq<SortKey>,
    fields: Seq<FieldView>,
    pos: int,
)
    requires
        out.len() < before.len(),
        is_stable_sort(before.take(out.len() as int), out, p, keys, fields),
        0 <= pos <= out.len(),
        pos > 0 ==> row_order(keys, fields, out[pos - 1], before[out.len() as int])
            != Order::Greater,
        forall|j: int|
            pos <= j < out.len() ==> row_order(
                keys,
                fields,
                #[trigger] out[j],
                before[out.len() as int],
            ) == Order::Greater,
    ensures
        is_stable_sort(
            before.take(out.len() as int + 1),
            out.insert(pos, before[out.len() as int]),
            p.insert(pos, out.len() as int),
            keys,
            fields,
        ),
{
    let k = out.len() as int;
    let x = before[k];
    let out2 = out.insert(pos, x);
    let p2 = p.insert(pos, k);
    let b1 = before.take(k);
    let b2 = before.take(k + 1);
    assert(out2.len() == k + 1);
    assert(p2.len() == k + 1);
    assert forall|i: int| 0 <= i < k + 1 implies #[trigger] came_from(b2, out2, p2, i) by {
        if i < pos {
            assert(came_from(b1, out, p, i));
        } else if i > pos {
            assert(came_from(b1, out, p, i - 1));
        }
    }
    assert forall|i: int| 0 <= i < out2.len() - 1 implies #[trigger] neighbours_in_order(
        out2,
        keys,
        fields,
        i,
    ) by {
        if i + 1 < pos {
            assert(neighbours_in_order(out, keys, fields, i));
        } else if i + 1 == pos {
            assert(out2[i] == out[pos - 1]);
        } else if i == pos {
            assert(out2[i + 1] == out[pos]);
            lemma_row_order_reversed(keys, fields, out[pos], x);
        } else {
            assert(neighbours_in_order(out, keys, fields, i - 1));
        }
    }
    assert forall|i: int, j: int| 0 <= i < j < out2.len() implies #[trigger] passed_only_greater(
        out2,
        p2,
        keys,
        fields,
        i,
        j,
    ) by {
        let pi = if i < pos {
            i
        } else {
            i - 1
        };
        let pj = if j < pos {
            j
        } else {
            j - 1
        };
        if i != pos && j != pos {
            assert(passed_only_greater(out, p, keys, fields, pi, pj));
        } else if i == pos {
            assert(came_from(b1, out, p, pj));
            assert(out2[j] == out[pj]);
        } else {
            assert(came_from(b1, out, p, pi));
        }
    }
}

// ---------------------------------------------------------------------------
// Comparing
// ---------------------------------------------------------------------------

/// Compares two byte strings.
pub fn order_bytes(a: &[u8], b: &[u8]) -> (o: Order)
    ensures
        o == lex_order(a@, b@),
{
    let mut i: usize = 0;
    assert(a@.skip(0) =~= a@);
    assert(b@.skip(0) =~= b@);
    while i < a.len() && i < b.len()
        invariant
            i <= a@.len(),
            i <= b@.len(),
            lex_order(a@, b@) == lex_order(a@.skip(i as int), b@.skip(i as int)),
        decreases a@.len() - i,
    {
        assert(a@.skip(i as int)[0] == a@[i as int]);
        assert(b@.skip(i as int)[0] == b@[i as int]);
        if a[i] < b[i] {
            return Order::Less;
        }
        if a[i] > b[i] {
            return Order::Greater;
        }
        assert(a@.skip(i as int).skip(1) =~= a@.skip(i + 1));
        assert(b@.skip(i as int).skip(1) =~= b@.skip(i + 1));
        i = i + 1;
    }
    if i < b.len() {
        Order::Less
    } else if i < a.len() {
        Order::Greater
    } else {
        Order::Equal
    }
}

/// Compares two rows under one sort key.
pub fn order_by_key(key: &SortKey, rd: &RowDescription, a: &DataRow, b: &DataRow) -> (o: Order)
    ensures
        o == key_order(*key, rd@, a@, b@),
{
    if key.index >= rd.fields.len() {
        return Order::Equal;
    }
    let field = &rd.fields[key.index];
    assert(rd@[key.index as int] == field@);
    let natural = if field.is_int() {
        let text = field.is_text_encoding();
        match (a.get_int(key.index, text), b.get_int(key.index, text)) {
            (Some(x), Some(y)) => if x < y {
                Order::Less
            } else if x > y {
                Order::Greater
            } else {
                Order::Equal
            },
            _ => {
                return Order::Equal;
            },
        }
    } else if field.is_varchar() {
        match (a.column(key.index), b.column(key.index)) {
            (Some(x), Some(y)) => {
                if key.asc {
                    return order_bytes(buf::as_slice(&x), buf::as_slice(&y));
                } else {
                    return order_bytes(buf::as_slice(&y), buf::as_slice(&x));
                }
            },
            _ => {
                return Order::Equal;
            },
        }
    } else {
        return Order::Equal;
    };
    if key.asc {
        natural
    } else {
        match natural {
            Order::Less => Order::Greater,
            Order::Equal => Order::Equal,
            Order::Greater => Order::Less,
        }
    }
}

/// Compares two rows under a list of sort keys.
pub fn order_rows(keys: &Vec<SortKey>, rd: &RowDescription, a: &DataRow, b: &DataRow) -> (o:
    Order)
    ensures
        o == row_order(keys@, rd@, a@, b@),
{
    let mut i: usize = 0;
    assert(keys@.skip(0) =~= keys@);
    while i < keys.len()
        invariant
            i <= keys@.len(),
            row_order(keys@, rd@, a@, b@) == row_order(keys@.skip(i as int), rd@, a@, b@),
        decreases keys@.len() - i,
    {
        assert(keys@.skip(i as int)[0] == keys@[i as int]);
        let o = order_by_key(&keys[i], rd, a, b);
        if o != Order::Equal {
            return o;
        }
        assert(keys@.skip(i as int).skip(1) =~= keys@.skip(i + 1));
        i = i + 1;
    }
    Order::Equal
}

/// Works out which columns the clauses of an ORDER BY name, once for all
/// rows.
pub fn resolve(columns: &[OrderBy], rd: &RowDescription) -> (keys: Vec<SortKey>)
    ensures
        keys@ == sort_keys(columns@, rd@),
{
    let ghost clauses = clause_views(columns@);
    let mut keys: Vec<SortKey> = Vec::new();
    let mut i: usize = 0;
    while i < columns.len()
        invariant
            i <= columns@.len(),
            clauses == clause_views(columns@),
            keys@ == resolve_clauses(clauses.take(i as int), rd@),
        decreases columns@.len() - i,
    {
        let column = &columns[i];
        proof {
            assert(clauses.take(i + 1).last() == column@);
            assert(clauses.take(i + 1).drop_last() =~= clauses.take(i as int));
        }
        match column.index() {
            Some(index) => {
                keys.push(SortKey { index, asc: column.asc() });
            },
            None => match column.name() {
                Some(name) => match rd.field_index(name) {
                    Some(index) => {
                        keys.push(SortKey { index, asc: column.asc() });
                    },
                    None => {},
                },
                None => {},
            },
        }
        i = i + 1;
    }
    assert(clauses.take(columns@.len() as int) =~= clauses);
    keys
}

// ---------------------------------------------------------------------------
// The buffer
// ---------------------------------------------------------------------------

/// Sort rows received from multiple shards.
#[derive(Debug)]
pub struct SortBuffer {
    buffer: VecDeque<DataRow>,
    full: bool,
}

impl View for SortBuffer {
    type V = Seq<Row>;

    closed spec fn view(&self) -> Seq<Row> {
        self.buffer@.map_values(|r: DataRow| r@)
    }
}

impl Default for SortBuffer {
    fn default() -> (b: Self)
        ensures
            b@ == Seq::<Row>::empty(),
            !b.is_full(),
    {
        let b = SortBuffer { buffer: VecDeque::new(), full: false };
        assert(b@ =~= Seq::<Row>::empty());
        b
    }
}

impl SortBuffer {
    /// Whether the buffer has been marked as full.
    pub closed spec fn is_full(self) -> bool {
        self.full
    }

    /// How many rows the buffer holds.
    pub fn len(&self) -> (n: usize)
        ensures
            n == self@.len(),
    {
        self.buffer.len()
    }

    /// Add a decoded row to the buffer.
    pub fn add_row(&mut self, row: DataRow)
        ensures
            final(self)@ == old(self)@.push(row@),
            final(self).is_full() == old(self).is_full(),
    {
        self.buffer.push_back(row);
        assert(self@ =~= old(self)@.push(row@));
    }

    /// Add message to buffer: the message is decoded as a DataRow and put
    /// behind the rows that are there. A message that is no DataRow leaves
    /// the buffer as it was.
    pub fn add(&mut self, message: Message) -> (r: Result<(), Error>)
        ensures
            final(self).is_full() == old(self).is_full(),
            match crate::net::messages::data_row::parse_data_row(message@) {
                Ok(row) => r is Ok && final(self)@ == old(self)@.push(row),
                Err(e) => r == Err::<(), Error>(e) && final(self)@ == old(self)@,
            },
    {
        let bytes = message.payload();
        match DataRow::from_bytes(bytes) {
            Ok(dr) => {
                self.add_row(dr);
                Ok(())
            },
            Err(e) => Err(e),
        }
    }

    /// Mark the buffer as full. It will start returning messages now.
    /// Caller is responsible for sorting the buffer if needed.
    pub fn full(&mut self)
        ensures
            final(self)@ == old(self)@,
            final(self).is_full(),
    {
        self.full = true;
    }

    /// Sort the buffer by the columns of an ORDER BY, resolved against the
    /// row description.
    pub fn sort(&mut self, columns: &[OrderBy], rd: &RowDescription)
        ensures
            final(self).is_full() == old(self).is_full(),
            exists|p: Seq<int>|
                #[trigger] is_stable_sort(
                    old(self)@,
                    final(self)@,
                    p,
                    sort_keys(columns@, rd@),
                    rd@,
                ),
    {
        let keys = resolve(columns, rd);
        let ghost before = self@;
        let mut input: VecDeque<DataRow> = VecDeque::new();
        core::mem::swap(&mut input, &mut self.buffer);
        let ghost mut p: Seq<int> = Seq::empty();
        assert(self@ =~= Seq::<Row>::empty());
        assert(before.take(0) =~= Seq::<Row>::empty());
        while input.len() > 0
            invariant
                self.full == old(self).full,
                before == old(self)@,
                self@.len() + input@.len() == before.len(),
                input@.map_values(|r: DataRow| r@) == before.skip(self@.len() as int),
                is_stable_sort(before.take(self@.len() as int), self@, p, keys@, rd@),
            decreases input@.len(),
        {
            let ghost k = self@.len() as int;
            let ghost out = self@;
            let ghost rest = input@.map_values(|r: DataRow| r@);
            let row = input.pop_front().unwrap();
            assert(row@ == before[k]) by {
                assert(rest[0] == before.skip(k)[0]);
            }
            assert(input@.map_values(|r: DataRow| r@) =~= rest.skip(1));
            assert(rest.skip(1) =~= before.skip(k + 1));
            let mut pos: usize = self.buffer.len();
            while pos > 0
                invariant
                    pos <= self.buffer@.len(),
                    self@ == out,
                    forall|j: int|
                        pos <= j < out.len() ==> row_order(keys@, rd@, #[trigger] out[j], row@)
                            == Order::Greater,
                ensures
                    pos <= self.buffer@.len(),
                    pos > 0 ==> row_order(keys@, rd@, out[pos - 1], row@) != Order::Greater,
                    forall|j: int|
                        pos <= j < out.len() ==> row_order(keys@, rd@, #[trigger] out[j], row@)
                            == Order::Greater,
                decreases pos,
            {
                assert(out[pos - 1] == self.buffer@[pos - 1]@);
                let o = order_rows(&keys, rd, &self.buffer[pos - 1], &row);
                if o != Order::Greater {
                    break ;
                }
                pos = pos - 1;
            }
            self.buffer.insert(pos, row);
            proof {
                lemma_insert_keeps_sorted(before, out, p, keys@, rd@, pos as int);
                p = p.insert(pos as int, k);
                assert(self@ =~= out.insert(pos as int, before[k]));
            }
        }
        assert(before.take(before.len() as int) =~= before);
    }

    /// Take the next row from a buffer that has been marked as full, as a
    /// message. A row that cannot be encoded is dropped.
    pub fn take(&mut self) -> (r: Option<Message>)
        ensures
            final(self).is_full() == old(self).is_full(),
            !old(self).is_full() || old(self)@.len() == 0 ==> r is None && final(self)@ == old(
                self,
            )@,
            old(self).is_full() && old(self)@.len() > 0 ==> final(self)@ == old(self)@.skip(1) && (
            if data_row_fits(old(self)@[0]) {
                r matches Some(m) && m@ == data_row_bytes(old(self)@[0])
            } else {
                r is None
            }),
    {
        if !self.full {
            return None;
        }
        match self.buffer.pop_front() {
            None => None,
            Some(row) => {
                assert(self@ =~= old(self)@.skip(1));
                assert(row@ == old(self)@[0]);
                match row.to_bytes() {
                    Ok(bytes) => match Message::from_bytes(bytes) {
                        Ok(m) => Some(m),
                        Err(_) => None,
                    },
                    Err(_) => None,
                }
            },
        }
    }
}

} // verus!
