//! DataRow (B) message.

use super::{FromBytes, Protocol, ToBytes};
use crate::net::buf;
use crate::net::decimal::{decimal_text, format_i64, format_u64, parse_i64, spec_parse_i64};
use crate::net::error::Error;
use crate::net::wire::{
    frame, framed, i16_bytes, i16_from_slice, i16_of, i32_bytes, i32_from_slice, i32_of,
    i64_from_slice, i64_of, lemma_i16_round_trip, lemma_i32_round_trip, lemma_unframe_frame,
    put_i16, put_i32, put_slice, spec_unframe, unframe, Reader,
};
use bytes::Bytes;
use vstd::prelude::*;

verus! {

/// The tag of a DataRow message.
pub const DATA_ROW: u8 = 0x44;

/// One column of a row as a plain value: its bytes, or nothing for NULL.
pub type ColumnView = Option<Seq<u8>>;

/// DataRow message: one value per column, where a column without a value
/// is NULL.
#[derive(Debug)]
pub struct DataRow {
    columns: Vec<Option<Bytes>>,
}

/// The plain value of a stored column.
pub open spec fn column_view(c: Option<Bytes>) -> ColumnView {
    match c {
        Some(b) => Some(buf::contents(b)),
        None => None,
    }
}

impl View for DataRow {
    type V = Seq<ColumnView>;

    closed spec fn view(&self) -> Seq<ColumnView> {
        self.columns@.map_values(|c: Option<Bytes>| column_view(c))
    }
}

// ---------------------------------------------------------------------------
// Wire format
// ---------------------------------------------------------------------------

/// One column on the wire: its length as an `i32` and its bytes, or the
/// length -1 alone for NULL.
pub open spec fn column_bytes(c: ColumnView) -> Seq<u8> {
    match c {
        Some(data) => i32_bytes(data.len() as int) + data,
        None => i32_bytes(-1),
    }
}

/// The columns on the wire, one after the other.
pub open spec fn columns_bytes(cols: Seq<ColumnView>) -> Seq<u8>
    decreases cols.len(),
{
    if cols.len() == 0 {
        Seq::empty()
    } else {
        column_bytes(cols[0]) + columns_bytes(cols.skip(1))
    }
}

/// The body of a DataRow message: the column count as an `i16`, then the
/// columns.
pub open spec fn data_row_body(cols: Seq<ColumnView>) -> Seq<u8> {
    i16_bytes(cols.len() as int) + columns_bytes(cols)
}

/// Whether a row fits the wire format: the column count fits an `i16`, and
/// the whole message fits the `i32` length field.
pub open spec fn data_row_fits(cols: Seq<ColumnView>) -> bool {
    &&& cols.len() <= i16::MAX
    &&& data_row_body(cols).len() + 4 <= i32::MAX
}

/// A DataRow message on the wire.
pub open spec fn data_row_bytes(cols: Seq<ColumnView>) -> Seq<u8> {
    frame(DATA_ROW, data_row_body(cols))
}

/// Reads one column off the front of `s`.
pub open spec fn parse_column(s: Seq<u8>) -> Result<(ColumnView, Seq<u8>), Error> {
    if s.len() < 4 {
        Err(Error::UnexpectedEof)
    } else if i32_of(s) == -1 {
        Ok((None, s.skip(4)))
    } else if i32_of(s) < 0 {
        Err(Error::InvalidLength)
    } else if s.len() - 4 < i32_of(s) {
        Err(Error::UnexpectedEof)
    } else {
        Ok((Some(s.subrange(4, 4 + i32_of(s))), s.skip(4 + i32_of(s))))
    }
}

/// Reads `n` columns off the front of `s`.
pub open spec fn parse_columns(s: Seq<u8>, n: nat) -> Result<(Seq<ColumnView>, Seq<u8>), Error>
    decreases n,
{
    if n == 0 {
        Ok((Seq::empty(), s))
    } else {
        match parse_column(s) {
            Err(e) => Err(e),
            Ok((c, rest)) => match parse_columns(rest, (n - 1) as nat) {
                Err(e) => Err(e),
                Ok((cs, end)) => Ok((seq![c] + cs, end)),
            },
        }
    }
}

/// The number of columns that a count on the wire announces: a negative
/// count announces none.
pub open spec fn announced(count: int) -> nat {
    if count < 0 {
        0
    } else {
        count as nat
    }
}

/// What a DataRow message decodes to: the columns, or the reason why the
/// bytes are not a DataRow. Bytes after the last column are ignored.
pub open spec fn parse_data_row(s: Seq<u8>) -> Result<Seq<ColumnView>, Error> {
    match spec_unframe(DATA_ROW, s) {
        Err(e) => Err(e),
        Ok(body) => if body.len() < 2 {
            Err(Error::UnexpectedEof)
        } else {
            match parse_columns(body.skip(2), announced(i16_of(body))) {
                Err(e) => Err(e),
                Ok((cols, _)) => Ok(cols),
            }
        },
    }
}

/// The bytes of a sequence of columns split after any column.
pub proof fn lemma_columns_bytes_push(cols: Seq<ColumnView>, c: ColumnView)
    ensures
        columns_bytes(cols.push(c)) == columns_bytes(cols) + column_bytes(c),
    decreases cols.len(),
{
    if cols.len() == 0 {
        let one = cols.push(c);
        assert(one[0] == c);
        assert(one.skip(1) =~= Seq::<ColumnView>::empty());
        assert(columns_bytes(one.skip(1)) =~= Seq::<u8>::empty());
        assert(columns_bytes(one) =~= column_bytes(c));
        assert(columns_bytes(cols) + column_bytes(c) =~= column_bytes(c));
    } else {
        assert(cols.push(c).skip(1) =~= cols.skip(1).push(c));
        lemma_columns_bytes_push(cols.skip(1), c);
        assert(columns_bytes(cols.push(c)) =~= columns_bytes(cols) + column_bytes(c));
    }
}

/// Columns that were written are read back as they were, whatever follows
/// them.
pub proof fn lemma_parse_columns_round_trip(cols: Seq<ColumnView>, rest: Seq<u8>)
    requires
        columns_bytes(cols).len() <= i32::MAX,
    ensures
        parse_columns(columns_bytes(cols) + rest, cols.len()) == Ok::<
            (Seq<ColumnView>, Seq<u8>),
            Error,
        >((cols, rest)),
    decreases cols.len(),
{
    if cols.len() == 0 {
        assert(columns_bytes(cols) + rest =~= rest);
        assert(cols =~= Seq::<ColumnView>::empty());
    } else {
        let c = cols[0];
        let tail = cols.skip(1);
        let after = columns_bytes(tail) + rest;
        let s = columns_bytes(cols) + rest;
        assert(s =~= column_bytes(c) + after);
        match c {
            None => {
                lemma_i32_round_trip(-1, after);
            },
            Some(data) => {
                lemma_i32_round_trip(data.len() as int, data + after);
                assert(s =~= i32_bytes(data.len() as int) + (data + after));
                assert(s.subrange(4, 4 + data.len() as int) =~= data);
                assert(s.skip(4 + data.len() as int) =~= after);
            },
        }
        lemma_parse_columns_round_trip(tail, rest);
        assert(seq![c] + tail =~= cols);
    }
}

/// Decoding an encoded row gives the row back.
pub proof fn lemma_data_row_round_trip(cols: Seq<ColumnView>)
    requires
        data_row_fits(cols),
    ensures
        parse_data_row(data_row_bytes(cols)) == Ok::<Seq<ColumnView>, Error>(cols),
{
    let body = data_row_body(cols);
    lemma_unframe_frame(DATA_ROW, body);
    lemma_i16_round_trip(cols.len() as int, columns_bytes(cols));
    lemma_parse_columns_round_trip(cols, Seq::empty());
    assert(columns_bytes(cols) + Seq::<u8>::empty() =~= columns_bytes(cols));
}

// ---------------------------------------------------------------------------
// Column values
// ---------------------------------------------------------------------------

/// Convert value to data row column using text formatting.
pub trait ToDataRowColumn {
    /// The bytes that the value is written as.
    spec fn column_text(&self) -> Seq<u8>;

    fn to_data_row_column(&self) -> (b: Bytes)
        ensures
            buf::contents(b) == self.column_text(),
    ;
}

impl ToDataRowColumn for String {
    open spec fn column_text(&self) -> Seq<u8> {
        vstd::utf8::encode_utf8(self@)
    }

    fn to_data_row_column(&self) -> (b: Bytes) {
        buf::copy_from_slice(self.as_str().as_bytes())
    }
}

impl ToDataRowColumn for &str {
    open spec fn column_text(&self) -> Seq<u8> {
        vstd::utf8::encode_utf8(self@)
    }

    fn to_data_row_column(&self) -> (b: Bytes) {
        buf::copy_from_slice(self.as_bytes())
    }
}

impl ToDataRowColumn for i64 {
    open spec fn column_text(&self) -> Seq<u8> {
        decimal_text(*self as int)
    }

    fn to_data_row_column(&self) -> (b: Bytes) {
        buf::from_vec(format_i64(*self))
    }
}

impl ToDataRowColumn for usize {
    open spec fn column_text(&self) -> Seq<u8> {
        decimal_text(*self as int)
    }

    fn to_data_row_column(&self) -> (b: Bytes) {
        buf::from_vec(format_u64(*self as u64))
    }
}

impl ToDataRowColumn for bool {
    open spec fn column_text(&self) -> Seq<u8> {
        if *self {
            seq![0x74u8]
        } else {
            seq![0x66u8]
        }
    }

    fn to_data_row_column(&self) -> (b: Bytes) {
        let mut v: Vec<u8> = Vec::new();
        if *self {
            v.push(0x74);
        } else {
            v.push(0x66);
        }
        assert(v@ =~= self.column_text());
        buf::from_vec(v)
    }
}

impl Default for DataRow {
    fn default() -> (r: Self)
        ensures
            r@ == Seq::<ColumnView>::empty(),
    {
        Self::new()
    }
}

/// The integer that a column holds: as decimal text, or in binary as a
/// big-endian number of two, four or eight bytes.
pub open spec fn column_int(c: ColumnView, text: bool) -> Option<int> {
    match c {
        None => None,
        Some(data) => if text {
            spec_parse_i64(data)
        } else if data.len() == 2 {
            Some(i16_of(data))
        } else if data.len() == 4 {
            Some(i32_of(data))
        } else if data.len() == 8 {
            Some(i64_of(data))
        } else {
            None
        },
    }
}

impl DataRow {
    /// New data row.
    pub fn new() -> (r: Self)
        ensures
            r@ == Seq::<ColumnView>::empty(),
    {
        let r = Self { columns: Vec::new() };
        assert(r@ =~= Seq::<ColumnView>::empty());
        r
    }

    /// Add a column to the data row.
    pub fn add<T: ToDataRowColumn>(&mut self, value: T)
        ensures
            final(self)@ == old(self)@.push(Some(value.column_text())),
    {
        let b = value.to_data_row_column();
        self.columns.push(Some(b));
        assert(self@ =~= old(self)@.push(Some(value.column_text())));
    }

    /// Add a NULL column to the data row.
    pub fn add_null(&mut self)
        ensures
            final(self)@ == old(self)@.push(None),
    {
        self.columns.push(None);
        assert(self@ =~= old(self)@.push(None));
    }

    /// Create data row from columns.
    pub fn from_columns<T: ToDataRowColumn>(columns: Vec<T>) -> (dr: Self)
        ensures
            dr@ == columns@.map_values(|c: T| Some(c.column_text())),
    {
        let mut dr = Self::new();
        let mut i: usize = 0;
        while i < columns.len()
            invariant
                i <= columns@.len(),
                dr@.len() == i,
                forall|j: int|
                    0 <= j < i ==> dr@[j] == Some(#[trigger] columns@[j].column_text()),
            decreases columns@.len() - i,
        {
            let b = columns[i].to_data_row_column();
            dr.columns.push(Some(b));
            i = i + 1;
        }
        assert(dr@ =~= columns@.map_values(|c: T| Some(c.column_text())));
        dr
    }

    /// How many columns the row has.
    pub fn len(&self) -> (n: usize)
        ensures
            n == self@.len(),
    {
        self.columns.len()
    }

    /// Get data for column at index: nothing where the row has no such
    /// column or the column is NULL.
    pub fn column(&self, index: usize) -> (r: Option<Bytes>)
        ensures
            match r {
                Some(b) => index < self@.len() && self@[index as int] == Some(buf::contents(b)),
                None => index >= self@.len() || self@[index as int] is None,
            },
    {
        if index >= self.columns.len() {
            return None;
        }
        assert(self@[index as int] == column_view(self.columns@[index as int]));
        match &self.columns[index] {
            Some(b) => Some(buf::duplicate(b)),
            None => None,
        }
    }

    /// Get integer at index with text/binary encoding.
    pub fn get_int(&self, index: usize, text: bool) -> (r: Option<i64>)
        ensures
            index >= self@.len() ==> r is None,
            index < self@.len() ==> match column_int(self@[index as int], text) {
                Some(v) => r == Some(v as i64) && r.unwrap() as int == v,
                None => r is None,
            },
    {
        if index >= self.columns.len() {
            return None;
        }
        assert(self@[index as int] == column_view(self.columns@[index as int]));
        match &self.columns[index] {
            None => None,
            Some(b) => {
                let data = buf::as_slice(b);
                if text {
                    parse_i64(data)
                } else if data.len() == 2 {
                    Some(i16_from_slice(data) as i64)
                } else if data.len() == 4 {
                    Some(i32_from_slice(data) as i64)
                } else if data.len() == 8 {
                    Some(i64_from_slice(data))
                } else {
                    None
                }
            },
        }
    }
}

impl FromBytes for DataRow {
    open spec fn decodes(s: Seq<u8>) -> bool {
        parse_data_row(s) is Ok
    }

    fn from_bytes(bytes: Bytes) -> (r: Result<Self, Error>)
        ensures
            match parse_data_row(buf::contents(bytes)) {
                Ok(cols) => r matches Ok(row) && row@ == cols,
                Err(e) => r is Err && r->Err_0 == e,
            },
    {
        let mut reader = Reader::new(buf::as_slice(&bytes));
        unframe(&mut reader, DATA_ROW)?;
        let count = reader.get_i16()?;
        let ghost start = reader.remaining();
        let ghost total = announced(count as int);
        let ghost whole = parse_data_row(buf::contents(bytes));
        let mut columns: Vec<Option<Bytes>> = Vec::new();
        let mut i: i16 = 0;
        assert(columns@.map_values(|c: Option<Bytes>| column_view(c)) =~= Seq::<
            ColumnView,
        >::empty());
        while i < count
            invariant
                0 <= i,
                i <= count || count < 0,
                total == announced(count as int),
                columns@.len() == i,
                whole == parse_data_row(buf::contents(bytes)),
                whole == match parse_columns(start, total) {
                    Err(e) => Err::<Seq<ColumnView>, Error>(e),
                    Ok((cols, _)) => Ok(cols),
                },
                match parse_columns(reader.remaining(), (total - i) as nat) {
                    Ok((cs, end)) => parse_columns(start, total) == Ok::<
                        (Seq<ColumnView>, Seq<u8>),
                        Error,
                    >((columns@.map_values(|c: Option<Bytes>| column_view(c)) + cs, end)),
                    Err(e) => parse_columns(start, total) == Err::<
                        (Seq<ColumnView>, Seq<u8>),
                        Error,
                    >(e),
                },
            decreases count - i,
        {
            let ghost before = reader.remaining();
            let ghost done = columns@.map_values(|c: Option<Bytes>| column_view(c));
            let len = reader.get_i32()?;
            let column = if len == -1 {
                None
            } else if len < 0 {
                return Err(Error::InvalidLength);
            } else {
                let data = reader.take(len as usize)?;
                assert(data@ =~= before.subrange(4, 4 + len));
                assert(reader.remaining() =~= before.skip(4 + len));
                Some(buf::copy_from_slice(data))
            };
            columns.push(column);
            i = i + 1;
            proof {
                let now = columns@.map_values(|c: Option<Bytes>| column_view(c));
                let c = column_view(column);
                assert(parse_column(before) == Ok::<(ColumnView, Seq<u8>), Error>(
                    (c, reader.remaining()),
                ));
                assert(now =~= done.push(c));
                match parse_columns(reader.remaining(), (total - i) as nat) {
                    Ok((cs, end)) => {
                        assert(done + (seq![c] + cs) =~= now + cs);
                    },
                    Err(e) => {},
                }
            }
        }
        let row = DataRow { columns };
        proof {
            let cols = columns@.map_values(|c: Option<Bytes>| column_view(c));
            assert(cols + Seq::<ColumnView>::empty() =~= cols);
        }
        Ok(row)
    }
}

impl ToBytes for DataRow {
    open spec fn wire(&self) -> Option<Seq<u8>> {
        if data_row_fits(self@) {
            Some(data_row_bytes(self@))
        } else {
            None
        }
    }

    fn to_bytes(&self) -> (r: Result<Bytes, Error>)
        ensures
            data_row_fits(self@) ==> (r matches Ok(b) && buf::contents(b) == data_row_bytes(
                self@,
            )),
            !data_row_fits(self@) ==> r is Err && r->Err_0 == Error::TooLarge,
    {
        let n = self.columns.len();
        if n > 0x7fff {
            return Err(Error::TooLarge);
        }
        let ghost cols = self@;
        let mut body: Vec<u8> = Vec::new();
        put_i16(&mut body, n as i16);
        let mut i: usize = 0;
        while i < n
            invariant
                i <= n,
                n == cols.len(),
                n <= 0x7fff,
                cols == self@,
                body@ == i16_bytes(n as int) + columns_bytes(cols.take(i as int)),
                body@.len() <= 0x7fff_fffb,
            decreases n - i,
        {
            assert(cols[i as int] == column_view(self.columns@[i as int]));
            proof {
                lemma_columns_bytes_push(cols.take(i as int), cols[i as int]);
                assert(cols.take(i as int).push(cols[i as int]) =~= cols.take(i + 1));
                lemma_columns_bytes_grows(cols, i + 1);
            }
            if body.len() > 0x7fff_fffb - 4 {
                return Err(Error::TooLarge);
            }
            match &self.columns[i] {
                None => {
                    put_i32(&mut body, -1);
                },
                Some(b) => {
                    let data = buf::as_slice(b);
                    if data.len() > 0x7fff_fffb - 4 - body.len() {
                        return Err(Error::TooLarge);
                    }
                    put_i32(&mut body, data.len() as i32);
                    put_slice(&mut body, data);
                },
            }
            i = i + 1;
            assert(body@ =~= i16_bytes(n as int) + columns_bytes(cols.take(i as int)));
        }
        assert(cols.take(n as int) =~= cols);
        match framed(DATA_ROW, &body) {
            Ok(v) => Ok(buf::from_vec(v)),
            Err(e) => Err(e),
        }
    }
}

/// The columns take no less room on the wire than any first few of them.
pub proof fn lemma_columns_bytes_grows(cols: Seq<ColumnView>, k: int)
    requires
        0 <= k <= cols.len(),
    ensures
        columns_bytes(cols.take(k)).len() <= columns_bytes(cols).len(),
    decreases cols.len() - k,
{
    if k == cols.len() {
        assert(cols.take(k) =~= cols);
    } else {
        lemma_columns_bytes_grows(cols, k + 1);
        lemma_columns_bytes_push(cols.take(k), cols[k]);
        assert(cols.take(k).push(cols[k]) =~= cols.take(k + 1));
    }
}

impl Protocol for DataRow {
    fn code(&self) -> (c: char)
        ensures
            c == 'D',
    {
        'D'
    }
}

} // verus!
