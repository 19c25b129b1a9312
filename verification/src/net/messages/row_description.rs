//! RowDescription (B) message.

use super::{FromBytes, Protocol, ToBytes};
use crate::net::buf;
use crate::net::error::Error;
use crate::net::messages::data_row::announced;
use crate::net::text::str_eq;
use crate::net::wire::{
    c_string_bytes, frame, framed, i16_bytes, i32_bytes, lemma_c_string_round_trip,
    lemma_concat_assoc,
    lemma_take_i16, lemma_take_i32, lemma_unframe_frame, put_i16, put_i32, put_string,
    spec_c_string, spec_unframe, take_i16, take_i32, unframe, Reader,
};
use bytes::Bytes;
use vstd::prelude::*;
use vstd::utf8::encode_utf8;

verus! {

/// The tag of a RowDescription message.
pub const ROW_DESCRIPTION: u8 = 0x54;

/// The data type of a column.
#[derive(Debug, Copy, Clone, PartialEq, Eq, Structural)]
pub enum DataType {
    Bigint,
    Integer,
    Text,
    Interval,
    Timestamp,
    TimestampTz,
    Real,
    DoublePrecision,
    Bool,
    SmallInt,
    TinyInt,
    Other(i32),
}

/// Column field description.
#[derive(Debug, PartialEq)]
pub struct Field {
    /// Name of the field.
    pub name: String,
    /// Table OID.
    pub table_oid: i32,
    /// Column number.
    pub column: i16,
    /// Type OID.
    pub type_oid: i32,
    /// Type size.
    pub type_size: i16,
    /// Type modifier.
    pub type_modifier: i32,
    /// Format code.
    pub format: i16,
}

/// A field description as a plain value.
pub struct FieldView {
    pub name: Seq<char>,
    pub table_oid: i32,
    pub column: i16,
    pub type_oid: i32,
    pub type_size: i16,
    pub type_modifier: i32,
    pub format: i16,
}

impl View for Field {
    type V = FieldView;

    open spec fn view(&self) -> FieldView {
        FieldView {
            name: self.name@,
            table_oid: self.table_oid,
            column: self.column,
            type_oid: self.type_oid,
            type_size: self.type_size,
            type_modifier: self.type_modifier,
            format: self.format,
        }
    }
}

impl Clone for Field {
    fn clone(&self) -> (r: Self)
        ensures
            r@ == self@,
    {
        Field {
            name: self.name.clone(),
            table_oid: self.table_oid,
            column: self.column,
            type_oid: self.type_oid,
            type_size: self.type_size,
            type_modifier: self.type_modifier,
            format: self.format,
        }
    }
}

/// The data type that a type OID stands for.
pub open spec fn spec_data_type(type_oid: i32) -> DataType {
    if type_oid == 16 {
        DataType::Bool
    } else if type_oid == 20 {
        DataType::Bigint
    } else if type_oid == 23 {
        DataType::Integer
    } else if type_oid == 21 {
        DataType::SmallInt
    } else if type_oid == 25 || type_oid == 1043 {
        DataType::Text
    } else if type_oid == 700 {
        DataType::Real
    } else if type_oid == 701 {
        DataType::DoublePrecision
    } else if type_oid == 1114 {
        DataType::Timestamp
    } else if type_oid == 1184 {
        DataType::TimestampTz
    } else if type_oid == 1186 {
        DataType::Interval
    } else {
        DataType::Other(type_oid)
    }
}

impl Field {
    /// Numeric field.
    pub fn numeric(name: &str) -> (f: Self)
        ensures
            f.name@ == name@,
            f.table_oid == 0,
            f.column == 0,
            f.type_oid == 1700,
            f.type_size == -1,
            f.type_modifier == -1,
            f.format == 0,
    {
        Self {
            name: name.to_owned(),
            table_oid: 0,
            column: 0,
            type_oid: 1700,
            type_size: -1,
            type_modifier: -1,
            format: 0,  // We always use text format.
        }
    }

    /// Text field.
    pub fn text(name: &str) -> (f: Self)
        ensures
            f.name@ == name@,
            f.table_oid == 0,
            f.column == 0,
            f.type_oid == 25,
            f.type_size == -1,
            f.type_modifier == -1,
            f.format == 0,
    {
        Self {
            name: name.to_owned(),
            table_oid: 0,
            column: 0,
            type_oid: 25,
            type_size: -1,
            type_modifier: -1,
            format: 0,  // We always use text format.
        }
    }

    /// Boolean field.
    pub fn bool(name: &str) -> (f: Self)
        ensures
            f.name@ == name@,
            f.table_oid == 0,
            f.column == 0,
            f.type_oid == 16,
            f.type_size == 1,
            f.type_modifier == -1,
            f.format == 0,
    {
        Self {
            name: name.to_owned(),
            table_oid: 0,
            column: 0,
            type_oid: 16,
            type_size: 1,
            type_modifier: -1,
            format: 0,  // We always use text format.
        }
    }

    /// Encoded with text encoding.
    pub fn is_text_encoding(&self) -> (b: bool)
        ensures
            b == (self.format == 0),
    {
        self.format == 0
    }

    /// Encoded with binary encoding.
    pub fn is_binary_encoding(&self) -> (b: bool)
        ensures
            b == (self.format != 0),
    {
        !self.is_text_encoding()
    }

    /// Get the column data type.
    pub fn data_type(&self) -> (t: DataType)
        ensures
            t == spec_data_type(self.type_oid),
    {
        match self.type_oid {
            16 => DataType::Bool,
            20 => DataType::Bigint,
            23 => DataType::Integer,
            21 => DataType::SmallInt,
            25 => DataType::Text,
            700 => DataType::Real,
            701 => DataType::DoublePrecision,
            1043 => DataType::Text,
            1114 => DataType::Timestamp,
            1184 => DataType::TimestampTz,
            1186 => DataType::Interval,
            _ => DataType::Other(self.type_oid),
        }
    }

    /// This is an integer.
    pub fn is_int(&self) -> (b: bool)
        ensures
            b == (self.type_oid == 20 || self.type_oid == 23 || self.type_oid == 21),
    {
        match self.data_type() {
            DataType::Bigint | DataType::Integer | DataType::SmallInt => true,
            _ => false,
        }
    }

    /// This is a float.
    pub fn is_float(&self) -> (b: bool)
        ensures
            b == (self.type_oid == 700 || self.type_oid == 701),
    {
        match self.data_type() {
            DataType::Real | DataType::DoublePrecision => true,
            _ => false,
        }
    }

    /// This is a varchar.
    pub fn is_varchar(&self) -> (b: bool)
        ensures
            b == (self.type_oid == 25 || self.type_oid == 1043),
    {
        self.data_type() == DataType::Text
    }
}

/// RowDescription message.
#[derive(Debug, PartialEq)]
pub struct RowDescription {
    /// Fields.
    pub fields: Vec<Field>,
}

impl View for RowDescription {
    type V = Seq<FieldView>;

    open spec fn view(&self) -> Seq<FieldView> {
        self.fields@.map_values(|f: Field| f@)
    }
}

// ---------------------------------------------------------------------------
// Wire format
// ---------------------------------------------------------------------------

/// One field on the wire.
pub open spec fn field_bytes(f: FieldView) -> Seq<u8> {
    c_string_bytes(f.name) + i32_bytes(f.table_oid as int) + i16_bytes(f.column as int)
        + i32_bytes(f.type_oid as int) + i16_bytes(f.type_size as int) + i32_bytes(
        f.type_modifier as int,
    ) + i16_bytes(f.format as int)
}

/// The fields on the wire, one after the other.
pub open spec fn fields_bytes(fields: Seq<FieldView>) -> Seq<u8>
    decreases fields.len(),
{
    if fields.len() == 0 {
        Seq::empty()
    } else {
        field_bytes(fields[0]) + fields_bytes(fields.skip(1))
    }
}

/// The body of a RowDescription message: the field count as an `i16`, then
/// the fields.
pub open spec fn row_description_body(fields: Seq<FieldView>) -> Seq<u8> {
    i16_bytes(fields.len() as int) + fields_bytes(fields)
}

/// A RowDescription message on the wire.
pub open spec fn row_description_bytes(fields: Seq<FieldView>) -> Seq<u8> {
    frame(ROW_DESCRIPTION, row_description_body(fields))
}

/// Whether a description fits the wire format: the field count fits an
/// `i16`, and the whole message fits the `i32` length field.
pub open spec fn row_description_fits(fields: Seq<FieldView>) -> bool {
    &&& fields.len() <= i16::MAX
    &&& row_description_body(fields).len() + 4 <= i32::MAX
}

/// Reads one field off the front of `s`.
pub open spec fn parse_field(s: Seq<u8>) -> Result<(FieldView, Seq<u8>), Error> {
    match spec_c_string(s) {
        Err(e) => Err(e),
        Ok((name, s1)) => match take_i32(s1) {
            Err(e) => Err(e),
            Ok((table_oid, s2)) => match take_i16(s2) {
                Err(e) => Err(e),
                Ok((column, s3)) => match take_i32(s3) {
                    Err(e) => Err(e),
                    Ok((type_oid, s4)) => match take_i16(s4) {
                        Err(e) => Err(e),
                        Ok((type_size, s5)) => match take_i32(s5) {
                            Err(e) => Err(e),
                            Ok((type_modifier, s6)) => match take_i16(s6) {
                                Err(e) => Err(e),
                                Ok((format, s7)) => Ok(
                                    (
                                        FieldView {
                                            name,
                                            table_oid,
                                            column,
                                            type_oid,
                                            type_size,
                                            type_modifier,
                                            format,
                                        },
                                        s7,
                                    ),
                                ),
                            },
                        },
                    },
                },
            },
        },
    }
}

/// Reads `n` fields off the front of `s`.
pub open spec fn parse_fields(s: Seq<u8>, n: nat) -> Result<(Seq<FieldView>, Seq<u8>), Error>
    decreases n,
{
    if n == 0 {
        Ok((Seq::empty(), s))
    } else {
        match parse_field(s) {
            Err(e) => Err(e),
            Ok((f, rest)) => match parse_fields(rest, (n - 1) as nat) {
                Err(e) => Err(e),
                Ok((fs, end)) => Ok((seq![f] + fs, end)),
            },
        }
    }
}

/// What a RowDescription message decodes to: the fields, or the reason why
/// the bytes are not a RowDescription. A negative field count announces no
/// field; bytes after the last field are ignored.
pub open spec fn parse_row_description(s: Seq<u8>) -> Result<Seq<FieldView>, Error> {
    match spec_unframe(ROW_DESCRIPTION, s) {
        Err(e) => Err(e),
        Ok(body) => match take_i16(body) {
            Err(e) => Err(e),
            Ok((count, rest)) => match parse_fields(rest, announced(count as int)) {
                Err(e) => Err(e),
                Ok((fields, _)) => Ok(fields),
            },
        },
    }
}

/// No field name holds a zero byte, which would end it early on the wire.
pub open spec fn names_terminate(fields: Seq<FieldView>) -> bool {
    forall|i: int| 0 <= i < fields.len() ==> !encode_utf8(#[trigger] fields[i].name).contains(0u8)
}

/// The bytes of a sequence of fields split after any field.
pub proof fn lemma_fields_bytes_push(fields: Seq<FieldView>, f: FieldView)
    ensures
        fields_bytes(fields.push(f)) == fields_bytes(fields) + field_bytes(f),
    decreases fields.len(),
{
    if fields.len() == 0 {
        let one = fields.push(f);
        assert(one[0] == f);
        assert(one.skip(1) =~= Seq::<FieldView>::empty());
        assert(fields_bytes(one.skip(1)) =~= Seq::<u8>::empty());
        assert(fields_bytes(one) =~= field_bytes(f));
        assert(fields_bytes(fields) + field_bytes(f) =~= field_bytes(f));
    } else {
        assert(fields.push(f).skip(1) =~= fields.skip(1).push(f));
        lemma_fields_bytes_push(fields.skip(1), f);
        assert(fields_bytes(fields.push(f)) =~= fields_bytes(fields) + field_bytes(f));
    }
}

/// The fields take no less room on the wire than any first few of them.
proof fn lemma_fields_bytes_grows(fields: Seq<FieldView>, k: int)
    requires
        0 <= k <= fields.len(),
    ensures
        fields_bytes(fields.take(k)).len() <= fields_bytes(fields).len(),
    decreases fields.len() - k,
{
    if k == fields.len() {
        assert(fields.take(k) =~= fields);
    } else {
        lemma_fields_bytes_grows(fields, k + 1);
        lemma_fields_bytes_push(fields.take(k), fields[k]);
        assert(fields.take(k).push(fields[k]) =~= fields.take(k + 1));
    }
}

/// A field that was written reads back as it was, whatever follows it.
pub proof fn lemma_parse_field_round_trip(f: FieldView, rest: Seq<u8>)
    requires
        !encode_utf8(f.name).contains(0u8),
    ensures
        parse_field(field_bytes(f) + rest) == Ok::<(FieldView, Seq<u8>), Error>((f, rest)),
{
    let s7 = rest;
    let s6 = i16_bytes(f.format as int) + s7;
    let s5 = i32_bytes(f.type_modifier as int) + s6;
    let s4 = i16_bytes(f.type_size as int) + s5;
    let s3 = i32_bytes(f.type_oid as int) + s4;
    let s2 = i16_bytes(f.column as int) + s3;
    let s1 = i32_bytes(f.table_oid as int) + s2;
    let a0 = c_string_bytes(f.name);
    let a1 = a0 + i32_bytes(f.table_oid as int);
    let a2 = a1 + i16_bytes(f.column as int);
    let a3 = a2 + i32_bytes(f.type_oid as int);
    let a4 = a3 + i16_bytes(f.type_size as int);
    let a5 = a4 + i32_bytes(f.type_modifier as int);
    lemma_concat_assoc(a5, i16_bytes(f.format as int), rest);
    lemma_concat_assoc(a4, i32_bytes(f.type_modifier as int), s6);
    lemma_concat_assoc(a3, i16_bytes(f.type_size as int), s5);
    lemma_concat_assoc(a2, i32_bytes(f.type_oid as int), s4);
    lemma_concat_assoc(a1, i16_bytes(f.column as int), s3);
    lemma_concat_assoc(a0, i32_bytes(f.table_oid as int), s2);
    assert(field_bytes(f) + rest == c_string_bytes(f.name) + s1);
    lemma_c_string_round_trip(f.name, s1);
    lemma_take_i32(f.table_oid, s2);
    lemma_take_i16(f.column, s3);
    lemma_take_i32(f.type_oid, s4);
    lemma_take_i16(f.type_size, s5);
    lemma_take_i32(f.type_modifier, s6);
    lemma_take_i16(f.format, s7);
}

/// Fields that were written are read back as they were, whatever follows
/// them.
pub proof fn lemma_parse_fields_round_trip(fields: Seq<FieldView>, rest: Seq<u8>)
    requires
        names_terminate(fields),
    ensures
        parse_fields(fields_bytes(fields) + rest, fields.len()) == Ok::<
            (Seq<FieldView>, Seq<u8>),
            Error,
        >((fields, rest)),
    decreases fields.len(),
{
    if fields.len() == 0 {
        assert(fields_bytes(fields) + rest =~= rest);
        assert(fields =~= Seq::<FieldView>::empty());
    } else {
        let f = fields[0];
        let tail = fields.skip(1);
        let after = fields_bytes(tail) + rest;
        assert(fields_bytes(fields) + rest =~= field_bytes(f) + after);
        lemma_parse_field_round_trip(f, after);
        assert forall|i: int| 0 <= i < tail.len() implies !encode_utf8(
            #[trigger] tail[i].name,
        ).contains(0u8) by {
            assert(tail[i] == fields[i + 1]);
        }
        lemma_parse_fields_round_trip(tail, rest);
        assert(seq![f] + tail =~= fields);
    }
}

/// Decoding an encoded description gives the description back.
pub proof fn lemma_row_description_round_trip(fields: Seq<FieldView>)
    requires
        row_description_fits(fields),
        names_terminate(fields),
    ensures
        parse_row_description(row_description_bytes(fields)) == Ok::<Seq<FieldView>, Error>(
            fields,
        ),
{
    let body = row_description_body(fields);
    lemma_unframe_frame(ROW_DESCRIPTION, body);
    lemma_take_i16(fields.len() as i16, fields_bytes(fields));
    lemma_parse_fields_round_trip(fields, Seq::empty());
    assert(fields_bytes(fields) + Seq::<u8>::empty() =~= fields_bytes(fields));
}

/// Two descriptions are materially the same: as many fields, with the same
/// names and the same types, in the same order.
pub open spec fn spec_equivalent(a: Seq<FieldView>, b: Seq<FieldView>) -> bool {
    &&& a.len() == b.len()
    &&& forall|i: int|
        0 <= i < a.len() ==> (#[trigger] a[i]).name == b[i].name && a[i].type_oid == b[i].type_oid
}

/// The position of the first field with the given name.
pub open spec fn is_first_named(fields: Seq<FieldView>, name: Seq<char>, i: int) -> bool {
    &&& 0 <= i < fields.len()
    &&& fields[i].name == name
    &&& forall|j: int| 0 <= j < i ==> (#[trigger] fields[j]).name != name
}

/// The position of the first field with the given name, if there is one.
pub open spec fn spec_field_index(fields: Seq<FieldView>, name: Seq<char>) -> Option<usize> {
    if exists|i: int| is_first_named(fields, name, i) {
        Some((choose|i: int| is_first_named(fields, name, i)) as usize)
    } else {
        None
    }
}

/// At most one position holds the first field of a name.
pub proof fn lemma_first_named_unique(fields: Seq<FieldView>, name: Seq<char>, i: int, j: int)
    requires
        is_first_named(fields, name, i),
        is_first_named(fields, name, j),
    ensures
        i == j,
{
    if i < j {
        assert(fields[i].name != name);
    }
    if j < i {
        assert(fields[j].name != name);
    }
}

impl RowDescription {
    /// Create new row description from fields.
    pub fn new(fields: &[Field]) -> (rd: Self)
        ensures
            rd@ == fields@.map_values(|f: Field| f@),
    {
        let mut copy: Vec<Field> = Vec::new();
        let mut i: usize = 0;
        while i < fields.len()
            invariant
                i <= fields@.len(),
                copy@.len() == i,
                forall|j: int| 0 <= j < i ==> (#[trigger] copy@[j])@ == fields@[j]@,
            decreases fields@.len() - i,
        {
            copy.push(fields[i].clone());
            i = i + 1;
        }
        let rd = Self { fields: copy };
        assert(rd@ =~= fields@.map_values(|f: Field| f@));
        rd
    }

    /// Get field info.
    pub fn field(&self, index: usize) -> (r: Option<&Field>)
        ensures
            index < self.fields@.len() ==> r == Some(&self.fields@[index as int]),
            index >= self.fields@.len() ==> r is None,
    {
        if index < self.fields.len() {
            Some(&self.fields[index])
        } else {
            None
        }
    }

    /// Get field index by name, O(n): the first field of that name.
    pub fn field_index(&self, name: &str) -> (r: Option<usize>)
        ensures
            r == spec_field_index(self@, name@),
            match r {
                Some(i) => is_first_named(self@, name@, i as int),
                None => forall|j: int| 0 <= j < self@.len() ==> (#[trigger] self@[j]).name != name@,
            },
    {
        let mut index: usize = 0;
        while index < self.fields.len()
            invariant
                index <= self.fields@.len(),
                forall|j: int| 0 <= j < index ==> (#[trigger] self@[j]).name != name@,
            decreases self.fields@.len() - index,
        {
            if str_eq(self.fields[index].name.as_str(), name) {
                proof {
                    assert(is_first_named(self@, name@, index as int));
                    let c = choose|i: int| is_first_named(self@, name@, i);
                    lemma_first_named_unique(self@, name@, index as int, c);
                }
                return Some(index);
            }
            index = index + 1;
        }
        assert(!exists|i: int| is_first_named(self@, name@, i));
        None
    }

    /// Check if the two row descriptions are materially the same.
    pub fn equivalent(&self, other: &RowDescription) -> (b: bool)
        ensures
            b == spec_equivalent(self@, other@),
    {
        if self.fields.len() != other.fields.len() {
            return false;
        }
        let mut i: usize = 0;
        while i < self.fields.len()
            invariant
                i <= self.fields@.len(),
                self.fields@.len() == other.fields@.len(),
                forall|j: int|
                    0 <= j < i ==> (#[trigger] self@[j]).name == other@[j].name && self@[j].type_oid
                        == other@[j].type_oid,
            decreases self.fields@.len() - i,
        {
            let a = &self.fields[i];
            let b = &other.fields[i];
            if !str_eq(a.name.as_str(), b.name.as_str()) {
                assert(self@[i as int].name != other@[i as int].name);
                return false;
            }
            if a.type_oid != b.type_oid {
                assert(self@[i as int].type_oid != other@[i as int].type_oid);
                return false;
            }
            i = i + 1;
        }
        true
    }
}

impl FromBytes for RowDescription {
    open spec fn decodes(s: Seq<u8>) -> bool {
        parse_row_description(s) is Ok
    }

    fn from_bytes(bytes: Bytes) -> (r: Result<Self, Error>)
        ensures
            match parse_row_description(buf::contents(bytes)) {
                Ok(fields) => r matches Ok(rd) && rd@ == fields,
                Err(e) => r is Err && r->Err_0 == e,
            },
    {
        let mut reader = Reader::new(buf::as_slice(&bytes));
        unframe(&mut reader, ROW_DESCRIPTION)?;
        let count = reader.get_i16()?;
        let ghost start = reader.remaining();
        let ghost total = announced(count as int);
        let ghost whole = parse_row_description(buf::contents(bytes));
        let mut fields: Vec<Field> = Vec::new();
        let mut i: i16 = 0;
        assert(fields@.map_values(|f: Field| f@) =~= Seq::<FieldView>::empty());
        while i < count
            invariant
                0 <= i,
                i <= count || count < 0,
                total == announced(count as int),
                fields@.len() == i,
                whole == parse_row_description(buf::contents(bytes)),
                whole == match parse_fields(start, total) {
                    Err(e) => Err::<Seq<FieldView>, Error>(e),
                    Ok((fs, _)) => Ok(fs),
                },
                match parse_fields(reader.remaining(), (total - i) as nat) {
                    Ok((fs, end)) => parse_fields(start, total) == Ok::<
                        (Seq<FieldView>, Seq<u8>),
                        Error,
                    >((fields@.map_values(|f: Field| f@) + fs, end)),
                    Err(e) => parse_fields(start, total) == Err::<
                        (Seq<FieldView>, Seq<u8>),
                        Error,
                    >(e),
                },
            decreases count - i,
        {
            let ghost before = reader.remaining();
            let ghost done = fields@.map_values(|f: Field| f@);
            let name = reader.c_string()?;
            let table_oid = reader.get_i32()?;
            let column = reader.get_i16()?;
            let type_oid = reader.get_i32()?;
            let type_size = reader.get_i16()?;
            let type_modifier = reader.get_i32()?;
            let format = reader.get_i16()?;
            let field = Field {
                name,
                table_oid,
                column,
                type_oid,
                type_size,
                type_modifier,
                format,
            };
            let ghost fv = field@;
            fields.push(field);
            i = i + 1;
            proof {
                let now = fields@.map_values(|f: Field| f@);
                assert(parse_field(before) == Ok::<(FieldView, Seq<u8>), Error>(
                    (fv, reader.remaining()),
                ));
                assert(now =~= done.push(fv));
                match parse_fields(reader.remaining(), (total - i) as nat) {
                    Ok((fs, end)) => {
                        assert(done + (seq![fv] + fs) =~= now + fs);
                    },
                    Err(e) => {},
                }
            }
        }
        let rd = RowDescription { fields };
        proof {
            assert(rd@ + Seq::<FieldView>::empty() =~= rd@);
        }
        Ok(rd)
    }
}

/// Appends one field.
fn put_field(out: &mut Vec<u8>, field: &Field)
    ensures
        final(out)@ == old(out)@ + field_bytes(field@),
        field_bytes(field@).len() == encode_utf8(field.name@).len() + 19,
{
    put_string(out, field.name.as_str());
    put_i32(out, field.table_oid);
    put_i16(out, field.column);
    put_i32(out, field.type_oid);
    put_i16(out, field.type_size);
    put_i32(out, field.type_modifier);
    put_i16(out, field.format);
    assert(out@ =~= old(out)@ + field_bytes(field@));
}

impl ToBytes for RowDescription {
    open spec fn wire(&self) -> Option<Seq<u8>> {
        if row_description_fits(self@) {
            Some(row_description_bytes(self@))
        } else {
            None
        }
    }

    fn to_bytes(&self) -> (r: Result<Bytes, Error>)
        ensures
            row_description_fits(self@) ==> (r matches Ok(b) && buf::contents(b)
                == row_description_bytes(self@)),
            !row_description_fits(self@) ==> r is Err && r->Err_0 == Error::TooLarge,
    {
        let n = self.fields.len();
        if n > 0x7fff {
            return Err(Error::TooLarge);
        }
        let ghost fields = self@;
        let mut body: Vec<u8> = Vec::new();
        put_i16(&mut body, n as i16);
        let mut i: usize = 0;
        while i < n
            invariant
                i <= n,
                n == fields.len(),
                n <= 0x7fff,
                fields == self@,
                body@ == i16_bytes(n as int) + fields_bytes(fields.take(i as int)),
                body@.len() <= 0x7fff_fffb,
            decreases n - i,
        {
            let field = &self.fields[i];
            assert(fields[i as int] == field@);
            proof {
                lemma_fields_bytes_push(fields.take(i as int), fields[i as int]);
                assert(fields.take(i as int).push(fields[i as int]) =~= fields.take(i + 1));
                lemma_fields_bytes_grows(fields, i + 1);
            }
            let name_len = field.name.as_str().as_bytes().len();
            if name_len > 0x7fff_fffb - 19 || body.len() > 0x7fff_fffb - 19 - name_len {
                return Err(Error::TooLarge);
            }
            put_field(&mut body, field);
            i = i + 1;
            assert(body@ =~= i16_bytes(n as int) + fields_bytes(fields.take(i as int)));
        }
        assert(fields.take(n as int) =~= fields);
        match framed(ROW_DESCRIPTION, &body) {
            Ok(v) => Ok(buf::from_vec(v)),
            Err(e) => Err(e),
        }
    }
}

impl Protocol for RowDescription {
    fn code(&self) -> (c: char)
        ensures
            c == 'T',
    {
        'T'
    }
}

} // verus!
