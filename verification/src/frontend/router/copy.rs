//! Sharded COPY.
//!
//! The rows of a `COPY table FROM STDIN` arrive as text, one row to a
//! line, the columns of a row separated by a delimiter. Each row goes to
//! the shard of its value in the sharding column. A row whose value has no
//! shard, and the line of column names where there is one, go to all
//! shards.

use super::error::Error;
use super::parser::ast::CopyStmt;
use super::sharding::{shard_bytes, spec_shard_text};
use crate::backend::pool::cluster::{ShardedTable, ShardedTableView};
use crate::net::messages::copy_data::CopyData;
use crate::net::text::str_eq;
use vstd::prelude::*;
use vstd::slice::slice_subrange;

verus! {

/// How the rows of a COPY are told apart and where their shard is found.
#[derive(Debug, Clone, Copy, PartialEq, Eq, Structural)]
pub struct CopyParser {
    /// The position of the sharding column in a row, counted from 0.
    pub sharded_column: usize,
    /// The byte that separates the columns of a row.
    pub delimiter: u8,
    /// The next line names the columns.
    pub headers: bool,
    /// The number of shards.
    pub shards: usize,
}

/// One row of a COPY and the shard it goes to; a row without a shard goes
/// to all of them.
#[derive(Debug)]
pub struct CopyRow {
    row: CopyData,
    shard: Option<usize>,
}

impl View for CopyRow {
    type V = (Seq<u8>, Option<usize>);

    closed spec fn view(&self) -> (Seq<u8>, Option<usize>) {
        (self.row@, self.shard)
    }
}

impl CopyRow {
    /// The row, as it goes to the server.
    pub fn message(&self) -> (m: &CopyData)
        ensures
            m@ == self@.0,
    {
        &self.row
    }

    /// The shard the row goes to.
    pub fn shard(&self) -> (s: Option<usize>)
        ensures
            s == self@.1,
    {
        self.shard
    }
}

/// Rows as plain values.
pub open spec fn row_views(rows: Seq<CopyRow>) -> Seq<(Seq<u8>, Option<usize>)> {
    rows.map_values(|r: CopyRow| r@)
}

/// The position of the first `b` in `s`, or the length of `s` where it
/// holds none.
pub open spec fn first_of(s: Seq<u8>, b: u8) -> int
    decreases s.len(),
{
    if s.len() == 0 || s[0] == b {
        0
    } else {
        1 + first_of(s.skip(1), b)
    }
}

/// The length of the first line of `s`, its newline included.
pub open spec fn line_len(s: Seq<u8>) -> int {
    if first_of(s, 0x0a) < s.len() {
        first_of(s, 0x0a) + 1
    } else {
        s.len() as int
    }
}

/// A line without its newline.
pub open spec fn content(line: Seq<u8>) -> Seq<u8> {
    line.take(first_of(line, 0x0a))
}

/// Column `k` of a row, counted from 0; empty where the row has fewer
/// columns.
pub open spec fn field(row: Seq<u8>, delimiter: u8, k: nat) -> Seq<u8>
    decreases k,
{
    if k == 0 {
        row.take(first_of(row, delimiter))
    } else if first_of(row, delimiter) >= row.len() {
        Seq::empty()
    } else {
        field(row.skip(first_of(row, delimiter) + 1), delimiter, (k - 1) as nat)
    }
}

/// The shard of a line.
pub open spec fn shard_of_line(line: Seq<u8>, p: CopyParser) -> Option<usize> {
    spec_shard_text(field(content(line), p.delimiter, p.sharded_column as nat), p.shards as int)
}

/// The lines of a piece of data, each with its shard. The first line has
/// none where it names the columns.
pub open spec fn shard_lines(s: Seq<u8>, headers: bool, p: CopyParser) -> Seq<
    (Seq<u8>, Option<usize>),
>
    decreases s.len(),
{
    if s.len() == 0 {
        Seq::empty()
    } else {
        let n = line_len(s);
        let shard = if headers {
            None
        } else {
            shard_of_line(s.take(n), p)
        };
        if 0 < n <= s.len() {
            seq![(s.take(n), shard)] + shard_lines(s.skip(n), false, p)
        } else {
            seq![(s, shard)]
        }
    }
}

/// The lines of several pieces of data, each with its shard.
pub open spec fn shard_all(data: Seq<Seq<u8>>, headers: bool, p: CopyParser) -> Seq<
    (Seq<u8>, Option<usize>),
>
    decreases data.len(),
{
    if data.len() == 0 {
        Seq::empty()
    } else {
        shard_lines(data[0], headers, p) + shard_all(
            data.skip(1),
            headers && data[0].len() == 0,
            p,
        )
    }
}

/// The first position of `name` among `columns`.
pub open spec fn column_index(columns: Seq<String>, name: Seq<char>) -> Option<usize>
    decreases columns.len(),
{
    if columns.len() == 0 {
        None
    } else if columns.last()@ == name && column_index(columns.drop_last(), name) is None {
        Some((columns.len() - 1) as usize)
    } else {
        column_index(columns.drop_last(), name)
    }
}

/// The position of the sharding column among the columns of a COPY: that
/// of the column of the first sharded table that is the table of the COPY,
/// or any table, and whose column the COPY gives.
pub open spec fn copy_column(
    tables: Seq<ShardedTableView>,
    table: Seq<char>,
    columns: Seq<String>,
) -> Option<usize>
    decreases tables.len(),
{
    if tables.len() == 0 {
        None
    } else if (tables[0].name is None || tables[0].name == Some(table)) && column_index(
        columns,
        tables[0].column,
    ) is Some {
        column_index(columns, tables[0].column)
    } else {
        copy_column(tables.skip(1), table, columns)
    }
}

/// How a COPY statement is sharded, if it is.
pub open spec fn spec_copy_parser(
    stmt: CopyStmt,
    tables: Seq<ShardedTableView>,
    shards: usize,
) -> Option<CopyParser> {
    if !stmt.is_from {
        None
    } else {
        match copy_column(tables, stmt.table@, stmt.columns@) {
            Some(sharded_column) => Some(
                CopyParser {
                    sharded_column,
                    delimiter: stmt.delimiter,
                    headers: stmt.headers,
                    shards,
                },
            ),
            None => None,
        }
    }
}

/// The first position of a name among the columns.
fn find_column(columns: &Vec<String>, name: &str) -> (r: Option<usize>)
    ensures
        r == column_index(columns@, name@),
{
    let mut i: usize = 0;
    assert(columns@.take(0) =~= Seq::<String>::empty());
    while i < columns.len()
        invariant
            i <= columns@.len(),
            column_index(columns@.take(i as int), name@) is None,
        decreases columns@.len() - i,
    {
        assert(columns@.take(i + 1).drop_last() =~= columns@.take(i as int));
        assert(columns@.take(i + 1).last() == columns@[i as int]);
        if str_eq(columns[i].as_str(), name) {
            proof {
                lemma_column_index_found(columns@, name@, i as int);
            }
            return Some(i);
        }
        i = i + 1;
    }
    assert(columns@.take(columns@.len() as int) =~= columns@);
    None
}

/// A name that is found first at a position of a prefix is found first
/// there among all columns.
proof fn lemma_column_index_found(columns: Seq<String>, name: Seq<char>, i: int)
    requires
        0 <= i < columns.len(),
        column_index(columns.take(i + 1), name) == Some(i as usize),
    ensures
        column_index(columns, name) == Some(i as usize),
    decreases columns.len() - i,
{
    if i + 1 < columns.len() {
        lemma_column_index_extend(columns, name, i, i + 2);
        lemma_column_index_found_from(columns, name, i, i + 1);
    } else {
        assert(columns.take(i + 1) =~= columns);
    }
}

/// One more column after the name was found does not change where.
proof fn lemma_column_index_extend(columns: Seq<String>, name: Seq<char>, i: int, k: int)
    requires
        0 <= i < k - 1,
        k <= columns.len(),
        column_index(columns.take(k - 1), name) == Some(i as usize),
    ensures
        column_index(columns.take(k), name) == Some(i as usize),
{
    assert(columns.take(k).drop_last() =~= columns.take(k - 1));
}

/// Where the name was found first among the first `k` columns it is found
/// first among all.
proof fn lemma_column_index_found_from(columns: Seq<String>, name: Seq<char>, i: int, k: int)
    requires
        0 <= i < k <= columns.len(),
        column_index(columns.take(k), name) == Some(i as usize),
    ensures
        column_index(columns, name) == Some(i as usize),
    decreases columns.len() - k,
{
    if k == columns.len() {
        assert(columns.take(k) =~= columns);
    } else {
        lemma_column_index_extend(columns, name, i, k + 1);
        lemma_column_index_found_from(columns, name, i, k + 1);
    }
}

impl CopyParser {
    /// How a COPY statement is sharded in a cluster with the given sharded
    /// tables and number of shards, if it is.
    pub fn new(stmt: &CopyStmt, tables: &[ShardedTable], shards: usize) -> (r: Result<
        Option<CopyParser>,
        Error,
    >)
        ensures
            r == Ok::<Option<CopyParser>, Error>(
                spec_copy_parser(*stmt, tables@.map_values(|t: ShardedTable| t@), shards),
            ),
    {
        if !stmt.is_from {
            return Ok(None);
        }
        let ghost views = tables@.map_values(|t: ShardedTable| t@);
        let mut i: usize = 0;
        assert(views.skip(0) =~= views);
        while i < tables.len()
            invariant
                i <= tables@.len(),
                stmt.is_from,
                views == tables@.map_values(|t: ShardedTable| t@),
                copy_column(views, stmt.table@, stmt.columns@) == copy_column(
                    views.skip(i as int),
                    stmt.table@,
                    stmt.columns@,
                ),
            decreases tables@.len() - i,
        {
            let table = &tables[i];
            assert(views.skip(i as int)[0] == table@);
            let applies = match &table.name {
                None => true,
                Some(name) => str_eq(name.as_str(), stmt.table.as_str()),
            };
            if applies {
                match find_column(&stmt.columns, table.column.as_str()) {
                    Some(sharded_column) => {
                        return Ok(
                            Some(
                                CopyParser {
                                    sharded_column,
                                    delimiter: stmt.delimiter,
                                    headers: stmt.headers,
                                    shards,
                                },
                            ),
                        );
                    },
                    None => {},
                }
            }
            assert(views.skip(i as int).skip(1) =~= views.skip(i + 1));
            i = i + 1;
        }
        Ok(None)
    }

    /// Splits the data of a COPY into rows and finds the shard of each.
    pub fn shard(&mut self, rows: Vec<CopyData>) -> (r: Result<Vec<CopyRow>, Error>)
        ensures
            r matches Ok(out) && row_views(out@) == shard_all(
                rows@.map_values(|c: CopyData| c@),
                old(self).headers,
                *old(self),
            ),
            final(self).sharded_column == old(self).sharded_column,
            final(self).delimiter == old(self).delimiter,
            final(self).shards == old(self).shards,
    {
        let ghost data = rows@.map_values(|c: CopyData| c@);
        let ghost p = *self;
        let mut out: Vec<CopyRow> = Vec::new();
        let mut i: usize = 0;
        assert(data.skip(0) =~= data);
        assert(row_views(out@) =~= Seq::<(Seq<u8>, Option<usize>)>::empty());
        while i < rows.len()
            invariant
                i <= rows@.len(),
                data == rows@.map_values(|c: CopyData| c@),
                p == *old(self),
                self.sharded_column == p.sharded_column,
                self.delimiter == p.delimiter,
                self.shards == p.shards,
                shard_all(data, p.headers, p) == row_views(out@) + shard_all(
                    data.skip(i as int),
                    self.headers,
                    p,
                ),
            decreases rows@.len() - i,
        {
            let bytes = rows[i].data();
            assert(data.skip(i as int)[0] == bytes@);
            let ghost done = row_views(out@);
            let ghost headers_before = self.headers;
            let mut pos: usize = 0;
            assert(bytes@.skip(0) =~= bytes@);
            assert(done + Seq::<(Seq<u8>, Option<usize>)>::empty() =~= done);
            while pos < bytes.len()
                invariant
                    pos <= bytes@.len(),
                    p == *old(self),
                    self.sharded_column == p.sharded_column,
                    self.delimiter == p.delimiter,
                    self.shards == p.shards,
                    pos == 0 ==> self.headers == headers_before,
                    pos > 0 ==> !self.headers,
                    done + shard_lines(bytes@, headers_before, p) == row_views(out@) + shard_lines(
                        bytes@.skip(pos as int),
                        self.headers,
                        p,
                    ),
                decreases bytes@.len() - pos,
            {
                let ghost rest = bytes@.skip(pos as int);
                let ghost so_far = row_views(out@);
                let end = line_end(bytes, pos);
                let line = slice_subrange(bytes, pos, end);
                assert(line@ =~= rest.take(line_len(rest)));
                let shard = if self.headers {
                    None
                } else {
                    self.shard_line(line)
                };
                self.headers = false;
                let ghost shard_view = shard;
                out.push(CopyRow { row: CopyData::new(line), shard });
                proof {
                    assert(rest.skip(line_len(rest)) =~= bytes@.skip(end as int));
                    assert(row_views(out@) =~= so_far.push((line@, shard_view)));
                    let tail = shard_lines(bytes@.skip(end as int), false, p);
                    assert(so_far + (seq![(line@, shard_view)] + tail) =~= so_far.push(
                        (line@, shard_view),
                    ) + tail);
                }
                pos = end;
            }
            proof {
                let rows_here = shard_lines(bytes@, headers_before, p);
                let tail = shard_all(data.skip(i + 1), self.headers, p);
                assert(data.skip(i as int).skip(1) =~= data.skip(i + 1));
                assert(row_views(out@) + Seq::<(Seq<u8>, Option<usize>)>::empty() =~= row_views(
                    out@,
                ));
                assert(done + (rows_here + tail) =~= (done + rows_here) + tail);
            }
            i = i + 1;
        }
        assert(row_views(out@) + Seq::<(Seq<u8>, Option<usize>)>::empty() =~= row_views(out@));
        Ok(out)
    }

    /// The shard of one line.
    fn shard_line(&self, line: &[u8]) -> (r: Option<usize>)
        ensures
            r == shard_of_line(line@, *self),
    {
        let end = find(line, 0, 0x0a);
        let row = slice_subrange(line, 0, end);
        assert(line@.skip(0) =~= line@);
        assert(row@ =~= content(line@));
        let mut start: usize = 0;
        let mut k: usize = 0;
        assert(row@.skip(0) =~= row@);
        while k < self.sharded_column
            invariant
                k <= self.sharded_column,
                start <= row@.len(),
                row@ == content(line@),
                field(row@, self.delimiter, self.sharded_column as nat) == field(
                    row@.skip(start as int),
                    self.delimiter,
                    (self.sharded_column - k) as nat,
                ),
            decreases self.sharded_column - k,
        {
            let stop = find(row, start, self.delimiter);
            if stop >= row.len() {
                let empty = slice_subrange(row, 0, 0);
                assert(empty@ =~= Seq::<u8>::empty());
                return shard_bytes(empty, self.shards);
            }
            assert(row@.skip(start as int).skip(stop - start + 1) =~= row@.skip(stop + 1));
            start = stop + 1;
            k = k + 1;
        }
        let stop = find(row, start, self.delimiter);
        let value = slice_subrange(row, start, stop);
        assert(value@ =~= row@.skip(start as int).take(stop - start));
        shard_bytes(value, self.shards)
    }
}

/// The position of the first `b` at or after `from`, or the length of the
/// bytes where there is none.
fn find(s: &[u8], from: usize, b: u8) -> (r: usize)
    requires
        from <= s@.len(),
    ensures
        from <= r <= s@.len(),
        r == from + first_of(s@.skip(from as int), b),
{
    let mut r = from;
    assert(s@.skip(from as int).skip(0) =~= s@.skip(from as int));
    while r < s.len() && s[r] != b
        invariant
            from <= r <= s@.len(),
            first_of(s@.skip(from as int), b) == (r - from) + first_of(s@.skip(r as int), b),
        decreases s@.len() - r,
    {
        assert(s@.skip(r as int)[0] == s@[r as int]);
        assert(s@.skip(r as int).skip(1) =~= s@.skip(r + 1));
        r = r + 1;
    }
    if r < s.len() {
        assert(s@.skip(r as int)[0] == s@[r as int]);
    }
    r
}

/// The position after the line that starts at `from`.
fn line_end(s: &[u8], from: usize) -> (r: usize)
    requires
        from < s@.len(),
    ensures
        from < r <= s@.len(),
        r == from + line_len(s@.skip(from as int)),
{
    let at = find(s, from, 0x0a);
    if at < s.len() {
        at + 1
    } else {
        at
    }
}

} // verus!
