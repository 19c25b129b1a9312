//! Merging the replies of several shards into one.
//!
//! A statement that goes to every shard is answered by every shard. The
//! client is to see one answer: one RowDescription, the rows of all
//! shards, one CommandComplete that counts them all, one ReadyForQuery.
//! This module takes the messages of the shards as they come, in any
//! order, and says what goes to the client.

use super::sort_buffer::{is_stable_sort, resolve_clauses, Row, SortBuffer};
use crate::backend::error::Error;
use crate::frontend::router::parser::order_by::OrderByView;
use crate::frontend::router::route::{Route, RouteView};
use crate::net::buf;
use crate::net::decimal::{decimal_text, format_u64};
use crate::net::messages::command_complete::{
    command_name, command_rows, name_len, parse_command_complete, rows_in,
};
use crate::net::messages::data_row::{data_row_bytes, data_row_fits, parse_data_row};
use crate::net::messages::rfq::{parse_ready_for_query, ready_for_query_bytes};
use crate::net::messages::row_description::{
    parse_row_description, spec_equivalent, FieldView,
};
use crate::net::messages::{
    CommandComplete, FromBytes, Message, Protocol, ReadyForQuery, RowDescription, ToBytes,
};
use crate::net::wire::{frame, framed, put_slice};
use vstd::prelude::*;
use vstd::slice::slice_subrange;
use vstd::utf8::encode_utf8;

verus! {

/// The replies of several shards to one statement, on their way to
/// becoming one reply.
#[derive(Debug)]
pub struct MultiShard {
    /// How many shards answer.
    shards: usize,
    /// Where the statement went and how its rows are to be ordered.
    route: Route,
    /// The RowDescription that went to the client.
    rd: Option<RowDescription>,
    /// The rows that have come in.
    buffer: SortBuffer,
    /// A shard has answered with an error.
    poisoned: bool,
    /// How many shards have completed the statement.
    cc: usize,
    /// How many shards are ready for the next statement.
    rfq: usize,
    /// The rows that the shards have counted.
    total: u64,
    /// What the first CommandComplete says before its number of rows.
    name: Option<Vec<u8>>,
    /// The most advanced transaction status that a shard has reported.
    status: u8,
}

/// The replies of several shards as a plain value.
pub struct MultiShardView {
    pub shards: usize,
    pub route: RouteView,
    pub rd: Option<Seq<FieldView>>,
    pub rows: Seq<Row>,
    pub poisoned: bool,
    pub cc: usize,
    pub rfq: usize,
    pub total: u64,
    pub name: Option<Seq<u8>>,
    pub status: u8,
}

impl View for MultiShard {
    type V = MultiShardView;

    closed spec fn view(&self) -> MultiShardView {
        MultiShardView {
            shards: self.shards,
            route: self.route@,
            rd: match self.rd {
                Some(rd) => Some(rd@),
                None => None,
            },
            rows: self.buffer@,
            poisoned: self.poisoned,
            cc: self.cc,
            rfq: self.rfq,
            total: self.total,
            name: match self.name {
                Some(n) => Some(n@),
                None => None,
            },
            status: self.status,
        }
    }
}

/// How far a transaction status is from idle: a failed transaction is
/// further than an open one.
pub open spec fn rank(status: u8) -> int {
    if status == 0x45 {
        2
    } else if status == 0x54 {
        1
    } else {
        0
    }
}

/// The more advanced of two transaction statuses.
pub open spec fn worse(a: u8, b: u8) -> u8 {
    if rank(b) > rank(a) {
        b
    } else {
        a
    }
}

/// One more, as far as the number can count.
pub open spec fn next(n: usize) -> usize {
    if n < usize::MAX {
        (n + 1) as usize
    } else {
        n
    }
}

/// The sum of two row counts, as far as the number can count.
pub open spec fn sum(a: u64, b: u64) -> u64 {
    if a + b > u64::MAX {
        u64::MAX
    } else {
        (a + b) as u64
    }
}

/// The rows as messages, in their order, without those that do not fit a
/// message.
pub open spec fn flushed(rows: Seq<Row>) -> Seq<Seq<u8>>
    decreases rows.len(),
{
    if rows.len() == 0 {
        Seq::empty()
    } else if data_row_fits(rows.last()) {
        flushed(rows.drop_last()).push(data_row_bytes(rows.last()))
    } else {
        flushed(rows.drop_last())
    }
}

/// The CommandComplete that stands for those of all shards: the command
/// of the first, with the rows of all.
pub open spec fn aggregate(name: Seq<u8>, total: u64) -> Seq<u8> {
    frame(0x43, name + decimal_text(total as int) + seq![0u8])
}

/// The rows that went to the client and the CommandComplete behind them.
/// A CommandComplete that is too long for a message is left out.
pub open spec fn completed(rows: Seq<Seq<u8>>, name: Seq<u8>, total: u64) -> Seq<Seq<u8>> {
    if (name + decimal_text(total as int) + seq![0u8]).len() + 4 <= i32::MAX {
        rows.push(aggregate(name, total))
    } else {
        rows
    }
}

/// The fields against which the rows are ordered: those of the
/// RowDescription that went to the client, or none.
pub open spec fn fields_of(rd: Option<Seq<FieldView>>) -> Seq<FieldView> {
    match rd {
        Some(fields) => fields,
        None => Seq::empty(),
    }
}

/// Messages as plain values.
pub open spec fn message_views(messages: Seq<Message>) -> Seq<Seq<u8>> {
    messages.map_values(|m: Message| m@)
}

/// What a RowDescription of a shard leads to. The first goes to the
/// client; every other has to be materially the same.
pub open spec fn on_row_description(
    s: MultiShardView,
    bytes: Seq<u8>,
    r: Result<(MultiShardView, Seq<Seq<u8>>), Error>,
) -> bool {
    match parse_row_description(bytes) {
        Err(e) => r == Err::<(MultiShardView, Seq<Seq<u8>>), Error>(Error::Net(e)),
        Ok(fields) => if s.poisoned {
            r == Ok::<(MultiShardView, Seq<Seq<u8>>), Error>((s, Seq::empty()))
        } else {
            match s.rd {
                None => r == Ok::<(MultiShardView, Seq<Seq<u8>>), Error>(
                    (MultiShardView { rd: Some(fields), ..s }, seq![bytes]),
                ),
                Some(first) => if spec_equivalent(first, fields) {
                    r == Ok::<(MultiShardView, Seq<Seq<u8>>), Error>((s, Seq::empty()))
                } else {
                    r == Err::<(MultiShardView, Seq<Seq<u8>>), Error>(
                        Error::RowDescriptionMismatch,
                    )
                },
            }
        },
    }
}

/// What a DataRow of a shard leads to: it is kept for later.
pub open spec fn on_data_row(
    s: MultiShardView,
    bytes: Seq<u8>,
    r: Result<(MultiShardView, Seq<Seq<u8>>), Error>,
) -> bool {
    if s.poisoned {
        r == Ok::<(MultiShardView, Seq<Seq<u8>>), Error>((s, Seq::empty()))
    } else {
        match parse_data_row(bytes) {
            Err(e) => r == Err::<(MultiShardView, Seq<Seq<u8>>), Error>(Error::Net(e)),
            Ok(row) => r == Ok::<(MultiShardView, Seq<Seq<u8>>), Error>(
                (MultiShardView { rows: s.rows.push(row), ..s }, Seq::empty()),
            ),
        }
    }
}

/// What a CommandComplete of a shard leads to. Its rows are counted. With
/// the last of them the rows that were kept go to the client, sorted as
/// the route says, and behind them one CommandComplete for all.
pub open spec fn on_command_complete(
    s: MultiShardView,
    bytes: Seq<u8>,
    r: Result<(MultiShardView, Seq<Seq<u8>>), Error>,
) -> bool {
    if s.poisoned {
        r == Ok::<(MultiShardView, Seq<Seq<u8>>), Error>(
            (MultiShardView { cc: next(s.cc), ..s }, Seq::empty()),
        )
    } else {
        match parse_command_complete(bytes) {
            Err(e) => r == Err::<(MultiShardView, Seq<Seq<u8>>), Error>(Error::Net(e)),
            Ok(command) => {
                let text = encode_utf8(command);
                let counted = MultiShardView {
                    cc: next(s.cc),
                    total: sum(
                        s.total,
                        match command_rows(text) {
                            Some(n) => n,
                            None => 0,
                        },
                    ),
                    name: match s.name {
                        Some(n) => Some(n),
                        None => Some(command_name(text)),
                    },
                    ..s
                };
                if counted.cc != s.shards {
                    r == Ok::<(MultiShardView, Seq<Seq<u8>>), Error>((counted, Seq::empty()))
                } else {
                    r matches Ok((after, out)) && after == (MultiShardView {
                        rows: Seq::empty(),
                        ..counted
                    }) && exists|sorted: Seq<Row>, p: Seq<int>| #[trigger]
                        is_stable_sort(
                            s.rows,
                            sorted,
                            p,
                            resolve_clauses(s.route.order_by, fields_of(s.rd)),
                            fields_of(s.rd),
                        ) && out == completed(
                            flushed(sorted),
                            counted.name->Some_0,
                            counted.total,
                        )
                }
            },
        }
    }
}

/// What a ReadyForQuery of a shard leads to. The most advanced status is
/// remembered, and with the last of them one ReadyForQuery goes to the
/// client.
pub open spec fn on_ready_for_query(
    s: MultiShardView,
    bytes: Seq<u8>,
    r: Result<(MultiShardView, Seq<Seq<u8>>), Error>,
) -> bool {
    match parse_ready_for_query(bytes) {
        Err(e) => r == Err::<(MultiShardView, Seq<Seq<u8>>), Error>(Error::Net(e)),
        Ok(status) => {
            let after = MultiShardView {
                rfq: next(s.rfq),
                status: worse(s.status, status as u8),
                ..s
            };
            r == Ok::<(MultiShardView, Seq<Seq<u8>>), Error>(
                (
                    after,
                    if after.rfq == s.shards && s.rfq < usize::MAX {
                        seq![ready_for_query_bytes(after.status as char)]
                    } else {
                        Seq::empty()
                    },
                ),
            )
        },
    }
}

/// What an ErrorResponse of a shard leads to. The first goes to the client
/// as it is, and from then on rows and descriptions are dropped.
pub open spec fn on_error_response(
    s: MultiShardView,
    bytes: Seq<u8>,
    r: Result<(MultiShardView, Seq<Seq<u8>>), Error>,
) -> bool {
    r == Ok::<(MultiShardView, Seq<Seq<u8>>), Error>(
        (
            MultiShardView { poisoned: true, rows: Seq::empty(), ..s },
            if s.poisoned {
                Seq::empty()
            } else {
                seq![bytes]
            },
        ),
    )
}

/// What a message of a shard leads to: the state after it and what goes
/// to the client, or the failure of the statement. A message of another
/// kind than those above goes to the client as it is.
pub open spec fn forwards(
    s: MultiShardView,
    bytes: Seq<u8>,
    r: Result<(MultiShardView, Seq<Seq<u8>>), Error>,
) -> bool {
    let tag = bytes[0];
    if tag == 0x54 {
        on_row_description(s, bytes, r)
    } else if tag == 0x44 {
        on_data_row(s, bytes, r)
    } else if tag == 0x43 {
        on_command_complete(s, bytes, r)
    } else if tag == 0x5a {
        on_ready_for_query(s, bytes, r)
    } else if tag == 0x45 {
        on_error_response(s, bytes, r)
    } else {
        r == Ok::<(MultiShardView, Seq<Seq<u8>>), Error>((s, seq![bytes]))
    }
}

/// The result of a step as plain values.
pub open spec fn step_view(after: MultiShardView, r: Result<Vec<Message>, Error>) -> Result<
    (MultiShardView, Seq<Seq<u8>>),
    Error,
> {
    match r {
        Ok(out) => Ok((after, message_views(out@))),
        Err(e) => Err(e),
    }
}

// ---------------------------------------------------------------------------
// What the client sees of a whole statement
// ---------------------------------------------------------------------------

/// How many of the messages carry the tag.
pub open spec fn count_tag(messages: Seq<Seq<u8>>, tag: u8) -> nat
    decreases messages.len(),
{
    if messages.len() == 0 {
        0
    } else if messages.last()[0] == tag {
        count_tag(messages.drop_last(), tag) + 1
    } else {
        count_tag(messages.drop_last(), tag)
    }
}

/// How many of the messages of all the steps carry the tag.
pub open spec fn total_tag(outputs: Seq<Seq<Seq<u8>>>, tag: u8) -> nat
    decreases outputs.len(),
{
    if outputs.len() == 0 {
        0
    } else {
        total_tag(outputs.drop_last(), tag) + count_tag(outputs.last(), tag)
    }
}

/// Step `i` of a run: the merger is in `states[i]`, takes `input[i]`
/// without failing, sends `outputs[i]` to the client and is in
/// `states[i + 1]`.
pub open spec fn step_ok(
    states: Seq<MultiShardView>,
    input: Seq<Seq<u8>>,
    outputs: Seq<Seq<Seq<u8>>>,
    i: int,
) -> bool {
    forwards(
        states[i],
        input[i],
        Ok::<(MultiShardView, Seq<Seq<u8>>), Error>((states[i + 1], outputs[i])),
    )
}

/// A run of the merger over the messages `input`, none of which fails.
pub open spec fn is_run(
    states: Seq<MultiShardView>,
    input: Seq<Seq<u8>>,
    outputs: Seq<Seq<Seq<u8>>>,
) -> bool {
    &&& states.len() == input.len() + 1
    &&& outputs.len() == input.len()
    &&& forall|i: int| 0 <= i < input.len() ==> #[trigger] step_ok(states, input, outputs, i)
}

proof fn lemma_count_one(x: Seq<u8>, tag: u8)
    ensures
        count_tag(seq![x], tag) == if x[0] == tag {
            1nat
        } else {
            0nat
        },
{
    assert(seq![x].drop_last() =~= Seq::<Seq<u8>>::empty());
    assert(seq![x].last() == x);
    assert(count_tag(Seq::<Seq<u8>>::empty(), tag) == 0);
}

proof fn lemma_count_push(messages: Seq<Seq<u8>>, x: Seq<u8>, tag: u8)
    ensures
        count_tag(messages.push(x), tag) == count_tag(messages, tag) + if x[0] == tag {
            1nat
        } else {
            0nat
        },
{
    assert(messages.push(x).drop_last() =~= messages);
    assert(messages.push(x).last() == x);
}

/// Rows that go to the client are DataRow messages.
proof fn lemma_flushed_tags(rows: Seq<Row>, tag: u8)
    requires
        tag != 0x44,
    ensures
        count_tag(flushed(rows), tag) == 0,
    decreases rows.len(),
{
    if rows.len() > 0 {
        lemma_flushed_tags(rows.drop_last(), tag);
        if data_row_fits(rows.last()) {
            lemma_count_push(flushed(rows.drop_last()), data_row_bytes(rows.last()), tag);
            assert(data_row_bytes(rows.last())[0] == 0x44);
        }
    }
}

/// What one step sends of RowDescription and ReadyForQuery, and what it
/// does to the counts they depend on.
proof fn lemma_step(s: MultiShardView, bytes: Seq<u8>, after: MultiShardView, out: Seq<Seq<u8>>)
    requires
        forwards(s, bytes, Ok::<(MultiShardView, Seq<Seq<u8>>), Error>((after, out))),
    ensures
        after.shards == s.shards,
        after.rfq == if bytes[0] == 0x5a {
            next(s.rfq)
        } else {
            s.rfq
        },
        count_tag(out, 0x5a) == if bytes[0] == 0x5a && s.rfq < usize::MAX && s.rfq + 1
            == s.shards {
            1nat
        } else {
            0nat
        },
        after.poisoned == (s.poisoned || bytes[0] == 0x45),
        after.rd is Some <==> s.rd is Some || (bytes[0] == 0x54 && !s.poisoned),
        count_tag(out, 0x54) == if bytes[0] == 0x54 && !s.poisoned && s.rd is None {
            1nat
        } else {
            0nat
        },
{
    let tag = bytes[0];
    lemma_count_one(bytes, 0x5a);
    lemma_count_one(bytes, 0x54);
    if tag == 0x43 {
        if !s.poisoned && next(s.cc) == s.shards {
            let text = encode_utf8(parse_command_complete(bytes)->Ok_0);
            let total = sum(
                s.total,
                match command_rows(text) {
                    Some(n) => n,
                    None => 0,
                },
            );
            let name = match s.name {
                Some(n) => n,
                None => command_name(text),
            };
            let (sorted, p) = choose|sorted: Seq<Row>, p: Seq<int>| #[trigger]
                is_stable_sort(
                    s.rows,
                    sorted,
                    p,
                    resolve_clauses(s.route.order_by, fields_of(s.rd)),
                    fields_of(s.rd),
                ) && out == completed(flushed(sorted), name, total);
            lemma_flushed_tags(sorted, 0x5a);
            lemma_flushed_tags(sorted, 0x54);
            lemma_count_push(flushed(sorted), aggregate(name, total), 0x5a);
            lemma_count_push(flushed(sorted), aggregate(name, total), 0x54);
            assert(aggregate(name, total)[0] == 0x43);
        }
    } else if tag == 0x5a {
        let status = parse_ready_for_query(bytes)->Ok_0;
        let reply = ready_for_query_bytes(worse(s.status, status as u8) as char);
        lemma_count_one(reply, 0x5a);
        lemma_count_one(reply, 0x54);
        assert(reply[0] == 0x5a);
    }
}

/// Where the shards send as many ReadyForQuery as there are shards, the
/// client gets exactly one.
pub proof fn lemma_one_ready_for_query(
    states: Seq<MultiShardView>,
    input: Seq<Seq<u8>>,
    outputs: Seq<Seq<Seq<u8>>>,
)
    requires
        is_run(states, input, outputs),
        states[0].rfq == 0,
        1 <= states[0].shards < usize::MAX,
        count_tag(input, 0x5a) == states[0].shards,
    ensures
        total_tag(outputs, 0x5a) == 1,
{
    lemma_ready_for_query_count(states, input, outputs);
}

/// After a run the merger has counted the ReadyForQuery of the shards, and
/// the client has got one if and only if the count has reached the number
/// of shards.
proof fn lemma_ready_for_query_count(
    states: Seq<MultiShardView>,
    input: Seq<Seq<u8>>,
    outputs: Seq<Seq<Seq<u8>>>,
)
    requires
        is_run(states, input, outputs),
        states[0].rfq == 0,
        states[0].shards >= 1,
        count_tag(input, 0x5a) < usize::MAX,
    ensures
        states.last().shards == states[0].shards,
        states.last().rfq == count_tag(input, 0x5a),
        total_tag(outputs, 0x5a) == if count_tag(input, 0x5a) >= states[0].shards {
            1nat
        } else {
            0nat
        },
    decreases input.len(),
{
    if input.len() > 0 {
        let n = input.len() as int - 1;
        let states1 = states.drop_last();
        let input1 = input.drop_last();
        let outputs1 = outputs.drop_last();
        assert forall|i: int| 0 <= i < input1.len() implies #[trigger] step_ok(
            states1,
            input1,
            outputs1,
            i,
        ) by {
            assert(step_ok(states, input, outputs, i));
        }
        lemma_ready_for_query_count(states1, input1, outputs1);
        assert(step_ok(states, input, outputs, n));
        assert(states1.last() == states[n]);
        lemma_step(states[n], input[n], states[n + 1], outputs[n]);
    }
}

/// The client gets at most one RowDescription, and exactly one where a
/// shard sends one and no shard answers with an error.
pub proof fn lemma_one_row_description(
    states: Seq<MultiShardView>,
    input: Seq<Seq<u8>>,
    outputs: Seq<Seq<Seq<u8>>>,
)
    requires
        is_run(states, input, outputs),
        states[0].rd is None,
        !states[0].poisoned,
    ensures
        total_tag(outputs, 0x54) <= 1,
        count_tag(input, 0x54) >= 1 && count_tag(input, 0x45) == 0 ==> total_tag(outputs, 0x54)
            == 1,
{
    lemma_row_description_count(states, input, outputs);
}

/// After a run the client has got a RowDescription if and only if the
/// merger holds one, and no more than one.
proof fn lemma_row_description_count(
    states: Seq<MultiShardView>,
    input: Seq<Seq<u8>>,
    outputs: Seq<Seq<Seq<u8>>>,
)
    requires
        is_run(states, input, outputs),
        states[0].rd is None,
        !states[0].poisoned,
    ensures
        total_tag(outputs, 0x54) == if states.last().rd is Some {
            1nat
        } else {
            0nat
        },
        count_tag(input, 0x45) == 0 ==> !states.last().poisoned,
        count_tag(input, 0x54) >= 1 && count_tag(input, 0x45) == 0 ==> states.last().rd is Some,
    decreases input.len(),
{
    if input.len() > 0 {
        let n = input.len() as int - 1;
        let states1 = states.drop_last();
        let input1 = input.drop_last();
        let outputs1 = outputs.drop_last();
        assert forall|i: int| 0 <= i < input1.len() implies #[trigger] step_ok(
            states1,
            input1,
            outputs1,
            i,
        ) by {
            assert(step_ok(states, input, outputs, i));
        }
        lemma_row_description_count(states1, input1, outputs1);
        assert(step_ok(states, input, outputs, n));
        assert(states1.last() == states[n]);
        lemma_step(states[n], input[n], states[n + 1], outputs[n]);
    }
}

impl MultiShard {
    /// The merger of the replies of `shards` shards to a statement with
    /// the given route.
    pub fn new(shards: usize, route: &Route) -> (m: Self)
        ensures
            m@ == (MultiShardView {
                shards,
                route: route@,
                rd: None,
                rows: Seq::empty(),
                poisoned: false,
                cc: 0,
                rfq: 0,
                total: 0,
                name: None,
                status: 0x49,
            }),
    {
        MultiShard {
            shards,
            route: route.clone(),
            rd: None,
            buffer: SortBuffer::default(),
            poisoned: false,
            cc: 0,
            rfq: 0,
            total: 0,
            name: None,
            status: 0x49,
        }
    }

    /// Every shard is ready for the next statement.
    pub fn done(&self) -> (b: bool)
        ensures
            b == (self@.rfq >= self@.shards),
    {
        self.rfq >= self.shards
    }

    /// A shard has answered with an error.
    pub fn poisoned(&self) -> (b: bool)
        ensures
            b == self@.poisoned,
    {
        self.poisoned
    }

    /// Takes a message of one of the shards and says what goes to the
    /// client. A failure fails the statement, and leaves the merger as it
    /// was.
    pub fn forward(&mut self, message: Message) -> (r: Result<Vec<Message>, Error>)
        ensures
            forwards(old(self)@, message@, step_view(final(self)@, r)),
            r is Err ==> final(self)@ == old(self)@,
    {
        let code = message.code();
        if code == 'T' {
            self.row_description(message)
        } else if code == 'D' {
            self.data_row(message)
        } else if code == 'C' {
            self.command_complete(message)
        } else if code == 'Z' {
            self.ready_for_query(message)
        } else if code == 'E' {
            let mut out: Vec<Message> = Vec::new();
            if !self.poisoned {
                out.push(message);
            }
            self.poisoned = true;
            self.buffer = SortBuffer::default();
            assert(message_views(out@) =~= if old(self)@.poisoned {
                Seq::<Seq<u8>>::empty()
            } else {
                seq![message@]
            });
            Ok(out)
        } else {
            let mut out: Vec<Message> = Vec::new();
            out.push(message);
            assert(message_views(out@) =~= seq![message@]);
            Ok(out)
        }
    }

    fn row_description(&mut self, message: Message) -> (r: Result<Vec<Message>, Error>)
        ensures
            on_row_description(old(self)@, message@, step_view(final(self)@, r)),
            r is Err ==> final(self)@ == old(self)@,
    {
        let rd = match RowDescription::from_bytes(message.payload()) {
            Ok(rd) => rd,
            Err(e) => {
                return Err(Error::Net(e));
            },
        };
        let mut out: Vec<Message> = Vec::new();
        assert(message_views(out@) =~= Seq::<Seq<u8>>::empty());
        if self.poisoned {
            return Ok(out);
        }
        match &self.rd {
            None => {
                self.rd = Some(rd);
                out.push(message);
                assert(message_views(out@) =~= seq![message@]);
                Ok(out)
            },
            Some(first) => if first.equivalent(&rd) {
                Ok(out)
            } else {
                Err(Error::RowDescriptionMismatch)
            },
        }
    }

    fn data_row(&mut self, message: Message) -> (r: Result<Vec<Message>, Error>)
        ensures
            on_data_row(old(self)@, message@, step_view(final(self)@, r)),
            r is Err ==> final(self)@ == old(self)@,
    {
        let out: Vec<Message> = Vec::new();
        assert(message_views(out@) =~= Seq::<Seq<u8>>::empty());
        if self.poisoned {
            return Ok(out);
        }
        match self.buffer.add(message) {
            Ok(()) => Ok(out),
            Err(e) => Err(Error::Net(e)),
        }
    }

    fn ready_for_query(&mut self, message: Message) -> (r: Result<Vec<Message>, Error>)
        ensures
            on_ready_for_query(old(self)@, message@, step_view(final(self)@, r)),
            r is Err ==> final(self)@ == old(self)@,
    {
        let rfq = match ReadyForQuery::from_bytes(message.payload()) {
            Ok(rfq) => rfq,
            Err(e) => {
                return Err(Error::Net(e));
            },
        };
        let counted = self.rfq < usize::MAX;
        if counted {
            self.rfq = self.rfq + 1;
        }
        let status = rfq.status as u8;
        let worse_now = if status == 0x45 {
            self.status != 0x45
        } else if status == 0x54 {
            self.status != 0x45 && self.status != 0x54
        } else {
            false
        };
        if worse_now {
            self.status = status;
        }
        let mut out: Vec<Message> = Vec::new();
        assert(message_views(out@) =~= Seq::<Seq<u8>>::empty());
        if counted && self.rfq == self.shards {
            let reply = ReadyForQuery { status: self.status as char };
            match reply.to_bytes() {
                Ok(bytes) => match Message::from_bytes(bytes) {
                    Ok(m) => {
                        out.push(m);
                        assert(message_views(out@) =~= seq![
                            ready_for_query_bytes(self.status as char),
                        ]);
                    },
                    Err(_) => {},
                },
                Err(_) => {},
            }
        }
        Ok(out)
    }

    fn command_complete(&mut self, message: Message) -> (r: Result<Vec<Message>, Error>)
        ensures
            on_command_complete(old(self)@, message@, step_view(final(self)@, r)),
            r is Err ==> final(self)@ == old(self)@,
    {
        let mut out: Vec<Message> = Vec::new();
        assert(message_views(out@) =~= Seq::<Seq<u8>>::empty());
        if self.poisoned {
            if self.cc < usize::MAX {
                self.cc = self.cc + 1;
            }
            return Ok(out);
        }
        let cc = match CommandComplete::from_bytes(message.payload()) {
            Ok(cc) => cc,
            Err(e) => {
                return Err(Error::Net(e));
            },
        };
        let text = cc.command.as_str().as_bytes();
        let rows = match rows_in(text) {
            Some(n) => n,
            None => 0,
        };
        self.total = if self.total > u64::MAX - rows {
            u64::MAX
        } else {
            self.total + rows
        };
        if self.name.is_none() {
            let mut name: Vec<u8> = Vec::new();
            let prefix = slice_subrange(text, 0, name_len(text));
            put_slice(&mut name, prefix);
            assert(name@ =~= command_name(text@));
            self.name = Some(name);
        }
        if self.cc < usize::MAX {
            self.cc = self.cc + 1;
        }
        if self.cc != self.shards {
            return Ok(out);
        }
        let ghost before = self.buffer@;
        let ghost fields = fields_of(old(self)@.rd);
        match &self.rd {
            Some(rd) => {
                self.buffer.sort(self.route.order_by(), rd);
            },
            None => {
                let rd = RowDescription { fields: Vec::new() };
                assert(rd@ =~= Seq::<FieldView>::empty());
                self.buffer.sort(self.route.order_by(), &rd);
            },
        }
        let ghost keys = resolve_clauses(old(self)@.route.order_by, fields);
        let ghost sorted = self.buffer@;
        let ghost p = choose|p: Seq<int>| #[trigger]
            is_stable_sort(before, sorted, p, keys, fields);
        assert(is_stable_sort(before, sorted, p, keys, fields));
        self.buffer.full();
        assert(sorted.take(0) =~= Seq::<Row>::empty());
        let mut k: usize = 0;
        let n = self.buffer.len();
        let ghost total_now = self.total;
        let ghost name_now = self@.name;
        while k < n
            invariant
                k <= n,
                n == sorted.len(),
                self.buffer.is_full(),
                self.buffer@ == sorted.skip(k as int),
                message_views(out@) == flushed(sorted.take(k as int)),
                self.shards == old(self).shards,
                self.route == old(self).route,
                self.rd == old(self).rd,
                self.poisoned == old(self).poisoned,
                self.rfq == old(self).rfq,
                self.status == old(self).status,
                self.cc == next(old(self).cc),
                self.total == total_now,
                self@.name == name_now,
            decreases n - k,
        {
            let ghost done = message_views(out@);
            proof {
                assert(sorted.take(k + 1).drop_last() =~= sorted.take(k as int));
                assert(sorted.take(k + 1).last() == sorted[k as int]);
                assert(sorted.skip(k as int)[0] == sorted[k as int]);
                assert(sorted.skip(k as int).skip(1) =~= sorted.skip(k + 1));
            }
            match self.buffer.take() {
                Some(m) => {
                    let ghost mv = m@;
                    out.push(m);
                    assert(message_views(out@) =~= done.push(mv));
                },
                None => {},
            }
            k = k + 1;
        }
        assert(sorted.take(n as int) =~= sorted);
        assert(self.buffer@ =~= Seq::<Row>::empty());
        let mut body: Vec<u8> = Vec::new();
        match &self.name {
            Some(name) => {
                put_slice(&mut body, name.as_slice());
            },
            None => {},
        }
        let digits = format_u64(self.total);
        put_slice(&mut body, digits.as_slice());
        body.push(0);
        let ghost rows_out = message_views(out@);
        let ghost name = self@.name->Some_0;
        assert(body@ =~= name + decimal_text(self.total as int) + seq![0u8]);
        match framed(0x43, &body) {
            Ok(v) => match Message::from_bytes(buf::from_vec(v)) {
                Ok(m) => {
                    let ghost mv = m@;
                    out.push(m);
                    assert(message_views(out@) =~= rows_out.push(mv));
                },
                Err(_) => {},
            },
            Err(_) => {},
        }
        proof {
            let s = old(self)@;
            let text = encode_utf8(cc@);
            let counted = MultiShardView {
                cc: next(s.cc),
                total: sum(
                    s.total,
                    match command_rows(text) {
                        Some(n) => n,
                        None => 0,
                    },
                ),
                name: match s.name {
                    Some(n) => Some(n),
                    None => Some(command_name(text)),
                },
                ..s
            };
            assert(self@.total == counted.total);
            assert(self@.name == counted.name);
            assert(self@.rows =~= Seq::<Row>::empty());
            assert(self@ == (MultiShardView { rows: Seq::empty(), ..counted }));
            assert(message_views(out@) == completed(flushed(sorted), name, self.total));
            assert(is_stable_sort(old(self)@.rows, sorted, p, keys, fields) && message_views(out@)
                == completed(flushed(sorted), name, self.total));
        }
        Ok(out)
    }
}

} // verus!
