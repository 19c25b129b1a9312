//! Route queries to correct shards.

use super::ast::{Ast, Node, SelectStmt, SortItem, Statement, TransactionStmtKind, Val};
use super::comment;
use super::order_by::{OrderBy, OrderByView};
use super::where_clause::{collect, key_views, spec_keys, Key, KeyView, WhereClause};
use crate::backend::pool::cluster::{Cluster, ClusterView, ShardedTable, ShardedTableView};
use crate::frontend::buffer::{spec_parameters, spec_query, Buffer};
use crate::frontend::router::copy::{row_views, shard_all, spec_copy_parser, CopyParser, CopyRow};
use crate::frontend::router::error::Error;
use crate::frontend::router::route::{clause_views, Affinity, Route, RouteView, ShardSelector};
use crate::frontend::router::sharding::{shard_bytes, shard_int, shard_str, spec_shard_text};
use crate::frontend::router::parser::value::{shard_of_int, shard_of_parameter};
use crate::net::messages::bind::{bind_view, spec_format, BindView, Format};
use crate::net::messages::{Bind, CopyData};
use vstd::prelude::*;
use vstd::utf8::{encode_utf8, valid_utf8};

verus! {

/// Command determined by the query parser.
#[derive(Debug)]
pub enum Command {
    Query(Route),
    Copy(CopyParser),
    StartTransaction,
    CommitTransaction,
    RollbackTransaction,
}

/// A command as a plain value.
pub enum CommandView {
    Query(RouteView),
    Copy(CopyParser),
    StartTransaction,
    CommitTransaction,
    RollbackTransaction,
}

impl View for Command {
    type V = CommandView;

    open spec fn view(&self) -> CommandView {
        match self {
            Command::Query(route) => CommandView::Query(route@),
            Command::Copy(copy) => CommandView::Copy(*copy),
            Command::StartTransaction => CommandView::StartTransaction,
            Command::CommitTransaction => CommandView::CommitTransaction,
            Command::RollbackTransaction => CommandView::RollbackTransaction,
        }
    }
}

impl Clone for Command {
    fn clone(&self) -> (r: Self)
        ensures
            r@ == self@,
    {
        match self {
            Command::Query(route) => Command::Query(route.clone()),
            Command::Copy(copy) => Command::Copy(*copy),
            Command::StartTransaction => Command::StartTransaction,
            Command::CommitTransaction => Command::CommitTransaction,
            Command::RollbackTransaction => Command::RollbackTransaction,
        }
    }
}

impl Command {
    /// This is a BEGIN TRANSACTION command.
    pub fn begin(&self) -> (b: bool)
        ensures
            b == (self@ is StartTransaction),
    {
        match self {
            Command::StartTransaction => true,
            _ => false,
        }
    }

    /// This is a ROLLBACK command.
    pub fn rollback(&self) -> (b: bool)
        ensures
            b == (self@ is RollbackTransaction),
    {
        match self {
            Command::RollbackTransaction => true,
            _ => false,
        }
    }

    /// This is a COMMIT command.
    pub fn commit(&self) -> (b: bool)
        ensures
            b == (self@ is CommitTransaction),
    {
        match self {
            Command::CommitTransaction => true,
            _ => false,
        }
    }
}

// ---------------------------------------------------------------------------
// What the parser decides
// ---------------------------------------------------------------------------

/// The route of a statement that writes, or of which nothing is known: to
/// any shard, to write.
pub open spec fn write_any() -> RouteView {
    RouteView { shard: ShardSelector::Any, affinity: Affinity::Write, order_by: Seq::empty() }
}

/// The ORDER BY clause that an entry of a sort clause stands for: a column
/// by the position that an integer constant of at least 0 gives, or by the
/// name that a column reference gives, ascending unless the direction says
/// descending or by an operator.
pub open spec fn sort_clause_of(item: SortItem) -> Option<OrderByView> {
    match item {
        SortItem::SortBy { dir, node } => {
            let asc = 0 <= dir <= 2;
            match node {
                Some(Node::AConst(c)) => match c.val {
                    Some(Val::Ival(i)) => if i >= 0 {
                        Some(
                            if asc {
                                OrderByView::Asc(i as usize)
                            } else {
                                OrderByView::Desc(i as usize)
                            },
                        )
                    } else {
                        None
                    },
                    _ => None,
                },
                Some(Node::ColumnRef(Some(name))) => Some(
                    if asc {
                        OrderByView::AscColumn(name@)
                    } else {
                        OrderByView::DescColumn(name@)
                    },
                ),
                _ => None,
            }
        },
        SortItem::Other => None,
    }
}

/// The ORDER BY clauses that a sort clause stands for, in its order.
pub open spec fn spec_select_sort(items: Seq<SortItem>) -> Seq<OrderByView>
    decreases items.len(),
{
    if items.len() == 0 {
        Seq::empty()
    } else {
        match sort_clause_of(items.last()) {
            Some(clause) => spec_select_sort(items.drop_last()).push(clause),
            None => spec_select_sort(items.drop_last()),
        }
    }
}

/// The shard that a key points to. A parameter is looked up in the Bind
/// message, where there is one; a format code that is not known fails the
/// statement.
pub open spec fn key_shard(key: KeyView, bind: Option<BindView>, shards: usize) -> Result<
    Option<usize>,
    Error,
> {
    match key {
        KeyView::Integer(i) => Ok(shard_of_int(i, shards)),
        KeyView::Text(s) => Ok(spec_shard_text(encode_utf8(s), shards as int)),
        KeyView::Parameter(index) => match bind {
            None => Ok(None),
            Some(b) => if index < b.params.len() && b.params[index as int] is Some {
                match spec_format(b.codes, index as int) {
                    Err(e) => Err(Error::Net(e)),
                    Ok(_) => Ok(shard_of_parameter(b, index + 1, shards)),
                }
            } else {
                Ok(None)
            },
        },
    }
}

/// What is known of the shards that the keys seen so far point to.
#[derive(Debug, Clone, Copy, PartialEq, Eq, Structural)]
pub enum Pin {
    /// No key has pointed to a shard.
    Nothing,
    /// Every key that pointed to a shard pointed to this one.
    One(usize),
    /// Keys have pointed to more than one shard.
    Many,
}

/// What is known after one more key.
pub open spec fn pin_add(pin: Pin, shard: Option<usize>) -> Pin {
    match (pin, shard) {
        (_, None) => pin,
        (Pin::Nothing, Some(s)) => Pin::One(s),
        (Pin::One(p), Some(s)) => if p == s {
            pin
        } else {
            Pin::Many
        },
        (Pin::Many, Some(_)) => Pin::Many,
    }
}

/// What is known after all the keys, taken from left to right. The first
/// key that fails fails them all.
pub open spec fn pin_keys(keys: Seq<KeyView>, bind: Option<BindView>, shards: usize, pin: Pin) -> Result<
    Pin,
    Error,
>
    decreases keys.len(),
{
    if keys.len() == 0 {
        Ok(pin)
    } else {
        match key_shard(keys[0], bind, shards) {
            Err(e) => Err(e),
            Ok(shard) => pin_keys(keys.skip(1), bind, shards, pin_add(pin, shard)),
        }
    }
}

/// Where no key fails, the keys pin a statement to a shard exactly where
/// some key points to the shard and none points to another.
pub proof fn lemma_pin_is_singleton(
    keys: Seq<KeyView>,
    bind: Option<BindView>,
    shards: usize,
    s: usize,
)
    requires
        forall|i: int| 0 <= i < keys.len() ==> key_shard(#[trigger] keys[i], bind, shards) is Ok,
    ensures
        pin_keys(keys, bind, shards, Pin::Nothing) == Ok::<Pin, Error>(Pin::One(s)) <==> (exists|
            i: int,
        |
            0 <= i < keys.len() && key_shard(#[trigger] keys[i], bind, shards) == Ok::<
                Option<usize>,
                Error,
            >(Some(s))) && (forall|i: int|
            0 <= i < keys.len() ==> (key_shard(#[trigger] keys[i], bind, shards) matches Ok(
                Some(t),
            ) ==> t == s)),
{
    lemma_pin_keys(keys, bind, shards, Pin::Nothing, s);
}

/// What the keys pin from a given start: the general statement behind
/// [`lemma_pin_is_singleton`].
proof fn lemma_pin_keys(keys: Seq<KeyView>, bind: Option<BindView>, shards: usize, pin: Pin, s: usize)
    requires
        forall|i: int| 0 <= i < keys.len() ==> key_shard(#[trigger] keys[i], bind, shards) is Ok,
    ensures
        pin_keys(keys, bind, shards, pin) is Ok,
        pin_keys(keys, bind, shards, pin) == Ok::<Pin, Error>(Pin::One(s)) <==> (pin
            == Pin::Nothing || pin == Pin::One(s)) && (pin == Pin::One(s) || exists|i: int|
            0 <= i < keys.len() && key_shard(#[trigger] keys[i], bind, shards) == Ok::<
                Option<usize>,
                Error,
            >(Some(s))) && (forall|i: int|
            0 <= i < keys.len() ==> (key_shard(#[trigger] keys[i], bind, shards) matches Ok(
                Some(t),
            ) ==> t == s)),
        pin == Pin::Many ==> pin_keys(keys, bind, shards, pin) == Ok::<Pin, Error>(Pin::Many),
    decreases keys.len(),
{
    if keys.len() > 0 {
        let first = key_shard(keys[0], bind, shards);
        let tail = keys.skip(1);
        let next = pin_add(pin, first->Ok_0);
        assert forall|i: int| 0 <= i < tail.len() implies key_shard(
            #[trigger] tail[i],
            bind,
            shards,
        ) is Ok by {
            assert(tail[i] == keys[i + 1]);
        }
        lemma_pin_keys(tail, bind, shards, next, s);
        let some_points = exists|i: int|
            0 <= i < keys.len() && key_shard(#[trigger] keys[i], bind, shards) == Ok::<
                Option<usize>,
                Error,
            >(Some(s));
        let tail_points = exists|i: int|
            0 <= i < tail.len() && key_shard(#[trigger] tail[i], bind, shards) == Ok::<
                Option<usize>,
                Error,
            >(Some(s));
        let all_agree = forall|i: int|
            0 <= i < keys.len() ==> (key_shard(#[trigger] keys[i], bind, shards) matches Ok(
                Some(t),
            ) ==> t == s);
        let tail_agree = forall|i: int|
            0 <= i < tail.len() ==> (key_shard(#[trigger] tail[i], bind, shards) matches Ok(
                Some(t),
            ) ==> t == s);
        assert(tail_points ==> some_points) by {
            if tail_points {
                let i = choose|i: int|
                    0 <= i < tail.len() && key_shard(#[trigger] tail[i], bind, shards) == Ok::<
                        Option<usize>,
                        Error,
                    >(Some(s));
                assert(tail[i] == keys[i + 1]);
            }
        }
        assert(some_points ==> tail_points || first == Ok::<Option<usize>, Error>(Some(s))) by {
            if some_points {
                let i = choose|i: int|
                    0 <= i < keys.len() && key_shard(#[trigger] keys[i], bind, shards) == Ok::<
                        Option<usize>,
                        Error,
                    >(Some(s));
                if i > 0 {
                    assert(tail[i - 1] == keys[i]);
                }
            }
        }
        assert(all_agree ==> tail_agree) by {
            if all_agree {
                assert forall|i: int| 0 <= i < tail.len() implies (key_shard(
                    #[trigger] tail[i],
                    bind,
                    shards,
                ) matches Ok(Some(t)) ==> t == s) by {
                    assert(tail[i] == keys[i + 1]);
                }
            }
        }
        assert(tail_agree && (first matches Ok(Some(t)) ==> t == s) ==> all_agree) by {
            if tail_agree && (first matches Ok(Some(t)) ==> t == s) {
                assert forall|i: int| 0 <= i < keys.len() implies (key_shard(
                    #[trigger] keys[i],
                    bind,
                    shards,
                ) matches Ok(Some(t)) ==> t == s) by {
                    if i > 0 {
                        assert(tail[i - 1] == keys[i]);
                    }
                }
            }
        }
        assert(all_agree ==> (first matches Ok(Some(t)) ==> t == s));
    }
}

/// The keys that a condition gives for the sharding columns of the sharded
/// tables, table by table.
pub open spec fn table_keys(cond: super::ast::Condition, tables: Seq<ShardedTableView>) -> Seq<
    KeyView,
>
    decreases tables.len(),
{
    if tables.len() == 0 {
        Seq::empty()
    } else {
        table_keys(cond, tables.drop_last()) + spec_keys(
            cond,
            tables.last().name,
            tables.last().column,
        )
    }
}

/// The shard that the keys pin a statement to.
pub open spec fn pinned(pin: Pin) -> Option<usize> {
    match pin {
        Pin::One(s) => Some(s),
        _ => None,
    }
}

/// The command that a SELECT stands for: a read that goes to the shard
/// that the keys of its WHERE clause pin it to, or to all shards where
/// they pin it to none, with the rows ordered as its ORDER BY says.
pub open spec fn spec_select(
    stmt: SelectStmt,
    tables: Seq<ShardedTableView>,
    shards: usize,
    bind: Option<BindView>,
) -> Result<CommandView, Error> {
    let keys = match stmt.where_clause {
        Some(cond) => table_keys(cond, tables),
        None => Seq::empty(),
    };
    match pin_keys(keys, bind, shards, Pin::Nothing) {
        Err(e) => Err(e),
        Ok(pin) => Ok(
            CommandView::Query(
                RouteView {
                    shard: match pinned(pin) {
                        Some(s) => ShardSelector::One(s),
                        None => ShardSelector::All,
                    },
                    affinity: Affinity::Read,
                    order_by: spec_select_sort(stmt.sort_clause@),
                },
            ),
        ),
    }
}

/// The last word on the shard of a command: a cluster with one shard has
/// every statement on that shard; otherwise a shard that the query asks
/// for in a comment counts for more than what its statement says.
pub open spec fn finish(command: CommandView, hint: Option<usize>, shards: nat) -> CommandView {
    match command {
        CommandView::Query(route) => CommandView::Query(
            RouteView {
                shard: if shards == 1 {
                    ShardSelector::One(0)
                } else {
                    match hint {
                        Some(h) => ShardSelector::One(h),
                        None => route.shard,
                    }
                },
                ..route
            },
        ),
        _ => command,
    }
}

/// The command that a query stands for.
///
/// `ast` is what the SQL parser made of the query, or nothing where it
/// refused it; `round_robin` is a number that the caller counts up from
/// query to query.
pub open spec fn spec_command(
    query: Seq<u8>,
    cluster: ClusterView,
    bind: Option<BindView>,
    ast: Option<Ast>,
    round_robin: usize,
) -> Result<CommandView, Error> {
    let n = cluster.shards.len();
    let hint = comment::spec_shard(query, n as usize);
    if n == 1 && cluster.read_only {
        Ok(
            CommandView::Query(
                RouteView {
                    shard: ShardSelector::One(0),
                    affinity: Affinity::Read,
                    order_by: Seq::empty(),
                },
            ),
        )
    } else if n == 1 && cluster.write_only {
        Ok(
            CommandView::Query(
                RouteView {
                    shard: ShardSelector::One(0),
                    affinity: Affinity::Write,
                    order_by: Seq::empty(),
                },
            ),
        )
    } else {
        match ast {
            None => Err(Error::PgQuery),
            Some(ast) => match ast.statement {
                None => Err(Error::EmptyQuery),
                Some(Statement::Select(stmt)) => if ast.tables@.len() == 0 && hint is None {
                    Ok(
                        CommandView::Query(
                            RouteView {
                                shard: if n > 0 {
                                    ShardSelector::One((round_robin as int % n as int) as usize)
                                } else {
                                    ShardSelector::Any
                                },
                                affinity: Affinity::Read,
                                order_by: Seq::empty(),
                            },
                        ),
                    )
                } else {
                    match spec_select(stmt, cluster.sharded_tables, n as usize, bind) {
                        Err(e) => Err(e),
                        Ok(command) => Ok(finish(command, hint, n)),
                    }
                },
                Some(Statement::Copy(stmt)) => Ok(
                    finish(
                        match spec_copy_parser(stmt, cluster.sharded_tables, n as usize) {
                            Some(parser) => CommandView::Copy(parser),
                            None => CommandView::Query(write_any()),
                        },
                        hint,
                        n,
                    ),
                ),
                Some(Statement::Transaction(TransactionStmtKind::Commit)) => Ok(
                    CommandView::CommitTransaction,
                ),
                Some(Statement::Transaction(TransactionStmtKind::Rollback)) => Ok(
                    CommandView::RollbackTransaction,
                ),
                Some(Statement::Transaction(TransactionStmtKind::Begin)) | Some(
                    Statement::Transaction(TransactionStmtKind::Start),
                ) => Ok(CommandView::StartTransaction),
                Some(_) => Ok(finish(CommandView::Query(write_any()), hint, n)),
            },
        }
    }
}

// ---------------------------------------------------------------------------
// The parser
// ---------------------------------------------------------------------------

/// Decides the command that each request of a client stands for, and
/// remembers the last one.
#[derive(Debug)]
pub struct QueryParser {
    command: Command,
}

impl View for QueryParser {
    type V = CommandView;

    closed spec fn view(&self) -> CommandView {
        self.command@
    }
}

impl Default for QueryParser {
    fn default() -> (p: Self)
        ensures
            p@ == CommandView::Query(
                RouteView {
                    shard: ShardSelector::Any,
                    affinity: Affinity::Unknown,
                    order_by: Seq::empty(),
                },
            ),
    {
        Self { command: Command::Query(Route::default()) }
    }
}

impl QueryParser {
    /// Decides the command that the request in the buffer stands for. A
    /// buffer that holds no statement leaves the last command in place.
    pub fn parse(
        &mut self,
        buffer: &Buffer,
        cluster: &Cluster,
        ast: Option<&Ast>,
        round_robin: usize,
    ) -> (r: Result<&Command, Error>)
        ensures
            match spec_query(buffer@) {
                Err(e) => r is Err && r->Err_0 == Error::Net(e) && final(self)@ == old(self)@,
                Ok(None) => r is Err && r->Err_0 == Error::NotInSync && final(self)@ == old(self)@,
                Ok(Some(text)) => match spec_parameters(buffer@) {
                    Err(e) => r is Err && r->Err_0 == Error::Net(e) && final(self)@ == old(self)@,
                    Ok(bind) => match spec_command(
                        encode_utf8(text),
                        cluster@,
                        bind,
                        match ast {
                            Some(a) => Some(*a),
                            None => None,
                        },
                        round_robin,
                    ) {
                        Err(e) => r is Err && r->Err_0 == e && final(self)@ == old(self)@,
                        Ok(command) => (r matches Ok(c) && c@ == command) && final(self)@
                            == command,
                    },
                },
            },
    {
        let query = match buffer.query() {
            Ok(Some(query)) => query,
            Ok(None) => {
                return Err(Error::NotInSync);
            },
            Err(e) => {
                return Err(Error::Net(e));
            },
        };
        let params = match buffer.parameters() {
            Ok(params) => params,
            Err(e) => {
                return Err(Error::Net(e));
            },
        };
        match Self::query(query.as_str(), cluster, params, ast, round_robin) {
            Ok(command) => {
                self.command = command;
                Ok(&self.command)
            },
            Err(e) => Err(e),
        }
    }

    /// Shard copy data.
    pub fn copy_data(&mut self, rows: Vec<CopyData>) -> (r: Result<Vec<CopyRow>, Error>)
        ensures
            match old(self)@ {
                CommandView::Copy(copy) => (r matches Ok(out) && row_views(out@) == shard_all(
                    rows@.map_values(|c: CopyData| c@),
                    copy.headers,
                    copy,
                )) && (final(self)@ matches CommandView::Copy(after) && after.sharded_column
                    == copy.sharded_column && after.delimiter == copy.delimiter && after.shards
                    == copy.shards),
                _ => r is Err && r->Err_0 == Error::NotInSync && final(self)@ == old(self)@,
            },
    {
        let mut copy = match &self.command {
            Command::Copy(copy) => *copy,
            _ => {
                return Err(Error::NotInSync);
            },
        };
        let r = copy.shard(rows);
        self.command = Command::Copy(copy);
        r
    }

    /// The last command.
    pub fn command(&self) -> (c: &Command)
        ensures
            c@ == self@,
    {
        &self.command
    }

    /// The route of the last command: that of a query, and a write to any
    /// shard for everything else.
    pub fn route(&self) -> (r: Route)
        ensures
            r@ == match self@ {
                CommandView::Query(route) => route,
                _ => write_any(),
            },
    {
        match &self.command {
            Command::Query(route) => route.clone(),
            _ => Route::writing(ShardSelector::Any),
        }
    }

    /// The command that a query stands for.
    pub fn query(
        query: &str,
        cluster: &Cluster,
        params: Option<Bind>,
        ast: Option<&Ast>,
        round_robin: usize,
    ) -> (r: Result<Command, Error>)
        ensures
            match spec_command(
                encode_utf8(query@),
                cluster@,
                bind_view(params),
                match ast {
                    Some(a) => Some(*a),
                    None => None,
                },
                round_robin,
            ) {
                Ok(command) => r matches Ok(c) && c@ == command,
                Err(e) => r is Err && r->Err_0 == e,
            },
    {
        let shards = cluster.shards().len();
        // Shortcut single shard clusters that don't require read/write separation.
        if shards == 1 {
            if cluster.read_only() {
                return Ok(Command::Query(Route::reading(ShardSelector::One(0))));
            }
            if cluster.write_only() {
                return Ok(Command::Query(Route::writing(ShardSelector::One(0))));
            }
        }
        // Hardcoded shard from a comment.
        let hint = comment::shard(query, shards);
        let ast = match ast {
            Some(ast) => ast,
            None => {
                return Err(Error::PgQuery);
            },
        };
        let stmt = match &ast.statement {
            Some(stmt) => stmt,
            None => {
                return Err(Error::EmptyQuery);
            },
        };
        let mut command = match stmt {
            Statement::Select(stmt) => {
                // `SELECT NOW()`, `SELECT 1`, etc.
                if ast.tables.len() == 0 && hint.is_none() {
                    let shard = if shards > 0 {
                        ShardSelector::One(round_robin % shards)
                    } else {
                        ShardSelector::Any
                    };
                    return Ok(Command::Query(Route::reading(shard)));
                }
                match Self::select(stmt, cluster.shaded_tables(), shards, &params) {
                    Ok(command) => command,
                    Err(e) => {
                        return Err(e);
                    },
                }
            },
            Statement::Copy(stmt) => match CopyParser::new(stmt, cluster.shaded_tables(), shards) {
                Ok(Some(parser)) => Command::Copy(parser),
                _ => Command::Query(Route::writing(ShardSelector::Any)),
            },
            Statement::Transaction(kind) => match kind {
                TransactionStmtKind::Commit => {
                    return Ok(Command::CommitTransaction);
                },
                TransactionStmtKind::Rollback => {
                    return Ok(Command::RollbackTransaction);
                },
                TransactionStmtKind::Begin | TransactionStmtKind::Start => {
                    return Ok(Command::StartTransaction);
                },
                TransactionStmtKind::Other => Command::Query(Route::writing(ShardSelector::Any)),
            },
            _ => Command::Query(Route::writing(ShardSelector::Any)),
        };
        if let Command::Query(route) = command {
            let mut route = route;
            match hint {
                Some(shard) => {
                    route.overwrite_shard(shard);
                },
                None => {},
            }
            if shards == 1 {
                route.overwrite_shard(0);
            }
            command = Command::Query(route);
        }
        Ok(command)
    }

    /// The command that a SELECT stands for.
    pub fn select(
        stmt: &SelectStmt,
        tables: &[ShardedTable],
        shards: usize,
        params: &Option<Bind>,
    ) -> (r: Result<Command, Error>)
        ensures
            match spec_select(
                *stmt,
                tables@.map_values(|t: ShardedTable| t@),
                shards,
                bind_view(*params),
            ) {
                Ok(command) => r matches Ok(c) && c@ == command,
                Err(e) => r is Err && r->Err_0 == e,
            },
    {
        let order_by = Self::select_sort(stmt.sort_clause.as_slice());
        let ghost views = tables@.map_values(|t: ShardedTable| t@);
        let ghost bind = bind_view(*params);
        let mut keys: Vec<Key> = Vec::new();
        assert(key_views(keys@) =~= Seq::<KeyView>::empty());
        match &stmt.where_clause {
            Some(cond) => {
                // Complexity: O(number of sharded tables * number of columns in the query)
                let mut t: usize = 0;
                assert(views.take(0) =~= Seq::<ShardedTableView>::empty());
                while t < tables.len()
                    invariant
                        t <= tables@.len(),
                        views == tables@.map_values(|t: ShardedTable| t@),
                        key_views(keys@) == table_keys(*cond, views.take(t as int)),
                    decreases tables@.len() - t,
                {
                    let table = &tables[t];
                    proof {
                        assert(views.take(t + 1).drop_last() =~= views.take(t as int));
                        assert(views.take(t + 1).last() == table@);
                    }
                    let name = match &table.name {
                        Some(name) => Some(name.as_str()),
                        None => None,
                    };
                    collect(cond, name, table.column.as_str(), &mut keys);
                    t = t + 1;
                }
                assert(views.take(tables@.len() as int) =~= views);
            },
            None => {},
        }
        let ghost all = key_views(keys@);
        let ghost wanted = spec_select(*stmt, views, shards, bind);
        let mut pin = Pin::Nothing;
        let mut k: usize = 0;
        assert(all.skip(0) =~= all);
        while k < keys.len()
            invariant
                k <= keys@.len(),
                all == key_views(keys@),
                bind == bind_view(*params),
                views == tables@.map_values(|t: ShardedTable| t@),
                wanted == spec_select(*stmt, views, shards, bind),
                wanted is Err <==> pin_keys(all, bind, shards, Pin::Nothing) is Err,
                wanted is Err ==> wanted->Err_0 == pin_keys(
                    all,
                    bind,
                    shards,
                    Pin::Nothing,
                )->Err_0,
                pin_keys(all, bind, shards, Pin::Nothing) == pin_keys(
                    all.skip(k as int),
                    bind,
                    shards,
                    pin,
                ),
            decreases keys@.len() - k,
        {
            assert(all.skip(k as int)[0] == keys@[k as int]@);
            assert(all.skip(k as int).skip(1) =~= all.skip(k + 1));
            let shard = match &keys[k] {
                Key::Integer(i) => if shards == 0 {
                    None
                } else {
                    Some(shard_int(*i, shards))
                },
                Key::Text(s) => shard_str(s.as_str(), shards),
                Key::Parameter(index) => match params {
                    None => None,
                    Some(b) => match b.parameter(*index) {
                        Err(e) => {
                            return Err(Error::Net(e));
                        },
                        Ok(None) => None,
                        // Binary parameters have no shard of their own.
                        Ok(Some(parameter)) => match parameter.text() {
                            Some(_) => shard_bytes(parameter.data(), shards),
                            None => None,
                        },
                    },
                },
            };
            pin = match (pin, shard) {
                (_, None) => pin,
                (Pin::Nothing, Some(s)) => Pin::One(s),
                (Pin::One(p), Some(s)) => if p == s {
                    pin
                } else {
                    Pin::Many
                },
                (Pin::Many, Some(_)) => Pin::Many,
            };
            k = k + 1;
        }
        let shard = match pin {
            Pin::One(s) => Some(s),
            _ => None,
        };
        Ok(Command::Query(Route::select(shard, order_by.as_slice())))
    }

    /// Parse the `ORDER BY` clause of a `SELECT` statement.
    pub fn select_sort(nodes: &[SortItem]) -> (order_by: Vec<OrderBy>)
        ensures
            clause_views(order_by@) == spec_select_sort(nodes@),
    {
        let mut order_by: Vec<OrderBy> = Vec::new();
        let mut i: usize = 0;
        assert(nodes@.take(0) =~= Seq::<SortItem>::empty());
        assert(clause_views(order_by@) =~= Seq::<OrderByView>::empty());
        while i < nodes.len()
            invariant
                i <= nodes@.len(),
                clause_views(order_by@) == spec_select_sort(nodes@.take(i as int)),
            decreases nodes@.len() - i,
        {
            let ghost done = clause_views(order_by@);
            proof {
                assert(nodes@.take(i + 1).drop_last() =~= nodes@.take(i as int));
                assert(nodes@.take(i + 1).last() == nodes@[i as int]);
            }
            let clause = match &nodes[i] {
                SortItem::SortBy { dir, node } => {
                    let asc = 0 <= *dir && *dir <= 2;
                    match node {
                        Some(Node::AConst(aconst)) => match &aconst.val {
                            Some(Val::Ival(integer)) => if *integer >= 0 {
                                Some(
                                    if asc {
                                        OrderBy::Asc(*integer as usize)
                                    } else {
                                        OrderBy::Desc(*integer as usize)
                                    },
                                )
                            } else {
                                None
                            },
                            _ => None,
                        },
                        Some(Node::ColumnRef(Some(name))) => Some(
                            if asc {
                                OrderBy::AscColumn(name.clone())
                            } else {
                                OrderBy::DescColumn(name.clone())
                            },
                        ),
                        _ => None,
                    }
                },
                SortItem::Other => None,
            };
            match clause {
                Some(c) => {
                    let ghost cv = c@;
                    order_by.push(c);
                    assert(clause_views(order_by@) =~= done.push(cv));
                },
                None => {},
            }
            i = i + 1;
        }
        assert(nodes@.take(nodes@.len() as int) =~= nodes@);
        order_by
    }
}

} // verus!
