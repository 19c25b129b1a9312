use pgdog::backend::pool::cluster::ShardedTable;
use pgdog::backend::pool::{Address, Cluster, Config, Pool, Replicas, Shard};
use pgdog::frontend::router::copy::CopyParser;
use pgdog::frontend::router::parser::ast::{
    AConst, Ast, Condition, CopyStmt, Node, SelectStmt, SortItem, Statement, TransactionStmtKind,
    Val,
};
use pgdog::frontend::router::parser::comment;
use pgdog::frontend::router::parser::value::Value;
use pgdog::frontend::router::parser::where_clause::{Key, WhereClause};
use pgdog::frontend::router::parser::{Command, OrderBy, QueryParser};
use pgdog::frontend::router::route::{Affinity, ShardSelector};
use pgdog::frontend::router::sharding::{shard_bytes, shard_int, shard_str};
use pgdog::frontend::router::{Error, Route, Router};
use pgdog::frontend::Buffer;
use pgdog::net::messages::{Bind, CopyData, Message, Parse, Query, Sync, ToBytes};

fn pool() -> Pool {
    Pool::new(
        Address {
            host: "db".to_string(),
            port: 5432,
            database_name: "shop".to_string(),
            user: "app".to_string(),
        },
        Config::default(),
    )
}

fn cluster(shards: usize, read_only: bool, write_only: bool) -> Cluster {
    let mut all = vec![];
    for _ in 0..shards {
        all.push(Shard::new(Some(pool()), Replicas::new(vec![])));
    }
    Cluster::new(
        all,
        read_only,
        write_only,
        vec![ShardedTable {
            name: Some("users".to_string()),
            column: "id".to_string(),
        }],
    )
}

fn number(i: i32) -> Node {
    Node::AConst(AConst {
        isnull: false,
        val: Some(Val::Ival(i)),
    })
}

fn text(s: &str) -> Node {
    Node::AConst(AConst {
        isnull: false,
        val: Some(Val::Sval(s.to_string())),
    })
}

fn equals(table: Option<&str>, column: &str, value: Node) -> Condition {
    Condition::Equals {
        table: table.map(|t| t.to_string()),
        column: column.to_string(),
        value,
    }
}

fn select(where_clause: Option<Condition>, sort_clause: Vec<SortItem>) -> Ast {
    Ast {
        statement: Some(Statement::Select(SelectStmt {
            where_clause,
            sort_clause,
        })),
        tables: vec!["users".to_string()],
    }
}

fn other(statement: Statement) -> Ast {
    Ast {
        statement: Some(statement),
        tables: vec!["users".to_string()],
    }
}

fn route(command: Result<Command, Error>) -> Route {
    match command {
        Ok(Command::Query(route)) => route,
        other => panic!("{:?}", other),
    }
}

fn bind(params: Vec<Option<Vec<u8>>>, codes: Vec<i16>) -> Bind {
    Bind {
        portal: String::new(),
        statement: String::new(),
        codes,
        params,
        results: vec![],
    }
}

#[test]
fn integers_are_sharded_by_their_remainder() {
    assert_eq!(shard_int(2, 2), 0);
    assert_eq!(shard_int(1, 2), 1);
    assert_eq!(shard_int(3, 2), 1);
    assert_eq!(shard_int(0, 5), 0);
    assert_eq!(shard_int(-1, 3), 2);
    assert_eq!(shard_int(-3, 3), 0);
    assert_eq!(shard_int(-4, 3), 2);
    assert_eq!(shard_int(i64::MIN, 7), 6);
    assert_eq!(shard_int(i64::MAX, 7), 0);
    assert_eq!(shard_int(17, 1), 0);
}

#[test]
fn text_is_sharded_where_it_spells_an_integer() {
    assert_eq!(shard_str("2", 2), Some(0));
    assert_eq!(shard_str("-1", 3), Some(2));
    assert_eq!(shard_str("abc", 2), None);
    assert_eq!(shard_str("", 2), None);
    assert_eq!(shard_str("2", 0), None);
    assert_eq!(shard_bytes(b"7", 4), Some(3));
}

#[test]
fn shard_from_a_comment() {
    assert_eq!(comment::shard("/* pgdog_shard: 1 */ SELECT 1", 2), Some(1));
    assert_eq!(comment::shard("SELECT 1 /*pgdog_shard:0*/", 2), Some(0));
    assert_eq!(comment::shard("/*   pgdog_shard:   12   */", 20), Some(12));
    assert_eq!(comment::shard("/* pgdog_shard: 2 */ SELECT 1", 2), None);
    assert_eq!(comment::shard("/* pgdog_shard: */ SELECT 1", 2), None);
    assert_eq!(comment::shard("/* pgdog_shard: 1 SELECT 1", 2), None);
    assert_eq!(comment::shard("/* shard: 1 */ SELECT 1", 2), None);
    assert_eq!(comment::shard("SELECT 1", 2), None);
    assert_eq!(
        comment::shard("/* x */ /* pgdog_shard: 0 */ /* pgdog_shard: 1 */", 2),
        Some(0)
    );
}

#[test]
fn select_with_a_key_goes_to_one_shard() {
    let c = cluster(2, false, false);
    let ast = select(Some(equals(None, "id", number(2))), vec![]);
    let r = route(QueryParser::query(
        "SELECT * FROM users WHERE id = 2",
        &c,
        None,
        Some(&ast),
        0,
    ));
    assert_eq!(r.shard(), Some(0));
    assert!(r.read());
    assert!(!r.write());
    assert!(!r.cross_shard());
    assert!(!r.any_shard());
    let ast = select(Some(equals(Some("users"), "id", text("3"))), vec![]);
    let r = route(QueryParser::query("", &c, None, Some(&ast), 0));
    assert_eq!(r.shard(), Some(1));
}

#[test]
fn select_without_a_key_goes_to_all_shards() {
    let c = cluster(2, false, false);
    for condition in [
        None,
        Some(equals(None, "name", number(2))),
        Some(equals(Some("orders"), "id", number(2))),
        Some(equals(None, "id", text("bob"))),
        Some(Condition::Other),
    ] {
        let ast = select(condition, vec![]);
        let r = route(QueryParser::query("", &c, None, Some(&ast), 0));
        assert!(r.cross_shard());
        assert_eq!(r.shard(), None);
        assert!(r.read());
    }
}

#[test]
fn select_with_keys_on_several_shards_goes_to_all() {
    let c = cluster(2, false, false);
    let both = Condition::And(
        Box::new(equals(None, "id", number(1))),
        Box::new(equals(None, "id", number(2))),
    );
    let r = route(QueryParser::query("", &c, None, Some(&select(Some(both), vec![])), 0));
    assert!(r.cross_shard());
    let same = Condition::And(
        Box::new(equals(None, "id", number(1))),
        Box::new(Condition::And(
            Box::new(Condition::Other),
            Box::new(equals(None, "id", number(3))),
        )),
    );
    let r = route(QueryParser::query("", &c, None, Some(&select(Some(same), vec![])), 0));
    assert_eq!(r.shard(), Some(1));
}

#[test]
fn select_with_a_parameter_key() {
    let c = cluster(2, false, false);
    let ast = select(Some(equals(None, "id", Node::ParamRef(2))), vec![]);
    let params = bind(vec![Some(b"x".to_vec()), Some(b"3".to_vec())], vec![]);
    let r = route(QueryParser::query("", &c, Some(params), Some(&ast), 0));
    assert_eq!(r.shard(), Some(1));
    let binary = bind(vec![Some(b"x".to_vec()), Some(b"3".to_vec())], vec![1]);
    let r = route(QueryParser::query("", &c, Some(binary), Some(&ast), 0));
    assert!(r.cross_shard());
    let null = bind(vec![None, None], vec![]);
    let r = route(QueryParser::query("", &c, Some(null), Some(&ast), 0));
    assert!(r.cross_shard());
    let r = route(QueryParser::query("", &c, None, Some(&ast), 0));
    assert!(r.cross_shard());
    let bad = bind(vec![Some(b"1".to_vec()), Some(b"3".to_vec())], vec![9]);
    assert!(matches!(
        QueryParser::query("", &c, Some(bad), Some(&ast), 0),
        Err(Error::Net(pgdog::net::Error::UnexpectedPayload))
    ));
}

#[test]
fn order_by_is_read_from_the_sort_clause() {
    let c = cluster(2, false, false);
    let sort = vec![
        SortItem::SortBy {
            dir: 2,
            node: Some(Node::ColumnRef(Some("id".to_string()))),
        },
        SortItem::SortBy {
            dir: 3,
            node: Some(number(2)),
        },
        SortItem::Other,
        SortItem::SortBy {
            dir: 1,
            node: Some(number(-1)),
        },
        SortItem::SortBy { dir: 1, node: None },
        SortItem::SortBy {
            dir: 0,
            node: Some(Node::ColumnRef(None)),
        },
        SortItem::SortBy {
            dir: 4,
            node: Some(Node::ColumnRef(Some("name".to_string()))),
        },
        SortItem::SortBy {
            dir: 0,
            node: Some(text("x")),
        },
    ];
    let expected = vec![
        OrderBy::AscColumn("id".to_string()),
        OrderBy::Desc(2),
        OrderBy::DescColumn("name".to_string()),
    ];
    assert_eq!(QueryParser::select_sort(&sort), expected);
    let ast = select(None, sort);
    let r = route(QueryParser::query(
        "SELECT id, name FROM users ORDER BY id ASC",
        &c,
        None,
        Some(&ast),
        0,
    ));
    assert_eq!(r.order_by(), &expected[..]);
    assert!(r.cross_shard());
}

#[test]
fn select_without_tables_goes_to_one_shard_in_turn() {
    let c = cluster(2, false, false);
    let ast = Ast {
        statement: Some(Statement::Select(SelectStmt {
            where_clause: None,
            sort_clause: vec![],
        })),
        tables: vec![],
    };
    let r = route(QueryParser::query("SELECT 1", &c, None, Some(&ast), 5));
    assert_eq!(r.shard(), Some(1));
    assert!(r.read());
    let r = route(QueryParser::query("SELECT 1", &c, None, Some(&ast), 6));
    assert_eq!(r.shard(), Some(0));
    let r = route(QueryParser::query(
        "/* pgdog_shard: 1 */ SELECT 1",
        &c,
        None,
        Some(&ast),
        6,
    ));
    assert_eq!(r.shard(), Some(1));
    let none = cluster(0, false, false);
    let r = route(QueryParser::query("SELECT 1", &none, None, Some(&ast), 6));
    assert!(r.any_shard());
}

#[test]
fn writes_go_to_any_shard() {
    let c = cluster(2, false, false);
    for statement in [
        Statement::Insert,
        Statement::Update,
        Statement::Delete,
        Statement::Other,
        Statement::Transaction(TransactionStmtKind::Other),
    ] {
        let r = route(QueryParser::query("", &c, None, Some(&other(statement)), 0));
        assert!(r.write());
        assert!(r.any_shard());
        assert_eq!(r.shard(), None);
    }
}

#[test]
fn comment_counts_for_more_than_the_statement() {
    let c = cluster(2, false, false);
    let ast = select(Some(equals(None, "id", number(2))), vec![]);
    let r = route(QueryParser::query(
        "/* pgdog_shard: 1 */ SELECT * FROM users WHERE id = 2",
        &c,
        None,
        Some(&ast),
        0,
    ));
    assert_eq!(r.shard(), Some(1));
    assert!(r.read());
    let r = route(QueryParser::query(
        "/* pgdog_shard: 1 */ INSERT INTO users VALUES (2)",
        &c,
        None,
        Some(&other(Statement::Insert)),
        0,
    ));
    assert_eq!(r.shard(), Some(1));
    assert!(r.write());
}

#[test]
fn single_shard_takes_everything() {
    let c = cluster(1, true, false);
    let r = route(QueryParser::query("garbage", &c, None, None, 0));
    assert_eq!(r.shard(), Some(0));
    assert!(r.read());
    let c = cluster(1, false, true);
    let r = route(QueryParser::query("garbage", &c, None, None, 0));
    assert_eq!(r.shard(), Some(0));
    assert!(r.write());
    let c = cluster(1, false, false);
    let r = route(QueryParser::query("", &c, None, Some(&other(Statement::Insert)), 0));
    assert_eq!(r.shard(), Some(0));
    assert!(r.write());
    let r = route(QueryParser::query("", &c, None, Some(&select(None, vec![])), 0));
    assert_eq!(r.shard(), Some(0));
    assert!(r.read());
}

#[test]
fn transaction_statements_are_commands_of_their_own() {
    let c = cluster(2, false, false);
    let run = |kind| QueryParser::query("", &c, None, Some(&other(Statement::Transaction(kind))), 0);
    let begin = run(TransactionStmtKind::Begin).unwrap();
    assert!(begin.begin());
    assert!(!begin.commit());
    assert!(!begin.rollback());
    assert!(run(TransactionStmtKind::Start).unwrap().begin());
    assert!(run(TransactionStmtKind::Commit).unwrap().commit());
    assert!(run(TransactionStmtKind::Rollback).unwrap().rollback());
    assert!(!run(TransactionStmtKind::Rollback).unwrap().clone().begin());
}

#[test]
fn statements_that_cannot_be_routed() {
    let c = cluster(2, false, false);
    assert!(matches!(
        QueryParser::query("SELEC", &c, None, None, 0),
        Err(Error::PgQuery)
    ));
    let empty = Ast {
        statement: None,
        tables: vec![],
    };
    assert!(matches!(
        QueryParser::query("", &c, None, Some(&empty), 0),
        Err(Error::EmptyQuery)
    ));
}

#[test]
fn router_keeps_the_last_route() {
    let c = cluster(2, false, false);
    let mut router = Router::new();
    assert!(router.route().any_shard());
    assert!(!router.route().read());
    assert!(!router.route().write());
    let mut buffer = Buffer::new();
    buffer.push(Message::new(
        Query::new("SELECT * FROM users WHERE id = 2").to_bytes().unwrap(),
    ));
    let ast = select(Some(equals(None, "id", number(2))), vec![]);
    router.query(&buffer, &c, Some(&ast), 0).unwrap();
    assert_eq!(router.route().shard(), Some(0));
    assert!(matches!(router.command(), Command::Query(_)));
    let mut describe = Buffer::new();
    describe.push(Message::new(Sync.to_bytes().unwrap()));
    assert_eq!(
        router.query(&describe, &c, None, 0),
        Err(Error::NotInSync)
    );
    assert_eq!(router.route().shard(), Some(0));
    assert_eq!(router.query(&buffer, &c, None, 0), Err(Error::PgQuery));
    assert_eq!(router.route().shard(), Some(0));
}

#[test]
fn router_reads_statement_and_parameters_from_the_buffer() {
    let c = cluster(2, false, false);
    let mut router = Router::default();
    let mut buffer = Buffer::new();
    buffer.push(Message::new(
        Parse::new_anonymous("SELECT * FROM users WHERE id = $1")
            .to_bytes()
            .unwrap(),
    ));
    buffer.push(Message::new(
        bind(vec![Some(b"5".to_vec())], vec![]).to_bytes().unwrap(),
    ));
    buffer.push(Message::new(Sync.to_bytes().unwrap()));
    let ast = select(Some(equals(None, "id", Node::ParamRef(1))), vec![]);
    router.query(&buffer, &c, Some(&ast), 0).unwrap();
    assert_eq!(router.route().shard(), Some(1));
    let begin = other(Statement::Transaction(TransactionStmtKind::Begin));
    router.query(&buffer, &c, Some(&begin), 0).unwrap();
    assert!(router.command().begin());
    assert!(router.route().write());
    assert!(router.route().any_shard());
}

#[test]
fn routes_say_what_they_are() {
    let unknown = Route::unknown();
    assert!(!unknown.read());
    assert!(!unknown.write());
    assert!(unknown.any_shard());
    assert!(!unknown.cross_shard());
    assert_eq!(unknown.shard(), None);
    assert_eq!(unknown, Route::default());
    let mut r = Route::new(ShardSelector::All, Affinity::Write, vec![OrderBy::Asc(1)]);
    assert!(r.write());
    assert!(r.cross_shard());
    assert_eq!(r.affinity(), Affinity::Write);
    assert_eq!(r.selector(), ShardSelector::All);
    assert_eq!(r.order_by(), &[OrderBy::Asc(1)][..]);
    r.overwrite_shard(3);
    assert_eq!(r.shard(), Some(3));
    assert_eq!(r.clone(), r);
    assert_eq!(Route::select(Some(2), &[]).shard(), Some(2));
    assert!(Route::select(None, &[]).cross_shard());
}

#[test]
fn order_by_clauses() {
    assert_eq!(OrderBy::Asc(1).index(), Some(0));
    assert_eq!(OrderBy::Desc(3).index(), Some(2));
    assert_eq!(OrderBy::Asc(0).index(), None);
    assert_eq!(OrderBy::AscColumn("a".to_string()).index(), None);
    assert_eq!(OrderBy::AscColumn("a".to_string()).name(), Some("a"));
    assert_eq!(OrderBy::Desc(1).name(), None);
    assert!(OrderBy::Asc(1).asc());
    assert!(OrderBy::AscColumn("a".to_string()).asc());
    assert!(!OrderBy::Desc(1).asc());
    assert!(!OrderBy::DescColumn("a".to_string()).asc());
    assert_eq!(OrderBy::DescColumn("a".to_string()).clone().name(), Some("a"));
}

#[test]
fn values_of_constants() {
    let c = AConst {
        isnull: false,
        val: Some(Val::Sval("12".to_string())),
    };
    assert_eq!(Value::from_const(&c), Value::Integer(12));
    let c = AConst {
        isnull: false,
        val: Some(Val::Sval("ab".to_string())),
    };
    assert_eq!(Value::from_const(&c), Value::String("ab"));
    let c = AConst {
        isnull: true,
        val: Some(Val::Ival(1)),
    };
    assert_eq!(Value::from_const(&c), Value::Null);
    let c = AConst {
        isnull: false,
        val: Some(Val::Boolval(true)),
    };
    assert_eq!(Value::from_const(&c), Value::Boolean(true));
    let c = AConst {
        isnull: false,
        val: Some(Val::Other),
    };
    assert_eq!(Value::from_const(&c), Value::Null);
    let c = AConst {
        isnull: false,
        val: None,
    };
    assert_eq!(Value::from_const(&c), Value::Null);
    assert_eq!(Value::try_from_node(&number(-4)), Ok(Value::Integer(-4)));
    assert_eq!(
        Value::try_from_node(&Node::ParamRef(3)),
        Ok(Value::Placeholder(3))
    );
    assert_eq!(Value::try_from_node(&Node::Other), Err(()));
    assert_eq!(Value::try_from_node(&Node::ColumnRef(None)), Err(()));
}

#[test]
fn values_are_sharded() {
    assert_eq!(Value::Integer(5).shard(3), Some(2));
    assert_eq!(Value::Integer(5).shard(0), None);
    assert_eq!(Value::String("5").shard(3), Some(2));
    assert_eq!(Value::String("x").shard(3), None);
    assert_eq!(Value::Boolean(true).shard(3), None);
    assert_eq!(Value::Null.shard(3), None);
    assert_eq!(Value::Placeholder(1).shard(3), None);
    let params = bind(vec![Some(b"4".to_vec()), None], vec![]);
    assert_eq!(Value::Placeholder(1).shard_placeholder(&params, 3), Some(1));
    assert_eq!(Value::Placeholder(2).shard_placeholder(&params, 3), None);
    assert_eq!(Value::Placeholder(3).shard_placeholder(&params, 3), None);
    assert_eq!(Value::Placeholder(0).shard_placeholder(&params, 3), None);
    assert_eq!(Value::Placeholder(-1).shard_placeholder(&params, 3), None);
    assert_eq!(Value::Integer(7).shard_placeholder(&params, 3), Some(1));
}

#[test]
fn where_clause_gives_the_keys_of_a_column() {
    let condition = Some(Condition::And(
        Box::new(equals(Some("users"), "id", number(1))),
        Box::new(Condition::And(
            Box::new(equals(Some("orders"), "id", number(2))),
            Box::new(Condition::And(
                Box::new(equals(None, "id", Node::ParamRef(2))),
                Box::new(Condition::And(
                    Box::new(equals(None, "id", text("a"))),
                    Box::new(equals(None, "id", Node::ParamRef(0))),
                )),
            )),
        )),
    ));
    let clause = WhereClause::new(&condition).unwrap();
    assert_eq!(
        clause.keys(Some("users"), "id"),
        vec![
            Key::Integer(1),
            Key::Parameter(1),
            Key::Text("a".to_string())
        ]
    );
    assert_eq!(clause.keys(None, "id").len(), 4);
    assert_eq!(clause.keys(Some("users"), "name"), vec![]);
    assert!(WhereClause::new(&None).is_none());
}

fn copy_stmt(table: &str, columns: &[&str], is_from: bool, headers: bool) -> CopyStmt {
    CopyStmt {
        table: table.to_string(),
        columns: columns.iter().map(|c| c.to_string()).collect(),
        is_from,
        delimiter: b',',
        headers,
    }
}

#[test]
fn copy_into_a_sharded_table_is_sharded() {
    let c = cluster(2, false, false);
    let stmt = copy_stmt("users", &["name", "id"], true, false);
    let parser = CopyParser::new(&stmt, c.shaded_tables(), 2).unwrap().unwrap();
    assert_eq!(parser.sharded_column, 1);
    assert_eq!(parser.delimiter, b',');
    assert_eq!(parser.shards, 2);
    let ast = other(Statement::Copy(stmt));
    assert!(matches!(
        QueryParser::query("", &c, None, Some(&ast), 0),
        Ok(Command::Copy(_))
    ));
}

#[test]
fn copy_that_is_not_sharded_is_a_write() {
    let c = cluster(2, false, false);
    for stmt in [
        copy_stmt("orders", &["name", "id"], true, false),
        copy_stmt("users", &["name"], true, false),
        copy_stmt("users", &["name", "id"], false, false),
    ] {
        assert_eq!(CopyParser::new(&stmt, c.shaded_tables(), 2), Ok(None));
        let ast = other(Statement::Copy(stmt));
        let r = route(QueryParser::query("", &c, None, Some(&ast), 0));
        assert!(r.write());
        assert!(r.any_shard());
    }
}

#[test]
fn copy_rows_go_to_their_shards() {
    let mut parser = CopyParser {
        sharded_column: 1,
        delimiter: b',',
        headers: false,
        shards: 2,
    };
    let rows = parser
        .shard(vec![
            CopyData::new(b"a,1\nb,2\n"),
            CopyData::new(b""),
            CopyData::new(b"c,x\nd\ne,4,z"),
        ])
        .unwrap();
    let got: Vec<(Vec<u8>, Option<usize>)> = rows
        .iter()
        .map(|r| (r.message().data().to_vec(), r.shard()))
        .collect();
    assert_eq!(
        got,
        vec![
            (b"a,1\n".to_vec(), Some(1)),
            (b"b,2\n".to_vec(), Some(0)),
            (b"c,x\n".to_vec(), None),
            (b"d\n".to_vec(), None),
            (b"e,4,z".to_vec(), Some(0)),
        ]
    );
}

#[test]
fn copy_headers_go_to_all_shards() {
    let mut parser = CopyParser {
        sharded_column: 0,
        delimiter: b'\t',
        headers: true,
        shards: 2,
    };
    let rows = parser
        .shard(vec![CopyData::new(b""), CopyData::new(b"1\tname\n1\tbob\n")])
        .unwrap();
    assert_eq!(rows.len(), 2);
    assert_eq!(rows[0].shard(), None);
    assert_eq!(rows[1].shard(), Some(1));
    assert!(!parser.headers);
    let more = parser.shard(vec![CopyData::new(b"2\tal\n")]).unwrap();
    assert_eq!(more[0].shard(), Some(0));
}

#[test]
fn router_shards_copy_data_from_the_buffer() {
    let c = cluster(2, false, false);
    let mut router = Router::new();
    let mut statement = Buffer::new();
    statement.push(Message::new(
        Query::new("COPY users (id) FROM STDIN").to_bytes().unwrap(),
    ));
    let ast = other(Statement::Copy(copy_stmt("users", &["id"], true, false)));
    router.query(&statement, &c, Some(&ast), 0).unwrap();
    let mut data = Buffer::new();
    data.push(Message::new(CopyData::new(b"3\n").to_bytes().unwrap()));
    data.push(Message::new(Sync.to_bytes().unwrap()));
    data.push(Message::new(CopyData::new(b"4\n").to_bytes().unwrap()));
    let rows = router.copy_data(&data).unwrap();
    assert_eq!(rows.len(), 2);
    assert_eq!(rows[0].shard(), Some(1));
    assert_eq!(rows[1].shard(), Some(0));
    let mut plain = Router::new();
    assert!(matches!(plain.copy_data(&data), Err(Error::NotInSync)));
    let mut parser = QueryParser::default();
    assert!(matches!(parser.copy_data(vec![]), Err(Error::NotInSync)));
}
