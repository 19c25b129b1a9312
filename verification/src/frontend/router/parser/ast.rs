//! The parts of a parsed statement that the router reads.
//!
//! The SQL parser is not part of this library. Whoever calls the router
//! parses the statement and hands over what is described here: the kind of
//! the first statement, for a SELECT its WHERE and ORDER BY clauses, and
//! the tables that the statement names.

use vstd::prelude::*;

verus! {

/// The value of a constant.
#[derive(Debug)]
pub enum Val {
    /// An integer.
    Ival(i32),
    /// A string.
    Sval(String),
    /// A boolean.
    Boolval(bool),
    /// Any other kind of constant.
    Other,
}

/// A constant in a statement.
#[derive(Debug)]
pub struct AConst {
    /// The constant is `NULL`.
    pub isnull: bool,
    /// The value, where the constant has one.
    pub val: Option<Val>,
}

/// An expression, as far as the router tells expressions apart.
#[derive(Debug)]
pub enum Node {
    /// A constant.
    AConst(AConst),
    /// A parameter of a prepared statement, `$1` being number 1.
    ParamRef(i32),
    /// A column, by the first part of its name where that is a plain name.
    ColumnRef(Option<String>),
    /// Anything else.
    Other,
}

/// One entry of a sort clause.
#[derive(Debug)]
pub enum SortItem {
    /// `ORDER BY` an expression, in a direction: 0 or 1 where none is
    /// given, 2 ascending, 3 descending, 4 by an operator.
    SortBy { dir: i32, node: Option<Node> },
    /// Anything else.
    Other,
}

/// A WHERE clause, as far as the router tells conditions apart.
#[derive(Debug)]
pub enum Condition {
    /// Both conditions hold.
    And(Box<Condition>, Box<Condition>),
    /// A column equals a value. The column may be qualified by a table.
    Equals { table: Option<String>, column: String, value: Node },
    /// Anything else.
    Other,
}

/// A SELECT statement.
#[derive(Debug)]
pub struct SelectStmt {
    /// The WHERE clause, if there is one.
    pub where_clause: Option<Condition>,
    /// The ORDER BY clause.
    pub sort_clause: Vec<SortItem>,
}

/// A COPY statement.
#[derive(Debug)]
pub struct CopyStmt {
    /// The table.
    pub table: String,
    /// The columns, in the order in which the rows give them.
    pub columns: Vec<String>,
    /// Rows come in (`COPY ... FROM`) rather than go out.
    pub is_from: bool,
    /// The byte that separates the columns of a row.
    pub delimiter: u8,
    /// The first row names the columns.
    pub headers: bool,
}

/// The kind of a transaction statement.
#[derive(Debug, Clone, Copy, PartialEq, Eq, Structural)]
pub enum TransactionStmtKind {
    Begin,
    Start,
    Commit,
    Rollback,
    Other,
}

/// The first statement of a query.
#[derive(Debug)]
pub enum Statement {
    Select(SelectStmt),
    Copy(CopyStmt),
    Insert,
    Update,
    Delete,
    Transaction(TransactionStmtKind),
    Other,
}

/// What the parser made of a query.
#[derive(Debug)]
pub struct Ast {
    /// The first statement, if the query holds one.
    pub statement: Option<Statement>,
    /// The tables that the query names.
    pub tables: Vec<String>,
}

} // verus!
