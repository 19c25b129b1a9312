//! WHERE clause of a statement.

use super::ast::{Condition, Node};
use super::value::{spec_value, Value, ValueView};
use crate::net::text::str_eq;
use vstd::prelude::*;

verus! {

/// A value that a column is compared to, as far as it can decide a shard.
#[derive(Debug, PartialEq, Eq)]
pub enum Key {
    /// An integer constant.
    Integer(i64),
    /// A string constant.
    Text(String),
    /// The parameter at this position of a Bind message, counted from 0.
    Parameter(usize),
}

/// A key as a plain value.
pub enum KeyView {
    Integer(i64),
    Text(Seq<char>),
    Parameter(usize),
}

impl View for Key {
    type V = KeyView;

    open spec fn view(&self) -> KeyView {
        match self {
            Key::Integer(i) => KeyView::Integer(*i),
            Key::Text(s) => KeyView::Text(s@),
            Key::Parameter(p) => KeyView::Parameter(*p),
        }
    }
}

/// Keys as plain values.
pub open spec fn key_views(keys: Seq<Key>) -> Seq<KeyView> {
    keys.map_values(|k: Key| k@)
}

/// The key that an expression gives: an integer or string constant, or a
/// parameter with a number of at least 1.
pub open spec fn key_of(node: Node) -> Option<KeyView> {
    match node {
        Node::AConst(c) => match spec_value(c) {
            ValueView::Integer(i) => Some(KeyView::Integer(i)),
            ValueView::String(s) => Some(KeyView::Text(s)),
            _ => None,
        },
        Node::ParamRef(number) => if number >= 1 {
            Some(KeyView::Parameter((number - 1) as usize))
        } else {
            None
        },
        _ => None,
    }
}

/// Whether a column of a condition is the column of a table: the names of
/// the columns are the same, and so are those of the tables where both are
/// given.
pub open spec fn is_column(
    qualifier: Option<String>,
    name: String,
    table: Option<Seq<char>>,
    column: Seq<char>,
) -> bool {
    name@ == column && match (qualifier, table) {
        (Some(q), Some(t)) => q@ == t,
        _ => true,
    }
}

/// The keys that a condition gives for a column of a table: the values
/// that the column is required to equal, from left to right.
pub open spec fn spec_keys(cond: Condition, table: Option<Seq<char>>, column: Seq<char>) -> Seq<
    KeyView,
>
    decreases cond,
{
    match cond {
        Condition::And(left, right) => spec_keys(*left, table, column) + spec_keys(
            *right,
            table,
            column,
        ),
        Condition::Equals { table: qualifier, column: name, value } => if is_column(
            qualifier,
            name,
            table,
            column,
        ) {
            match key_of(value) {
                Some(k) => seq![k],
                None => Seq::empty(),
            }
        } else {
            Seq::empty()
        },
        Condition::Other => Seq::empty(),
    }
}

/// WHERE clause of a statement.
#[derive(Debug)]
pub struct WhereClause<'a> {
    condition: &'a Condition,
}

impl<'a> WhereClause<'a> {
    /// The condition of the clause.
    pub closed spec fn condition(self) -> Condition {
        *self.condition
    }

    /// The WHERE clause of a statement, if it has one.
    pub fn new(where_clause: &'a Option<Condition>) -> (r: Option<Self>)
        ensures
            match *where_clause {
                Some(c) => r matches Some(w) && w.condition() == c,
                None => r is None,
            },
    {
        match where_clause {
            Some(condition) => Some(WhereClause { condition }),
            None => None,
        }
    }

    /// The keys that the clause gives for a column of a table.
    pub fn keys(&self, table_name: Option<&str>, column_name: &str) -> (r: Vec<Key>)
        ensures
            key_views(r@) == spec_keys(
                self.condition(),
                match table_name {
                    Some(t) => Some(t@),
                    None => None,
                },
                column_name@,
            ),
    {
        let mut keys: Vec<Key> = Vec::new();
        assert(key_views(keys@) =~= Seq::<KeyView>::empty());
        collect(self.condition, table_name, column_name, &mut keys);
        assert(Seq::<KeyView>::empty() + key_views(keys@) =~= key_views(keys@));
        keys
    }
}

/// Adds the keys of a condition to those that were found before.
pub fn collect(cond: &Condition, table_name: Option<&str>, column_name: &str, keys: &mut Vec<Key>)
    ensures
        key_views(final(keys)@) == key_views(old(keys)@) + spec_keys(
            *cond,
            match table_name {
                Some(t) => Some(t@),
                None => None,
            },
            column_name@,
        ),
    decreases cond,
{
    let ghost table = match table_name {
        Some(t) => Some(t@),
        None => None,
    };
    let ghost before = key_views(keys@);
    match cond {
        Condition::And(left, right) => {
            collect(left, table_name, column_name, keys);
            collect(right, table_name, column_name, keys);
            assert((before + spec_keys(**left, table, column_name@)) + spec_keys(
                **right,
                table,
                column_name@,
            ) =~= before + spec_keys(*cond, table, column_name@));
        },
        Condition::Equals { table: qualifier, column: name, value } => {
            let same_table = match (qualifier, table_name) {
                (Some(q), Some(t)) => str_eq(q.as_str(), t),
                _ => true,
            };
            if str_eq(name.as_str(), column_name) && same_table {
                let key = match value {
                    Node::AConst(c) => match Value::from_const(c) {
                        Value::Integer(i) => Some(Key::Integer(i)),
                        Value::String(s) => Some(Key::Text(s.to_owned())),
                        _ => None,
                    },
                    Node::ParamRef(number) => if *number >= 1 {
                        Some(Key::Parameter((*number - 1) as usize))
                    } else {
                        None
                    },
                    _ => None,
                };
                match key {
                    Some(k) => {
                        let ghost kv = k@;
                        keys.push(k);
                        assert(key_views(keys@) =~= before + seq![kv]);
                    },
                    None => {
                        assert(key_views(keys@) =~= before + Seq::<KeyView>::empty());
                    },
                }
            } else {
                assert(key_views(keys@) =~= before + Seq::<KeyView>::empty());
            }
        },
        Condition::Other => {
            assert(key_views(keys@) =~= before + Seq::<KeyView>::empty());
        },
    }
}

} // verus!
