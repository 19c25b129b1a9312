//! ORDER BY clauses.

use vstd::prelude::*;

verus! {

/// One clause of an ORDER BY: a column by its position, counted from 1 as
/// in SQL, or by its name, ascending or descending.
#[derive(Debug, PartialEq, Eq)]
pub enum OrderBy {
    Asc(usize),
    Desc(usize),
    AscColumn(String),
    DescColumn(String),
}

/// An ORDER BY clause as a plain value.
pub enum OrderByView {
    Asc(usize),
    Desc(usize),
    AscColumn(Seq<char>),
    DescColumn(Seq<char>),
}

impl View for OrderBy {
    type V = OrderByView;

    open spec fn view(&self) -> OrderByView {
        match self {
            OrderBy::Asc(i) => OrderByView::Asc(*i),
            OrderBy::Desc(i) => OrderByView::Desc(*i),
            OrderBy::AscColumn(name) => OrderByView::AscColumn(name@),
            OrderBy::DescColumn(name) => OrderByView::DescColumn(name@),
        }
    }
}

impl OrderByView {
    /// Whether the clause sorts ascending.
    pub open spec fn asc(self) -> bool {
        self is Asc || self is AscColumn
    }

    /// The position of the column, counted from 0, for a clause that gives
    /// a position of at least 1.
    pub open spec fn index(self) -> Option<usize> {
        match self {
            OrderByView::Asc(i) | OrderByView::Desc(i) => if i >= 1 {
                Some((i - 1) as usize)
            } else {
                None
            },
            _ => None,
        }
    }

    /// The name of the column, for a clause that gives a name.
    pub open spec fn name(self) -> Option<Seq<char>> {
        match self {
            OrderByView::AscColumn(name) | OrderByView::DescColumn(name) => Some(name),
            _ => None,
        }
    }
}

impl Clone for OrderBy {
    fn clone(&self) -> (r: Self)
        ensures
            r@ == self@,
    {
        match self {
            OrderBy::Asc(i) => OrderBy::Asc(*i),
            OrderBy::Desc(i) => OrderBy::Desc(*i),
            OrderBy::AscColumn(name) => OrderBy::AscColumn(name.clone()),
            OrderBy::DescColumn(name) => OrderBy::DescColumn(name.clone()),
        }
    }
}

impl OrderBy {
    /// ORDER BY x ASC
    pub fn asc(&self) -> (b: bool)
        ensures
            b == self@.asc(),
    {
        match self {
            OrderBy::Asc(_) | OrderBy::AscColumn(_) => true,
            _ => false,
        }
    }

    /// Column index, counted from 0.
    pub fn index(&self) -> (r: Option<usize>)
        ensures
            r == self@.index(),
    {
        match self {
            OrderBy::Asc(i) | OrderBy::Desc(i) => if *i >= 1 {
                Some(*i - 1)
            } else {
                None
            },
            _ => None,
        }
    }

    /// Column name.
    pub fn name(&self) -> (r: Option<&str>)
        ensures
            match self@.name() {
                Some(name) => r matches Some(s) && s@ == name,
                None => r is None,
            },
    {
        match self {
            OrderBy::AscColumn(name) | OrderBy::DescColumn(name) => Some(name.as_str()),
            _ => None,
        }
    }
}

} // verus!
