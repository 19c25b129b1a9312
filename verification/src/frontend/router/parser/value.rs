//! Value extracted from a query.

use super::ast::{AConst, Node, Val};
use crate::frontend::router::sharding::{
    shard_bytes, shard_int, shard_str, spec_shard_int, spec_shard_text,
};
use crate::net::decimal::{parse_i64, spec_parse_i64};
use crate::net::messages::bind::{spec_format, BindView, Format};
use crate::net::messages::Bind;
use vstd::prelude::*;
use vstd::utf8::{encode_utf8, valid_utf8};

verus! {

/// A value extracted from a query.
#[derive(Debug, Clone, Copy, PartialEq)]
pub enum Value<'a> {
    String(&'a str),
    Integer(i64),
    Boolean(bool),
    Null,
    Placeholder(i32),
}

/// A value as a plain value.
pub enum ValueView {
    String(Seq<char>),
    Integer(i64),
    Boolean(bool),
    Null,
    Placeholder(i32),
}

impl<'a> View for Value<'a> {
    type V = ValueView;

    open spec fn view(&self) -> ValueView {
        match self {
            Value::String(s) => ValueView::String(s@),
            Value::Integer(i) => ValueView::Integer(*i),
            Value::Boolean(b) => ValueView::Boolean(*b),
            Value::Null => ValueView::Null,
            Value::Placeholder(n) => ValueView::Placeholder(*n),
        }
    }
}

/// The shard of an integer, or none in a cluster without shards.
pub open spec fn shard_of_int(value: i64, shards: usize) -> Option<usize> {
    if shards == 0 {
        None
    } else {
        Some(spec_shard_int(value as int, shards as int) as usize)
    }
}

/// The shard of a value: that of an integer, or of a string that spells
/// one. Other values have none.
pub open spec fn spec_shard(value: ValueView, shards: usize) -> Option<usize> {
    match value {
        ValueView::String(s) => spec_shard_text(encode_utf8(s), shards as int),
        ValueView::Integer(i) => shard_of_int(i, shards),
        _ => None,
    }
}

/// The shard of the parameter with the given number, `$1` being number 1.
/// The parameter has one where the message holds it, it is not NULL, it is
/// encoded as well-formed text, and the text spells an integer.
pub open spec fn shard_of_parameter(bind: BindView, number: int, shards: usize) -> Option<usize> {
    let index = number - 1;
    if 0 <= index < bind.params.len() && bind.params[index] is Some && spec_format(
        bind.codes,
        index,
    ) == Ok::<Format, crate::net::Error>(Format::Text) && valid_utf8(bind.params[index]->Some_0) {
        spec_shard_text(bind.params[index]->Some_0, shards as int)
    } else {
        None
    }
}

/// The shard of a value that may stand for a parameter.
pub open spec fn spec_shard_placeholder(value: ValueView, bind: BindView, shards: usize) -> Option<
    usize,
> {
    match value {
        ValueView::Placeholder(number) => shard_of_parameter(bind, number as int, shards),
        _ => spec_shard(value, shards),
    }
}

/// The value of a constant: a string that spells an integer counts as
/// that integer, and a constant of a kind not known here as NULL.
pub open spec fn spec_value(c: AConst) -> ValueView {
    if c.isnull {
        ValueView::Null
    } else {
        match c.val {
            Some(Val::Sval(s)) => match spec_parse_i64(encode_utf8(s@)) {
                Some(i) => ValueView::Integer(i as i64),
                None => ValueView::String(s@),
            },
            Some(Val::Boolval(b)) => ValueView::Boolean(b),
            Some(Val::Ival(i)) => ValueView::Integer(i as i64),
            _ => ValueView::Null,
        }
    }
}

/// The value of an expression, where it is a constant or a parameter.
pub open spec fn spec_node_value(node: Node) -> Option<ValueView> {
    match node {
        Node::AConst(c) => Some(spec_value(c)),
        Node::ParamRef(number) => Some(ValueView::Placeholder(number)),
        _ => None,
    }
}

impl<'a> Value<'a> {
    /// Extract value from a Bind (F) message and shard on it.
    pub fn shard_placeholder(&self, bind: &'a Bind, shards: usize) -> (r: Option<usize>)
        ensures
            r == spec_shard_placeholder(self@, bind@, shards),
    {
        match self {
            Value::Placeholder(placeholder) => {
                if *placeholder < 1 {
                    return None;
                }
                let index = (*placeholder - 1) as usize;
                match bind.parameter(index) {
                    Ok(Some(parameter)) => match parameter.text() {
                        Some(_) => shard_bytes(parameter.data(), shards),
                        None => None,
                    },
                    _ => None,
                }
            },
            _ => self.shard(shards),
        }
    }

    /// Shard the value given the number of shards in the cluster.
    pub fn shard(&self, shards: usize) -> (r: Option<usize>)
        ensures
            r == spec_shard(self@, shards),
    {
        match self {
            Value::String(v) => shard_str(v, shards),
            Value::Integer(v) => if shards == 0 {
                None
            } else {
                Some(shard_int(*v, shards))
            },
            _ => None,
        }
    }

    /// The value of a constant.
    pub fn from_const(value: &'a AConst) -> (r: Self)
        ensures
            r@ == spec_value(*value),
    {
        if value.isnull {
            return Value::Null;
        }
        match &value.val {
            Some(Val::Sval(s)) => match parse_i64(s.as_str().as_bytes()) {
                Some(i) => Value::Integer(i),
                None => Value::String(s.as_str()),
            },
            Some(Val::Boolval(b)) => Value::Boolean(*b),
            Some(Val::Ival(i)) => Value::Integer(*i as i64),
            _ => Value::Null,
        }
    }

    /// The value of an expression, where it is a constant or a parameter.
    pub fn try_from_node(value: &'a Node) -> (r: Result<Self, ()>)
        ensures
            match spec_node_value(*value) {
                Some(v) => r matches Ok(x) && x@ == v,
                None => r is Err,
            },
    {
        match value {
            Node::AConst(a_const) => Ok(Value::from_const(a_const)),
            Node::ParamRef(number) => Ok(Value::Placeholder(*number)),
            _ => Err(()),
        }
    }
}

} // verus!
