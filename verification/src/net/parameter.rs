//! Connection parameters as the server reports them at startup.

use crate::net::text::str_eq;
use vstd::prelude::*;

verus! {

/// One startup parameter.
#[derive(Debug, PartialEq, Eq)]
pub struct Parameter {
    /// Parameter name.
    pub name: String,
    /// Parameter value.
    pub value: String,
}

impl View for Parameter {
    type V = (Seq<char>, Seq<char>);

    open spec fn view(&self) -> (Seq<char>, Seq<char>) {
        (self.name@, self.value@)
    }
}

impl Clone for Parameter {
    fn clone(&self) -> (r: Self)
        ensures
            r@ == self@,
    {
        Parameter { name: self.name.clone(), value: self.value.clone() }
    }
}

/// The parameters of a connection, in the order in which they were reported.
#[derive(Debug)]
pub struct Parameters {
    params: Vec<Parameter>,
}

impl View for Parameters {
    type V = Seq<(Seq<char>, Seq<char>)>;

    closed spec fn view(&self) -> Seq<(Seq<char>, Seq<char>)> {
        self.params@.map_values(|p: Parameter| p@)
    }
}

/// The value that was last reported under `name`.
pub open spec fn spec_lookup(params: Seq<(Seq<char>, Seq<char>)>, name: Seq<char>) -> Option<
    Seq<char>,
>
    decreases params.len(),
{
    if params.len() == 0 {
        None
    } else if params.last().0 == name {
        Some(params.last().1)
    } else {
        spec_lookup(params.drop_last(), name)
    }
}

impl Default for Parameters {
    fn default() -> (r: Self)
        ensures
            r@ == Seq::<(Seq<char>, Seq<char>)>::empty(),
    {
        let r = Parameters { params: Vec::new() };
        assert(r@ =~= Seq::<(Seq<char>, Seq<char>)>::empty());
        r
    }
}

impl Parameters {
    /// Records one more parameter.
    pub fn push(&mut self, parameter: Parameter)
        ensures
            final(self)@ == old(self)@.push(parameter@),
    {
        self.params.push(parameter);
        assert(self@ =~= old(self)@.push(parameter@));
    }

    /// How many parameters were recorded.
    pub fn len(&self) -> (n: usize)
        ensures
            n == self@.len(),
    {
        self.params.len()
    }

    /// The value that was last reported under `name`.
    pub fn get(&self, name: &str) -> (r: Option<&String>)
        ensures
            match spec_lookup(self@, name@) {
                Some(v) => r matches Some(s) && s@ == v,
                None => r is None,
            },
    {
        let mut i: usize = self.params.len();
        assert(self@.take(i as int) =~= self@);
        while i > 0
            invariant
                i <= self.params@.len(),
                spec_lookup(self@, name@) == spec_lookup(self@.take(i as int), name@),
            decreases i,
        {
            let ghost prefix = self@.take(i as int);
            assert(prefix.last() == self.params@[i - 1]@);
            assert(prefix.drop_last() =~= self@.take(i - 1));
            if str_eq(self.params[i - 1].name.as_str(), name) {
                return Some(&self.params[i - 1].value);
            }
            i = i - 1;
        }
        assert(self@.take(0) =~= Seq::<(Seq<char>, Seq<char>)>::empty());
        None
    }
}

} // verus!
