//! Server address.

use vstd::prelude::*;

verus! {

/// What identifies a pool: the server and the database on it, and the user
/// who connects.
#[derive(Debug, PartialEq, Eq, Hash)]
pub struct Address {
    /// Server host.
    pub host: String,
    /// Server port.
    pub port: u16,
    /// PostgreSQL database name.
    pub database_name: String,
    /// Username.
    pub user: String,
}

/// An address as a plain value.
pub struct AddressView {
    pub host: Seq<char>,
    pub port: u16,
    pub database_name: Seq<char>,
    pub user: Seq<char>,
}

impl View for Address {
    type V = AddressView;

    open spec fn view(&self) -> AddressView {
        AddressView {
            host: self.host@,
            port: self.port,
            database_name: self.database_name@,
            user: self.user@,
        }
    }
}

impl Clone for Address {
    fn clone(&self) -> (r: Self)
        ensures
            r@ == self@,
    {
        Address {
            host: self.host.clone(),
            port: self.port,
            database_name: self.database_name.clone(),
            user: self.user.clone(),
        }
    }
}

} // verus!
