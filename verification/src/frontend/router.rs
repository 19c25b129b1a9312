//! Query router.

pub mod copy;
pub mod error;
pub mod parser;
pub mod route;
pub mod sharding;

pub use copy::{CopyParser, CopyRow};
pub use error::Error;
pub use route::Route;

use crate::backend::pool::cluster::Cluster;
use crate::frontend::buffer::{spec_copy_data, spec_parameters, spec_query, Buffer};
use crate::frontend::router::copy::{row_views, shard_all};
use crate::frontend::router::parser::ast::Ast;
use crate::frontend::router::parser::query::{
    spec_command, write_any, Command, CommandView, QueryParser,
};
use crate::frontend::router::route::{Affinity, RouteView, ShardSelector};
use vstd::prelude::*;
use vstd::utf8::encode_utf8;

verus! {

/// Query router.
#[derive(Debug)]
pub struct Router {
    query_parser: QueryParser,
}

impl View for Router {
    type V = CommandView;

    closed spec fn view(&self) -> CommandView {
        self.query_parser@
    }
}

impl Default for Router {
    fn default() -> (r: Self)
        ensures
            r@ == CommandView::Query(
                RouteView {
                    shard: ShardSelector::Any,
                    affinity: Affinity::Unknown,
                    order_by: Seq::empty(),
                },
            ),
    {
        Self::new()
    }
}

impl Router {
    /// Create new router.
    pub fn new() -> (r: Router)
        ensures
            r@ == CommandView::Query(
                RouteView {
                    shard: ShardSelector::Any,
                    affinity: Affinity::Unknown,
                    order_by: Seq::empty(),
                },
            ),
    {
        Self { query_parser: QueryParser::default() }
    }

    /// Route a query to a shard.
    ///
    /// If the router can't determine the route for the query to take,
    /// previous route is preserved. This is useful in case the client
    /// doesn't supply enough information in the buffer, e.g. just issued
    /// a Describe request to a previously submitted Parse.
    pub fn query(
        &mut self,
        buffer: &Buffer,
        cluster: &Cluster,
        ast: Option<&Ast>,
        round_robin: usize,
    ) -> (r: Result<(), Error>)
        ensures
            match spec_query(buffer@) {
                Err(e) => r == Err::<(), Error>(Error::Net(e)) && final(self)@ == old(self)@,
                Ok(None) => r == Err::<(), Error>(Error::NotInSync) && final(self)@ == old(self)@,
                Ok(Some(text)) => match spec_parameters(buffer@) {
                    Err(e) => r == Err::<(), Error>(Error::Net(e)) && final(self)@ == old(self)@,
                    Ok(bind) => match spec_command(
                        encode_utf8(text),
                        cluster@,
                        bind,
                        match ast {
                            Some(a) => Some(*a),
                            None => None,
                        },
                        round_robin,
                    ) {
                        Err(e) => r == Err::<(), Error>(e) && final(self)@ == old(self)@,
                        Ok(command) => r is Ok && final(self)@ == command,
                    },
                },
            },
    {
        match self.query_parser.parse(buffer, cluster, ast, round_robin) {
            Ok(_) => Ok(()),
            Err(e) => Err(e),
        }
    }

    /// Parse CopyData messages and shard them.
    pub fn copy_data(&mut self, buffer: &Buffer) -> (r: Result<Vec<CopyRow>, Error>)
        ensures
            match spec_copy_data(buffer@) {
                Err(e) => r is Err && r->Err_0 == Error::Net(e) && final(self)@ == old(self)@,
                Ok(data) => match old(self)@ {
                    CommandView::Copy(copy) => r matches Ok(out) && row_views(out@) == shard_all(
                        data,
                        copy.headers,
                        copy,
                    ),
                    _ => r is Err && r->Err_0 == Error::NotInSync && final(self)@ == old(self)@,
                },
            },
    {
        match buffer.copy_data() {
            Ok(rows) => self.query_parser.copy_data(rows),
            Err(e) => Err(Error::Net(e)),
        }
    }

    /// The command that the router made of the last request.
    pub fn command(&self) -> (c: &Command)
        ensures
            c@ == self@,
    {
        self.query_parser.command()
    }

    /// Get current route.
    pub fn route(&self) -> (r: Route)
        ensures
            r@ == match self@ {
                CommandView::Query(route) => route,
                _ => write_any(),
            },
    {
        self.query_parser.route()
    }
}

} // verus!
