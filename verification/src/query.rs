//! Queries and their results as query engines keep them.

use vstd::prelude::*;
use crate::messages::QueryResponse;

verus! {

/// A query waiting to be processed.
#[derive(Debug, Clone)]
pub struct Query {
    /// The identifier of the asking peer.
    pub id: u64,
    pub file: String,
    /// Where the answer goes.
    pub return_ip: String,
    pub seq_num: u32,
    /// How many more super-peers may handle the query.
    pub ttl: u32,
    /// 0 for a search, 1 for an invalidation.
    pub mess_type: u32,
}

/// An answer to a query, or an invalidation notice, as it was received.
#[derive(Debug, Clone)]
pub struct QueryResult {
    pub id: u64,
    pub file: String,
    pub return_ip: String,
    pub client_list: Vec<String>,
    pub seq_num: u32,
    pub mess_type: u32,
    pub states: Vec<u64>,
}

/// The result that records `r`.
pub open spec fn result_of(r: QueryResponse) -> QueryResult {
    QueryResult {
        id: r.id,
        file: r.file,
        return_ip: r.return_ip,
        client_list: r.client_list,
        seq_num: r.seq_num,
        mess_type: r.mess_type,
        states: r.states,
    }
}

/// Records a received answer.
pub fn record_response(r: QueryResponse) -> (q: QueryResult)
    ensures
        q == result_of(r),
{
    QueryResult {
        id: r.id,
        file: r.file,
        return_ip: r.return_ip,
        client_list: r.client_list,
        seq_num: r.seq_num,
        mess_type: r.mess_type,
        states: r.states,
    }
}

} // verus!
