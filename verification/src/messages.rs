//! The requests and replies that peers and super-peers exchange, as plain
//! values.

use vstd::prelude::*;

verus! {

/// A leaf peer's registration with its super-peer's index.
#[derive(Debug, Clone)]
pub struct RegisterRequest {
    /// The peer's identifier.
    pub hash: u64,
    /// The digest of the peer's file listing.
    pub state: u64,
    /// The names of the peer's files.
    pub files: Vec<String>,
    /// The address of the peer's file server.
    pub ip: String,
    /// The address of the peer's query engine.
    pub ip_qe: String,
    /// The version digest of each file, in the order of `files`.
    pub file_states: Vec<u64>,
}

/// The peers that a super-peer's index knows to hold a file.
#[derive(Debug, Clone)]
pub struct SearchReply {
    pub ips: Vec<String>,
    pub ids: Vec<u64>,
    pub file: String,
    pub ips_qe: Vec<String>,
    pub states: Vec<u64>,
}

/// A request to a super-peer's index for the holders of a file.
#[derive(Debug, Clone)]
pub struct SearchRequest {
    pub request: u64,
    pub ip_qe: String,
    pub filename: String,
}

/// A query as a leaf peer first hands it to its super-peer.
#[derive(Debug, Clone)]
pub struct QueryInitial {
    /// The identifier of the asking peer.
    pub request: u64,
    /// Where the answer goes.
    pub ip_qe: String,
    pub filename: String,
    /// 0 for a search, 1 for an invalidation.
    pub mess_type: u32,
}

/// A query as one super-peer forwards it to another.
#[derive(Debug, Clone)]
pub struct QueryBroadcast {
    pub id: u64,
    pub file: String,
    pub return_ip: String,
    pub seq_num: u32,
    pub ttl: u32,
    pub mess_type: u32,
}

/// An answer to a query, or an invalidation notice.
#[derive(Debug, Clone)]
pub struct QueryResponse {
    pub id: u64,
    pub file: String,
    pub return_ip: String,
    pub client_list: Vec<String>,
    pub seq_num: u32,
    pub mess_type: u32,
    pub states: Vec<u64>,
}

/// The holders that a peer collected for its last query, with their file
/// versions.
#[derive(Debug, Clone)]
pub struct QueryReply {
    pub ips: Vec<String>,
    pub states: Vec<u64>,
}

/// A file's refresh interval and version, as its server reports them.
#[derive(Debug, Clone)]
pub struct FileStatusReply {
    pub ttr: u64,
    pub state: u64,
}

} // verus!
