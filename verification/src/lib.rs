//! Verified core of a super-peer file-sharing network: the index that
//! super-peers keep of their leaf peers' files, the query engines that flood
//! and answer file queries between super-peers, the file table that each peer
//! serves, and the peer's own identity and change detection.

pub mod command;
pub mod ftp;
pub mod hashing;
pub mod index;
pub mod messages;
pub mod names;
pub mod order;
pub mod peer;
pub mod peer_query;
pub mod query;
pub mod seq_facts;
pub mod super_peer;
pub mod text;
