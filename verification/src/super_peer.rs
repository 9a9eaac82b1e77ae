//! The query engine of a super-peer: it numbers the queries of its leaf
//! peers, floods them to neighbouring super-peers with a time to live,
//! answers them from its own index, and routes answers back.

use vstd::prelude::*;
use vstd::string::StrSliceExecFns;
use crate::messages::{QueryBroadcast, QueryInitial, QueryReply, QueryResponse, SearchReply, SearchRequest};
use crate::query::{record_response, result_of, Query, QueryResult};
use crate::text::{host_port, http_scheme, http_url, https_scheme, https_url};

verus! {

broadcast use vstd::seq_lib::group_filter_ensures;

/// The key under which a super-peer remembers a query it forwarded.
#[derive(Debug, Clone)]
pub struct SentQuery {
    pub id: u64,
    pub seq_num: u32,
    /// Where the query's answer goes.
    pub return_ip: String,
    /// Empty for the queries a super-peer forwards itself.
    pub via: String,
}

/// A query to send to a neighbouring super-peer.
#[derive(Debug, Clone)]
pub struct Outgoing {
    /// The neighbour's query engine.
    pub dest: String,
    pub message: QueryBroadcast,
}

/// An answer or invalidation notice to send to a query engine.
#[derive(Debug, Clone)]
pub struct Delivery {
    pub dest: String,
    pub message: QueryResponse,
}

/// A super-peer's query engine.
#[derive(Debug, Clone)]
pub struct MyQueryEngine {
    /// Queries waiting to be processed.
    pub query_list: Vec<Query>,
    /// Answers waiting to be routed back.
    pub query_response: Vec<QueryResult>,
    pub files: Vec<(String, Vec<String>)>,
    /// The queries this super-peer has forwarded.
    pub sent_query_list: Vec<SentQuery>,
    /// The sequence number of the last query of a leaf peer.
    pub counter: u32,
    /// The port of the super-peer's index.
    pub port: String,
    /// The ports of the neighbouring super-peers' query engines; `0` for none.
    pub port_peer1: String,
    pub port_peer2: String,
    pub port_peer3: String,
    pub port_peer4: String,
    pub port_peer5: String,
    pub port_peer6: String,
    pub port_peer7: String,
    /// The port of this query engine.
    pub qe_port: String,
}

/// The text `0`, the port of an absent neighbour.
pub open spec fn zero_port() -> Seq<char> {
    seq!['0']
}

/// The port names a neighbour.
pub open spec fn is_neighbour(p: String) -> bool {
    p@ != zero_port()
}

/// This super-peer already forwarded `q`: its key is in `sent`.
pub open spec fn was_forwarded(sent: Seq<SentQuery>, q: Query) -> bool {
    exists|i: int|
        #![trigger sent[i]]
        0 <= i < sent.len() && sent[i].id == q.id && sent[i].seq_num == q.seq_num
            && sent[i].return_ip@ == q.return_ip@ && sent[i].via@.len() == 0
}

/// Some query with the identifier and sequence number of `id` and `seq` was
/// forwarded.
pub open spec fn seen(sent: Seq<SentQuery>, id: u64, seq: u32) -> bool {
    exists|i: int| #![trigger sent[i]] 0 <= i < sent.len() && sent[i].id == id && sent[i].seq_num == seq
}

/// `sent[i]` is the first key with identifier `id` and sequence number `seq`.
pub open spec fn is_first_match(sent: Seq<SentQuery>, id: u64, seq: u32, i: int) -> bool {
    &&& 0 <= i < sent.len()
    &&& sent[i].id == id
    &&& sent[i].seq_num == seq
    &&& forall|j: int|
        #![trigger sent[j]]
        0 <= j < i ==> !(sent[j].id == id && sent[j].seq_num == seq)
}

/// `o` hands `q` on to the neighbour at `peer`, asking for the answer at
/// this engine's address `local_ip:qe_port`, one hop less to live.
pub open spec fn is_forward_of(o: Outgoing, q: Query, peer: Seq<char>, local_ip: Seq<char>, qe_port: Seq<char>) -> bool {
    &&& o.dest@ == http_scheme() + (local_ip + seq![':'] + peer)
    &&& o.message.id == q.id
    &&& o.message.file == q.file
    &&& o.message.return_ip@ == local_ip + seq![':'] + qe_port
    &&& o.message.seq_num == q.seq_num
    &&& o.message.ttl == q.ttl - 1
    &&& o.message.mess_type == q.mess_type
}

/// The deliveries that answer `q` given what the index found: nothing when
/// the index found no holder; for a search, the holders' addresses and
/// versions to the asker; for an invalidation, a notice to every holder.
pub open spec fn answers(q: Query, found: Option<SearchReply>, d: Seq<Delivery>) -> bool {
    match found {
        None => d.len() == 0,
        Some(reply) => if q.mess_type == 0 {
            &&& d.len() == 1
            &&& d[0].dest@ == http_scheme() + q.return_ip@
            &&& d[0].message == QueryResponse {
                id: q.id,
                file: q.file,
                return_ip: q.return_ip,
                client_list: reply.ips,
                seq_num: q.seq_num,
                mess_type: q.mess_type,
                states: reply.states,
            }
        } else {
            &&& d.len() == reply.ips_qe@.len()
            &&& forall|k: int|
                #![trigger d[k]]
                0 <= k < d.len() ==> {
                    &&& d[k].dest@ == http_scheme() + reply.ips_qe@[k]@
                    &&& d[k].message.id == q.id
                    &&& d[k].message.file == q.file
                    &&& d[k].message.return_ip == q.return_ip
                    &&& d[k].message.client_list@.len() == 1
                    &&& d[k].message.client_list@[0]@.len() == 0
                    &&& d[k].message.states@ == seq![0u64]
                    &&& d[k].message.seq_num == q.seq_num
                    &&& d[k].message.mess_type == q.mess_type
                }
        },
    }
}

/// `a` and `b` have the same configuration: ports and neighbours.
pub open spec fn same_config(a: MyQueryEngine, b: MyQueryEngine) -> bool {
    &&& a.files == b.files
    &&& a.port == b.port
    &&& a.peers() == b.peers()
    &&& a.qe_port == b.qe_port
}

/// Whether `p` is the port `0`.
fn is_zero_port(p: &String) -> (b: bool)
    ensures
        b == (p@ == zero_port()),
{
    let s = p.as_str();
    if s.unicode_len() == 1 && s.get_char(0) == '0' {
        assert(s@ =~= zero_port());
        true
    } else {
        false
    }
}

/// Whether `sent` holds the key of `q`.
fn holds_key(sent: &Vec<SentQuery>, q: &Query) -> (b: bool)
    ensures
        b == was_forwarded(sent@, *q),
{
    let mut i: usize = 0;
    while i < sent.len()
        invariant
            i <= sent@.len(),
            forall|j: int|
                #![trigger sent@[j]]
                0 <= j < i ==> !(sent@[j].id == q.id && sent@[j].seq_num == q.seq_num
                    && sent@[j].return_ip@ == q.return_ip@ && sent@[j].via@.len() == 0),
        decreases sent@.len() - i,
    {
        let k = &sent[i];
        if k.id == q.id && k.seq_num == q.seq_num && k.return_ip == q.return_ip
            && k.via.as_str().is_empty() {
            return true;
        }
        i = i + 1;
    }
    false
}

/// The deliveries that answer `query` given what the local index found for
/// its file (`None` where the search failed).
pub fn answer(query: &Query, found: Option<SearchReply>) -> (d: Vec<Delivery>)
    ensures
        answers(*query, found, d@),
        forall|k: int|
            #![trigger d@[k]]
            0 <= k < d@.len() ==> {
                &&& d@[k].message.id == query.id
                &&& d@[k].message.seq_num == query.seq_num
                &&& d@[k].message.mess_type == query.mess_type
                &&& d@[k].message.file == query.file
                &&& d@[k].message.return_ip == query.return_ip
            },
        query.mess_type == 0 ==> (found matches Some(reply) ==> {
            &&& d@.len() == 1
            &&& d@[0].message.client_list == reply.ips
            &&& d@[0].message.states == reply.states
        }),
{
    match found {
        None => Vec::new(),
        Some(reply) => {
            if query.mess_type == 0 {
                let message = QueryResponse {
                    id: query.id,
                    file: query.file.clone(),
                    return_ip: query.return_ip.clone(),
                    client_list: reply.ips,
                    seq_num: query.seq_num,
                    mess_type: query.mess_type,
                    states: reply.states,
                };
                let mut d: Vec<Delivery> = Vec::new();
                d.push(Delivery { dest: http_url(query.return_ip.as_str()), message });
                d
            } else {
                let mut d: Vec<Delivery> = Vec::new();
                let mut k: usize = 0;
                while k < reply.ips_qe.len()
                    invariant
                        k <= reply.ips_qe@.len(),
                        d@.len() == k,
                        forall|j: int|
                            #![trigger d@[j]]
                            0 <= j < k ==> {
                                &&& d@[j].dest@ == http_scheme() + reply.ips_qe@[j]@
                                &&& d@[j].message.id == query.id
                                &&& d@[j].message.file == query.file
                                &&& d@[j].message.return_ip == query.return_ip
                                &&& d@[j].message.client_list@.len() == 1
                                &&& d@[j].message.client_list@[0]@.len() == 0
                                &&& d@[j].message.states@ == seq![0u64]
                                &&& d@[j].message.seq_num == query.seq_num
                                &&& d@[j].message.mess_type == query.mess_type
                            },
                    decreases reply.ips_qe@.len() - k,
                {
                    let mut client_list: Vec<String> = Vec::new();
                    client_list.push(String::new());
                    let mut states: Vec<u64> = Vec::new();
                    states.push(0);
                    assert(states@ =~= seq![0u64]);
                    let message = QueryResponse {
                        id: query.id,
                        file: query.file.clone(),
                        return_ip: query.return_ip.clone(),
                        client_list,
                        seq_num: query.seq_num,
                        mess_type: query.mess_type,
                        states,
                    };
                    d.push(Delivery { dest: http_url(reply.ips_qe[k].as_str()), message });
                    k = k + 1;
                }
                d
            }
        },
    }
}

impl MyQueryEngine {
    /// The ports of the neighbouring super-peers, in order.
    pub open spec fn peers(self) -> Seq<String> {
        seq![
            self.port_peer1,
            self.port_peer2,
            self.port_peer3,
            self.port_peer4,
            self.port_peer5,
            self.port_peer6,
            self.port_peer7,
        ]
    }

    /// The ports of the neighbours that exist, in order.
    pub open spec fn neighbours(self) -> Seq<String> {
        self.peers().filter(|p: String| is_neighbour(p))
    }

    /// An engine with no queries, for a super-peer whose index listens on
    /// `port` and whose query engine listens on `qe_port`.
    pub fn new(port: String, qe_port: String, peers: Vec<String>) -> (e: Self)
        requires
            peers@.len() == 7,
        ensures
            e.query_list@.len() == 0,
            e.query_response@.len() == 0,
            e.files@.len() == 0,
            e.sent_query_list@.len() == 0,
            e.counter == 0,
            e.port == port,
            e.qe_port == qe_port,
            e.peers() == peers@,
    {
        let ghost all = peers@;
        let mut peers = peers;
        let port_peer7 = peers.pop().unwrap();
        let port_peer6 = peers.pop().unwrap();
        let port_peer5 = peers.pop().unwrap();
        let port_peer4 = peers.pop().unwrap();
        let port_peer3 = peers.pop().unwrap();
        let port_peer2 = peers.pop().unwrap();
        let port_peer1 = peers.pop().unwrap();
        let e = MyQueryEngine {
            query_list: Vec::new(),
            query_response: Vec::new(),
            files: Vec::new(),
            sent_query_list: Vec::new(),
            counter: 0,
            port,
            port_peer1,
            port_peer2,
            port_peer3,
            port_peer4,
            port_peer5,
            port_peer6,
            port_peer7,
            qe_port,
        };
        assert(e.peers() =~= all);
        e
    }

    fn peer_port(&self, i: usize) -> (p: &String)
        requires
            i < 7,
        ensures
            *p == self.peers()[i as int],
    {
        match i {
            0 => &self.port_peer1,
            1 => &self.port_peer2,
            2 => &self.port_peer3,
            3 => &self.port_peer4,
            4 => &self.port_peer5,
            5 => &self.port_peer6,
            _ => &self.port_peer7,
        }
    }

    /// Takes a query of a leaf peer: numbers it with the next sequence number
    /// and queues it with three hops to live.
    pub fn receive(&mut self, request: QueryInitial)
        requires
            old(self).counter < u32::MAX,
        ensures
            final(self).counter == old(self).counter + 1,
            final(self).query_list@ == old(self).query_list@.push(
                Query {
                    id: request.request,
                    file: request.filename,
                    return_ip: request.ip_qe,
                    seq_num: (old(self).counter + 1) as u32,
                    ttl: 3,
                    mess_type: request.mess_type,
                },
            ),
            final(self).query_response == old(self).query_response,
            final(self).sent_query_list == old(self).sent_query_list,
            same_config(*old(self), *final(self)),
    {
        self.counter = self.counter + 1;
        let q = Query {
            id: request.request,
            file: request.filename,
            return_ip: request.ip_qe,
            seq_num: self.counter,
            ttl: 3,
            mess_type: request.mess_type,
        };
        self.query_list.push(q);
    }

    /// Takes a query that a neighbour forwarded: queues it unless a query
    /// with its identifier and sequence number was already forwarded from
    /// here.
    pub fn broadcast(&mut self, request: QueryBroadcast)
        ensures
            seen(old(self).sent_query_list@, request.id, request.seq_num)
                ==> final(self).query_list == old(self).query_list,
            !seen(old(self).sent_query_list@, request.id, request.seq_num)
                ==> final(self).query_list@ == old(self).query_list@.push(
                Query {
                    id: request.id,
                    file: request.file,
                    return_ip: request.return_ip,
                    seq_num: request.seq_num,
                    ttl: request.ttl,
                    mess_type: request.mess_type,
                },
            ),
            (forall|i: int|
                #![trigger old(self).sent_query_list@[i]]
                0 <= i < old(self).sent_query_list@.len() ==> !(old(self).sent_query_list@[i].id
                    == request.id && old(self).sent_query_list@[i].seq_num == request.seq_num))
                ==> final(self).query_list@.len() == old(self).query_list@.len() + 1
                && final(self).query_list@.last().id == request.id
                && final(self).query_list@.last().seq_num == request.seq_num
                && final(self).query_list@.last().mess_type == request.mess_type,
            (exists|i: int|
                #![trigger old(self).sent_query_list@[i]]
                0 <= i < old(self).sent_query_list@.len() && old(self).sent_query_list@[i].id
                    == request.id && old(self).sent_query_list@[i].seq_num == request.seq_num)
                ==> final(self).query_list == old(self).query_list,
            final(self).counter == old(self).counter,
            final(self).query_response == old(self).query_response,
            final(self).sent_query_list == old(self).sent_query_list,
            same_config(*old(self), *final(self)),
    {
        proof {
            law_seen_needs_identifier_and_number(old(self).sent_query_list@, request.id, request.seq_num);
        }
        let mut i: usize = 0;
        while i < self.sent_query_list.len()
            invariant
                i <= self.sent_query_list@.len(),
                forall|j: int|
                    #![trigger self.sent_query_list@[j]]
                    0 <= j < i ==> !(self.sent_query_list@[j].id == request.id
                        && self.sent_query_list@[j].seq_num == request.seq_num),
            decreases self.sent_query_list@.len() - i,
        {
            if self.sent_query_list[i].id == request.id
                && self.sent_query_list[i].seq_num == request.seq_num {
                return;
            }
            i = i + 1;
        }
        self.query_list.push(
            Query {
                id: request.id,
                file: request.file,
                return_ip: request.return_ip,
                seq_num: request.seq_num,
                ttl: request.ttl,
                mess_type: request.mess_type,
            },
        );
    }

    /// Decides whether to flood `query` on, given the keys of the queries
    /// forwarded before this round began: when its key is not among them and
    /// it has a hop left to live, its key is recorded and the result is one
    /// copy per neighbour, which answers to `local_ip:qe_port`.
    pub fn forward(&mut self, sent_before: &Vec<SentQuery>, query: &Query, local_ip: &str) -> (out: Vec<Outgoing>)
        requires
            query.ttl >= 1,
        ensures
            ({
                let fresh = !was_forwarded(sent_before@, *query) && query.ttl > 1;
                let sent = final(self).sent_query_list@;
                &&& fresh ==> {
                    &&& sent.len() == old(self).sent_query_list@.len() + 1
                    &&& sent.drop_last() == old(self).sent_query_list@
                    &&& sent.last().id == query.id
                    &&& sent.last().seq_num == query.seq_num
                    &&& sent.last().return_ip == query.return_ip
                    &&& sent.last().via@.len() == 0
                    &&& out@.len() == old(self).neighbours().len()
                    &&& forall|k: int|
                        #![trigger out@[k]]
                        0 <= k < out@.len() ==> is_forward_of(
                            out@[k],
                            *query,
                            old(self).neighbours()[k]@,
                            local_ip@,
                            old(self).qe_port@,
                        )
                }
                &&& !fresh ==> sent == old(self).sent_query_list@ && out@.len() == 0
            }),
            (forall|i: int|
                #![trigger sent_before@[i]]
                0 <= i < sent_before@.len() ==> !(sent_before@[i].id == query.id
                    && sent_before@[i].seq_num == query.seq_num)) && query.ttl > 1
                ==> out@.len() == old(self).neighbours().len(),
            forall|k: int|
                #![trigger out@[k]]
                0 <= k < out@.len() ==> {
                    &&& out@[k].message.id == query.id
                    &&& out@[k].message.seq_num == query.seq_num
                    &&& out@[k].message.mess_type == query.mess_type
                    &&& out@[k].message.file == query.file
                    &&& out@[k].message.ttl == query.ttl - 1
                },
            final(self).query_list == old(self).query_list,
            final(self).query_response == old(self).query_response,
            final(self).counter == old(self).counter,
            same_config(*old(self), *final(self)),
    {
        proof {
            law_forwarded_key_matches_query(sent_before@, *query);
        }
        let ttl = query.ttl - 1;
        if holds_key(sent_before, query) || ttl == 0 {
            return Vec::new();
        }
        self.sent_query_list.push(
            SentQuery {
                id: query.id,
                seq_num: query.seq_num,
                return_ip: query.return_ip.clone(),
                via: String::new(),
            },
        );
        let return_addr = host_port(local_ip, self.qe_port.as_str());
        let ghost peers = self.peers();
        let ghost active = |p: String| is_neighbour(p);
        let mut out: Vec<Outgoing> = Vec::new();
        let mut k: usize = 0;
        while k < 7
            invariant
                k <= 7,
                peers == self.peers(),
                peers.len() == 7,
                active == (|p: String| is_neighbour(p)),
                return_addr@ == local_ip@ + seq![':'] + self.qe_port@,
                query.ttl >= 2,
                ttl == query.ttl - 1,
                out@.len() == peers.take(k as int).filter(active).len(),
                forall|j: int|
                    #![trigger out@[j]]
                    0 <= j < out@.len() ==> is_forward_of(
                        out@[j],
                        *query,
                        peers.take(k as int).filter(active)[j]@,
                        local_ip@,
                        self.qe_port@,
                    ),
            decreases 7 - k,
        {
            let peer = self.peer_port(k);
            proof {
                assert(peers.take(k + 1) =~= peers.take(k as int).push(peers[k as int]));
                peers.take(k as int).lemma_filter_push(peers[k as int], active);
            }
            if !is_zero_port(peer) {
                let message = QueryBroadcast {
                    id: query.id,
                    file: query.file.clone(),
                    return_ip: return_addr.clone(),
                    seq_num: query.seq_num,
                    ttl,
                    mess_type: query.mess_type,
                };
                let dest = http_url(host_port(local_ip, peer.as_str()).as_str());
                out.push(Outgoing { dest, message });
            }
            k = k + 1;
        }
        assert(peers.take(7) =~= peers);
        out
    }

    /// Clears the pending query list; the answers and the forwarded keys
    /// stay. A processing round ends with this.
    pub fn clear(&mut self)
        ensures
            final(self).query_list@.len() == 0,
            final(self).query_response == old(self).query_response,
            final(self).sent_query_list == old(self).sent_query_list,
            final(self).counter == old(self).counter,
            same_config(*old(self), *final(self)),
    {
        self.query_list.clear();
    }

    /// Queues an answer to route back.
    pub fn response(&mut self, r: QueryResponse)
        ensures
            final(self).query_response@ == old(self).query_response@.push(result_of(r)),
            final(self).query_list == old(self).query_list,
            final(self).sent_query_list == old(self).sent_query_list,
            final(self).counter == old(self).counter,
            same_config(*old(self), *final(self)),
    {
        let q = record_response(r);
        self.query_response.push(q);
    }

    /// Where to send the answer `r` on its way back: the return address of
    /// the first forwarded query with its identifier and sequence number, when
    /// there is one.
    pub fn route(&self, r: &QueryResult) -> (dest: Option<String>)
        ensures
            seen(self.sent_query_list@, r.id, r.seq_num) == (dest is Some),
            dest matches Some(d) ==> exists|i: int|
                is_first_match(self.sent_query_list@, r.id, r.seq_num, i) && d@ == https_scheme()
                    + self.sent_query_list@[i].return_ip@,
            (exists|i: int|
                #![trigger self.sent_query_list@[i]]
                0 <= i < self.sent_query_list@.len() && self.sent_query_list@[i].id == r.id
                    && self.sent_query_list@[i].seq_num == r.seq_num) ==> dest is Some,
            dest matches Some(d) ==> exists|i: int|
                #![trigger self.sent_query_list@[i]]
                0 <= i < self.sent_query_list@.len() && self.sent_query_list@[i].id == r.id
                    && self.sent_query_list@[i].seq_num == r.seq_num && d@ == https_scheme()
                    + self.sent_query_list@[i].return_ip@ && forall|j: int|
                    #![trigger self.sent_query_list@[j]]
                    0 <= j < i ==> !(self.sent_query_list@[j].id == r.id
                        && self.sent_query_list@[j].seq_num == r.seq_num),
    {
        let ghost sent = self.sent_query_list@;
        let mut i: usize = 0;
        while i < self.sent_query_list.len()
            invariant
                sent == self.sent_query_list@,
                i <= self.sent_query_list.len(),
                forall|j: int|
                    #![trigger sent[j]]
                    0 <= j < i ==> !(sent[j].id == r.id && sent[j].seq_num == r.seq_num),
            decreases self.sent_query_list.len() - i,
        {
            if self.sent_query_list[i].id == r.id && self.sent_query_list[i].seq_num == r.seq_num {
                let d = https_url(self.sent_query_list[i].return_ip.as_str());
                proof {
                    let k = i as int;
                    assert(sent[k].id == r.id && sent[k].seq_num == r.seq_num);
                    assert(seen(sent, r.id, r.seq_num));
                    assert(is_first_match(sent, r.id, r.seq_num, k));
                    assert(d@ == https_scheme() + sent[k].return_ip@);
                }
                return Some(d);
            }
            i = i + 1;
        }
        None
    }

    /// Drops the answers that were queued to route back; the pending queries
    /// and the forwarded keys stay. Routing answers back ends with this.
    pub fn drop_answers(&mut self)
        ensures
            final(self).query_response@.len() == 0,
            final(self).query_list == old(self).query_list,
            final(self).sent_query_list == old(self).sent_query_list,
            final(self).counter == old(self).counter,
            same_config(*old(self), *final(self)),
    {
        self.query_response.clear();
    }

    /// Forgets the forwarded queries but the last one.
    pub fn cache_clear(&mut self)
        ensures
            old(self).sent_query_list@.len() == 0 ==> final(self).sent_query_list@.len() == 0,
            old(self).sent_query_list@.len() > 0 ==> final(self).sent_query_list@ == seq![
                old(self).sent_query_list@.last(),
            ],
            final(self).query_list == old(self).query_list,
            final(self).query_response == old(self).query_response,
            final(self).counter == old(self).counter,
            same_config(*old(self), *final(self)),
    {
        let last = self.sent_query_list.pop();
        self.sent_query_list.clear();
        match last {
            Some(x) => {
                self.sent_query_list.push(x);
                assert(self.sent_query_list@ =~= seq![old(self).sent_query_list@.last()]);
            },
            None => {},
        }
    }

    /// What a super-peer's engine answers when asked for collected results:
    /// one empty address with version 0.
    pub fn response_read(&self) -> (reply: QueryReply)
        ensures
            reply.ips@.len() == 1,
            reply.ips@[0]@.len() == 0,
            reply.states@ == seq![0u64],
    {
        let mut ips: Vec<String> = Vec::new();
        ips.push(String::new());
        let mut states: Vec<u64> = Vec::new();
        states.push(0);
        assert(states@ =~= seq![0u64]);
        QueryReply { ips, states }
    }
}

/// The request to the local index for the holders of `query`'s file.
pub fn search_request(query: &Query) -> (req: SearchRequest)
    ensures
        req.request == query.id,
        req.ip_qe == query.return_ip,
        req.filename == query.file,
{
    SearchRequest { request: query.id, ip_qe: query.return_ip.clone(), filename: query.file.clone() }
}


/// How many maintenance rounds pass between two clearings of the forwarded
/// queries.
pub const CACHE_ROUNDS: u32 = 2000;

/// One maintenance round of the super-peer: the round count moves on, and
/// when it reaches `CACHE_ROUNDS` it starts again at 0 and the forwarded
/// queries are to be cleared (`true`).
pub fn maintenance_tick(rounds: u32) -> (r: (u32, bool))
    requires
        rounds < CACHE_ROUNDS,
    ensures
        rounds + 1 == CACHE_ROUNDS ==> r == (0u32, true),
        rounds + 1 < CACHE_ROUNDS ==> r == ((rounds + 1) as u32, false),
        r.0 < CACHE_ROUNDS,
{
    let next = rounds + 1;
    if next == CACHE_ROUNDS {
        (0, true)
    } else {
        (next, false)
    }
}

/// Once a super-peer floods a query, its key is remembered: the next round
/// does not flood it again, a copy that a neighbour echoes back is dropped
/// by `broadcast`, and an answer with its identifier and sequence number is
/// routed back by `route`.
pub proof fn law_flooded_query_is_remembered(before: Seq<SentQuery>, q: Query, after: Seq<SentQuery>)
    requires
        after.len() == before.len() + 1,
        after.drop_last() == before,
        after.last().id == q.id,
        after.last().seq_num == q.seq_num,
        after.last().return_ip == q.return_ip,
        after.last().via@.len() == 0,
    ensures
        was_forwarded(after, q),
        seen(after, q.id, q.seq_num),
        forall|i: int| 0 <= i < before.len() ==> #[trigger] after[i] == before[i],
{
    let k = before.len() as int;
    assert(after[k] == after.last());
    assert forall|i: int| 0 <= i < before.len() implies #[trigger] after[i] == before[i] by {
        assert(after.drop_last()[i] == after[i]);
    }
}



/// A query is held back as already flooded only by a key with its own
/// identifier, sequence number and return address: the keys of the same
/// peer's earlier searches, or of other peers' searches with the same number,
/// do not hold it back.
pub proof fn law_forwarded_key_matches_query(sent: Seq<SentQuery>, q: Query)
    ensures
        was_forwarded(sent, q) ==> exists|i: int|
            #![trigger sent[i]]
            0 <= i < sent.len() && sent[i].id == q.id && sent[i].seq_num == q.seq_num
                && sent[i].return_ip@ == q.return_ip@,
        (forall|i: int|
            #![trigger sent[i]]
            0 <= i < sent.len() ==> !(sent[i].id == q.id && sent[i].seq_num == q.seq_num))
            ==> !was_forwarded(sent, q),
{
}

/// A forwarded query counts as seen, and an answer is routed by a key, only
/// when the key has both the asking peer's identifier and the query's
/// sequence number: another peer's query with the same number does not count.
pub proof fn law_seen_needs_identifier_and_number(sent: Seq<SentQuery>, id: u64, seq: u32)
    ensures
        seen(sent, id, seq) == exists|i: int|
            #![trigger sent[i]]
            0 <= i < sent.len() && sent[i].id == id && sent[i].seq_num == seq,
        forall|i: int|
            #![trigger sent[i]]
            is_first_match(sent, id, seq, i) ==> 0 <= i < sent.len() && sent[i].id == id
                && sent[i].seq_num == seq,
        (forall|i: int| #![trigger sent[i]] 0 <= i < sent.len() ==> sent[i].id != id) ==> !seen(
            sent,
            id,
            seq,
        ),
{
}

/// Every copy that a super-peer floods on is the same query: the same asking
/// peer, sequence number, file and kind (a search stays a search, an
/// invalidation stays an invalidation), with one hop less to live.
pub proof fn law_forwarded_copy_keeps_query(
    o: Outgoing,
    q: Query,
    peer: Seq<char>,
    local_ip: Seq<char>,
    qe_port: Seq<char>,
)
    requires
        is_forward_of(o, q, peer, local_ip, qe_port),
    ensures
        o.message.id == q.id,
        o.message.seq_num == q.seq_num,
        o.message.mess_type == q.mess_type,
        o.message.file == q.file,
        o.message.ttl == q.ttl - 1,
{
}

/// The answer to a search carries the search's identifier and sequence
/// number, so a super-peer that flooded the search (and so holds a key with
/// them) routes the answer back.
pub proof fn law_search_answer_routes_back(
    sent: Seq<SentQuery>,
    q: Query,
    reply: SearchReply,
    d: Seq<Delivery>,
)
    requires
        q.mess_type == 0,
        answers(q, Some(reply), d),
        exists|i: int|
            #![trigger sent[i]]
            0 <= i < sent.len() && sent[i].id == q.id && sent[i].seq_num == q.seq_num,
    ensures
        d.len() == 1,
        result_of(d[0].message).id == q.id,
        result_of(d[0].message).seq_num == q.seq_num,
        seen(sent, result_of(d[0].message).id, result_of(d[0].message).seq_num),
{
}

/// A query that a leaf peer hands its super-peer starts with three hops to
/// live; every super-peer that floods it on hands its neighbours one hop
/// less, and floods only while more than one is left. So a chain of
/// super-peers that each flood the copy they received is at most three long:
/// the leaf's super-peer and two more.
pub proof fn law_flooding_depth(ttls: Seq<u32>)
    requires
        ttls.len() > 0,
        ttls[0] == 3,
        forall|k: int| 0 <= k < ttls.len() - 1 ==> #[trigger] ttls[k] > 1 && ttls[k + 1] == ttls[k] - 1,
    ensures
        ttls.len() <= 3,
{
    assert forall|k: int| 0 <= k < ttls.len() implies #[trigger] ttls[k] == 3 - k by {
        lemma_ttl_at(ttls, k);
    }
    if ttls.len() > 3 {
        assert(ttls[2] > 1);
    }
}

proof fn lemma_ttl_at(ttls: Seq<u32>, k: int)
    requires
        0 <= k < ttls.len(),
        ttls[0] == 3,
        forall|j: int| 0 <= j < ttls.len() - 1 ==> #[trigger] ttls[j] > 1 && ttls[j + 1] == ttls[j] - 1,
    ensures
        ttls[k] == 3 - k,
    decreases k,
{
    if k > 0 {
        lemma_ttl_at(ttls, k - 1);
        assert(ttls[k - 1] > 1);
    }
}

} // verus!
