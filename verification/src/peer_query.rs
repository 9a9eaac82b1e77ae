//! The query engine of a leaf peer: it collects the answers to the peer's
//! queries and the invalidation notices for the copies it holds.

use vstd::prelude::*;
use crate::messages::{QueryReply, QueryResponse};
use crate::names::{copy_names, copy_numbers};
use crate::query::{record_response, result_of, Query, QueryResult};

verus! {

broadcast use vstd::seq_lib::group_filter_ensures;

/// A leaf peer's query engine.
#[derive(Debug)]
pub struct MyQueryEngine {
    pub query_list: Vec<Query>,
    /// Answers and notices received so far.
    pub query_response: Vec<QueryResult>,
    pub files: Vec<(String, Vec<String>)>,
    pub counter: u32,
    pub port: String,
    pub sent_query_list: Vec<(u64, u32)>,
    pub port_peer1: String,
}

/// The result is an invalidation notice.
pub open spec fn is_invalidation() -> spec_fn(QueryResult) -> bool {
    |q: QueryResult| q.mess_type == 1
}

/// The result is not an invalidation notice.
pub open spec fn is_answer() -> spec_fn(QueryResult) -> bool {
    |q: QueryResult| q.mess_type != 1
}

/// `a` and `b` agree on everything but the kept results.
pub open spec fn same_but_results(a: MyQueryEngine, b: MyQueryEngine) -> bool {
    &&& a.query_list == b.query_list
    &&& a.files == b.files
    &&& a.counter == b.counter
    &&& a.port == b.port
    &&& a.sent_query_list == b.sent_query_list
    &&& a.port_peer1 == b.port_peer1
}

impl MyQueryEngine {
    /// An engine that has received nothing.
    pub fn new() -> (e: Self)
        ensures
            e.query_list@.len() == 0,
            e.query_response@.len() == 0,
            e.files@.len() == 0,
            e.counter == 0,
            e.port@.len() == 0,
            e.sent_query_list@.len() == 0,
            e.port_peer1@.len() == 0,
    {
        MyQueryEngine {
            query_list: Vec::new(),
            query_response: Vec::new(),
            files: Vec::new(),
            counter: 0,
            port: String::new(),
            sent_query_list: Vec::new(),
            port_peer1: String::new(),
        }
    }

    /// Keeps an answer or notice that a super-peer sent.
    pub fn response(&mut self, r: QueryResponse)
        ensures
            final(self).query_response@ == old(self).query_response@.push(result_of(r)),
            same_but_results(*old(self), *final(self)),
    {
        let q = record_response(r);
        self.query_response.push(q);
    }

    /// All holders received so far, with their versions: the holder lists
    /// and version lists of the kept results, one after the other.
    pub fn response_read(&self) -> (reply: QueryReply)
        ensures
            reply.ips@ == self.query_response@.map_values(|q: QueryResult| q.client_list@).flatten(),
            reply.states@ == self.query_response@.map_values(|q: QueryResult| q.states@).flatten(),
    {
        let ghost ipsf = |q: QueryResult| q.client_list@;
        let ghost statesf = |q: QueryResult| q.states@;
        let mut ips: Vec<String> = Vec::new();
        let mut states: Vec<u64> = Vec::new();
        let mut i: usize = 0;
        while i < self.query_response.len()
            invariant
                i <= self.query_response@.len(),
                ipsf == (|q: QueryResult| q.client_list@),
                statesf == (|q: QueryResult| q.states@),
                ips@ == self.query_response@.take(i as int).map_values(ipsf).flatten(),
                states@ == self.query_response@.take(i as int).map_values(statesf).flatten(),
            decreases self.query_response@.len() - i,
        {
            let q = &self.query_response[i];
            let mut more_ips = copy_names(&q.client_list);
            let mut more_states = copy_numbers(&q.states);
            ips.append(&mut more_ips);
            states.append(&mut more_states);
            proof {
                let t = self.query_response@.take(i as int);
                assert(self.query_response@.take(i + 1) =~= t.push(*q));
                assert(t.push(*q).map_values(ipsf) =~= t.map_values(ipsf).push(q.client_list@));
                assert(t.push(*q).map_values(statesf) =~= t.map_values(statesf).push(q.states@));
                t.map_values(ipsf).lemma_flatten_push(q.client_list@);
                t.map_values(statesf).lemma_flatten_push(q.states@);
            }
            i = i + 1;
        }
        assert(self.query_response@.take(self.query_response@.len() as int) =~= self.query_response@);
        QueryReply { ips, states }
    }

    /// Takes out the invalidation notices: the names of the invalidated
    /// files, in the order the notices came; the other results stay.
    pub fn check(&mut self) -> (files: Vec<String>)
        ensures
            files@ == old(self).query_response@.filter(is_invalidation()).map_values(
                |q: QueryResult| q.file,
            ),
            final(self).query_response@ == old(self).query_response@.filter(is_answer()),
            same_but_results(*old(self), *final(self)),
    {
        let ghost inv = is_invalidation();
        let ghost ans = is_answer();
        let mut taken: Vec<QueryResult> = Vec::new();
        std::mem::swap(&mut taken, &mut self.query_response);
        let ghost all = taken@;
        let mut files: Vec<String> = Vec::new();
        let mut kept: Vec<QueryResult> = Vec::new();
        for q in it: taken
            invariant
                inv == is_invalidation(),
                ans == is_answer(),
                it.seq() == all,
                files@ == all.take(it.index() as int).filter(inv).map_values(|q: QueryResult| q.file),
                kept@ == all.take(it.index() as int).filter(ans),
        {
            proof {
                let t = all.take(it.index() as int);
                assert(all.take(it.index() + 1) =~= t.push(q));
                t.lemma_filter_push(q, inv);
                t.lemma_filter_push(q, ans);
                if q.mess_type == 1 {
                    assert(t.filter(inv).push(q).map_values(|q: QueryResult| q.file) =~= t.filter(
                        inv,
                    ).map_values(|q: QueryResult| q.file).push(q.file));
                }
            }
            if q.mess_type == 1 {
                files.push(q.file);
            } else {
                kept.push(q);
            }
        }
        assert(all.take(all.len() as int) =~= all);
        self.query_response = kept;
        files
    }

    /// Drops all kept results, before a new query.
    pub fn clear(&mut self)
        ensures
            final(self).query_response@ == Seq::<QueryResult>::empty(),
            same_but_results(*old(self), *final(self)),
    {
        self.query_response.clear();
    }
}

/// After an answer arrives, what the peer reads back ends with the answer's
/// holders and their versions, after everything it had collected before.
pub proof fn law_response_then_read(results: Seq<QueryResult>, r: QueryResponse)
    ensures
        results.push(result_of(r)).map_values(|q: QueryResult| q.client_list@).flatten()
            == results.map_values(|q: QueryResult| q.client_list@).flatten() + r.client_list@,
        results.push(result_of(r)).map_values(|q: QueryResult| q.states@).flatten()
            == results.map_values(|q: QueryResult| q.states@).flatten() + r.states@,
{
    let ipsf = |q: QueryResult| q.client_list@;
    let statesf = |q: QueryResult| q.states@;
    assert(results.push(result_of(r)).map_values(ipsf) =~= results.map_values(ipsf).push(
        r.client_list@,
    ));
    assert(results.push(result_of(r)).map_values(statesf) =~= results.map_values(statesf).push(
        r.states@,
    ));
    results.map_values(ipsf).lemma_flatten_push(r.client_list@);
    results.map_values(statesf).lemma_flatten_push(r.states@);
}

/// The kept results after `start`, then one answer per element of `rs`,
/// received in order.
pub open spec fn after_responses(start: Seq<QueryResult>, rs: Seq<QueryResponse>) -> Seq<QueryResult>
    decreases rs.len(),
{
    if rs.len() == 0 {
        start
    } else {
        after_responses(start, rs.drop_last()).push(result_of(rs.last()))
    }
}

/// After the kept results are cleared and the answers `rs` arrive, what the
/// peer reads back is exactly the holders of those answers, one answer after
/// the other, with their versions; nothing from before the clearing.
pub proof fn law_clear_then_answers(rs: Seq<QueryResponse>)
    ensures
        after_responses(Seq::empty(), rs).map_values(|q: QueryResult| q.client_list@).flatten()
            == rs.map_values(|r: QueryResponse| r.client_list@).flatten(),
        after_responses(Seq::empty(), rs).map_values(|q: QueryResult| q.states@).flatten()
            == rs.map_values(|r: QueryResponse| r.states@).flatten(),
    decreases rs.len(),
{
    if rs.len() == 0 {
        assert(after_responses(Seq::empty(), rs).map_values(|q: QueryResult| q.client_list@) =~= Seq::empty());
        assert(rs.map_values(|r: QueryResponse| r.client_list@) =~= Seq::empty());
        assert(after_responses(Seq::empty(), rs).map_values(|q: QueryResult| q.states@) =~= Seq::empty());
        assert(rs.map_values(|r: QueryResponse| r.states@) =~= Seq::empty());
    } else {
        let rest = rs.drop_last();
        let r = rs.last();
        law_clear_then_answers(rest);
        let before = after_responses(Seq::empty(), rest);
        law_response_then_read(before, r);
        let ipsr = |r: QueryResponse| r.client_list@;
        let statesr = |r: QueryResponse| r.states@;
        assert(rest.push(r) =~= rs);
        assert(rs.map_values(ipsr) =~= rest.map_values(ipsr).push(r.client_list@));
        assert(rs.map_values(statesr) =~= rest.map_values(statesr).push(r.states@));
        rest.map_values(ipsr).lemma_flatten_push(r.client_list@);
        rest.map_values(statesr).lemma_flatten_push(r.states@);
    }
}

/// Taking out the notices twice in a row gives nothing the second time, and
/// leaves the kept results as the first time left them.
pub proof fn law_check_takes_all_notices(results: Seq<QueryResult>)
    ensures
        results.filter(is_answer()).filter(is_invalidation()).len() == 0,
        results.filter(is_answer()).filter(is_answer()) == results.filter(is_answer()),
{
    let kept = results.filter(is_answer());
    assert forall|i: int| 0 <= i < kept.len() implies !is_invalidation()(#[trigger] kept[i]) by {
        results.lemma_filter_pred(is_answer(), i);
    }
    crate::seq_facts::lemma_filter_keeps_none(kept, is_invalidation());
    crate::seq_facts::lemma_filter_idempotent(results, is_answer());
}

} // verus!
