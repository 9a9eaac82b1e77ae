use p2p_ft::messages::{QueryBroadcast, QueryInitial, QueryResponse, SearchReply};
use p2p_ft::query::{Query, QueryResult};
use p2p_ft::super_peer::{answer, maintenance_tick, search_request, MyQueryEngine, SentQuery, CACHE_ROUNDS};

fn engine() -> MyQueryEngine {
    let peers = vec!["7001", "0", "7003", "0", "0", "0", "7007"].into_iter().map(String::from).collect();
    MyQueryEngine::new("6000".to_string(), "6500".to_string(), peers)
}

fn query(id: u64, seq: u32, ttl: u32, mess_type: u32) -> Query {
    Query { id, file: "f.txt".to_string(), return_ip: "10.0.0.9:5000".to_string(), seq_num: seq, ttl, mess_type }
}

#[test]
fn receive_numbers_queries() {
    let mut e = engine();
    e.receive(QueryInitial { request: 4, ip_qe: "ret".to_string(), filename: "f".to_string(), mess_type: 0 });
    e.receive(QueryInitial { request: 5, ip_qe: "ret".to_string(), filename: "g".to_string(), mess_type: 1 });
    assert_eq!(e.counter, 2);
    assert_eq!(e.query_list.len(), 2);
    assert_eq!(e.query_list[0].seq_num, 1);
    assert_eq!(e.query_list[1].seq_num, 2);
    assert_eq!(e.query_list[1].ttl, 3);
    assert_eq!(e.query_list[1].mess_type, 1);
    assert_eq!(e.query_list[1].return_ip, "ret");
}

#[test]
fn forward_floods_to_neighbours_once() {
    let mut e = engine();
    let q = query(4, 1, 3, 0);
    let before: Vec<SentQuery> = Vec::new();
    let out = e.forward(&before, &q, "10.0.0.1");
    assert_eq!(out.len(), 3);
    assert_eq!(out[0].dest, "http://10.0.0.1:7001");
    assert_eq!(out[1].dest, "http://10.0.0.1:7003");
    assert_eq!(out[2].dest, "http://10.0.0.1:7007");
    assert_eq!(out[0].message.ttl, 2);
    assert_eq!(out[0].message.return_ip, "10.0.0.1:6500");
    assert_eq!(out[0].message.file, "f.txt");
    assert_eq!(e.sent_query_list.len(), 1);
    assert_eq!(e.sent_query_list[0].return_ip, "10.0.0.9:5000");
    let snapshot: Vec<SentQuery> = e
        .sent_query_list
        .iter()
        .map(|k| SentQuery { id: k.id, seq_num: k.seq_num, return_ip: k.return_ip.clone(), via: k.via.clone() })
        .collect();
    let again = e.forward(&snapshot, &q, "10.0.0.1");
    assert!(again.is_empty());
    assert_eq!(e.sent_query_list.len(), 1);
}

#[test]
fn forward_stops_when_no_hop_is_left() {
    let mut e = engine();
    let out = e.forward(&Vec::new(), &query(4, 1, 1, 0), "10.0.0.1");
    assert!(out.is_empty());
    assert!(e.sent_query_list.is_empty());
}

#[test]
fn broadcast_drops_seen_queries() {
    let mut e = engine();
    e.forward(&Vec::new(), &query(4, 1, 3, 0), "10.0.0.1");
    let b = |seq: u32| QueryBroadcast { id: 4, file: "f".to_string(), return_ip: "other".to_string(), seq_num: seq, ttl: 2, mess_type: 0 };
    e.broadcast(b(1));
    assert!(e.query_list.is_empty());
    e.broadcast(b(2));
    assert_eq!(e.query_list.len(), 1);
    assert_eq!(e.query_list[0].ttl, 2);
}

#[test]
fn answer_search_and_invalidation() {
    let reply = || SearchReply {
        ips: vec!["h1:1".to_string(), "h2:2".to_string()],
        ids: vec![1, 2],
        file: "f.txt".to_string(),
        ips_qe: vec!["q1:1".to_string(), "q2:2".to_string()],
        states: vec![8, 9],
    };
    let d = answer(&query(4, 1, 3, 0), Some(reply()));
    assert_eq!(d.len(), 1);
    assert_eq!(d[0].dest, "http://10.0.0.9:5000");
    assert_eq!(d[0].message.client_list, vec!["h1:1".to_string(), "h2:2".to_string()]);
    assert_eq!(d[0].message.states, vec![8, 9]);
    let d = answer(&query(4, 1, 3, 1), Some(reply()));
    assert_eq!(d.len(), 2);
    assert_eq!(d[1].dest, "http://q2:2");
    assert_eq!(d[1].message.client_list, vec!["".to_string()]);
    assert_eq!(d[1].message.states, vec![0]);
    assert!(answer(&query(4, 1, 3, 0), None).is_empty());
}

#[test]
fn route_answers_back() {
    let mut e = engine();
    e.forward(&Vec::new(), &query(4, 1, 3, 0), "10.0.0.1");
    let r = |seq: u32| QueryResult {
        id: 4,
        file: "f".to_string(),
        return_ip: "x".to_string(),
        client_list: vec![],
        seq_num: seq,
        mess_type: 0,
        states: vec![],
    };
    assert_eq!(e.route(&r(1)), Some("https://10.0.0.9:5000".to_string()));
    assert_eq!(e.route(&r(2)), None);
}

#[test]
fn route_uses_the_key_of_the_same_query() {
    let mut e = engine();
    e.forward(&Vec::new(), &query(4, 1, 3, 0), "h");
    let mut second = query(4, 2, 3, 0);
    second.return_ip = "10.0.0.8:5100".to_string();
    e.forward(&Vec::new(), &second, "h");
    let r = QueryResult {
        id: 4,
        file: "f".to_string(),
        return_ip: "x".to_string(),
        client_list: vec![],
        seq_num: 2,
        mess_type: 0,
        states: vec![],
    };
    assert_eq!(e.route(&r), Some("https://10.0.0.8:5100".to_string()));
}

#[test]
fn responses_are_queued_and_cleared() {
    let mut e = engine();
    e.response(QueryResponse {
        id: 1,
        file: "f".to_string(),
        return_ip: "r".to_string(),
        client_list: vec!["a".to_string()],
        seq_num: 3,
        mess_type: 0,
        states: vec![1],
    });
    assert_eq!(e.query_response.len(), 1);
    assert_eq!(e.query_response[0].seq_num, 3);
    e.clear();
    assert_eq!(e.query_response.len(), 1);
    e.drop_answers();
    assert!(e.query_response.is_empty());
}

#[test]
fn cache_clear_keeps_last() {
    let mut e = engine();
    e.cache_clear();
    assert!(e.sent_query_list.is_empty());
    e.forward(&Vec::new(), &query(1, 1, 3, 0), "h");
    e.forward(&Vec::new(), &query(2, 2, 3, 0), "h");
    e.cache_clear();
    assert_eq!(e.sent_query_list.len(), 1);
    assert_eq!(e.sent_query_list[0].id, 2);
}

#[test]
fn pending_queries_cleared_after_round() {
    let mut e = engine();
    e.receive(QueryInitial { request: 4, ip_qe: "ret".to_string(), filename: "f".to_string(), mess_type: 0 });
    e.clear();
    assert!(e.query_list.is_empty());
    assert_eq!(e.counter, 1);
}

#[test]
fn maintenance_clears_every_cache_rounds() {
    assert_eq!(maintenance_tick(0), (1, false));
    assert_eq!(maintenance_tick(CACHE_ROUNDS - 1), (0, true));
}

#[test]
fn super_peer_read_and_search_request() {
    let e = engine();
    let r = e.response_read();
    assert_eq!(r.ips, vec!["".to_string()]);
    assert_eq!(r.states, vec![0]);
    let s = search_request(&query(4, 1, 3, 0));
    assert_eq!(s.request, 4);
    assert_eq!(s.filename, "f.txt");
    assert_eq!(s.ip_qe, "10.0.0.9:5000");
}

#[test]
fn flooding_stops_after_two_more_hops() {
    let mut first = engine();
    let mut second = engine();
    let mut third = engine();
    let out = first.forward(&Vec::new(), &query(4, 1, 3, 0), "h");
    assert_eq!(out[0].message.ttl, 2);
    let m = &out[0].message;
    let q2 = Query { id: m.id, file: m.file.clone(), return_ip: m.return_ip.clone(), seq_num: m.seq_num, ttl: m.ttl, mess_type: m.mess_type };
    let out2 = second.forward(&Vec::new(), &q2, "h");
    assert_eq!(out2[0].message.ttl, 1);
    let m = &out2[0].message;
    let q3 = Query { id: m.id, file: m.file.clone(), return_ip: m.return_ip.clone(), seq_num: m.seq_num, ttl: m.ttl, mess_type: m.mess_type };
    assert!(third.forward(&Vec::new(), &q3, "h").is_empty());
}
