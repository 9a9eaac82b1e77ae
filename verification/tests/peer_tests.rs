use p2p_ft::hashing::calculate_hash;
use p2p_ft::messages::QueryResponse;
use p2p_ft::peer::{downloaded, merge_listing, Client};
use p2p_ft::peer_query::MyQueryEngine;

fn peer() -> Client {
    let files = vec!["a".to_string(), "b".to_string()];
    let contents = vec![b"A".to_vec(), b"B".to_vec()];
    Client::new("mac".to_string(), "/x/y/sp/p1", files, &contents, "10.0.0.7")
}

#[test]
fn new_peer_identity_and_addresses() {
    let c = peer();
    assert_eq!(c.dir, "sp/p1");
    assert_eq!(c.ip_sp, "10.0.0.7");
    assert!(c.ip.starts_with("10.0.0.7:"));
    let p1: u32 = c.ip["10.0.0.7:".len()..].parse().unwrap();
    assert!((20000..65000).contains(&p1));
    let p2: u32 = c.port.parse().unwrap();
    assert!((20000..65000).contains(&p2));
    assert_eq!(c.ip_qe, format!("10.0.0.7:{}", p2));
    assert_eq!(c.state, calculate_hash(&vec!["a".to_string(), "b".to_string()]));
    assert_eq!(c.file_states, vec![("a".to_string(), calculate_hash(&b"A".to_vec())), ("b".to_string(), calculate_hash(&b"B".to_vec()))]);
}

#[test]
fn set_addresses_from_config() {
    let mut c = peer();
    c.set_addresses("10.0.0.7", "7000", "7500", "6000");
    assert_eq!(c.ip, "10.0.0.7:7000");
    assert_eq!(c.ip_qe, "10.0.0.7:7500");
    assert_eq!(c.ip_sp, "10.0.0.7:6000");
}

#[test]
fn listing_change_is_reported_once() {
    let mut c = peer();
    assert!(!c.refresh_listing(vec!["a".to_string(), "b".to_string()]));
    let more = vec!["a".to_string(), "b".to_string(), "c".to_string()];
    assert!(c.refresh_listing(more.clone()));
    assert_eq!(c.files, more);
    assert!(!c.refresh_listing(more));
}

#[test]
fn changed_files_and_recorded_states() {
    let mut c = peer();
    let now = vec![b"A".to_vec(), b"B2".to_vec()];
    let changed = c.changed_files(&now);
    assert_eq!(changed, vec![("b".to_string(), calculate_hash(&b"B2".to_vec()))]);
    c.record_file_state("b".to_string(), changed[0].1);
    assert_eq!(c.file_states.len(), 2);
    assert_eq!(c.file_states[1], ("b".to_string(), calculate_hash(&b"B2".to_vec())));
    assert!(c.changed_files(&now).is_empty());
}

#[test]
fn change_detection_over_all_changed_files() {
    let files = vec!["a".to_string(), "b".to_string(), "c".to_string()];
    let contents = vec![b"A".to_vec(), b"B".to_vec(), b"C".to_vec()];
    let mut c = Client::new("mac".to_string(), "/x/y", files, &contents, "h");
    let now = vec![b"A2".to_vec(), b"B".to_vec(), b"C2".to_vec()];
    let changed = c.changed_files(&now);
    assert_eq!(changed.iter().map(|e| e.0.clone()).collect::<Vec<_>>(), vec!["a", "c"]);
    c.apply_file_changes(&changed);
    let names: Vec<String> = c.file_states.iter().map(|e| e.0.clone()).collect();
    assert_eq!(names, vec!["b", "a", "c"]);
    assert_eq!(c.file_states[1].1, calculate_hash(&b"A2".to_vec()));
    assert_eq!(c.file_states[2].1, calculate_hash(&b"C2".to_vec()));
    let reordered = vec![b"B".to_vec(), b"A2".to_vec(), b"C2".to_vec()];
    assert!(c.changed_files(&reordered).is_empty());
}

#[test]
fn registration_and_query_requests() {
    let c = peer();
    let r = c.registration(&vec!["a".to_string(), "c".to_string(), "d".to_string()]);
    assert_eq!(r.hash, c.id);
    assert_eq!(r.files, vec!["a".to_string(), "b".to_string()]);
    let unit = calculate_hash(&());
    assert_eq!(r.file_states, vec![unit, unit, unit]);
    let q = c.query_request("z".to_string(), 1);
    assert_eq!(q.request, c.id);
    assert_eq!(q.ip_qe, c.ip_qe);
    assert_eq!(q.mess_type, 1);
}

#[test]
fn merged_listing_is_sorted() {
    let all = merge_listing(vec!["b".to_string(), "a".to_string()], vec!["c".to_string(), "a".to_string()]);
    assert_eq!(all, vec!["a", "a", "b", "c"]);
}

#[test]
fn downloaded_record_expiry() {
    let r = downloaded("f".to_string(), "ip".to_string(), 10, 0, 2, 100);
    assert_eq!(r.expire_time, 110);
    let r = downloaded("f".to_string(), "ip".to_string(), 10, 50, 2, 100);
    assert_eq!(r.expire_time, 50);
}

fn resp(file: &str, mess_type: u32, ips: &[&str], states: &[u64]) -> QueryResponse {
    QueryResponse {
        id: 1,
        file: file.to_string(),
        return_ip: "r".to_string(),
        client_list: ips.iter().map(|s| s.to_string()).collect(),
        seq_num: 1,
        mess_type,
        states: states.to_vec(),
    }
}

#[test]
fn peer_engine_collects_answers_and_notices() {
    let mut e = MyQueryEngine::new();
    e.response(resp("a", 0, &["h1", "h2"], &[1, 2]));
    e.response(resp("b", 1, &[""], &[0]));
    e.response(resp("a", 0, &["h3"], &[3]));
    let r = e.response_read();
    assert_eq!(r.ips, vec!["h1", "h2", "", "h3"]);
    assert_eq!(r.states, vec![1, 2, 0, 3]);
    assert_eq!(e.check(), vec!["b".to_string()]);
    assert!(e.check().is_empty());
    assert_eq!(e.response_read().ips, vec!["h1", "h2", "h3"]);
    e.clear();
    assert!(e.response_read().ips.is_empty());
}

#[test]
fn clear_then_answers_reads_back_their_concatenation() {
    let mut e = MyQueryEngine::new();
    e.response(resp("old", 0, &["stale"], &[9]));
    e.clear();
    e.response(resp("a", 0, &["h1"], &[1]));
    e.response(resp("a", 0, &[], &[]));
    e.response(resp("a", 0, &["h2", "h3"], &[2, 3]));
    let r = e.response_read();
    assert_eq!(r.ips, vec!["h1", "h2", "h3"]);
    assert_eq!(r.states, vec![1, 2, 3]);
}
