use p2p_ft::index::{MyGreeter, SearchError};
use p2p_ft::messages::RegisterRequest;

fn req(hash: u64, files: &[&str], states: &[u64], port: &str) -> RegisterRequest {
    RegisterRequest {
        hash,
        state: 7,
        files: files.iter().map(|f| f.to_string()).collect(),
        ip: format!("10.0.0.1:{}", port),
        ip_qe: format!("10.0.0.1:{}9", port),
        file_states: states.to_vec(),
    }
}

#[test]
fn register_then_search_finds_holders_in_order() {
    let mut g = MyGreeter::new("6000".to_string());
    g.register(req(1, &["a.txt", "b.txt"], &[11, 12], "5001"));
    g.register(req(2, &["b.txt"], &[22], "5002"));
    assert_eq!(g.client_list.len(), 2);
    assert_eq!(g.file_list.len(), 3);
    let r = g.search(&"b.txt".to_string()).unwrap();
    assert_eq!(r.ips, vec!["10.0.0.1:5001".to_string(), "10.0.0.1:5002".to_string()]);
    assert_eq!(r.ids, vec![1, 2]);
    assert_eq!(r.file, "b.txt");
    assert_eq!(r.ips_qe, vec!["10.0.0.1:50019".to_string(), "10.0.0.1:50029".to_string()]);
    assert_eq!(r.states, vec![12, 22]);
    assert_eq!(g.list_files(), vec!["a.txt", "b.txt"]);
}

#[test]
fn search_for_unknown_file_fails() {
    let mut g = MyGreeter::new("6000".to_string());
    g.register(req(1, &["a.txt"], &[1], "5001"));
    assert!(matches!(g.search(&"zzz".to_string()), Err(SearchError::FileNotFound)));
    let empty = MyGreeter::new("6000".to_string());
    assert!(matches!(empty.search(&"a.txt".to_string()), Err(SearchError::FileNotFound)));
}

#[test]
fn list_files_is_sorted_and_unique() {
    let mut g = MyGreeter::new("6000".to_string());
    g.register(req(1, &["c", "a", "b"], &[1, 2, 3], "5001"));
    g.register(req(2, &["b", "a", "Z"], &[4, 5, 6], "5002"));
    assert_eq!(g.list_files(), vec!["Z", "a", "b", "c"]);
    assert_eq!(MyGreeter::new("1".to_string()).list_files(), Vec::<String>::new());
}

#[test]
fn deregister_removes_peer_and_its_files() {
    let mut g = MyGreeter::new("6000".to_string());
    g.register(req(1, &["a.txt", "b.txt"], &[11, 12], "5001"));
    g.register(req(2, &["b.txt"], &[22], "5002"));
    g.deregister(1);
    assert_eq!(g.client_list.len(), 1);
    assert_eq!(g.client_list[0].id, 2);
    assert_eq!(g.file_list.len(), 1);
    assert!(g.search(&"a.txt".to_string()).is_err());
    assert_eq!(g.search(&"b.txt".to_string()).unwrap().ids, vec![2]);
}

#[test]
fn register_then_deregister_restores_index() {
    let mut g = MyGreeter::new("6000".to_string());
    g.register(req(1, &["a.txt"], &[11], "5001"));
    let files_before: Vec<(u64, String)> = g.file_list.iter().map(|e| (e.id, e.file.clone())).collect();
    g.register(req(9, &["x", "y"], &[1, 2], "5009"));
    g.deregister(9);
    let files_after: Vec<(u64, String)> = g.file_list.iter().map(|e| (e.id, e.file.clone())).collect();
    assert_eq!(files_before, files_after);
    assert_eq!(g.client_list.len(), 1);
}

#[test]
fn register_ignores_extra_file_states() {
    let mut g = MyGreeter::new("6000".to_string());
    g.register(req(3, &["only"], &[5, 6, 7], "5003"));
    assert_eq!(g.file_list.len(), 1);
    assert_eq!(g.file_list[0].state, 5);
}
